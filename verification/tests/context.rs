use matea_switcher::context::{is_word_boundary_char, WordBuffer, WordHistory};

#[test]
fn buffer_basic_push_take() {
    let mut b = WordBuffer::default();
    b.push('h', "us", 35);
    b.push('i', "us", 23);
    assert_eq!(b.as_str(), "hi");
    assert_eq!(b.layout(), Some("us"));
    let t = b.take();
    assert_eq!(t.word, "hi");
    assert_eq!(t.layout, "us");
    assert_eq!(t.keycodes, vec![35, 23]);
    assert!(b.is_empty());
}

#[test]
fn buffer_unicode_pop() {
    let mut b = WordBuffer::default();
    b.push('п', "ru", 34);
    b.push('р', "ru", 35);
    b.push('и', "ru", 48);
    assert_eq!(b.len(), 3);
    let popped = b.pop();
    assert_eq!(popped, Some('и'));
    assert_eq!(b.as_str(), "пр");
}

#[test]
fn buffer_pop_until_empty_clears_layout() {
    let mut b = WordBuffer::default();
    b.push('a', "us", 30);
    assert_eq!(b.layout(), Some("us"));
    b.pop();
    assert_eq!(b.layout(), None);
}

#[test]
fn boundary_chars() {
    assert!(is_word_boundary_char(' '));
    assert!(is_word_boundary_char('\n'));
    assert!(is_word_boundary_char('.'));
    assert!(is_word_boundary_char(','));
    assert!(!is_word_boundary_char('a'));
    assert!(!is_word_boundary_char('п'));
    assert!(!is_word_boundary_char('-'));
    assert!(!is_word_boundary_char('\''));
}

#[test]
fn all_boundary_signs() {
    for c in ".,;:!?()[]{}<>\"`|\\/@#$%^&*+=~".chars() {
        assert!(is_word_boundary_char(c), "{c}");
    }
    for c in "_-'0aZёЯ№—«".chars() {
        assert!(!is_word_boundary_char(c), "{c}");
    }
}

#[test]
fn white_space_is_the_unicode_property() {
    let spaces = [
        0x9, 0xa, 0xb, 0xc, 0xd, 0x20, 0x85, 0xa0, 0x1680, 0x2000, 0x2001, 0x2002, 0x2003, 0x2004,
        0x2005, 0x2006, 0x2007, 0x2008, 0x2009, 0x200a, 0x2028, 0x2029, 0x202f, 0x205f, 0x3000u32,
    ];
    for n in 0..=0x10ffffu32 {
        if let Some(c) = char::from_u32(n) {
            if n >= 0x80 || c.is_alphanumeric() {
                assert_eq!(is_word_boundary_char(c), spaces.contains(&n), "{n:x}");
            }
        }
    }
    assert!(is_word_boundary_char('\t'));
}

#[test]
fn pop_of_an_empty_buffer_gives_nothing() {
    let mut b = WordBuffer::default();
    assert_eq!(b.pop(), None);
    assert!(b.is_empty());
    assert_eq!(b.len(), 0);
    let t = b.take();
    assert_eq!(t.word, "");
    assert_eq!(t.layout, "");
    assert!(t.keycodes.is_empty());
}

#[test]
fn the_first_character_fixes_the_layout() {
    let mut b = WordBuffer::default();
    b.push('g', "us", 34);
    b.push('р', "ru", 35);
    assert_eq!(b.layout(), Some("us"));
    let t = b.take();
    assert_eq!(t.word, "gр");
    assert_eq!(t.layout, "us");
    b.push('р', "ru", 35);
    assert_eq!(b.layout(), Some("ru"));
}

#[test]
fn pop_undoes_push() {
    let mut b = WordBuffer::default();
    b.push('a', "us", 30);
    b.push('ы', "ru", 31);
    assert_eq!(b.pop(), Some('ы'));
    let t = b.take();
    assert_eq!(t.word, "a");
    assert_eq!(t.layout, "us");
    assert_eq!(t.keycodes, vec![30]);
}

#[test]
fn history_keeps_the_last_words() {
    let mut h = WordHistory::new(3);
    assert!(h.recent().is_empty());
    for w in ["один", "два", "three", "four", "пять"] {
        h.push(w.to_string());
    }
    assert_eq!(h.recent(), vec!["three", "four", "пять"]);
}

#[test]
fn history_of_no_words_stays_empty() {
    let mut h = WordHistory::new(0);
    h.push("word".to_string());
    assert!(h.recent().is_empty());
}
