use matea_switcher::classifier::{
    lookups, ClassifyInput, DictClassifier, Dictionary, Lang, Verdict,
};

fn words(list: &[&str]) -> Vec<String> {
    list.iter().map(|s| s.to_string()).collect()
}

fn dict() -> DictClassifier {
    DictClassifier::new(
        Dictionary::new(words(&["hello", "world", "ye", "good", "weather", "today"])),
        Dictionary::new(words(&["привет", "ну", "но", "сегодня", "хорошо", "погода", "тут"])),
    )
}

fn check(d: &DictClassifier, word: &str, layout: &str) -> Verdict {
    check_with_context(d, word, layout, &[])
}

fn check_with_context(d: &DictClassifier, word: &str, layout: &str, recent: &[&str]) -> Verdict {
    let recent = words(recent);
    d.classify(&ClassifyInput {
        word,
        active_layout: layout,
        recent_words: &recent,
        window_class: None,
    })
}

#[test]
fn classify_valid_english_in_us() {
    assert_eq!(check(&dict(), "hello", "us"), Verdict::Keep);
}

#[test]
fn classify_russian_typed_on_us_should_flip() {
    assert_eq!(check(&dict(), "ghbdtn", "us"), Verdict::Flip);
}

#[test]
fn classify_english_typed_on_ru_should_flip() {
    assert_eq!(check(&dict(), "руддщ", "ru"), Verdict::Flip);
}

#[test]
fn classify_valid_russian_in_ru() {
    assert_eq!(check(&dict(), "привет", "ru"), Verdict::Keep);
}

#[test]
fn classify_short_word_uncertain() {
    assert_eq!(check(&dict(), "a", "us"), Verdict::Uncertain);
}

#[test]
fn classify_garbage_uncertain() {
    assert_eq!(check(&dict(), "xqzkpw", "us"), Verdict::Uncertain);
}

#[test]
fn rule_pure_digits_keep() {
    let d = dict();
    assert_eq!(check(&d, "80663422514", "us"), Verdict::Keep);
    assert_eq!(check(&d, "42", "us"), Verdict::Keep);
    assert_eq!(check(&d, "2026", "ru"), Verdict::Keep);
}

#[test]
fn rule_alphanumeric_keep() {
    let d = dict();
    assert_eq!(check(&d, "i7", "us"), Verdict::Keep);
    assert_eq!(check(&d, "2nd", "us"), Verdict::Keep);
    assert_eq!(check(&d, "KEY_A", "us"), Verdict::Keep);
}

#[test]
fn rule_url_path_keep() {
    let d = dict();
    assert_eq!(check(&d, "user@host.com", "us"), Verdict::Keep);
    assert_eq!(check(&d, "example.com", "us"), Verdict::Keep);
    assert_eq!(check(&d, "/usr/bin", "us"), Verdict::Keep);
    assert_eq!(check(&d, "C:\\Windows", "us"), Verdict::Keep);
}

#[test]
fn rule_mixed_scripts_keep() {
    let d = dict();
    assert_eq!(check(&d, "Telegram-чат", "ru"), Verdict::Keep);
    assert_eq!(check(&d, "macбук", "ru"), Verdict::Keep);
}

#[test]
fn rule_capitalized_unknown_keep() {
    assert_eq!(check(&dict(), "Anthropic", "us"), Verdict::Keep);
}

#[test]
fn context_bias_ru_dominant_keeps_ru_ambiguous() {
    let v = check_with_context(&dict(), "но", "ru", &["сегодня", "хорошо", "погода", "тут"]);
    assert!(matches!(v, Verdict::Keep | Verdict::Uncertain));
}

#[test]
fn context_bias_no_recent_words_uncertain_for_ambiguous() {
    assert_eq!(check_with_context(&dict(), "ye", "us", &[]), Verdict::Uncertain);
}

#[test]
fn context_bias_ru_recent_flips_us_typed_word() {
    let v = check_with_context(&dict(), "ye", "us", &["сегодня", "хорошо", "погода", "тут"]);
    assert_eq!(v, Verdict::Flip);
}

#[test]
fn context_keeps_a_word_among_its_own_language() {
    let d = dict();
    assert_eq!(check_with_context(&d, "ye", "us", &["good", "weather"]), Verdict::Keep);
    assert_eq!(check_with_context(&d, "ye", "us", &["good", "weather", "тут"]), Verdict::Uncertain);
    assert_eq!(check_with_context(&d, "ye", "us", &["тут"]), Verdict::Uncertain);
}

#[test]
fn only_the_last_five_words_are_asked() {
    let d = dict();
    let far = ["тут", "тут", "тут", "good", "world", "xx", "xx", "xx"];
    assert_eq!(check_with_context(&d, "ye", "us", &far), Verdict::Keep);
    assert_eq!(check_with_context(&d, "ye", "us", &far[3..]), Verdict::Keep);
    let mixed = ["тут", "тут", "1", "2", "3", "4", "5"];
    assert_eq!(check_with_context(&d, "ye", "us", &mixed), Verdict::Uncertain);
}

#[test]
fn an_unknown_layout_is_never_flipped() {
    let d = dict();
    assert_eq!(check(&d, "ghbdtn", "??"), Verdict::Uncertain);
    assert_eq!(check(&d, "ghbdtn", ""), Verdict::Uncertain);
    assert_eq!(check(&d, "42", "??"), Verdict::Keep);
}

#[test]
fn a_corrected_word_is_kept() {
    let d = dict();
    assert_eq!(check(&d, "ghbdtn", "us"), Verdict::Flip);
    assert_eq!(check(&d, "привет", "ru"), Verdict::Keep);
}

#[test]
fn letters_and_capitals_of_other_alphabets() {
    let d = dict();
    assert_eq!(check(&d, "é7", "us"), Verdict::Keep);
    assert_eq!(check(&d, "№7", "us"), Verdict::Uncertain);
    assert_eq!(check(&d, "Éclair", "us"), Verdict::Keep);
    assert_eq!(check(&d, "éclair", "us"), Verdict::Uncertain);
}

#[test]
fn words_of_each_language() {
    let d = dict();
    assert!(d.is_valid("hello", Lang::En));
    assert!(!d.is_valid("hello", Lang::Ru));
    assert!(d.is_valid("тут", Lang::Ru));
    assert!(!d.is_valid("", Lang::Ru));
    let odd = DictClassifier::new(Dictionary::new(words(&[""])), Dictionary::new(vec![]));
    assert!(!odd.is_valid("", Lang::En));
    assert!(Dictionary::new(words(&["a", "b"])).check("b"));
    assert!(!Dictionary::new(words(&["a", "b"])).check("c"));
}

fn asked(word: &str, layout: &str, recent: &[&str]) -> Vec<(String, Lang)> {
    let recent = words(recent);
    let list = lookups(&ClassifyInput {
        word,
        active_layout: layout,
        recent_words: &recent,
        window_class: None,
    });
    list.into_iter().map(|l| (l.word, l.lang)).collect()
}

#[test]
fn questions_to_the_spell_checker() {
    assert!(asked("a", "us", &["hello"]).is_empty());
    assert!(asked("42", "us", &[]).is_empty());
    assert!(asked("hello", "de", &[]).is_empty());
    assert_eq!(
        asked("ye", "us", &["тут", "a", "x1"]),
        vec![
            ("ye".to_string(), Lang::En),
            ("ну".to_string(), Lang::Ru),
            ("тут".to_string(), Lang::En),
            ("тут".to_string(), Lang::Ru),
        ]
    );
    assert_eq!(
        asked("руддщ", "ru", &[]),
        vec![("руддщ".to_string(), Lang::Ru), ("hello".to_string(), Lang::En)]
    );
    assert_eq!(asked("ye", "us", &["aa", "bb", "cc", "dd", "ee", "ff"]).len(), 12);
}

#[test]
fn the_answers_are_enough() {
    let d = dict();
    let cases: [(&str, &str, &[&str]); 6] = [
        ("ye", "us", &["сегодня", "хорошо", "погода", "тут"]),
        ("ye", "us", &["good", "weather", "a"]),
        ("ghbdtn", "us", &[]),
        ("hello", "us", &["тут"]),
        ("xqzkpw", "us", &[]),
        ("руддщ", "ru", &["hello", "hello"]),
    ];
    for (word, layout, recent) in cases {
        let recent_words = words(recent);
        let input =
            ClassifyInput { word, active_layout: layout, recent_words: &recent_words, window_class: None };
        let list = lookups(&input);
        let found: Vec<bool> = list.iter().map(|l| d.is_valid(&l.word, l.lang)).collect();
        let small = DictClassifier::from_answers(&list, &found);
        assert_eq!(small.classify(&input), d.classify(&input), "{word}");
    }
}

#[test]
fn bias_counts_both_languages() {
    let d = dict();
    let recent = words(&["good", "тут", "ну"]);
    let input =
        ClassifyInput { word: "ye", active_layout: "us", recent_words: &recent, window_class: None };
    assert_eq!(d.context_bias(&input, Lang::En, Lang::Ru), Verdict::Uncertain);
    let recent = words(&["тут", "ну"]);
    let input =
        ClassifyInput { word: "ye", active_layout: "us", recent_words: &recent, window_class: None };
    assert_eq!(d.context_bias(&input, Lang::En, Lang::Ru), Verdict::Flip);
    assert_eq!(d.context_bias(&input, Lang::Ru, Lang::En), Verdict::Keep);
}
