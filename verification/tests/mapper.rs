use matea_switcher::mapper::{en_to_ru, ru_to_en};

#[test]
fn test_en_to_ru_basic() {
    assert_eq!(en_to_ru("ghbdtn"), "привет");
    assert_eq!(en_to_ru("Ghbdtn"), "Привет");
}

#[test]
fn test_ru_to_en_basic() {
    assert_eq!(ru_to_en("руддщ"), "hello");
    assert_eq!(ru_to_en("Руддщ"), "Hello");
}

#[test]
fn test_passthrough_unknown() {
    assert_eq!(en_to_ru("123"), "123");
    assert_eq!(en_to_ru("hello world"), "руддщ цщкдв");
}

#[test]
fn all_small_letters_flip() {
    assert_eq!(en_to_ru("qwertyuiop[]"), "йцукенгшщзхъ");
    assert_eq!(en_to_ru("asdfghjkl;'"), "фывапролджэ");
    assert_eq!(en_to_ru("zxcvbnm,."), "ячсмитьбю");
    assert_eq!(ru_to_en("йцукенгшщзхъ"), "qwertyuiop[]");
    assert_eq!(ru_to_en("фывапролджэ"), "asdfghjkl;'");
    assert_eq!(ru_to_en("ячсмитьбю"), "zxcvbnm,.");
}

#[test]
fn the_empty_text_flips_to_itself() {
    assert_eq!(en_to_ru(""), "");
    assert_eq!(ru_to_en(""), "");
}

#[test]
fn flipping_there_and_back() {
    let text = "Hello, World 42!";
    assert_eq!(ru_to_en(&en_to_ru("Hello World 42!")), "Hello World 42!");
    assert_eq!(en_to_ru(&ru_to_en("Привет")), "Привет");
    assert_eq!(en_to_ru(text).chars().count(), text.chars().count());
}

#[test]
fn glyphs_of_other_alphabets_stay() {
    assert_eq!(en_to_ru("Ñandú"), "Ñфтвú");
    assert_eq!(ru_to_en("Ωмега"), "Ωvtuf");
    assert_eq!(en_to_ru("ß £"), "ß £");
}

#[test]
fn a_capital_that_becomes_a_latin_letter_flips() {
    assert_eq!(en_to_ru("İ"), "Ш");
}

#[test]
fn capitals_stay_capitals() {
    assert_eq!(en_to_ru("GHBDTN"), "ПРИВЕТ");
    assert_eq!(ru_to_en("РУДДЩ"), "HELLO");
}
