//! Character classes and case mappings of the Unicode tables in the standard library.

use vstd::prelude::*;

verus! {

/// A letter `a` to `z`.
pub open spec fn is_latin_small(c: char) -> bool {
    'a' <= c <= 'z'
}

/// A letter `A` to `Z`.
pub open spec fn is_latin_capital(c: char) -> bool {
    'A' <= c <= 'Z'
}

/// A small letter of the Russian alphabet.
pub open spec fn is_russian_small(c: char) -> bool {
    'а' <= c <= 'я' || c == 'ё'
}

/// A capital letter of the Russian alphabet.
pub open spec fn is_russian_capital(c: char) -> bool {
    'А' <= c <= 'Я' || c == 'Ё'
}

/// An ASCII digit.
pub open spec fn is_digit(c: char) -> bool {
    '0' <= c <= '9'
}

/// An ASCII character.
pub open spec fn is_ascii_char(c: char) -> bool {
    (c as u32) < 0x80
}

/// The small letter of a Latin or Russian capital; any other character itself.
pub open spec fn small_letter(c: char) -> char {
    if is_latin_capital(c) || 'А' <= c <= 'Я' {
        ((c as u32) + 32) as char
    } else if c == 'Ё' {
        'ё'
    } else {
        c
    }
}

/// The capital of a small Latin or Russian letter; any other character itself.
pub open spec fn capital_letter(c: char) -> char {
    if is_latin_small(c) || 'а' <= c <= 'я' {
        ((c as u32) - 32) as char
    } else if c == 'ё' {
        'Ё'
    } else {
        c
    }
}

/// A character whose case mappings are those of [`small_letter`] and [`capital_letter`]: ASCII
/// and the Russian alphabet.
pub open spec fn is_plain(c: char) -> bool {
    is_ascii_char(c) || is_russian_small(c) || is_russian_capital(c)
}

/// The characters with the Unicode property `White_Space`.
pub open spec fn is_space(c: char) -> bool {
    let n = c as u32;
    ||| 0x9 <= n <= 0xd
    ||| n == 0x20
    ||| n == 0x85
    ||| n == 0xa0
    ||| n == 0x1680
    ||| 0x2000 <= n <= 0x200a
    ||| n == 0x2028
    ||| n == 0x2029
    ||| n == 0x202f
    ||| n == 0x205f
    ||| n == 0x3000
}

/// The first character of the lowercase mapping that the Unicode tables give `c`.
pub uninterp spec fn unicode_lowercase(c: char) -> char;

/// The first character of the uppercase mapping that the Unicode tables give `c`.
pub uninterp spec fn unicode_uppercase(c: char) -> char;

/// Whether the Unicode tables give `c` the property `Alphabetic`.
pub uninterp spec fn unicode_alphabetic(c: char) -> bool;

/// Whether the Unicode tables give `c` the property `Uppercase`.
pub uninterp spec fn unicode_uppercase_property(c: char) -> bool;

/// The lowercase form that the Unicode tables give a whole text.
pub uninterp spec fn unicode_lowercase_text(text: Seq<char>) -> Seq<char>;

/// The lowercase form of one character.
pub open spec fn lowercase_of(c: char) -> char {
    if is_plain(c) {
        small_letter(c)
    } else {
        unicode_lowercase(c)
    }
}

/// The uppercase form of one character.
pub open spec fn uppercase_of(c: char) -> char {
    if is_plain(c) {
        capital_letter(c)
    } else {
        unicode_uppercase(c)
    }
}

/// A letter of any alphabet.
pub open spec fn is_letter(c: char) -> bool {
    if is_plain(c) {
        is_latin_small(c) || is_latin_capital(c) || is_russian_small(c) || is_russian_capital(c)
    } else {
        unicode_alphabetic(c)
    }
}

/// A capital letter of any alphabet.
pub open spec fn is_capital(c: char) -> bool {
    if is_plain(c) {
        is_latin_capital(c) || is_russian_capital(c)
    } else {
        unicode_uppercase_property(c)
    }
}

/// A text of ASCII and Russian characters alone.
pub open spec fn is_plain_text(text: Seq<char>) -> bool {
    forall|i: int| 0 <= i < text.len() ==> is_plain(#[trigger] text[i])
}

/// The lowercase form of a text.
pub open spec fn lowercase_text(text: Seq<char>) -> Seq<char> {
    if is_plain_text(text) {
        text.map_values(|c: char| small_letter(c))
    } else {
        unicode_lowercase_text(text)
    }
}

/// `char::is_whitespace`: true exactly of the characters with the property `White_Space`.
pub assume_specification[ char::is_whitespace ](c: char) -> (r: bool)
    ensures
        r == is_space(c),
;

/// `char::is_alphabetic`: a function of the character alone. Of ASCII and Russian characters it
/// is true exactly of the letters.
pub assume_specification[ char::is_alphabetic ](c: char) -> (r: bool)
    ensures
        !is_plain(c) ==> r == unicode_alphabetic(c),
        r == is_letter(c),
;

/// `char::is_uppercase`: a function of the character alone. Of ASCII and Russian characters it
/// is true exactly of the capitals.
pub assume_specification[ char::is_uppercase ](c: char) -> (r: bool)
    ensures
        !is_plain(c) ==> r == unicode_uppercase_property(c),
        r == is_capital(c),
;

/// `char::to_lowercase`, of which the first character is kept: a function of the character
/// alone, and the small letter of the alphabet for ASCII and Russian characters.
#[verifier::external_body]
pub(crate) fn to_lower(c: char) -> (r: char)
    ensures
        !is_plain(c) ==> r == unicode_lowercase(c),
        r == lowercase_of(c),
{
    c.to_lowercase().next().unwrap_or(c)
}

/// `char::to_uppercase`, of which the first character is kept: a function of the character
/// alone, and the capital of the alphabet for ASCII and Russian characters.
#[verifier::external_body]
pub(crate) fn to_upper(c: char) -> (r: char)
    ensures
        !is_plain(c) ==> r == unicode_uppercase(c),
        r == uppercase_of(c),
{
    c.to_uppercase().next().unwrap_or(c)
}

/// `str::to_lowercase`: a function of the text alone, and character by character the small
/// letter where the text is of ASCII and Russian characters.
pub assume_specification[ str::to_lowercase ](s: &str) -> (r: String)
    ensures
        !is_plain_text(s@) ==> r@ == unicode_lowercase_text(s@),
        r@ == lowercase_text(s@),
;

/// The letters of both alphabets, in pairs: each capital becomes its small letter and each small
/// letter its capital, and these are the capitals and the letters among ASCII and Russian
/// characters. The alphabets are `A` to `Z`, and `А` to `Я` with `Ё`.
pub proof fn law_letters_come_in_pairs(i: int)
    ensures
        "abcdefghijklmnopqrstuvwxyzабвгдежзийклмнопрстуфхцчшщъыьэюяё"@.len() == 59,
        "ABCDEFGHIJKLMNOPQRSTUVWXYZАБВГДЕЖЗИЙКЛМНОПРСТУФХЦЧШЩЪЫЬЭЮЯЁ"@.len() == 59,
        0 <= i < 59 ==> ({
            let small = "abcdefghijklmnopqrstuvwxyzабвгдежзийклмнопрстуфхцчшщъыьэюяё"@[i];
            let capital = "ABCDEFGHIJKLMNOPQRSTUVWXYZАБВГДЕЖЗИЙКЛМНОПРСТУФХЦЧШЩЪЫЬЭЮЯЁ"@[i];
            &&& lowercase_of(capital) == small
            &&& lowercase_of(small) == small
            &&& uppercase_of(small) == capital
            &&& uppercase_of(capital) == capital
            &&& is_letter(small) && is_letter(capital)
            &&& is_capital(capital) && !is_capital(small)
        }),
{
    reveal_strlit("abcdefghijklmnopqrstuvwxyzабвгдежзийклмнопрстуфхцчшщъыьэюяё");
    reveal_strlit("ABCDEFGHIJKLMNOPQRSTUVWXYZАБВГДЕЖЗИЙКЛМНОПРСТУФХЦЧШЩЪЫЬЭЮЯЁ");
}

/// An ASCII character that is no letter has no other form and is neither a letter nor a capital. Of
/// characters beyond ASCII and the Russian alphabet the Unicode tables say what they are.
pub proof fn law_other_characters(c: char)
    ensures
        (c as u32) < 0x80 && !('a' <= c <= 'z') && !('A' <= c <= 'Z') ==> lowercase_of(c) == c
            && uppercase_of(c) == c && !is_letter(c) && !is_capital(c),
        (c as u32) >= 0x80 && !('а' <= c <= 'я') && !('А' <= c <= 'Я') && c != 'ё' && c != 'Ё'
            ==> lowercase_of(c) == unicode_lowercase(c) && uppercase_of(c) == unicode_uppercase(c)
            && is_letter(c) == unicode_alphabetic(c) && is_capital(c)
            == unicode_uppercase_property(c),
{
}

/// White space is exactly the characters of the property `White_Space`.
pub proof fn law_white_space(c: char)
    ensures
        is_space(c) <==> {
            let n = c as u32;
            ||| n == 0x9 || n == 0xa || n == 0xb || n == 0xc || n == 0xd || n == 0x20
            ||| n == 0x85 || n == 0xa0 || n == 0x1680
            ||| n >= 0x2000 && n <= 0x200a
            ||| n == 0x2028 || n == 0x2029 || n == 0x202f || n == 0x205f || n == 0x3000
        },
{
}

/// A text of ASCII and Russian characters becomes small character by character.
pub proof fn law_small_letters_of_a_text(text: Seq<char>)
    requires
        forall|i: int|
            0 <= i < text.len() ==> (#[trigger] text[i] as u32) < 0x80 || 'а' <= text[i] <= 'я'
                || 'А' <= text[i] <= 'Я' || text[i] == 'ё' || text[i] == 'Ё',
    ensures
        lowercase_text(text).len() == text.len(),
        forall|i: int|
            0 <= i < text.len() ==> #[trigger] lowercase_text(text)[i] == lowercase_of(text[i]),
{
    assert(is_plain_text(text));
}

} // verus!
