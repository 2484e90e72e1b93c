//! The glyphs of one physical key in the QWERTY and the ЙЦУКЕН layout.
//!
//! Flipping a text replaces each glyph by the one that the same key gives in the other layout.
//! The case of the source does not matter for the lookup and is kept in the result. A glyph that
//! is in no row of the table stays as it is.

use vstd::prelude::*;

use crate::unicode;

verus! {

/// The keys: the glyph in QWERTY and the glyph in ЙЦУКЕН.
pub const QWERTY_TO_JCUKEN: [(char, char); 34] = [
    ('q', 'й'), ('w', 'ц'), ('e', 'у'), ('r', 'к'), ('t', 'е'), ('y', 'н'),
    ('u', 'г'), ('i', 'ш'), ('o', 'щ'), ('p', 'з'), ('[', 'х'), (']', 'ъ'),
    ('a', 'ф'), ('s', 'ы'), ('d', 'в'), ('f', 'а'), ('g', 'п'), ('h', 'р'),
    ('j', 'о'), ('k', 'л'), ('l', 'д'), (';', 'ж'), ('\'', 'э'),
    ('z', 'я'), ('x', 'ч'), ('c', 'с'), ('v', 'м'), ('b', 'и'), ('n', 'т'),
    ('m', 'ь'), (',', 'б'), ('.', 'ю'), ('/', '.'),
    ('`', 'ё'),
];

/// The glyph of a row that is looked for.
pub open spec fn source(row: (char, char), reverse: bool) -> char {
    if reverse {
        row.1
    } else {
        row.0
    }
}

/// The glyph of a row that takes its place.
pub open spec fn target(row: (char, char), reverse: bool) -> char {
    if reverse {
        row.0
    } else {
        row.1
    }
}

/// The glyph that the first row with source `c` gives, if there is such a row.
pub open spec fn partner(table: Seq<(char, char)>, c: char, reverse: bool) -> Option<char>
    decreases table.len(),
{
    if table.len() == 0 {
        None
    } else if source(table[0], reverse) == c {
        Some(target(table[0], reverse))
    } else {
        partner(table.drop_first(), c, reverse)
    }
}

/// The flip of one glyph: looked up by its small letter, and a capital again where it was one.
/// A glyph that the table does not hold stays as it is.
pub open spec fn flip_char(c: char, table: Seq<(char, char)>, reverse: bool) -> char {
    match partner(table, unicode::lowercase_of(c), reverse) {
        None => c,
        Some(t) => if c != unicode::lowercase_of(c) {
            unicode::uppercase_of(t)
        } else {
            t
        },
    }
}

/// A text flipped glyph by glyph, from QWERTY to ЙЦУКЕН or in reverse.
pub open spec fn flipped(s: Seq<char>, reverse: bool) -> Seq<char> {
    s.map_values(|c: char| flip_char(c, QWERTY_TO_JCUKEN@, reverse))
}

/// The glyph is on no key of the table, in either layout.
pub open spec fn off_table(c: char) -> bool {
    &&& partner(QWERTY_TO_JCUKEN@, unicode::lowercase_of(c), false) is None
    &&& partner(QWERTY_TO_JCUKEN@, unicode::lowercase_of(c), true) is None
}

/// The glyph is one that a key of the table gives in QWERTY, with or without shift.
pub open spec fn is_qwerty_glyph(c: char) -> bool {
    unicode::is_latin_capital(c) || partner(QWERTY_TO_JCUKEN@, c, false) is Some
}

/// The glyph is one that a key of the table gives in ЙЦУКЕН without shift, or a capital on a key
/// that gives a letter in QWERTY too.
pub open spec fn is_cased_jcuken_glyph(c: char) -> bool {
    ||| partner(QWERTY_TO_JCUKEN@, c, true) is Some
    ||| unicode::is_russian_capital(c) && (partner(QWERTY_TO_JCUKEN@, unicode::small_letter(c), true) matches Some(t)
        && unicode::is_latin_small(t))
}

/// The glyph that takes the place of `c` by the first row with that source.
fn find_partner(table: &[(char, char)], c: char, reverse: bool) -> (r: Option<char>)
    ensures
        r == partner(table@, c, reverse),
{
    let mut i: usize = 0;
    proof {
        assert(table@.skip(0) =~= table@);
    }
    while i < table.len()
        invariant
            0 <= i <= table@.len(),
            partner(table@.skip(i as int), c, reverse) == partner(table@, c, reverse),
        decreases table@.len() - i,
    {
        let (a, b) = table[i];
        let (from, to) = if reverse {
            (b, a)
        } else {
            (a, b)
        };
        proof {
            assert(table@.skip(i as int)[0] == table@[i as int]);
            assert(table@.skip(i as int).drop_first() =~= table@.skip(i + 1));
        }
        if c == from {
            return Some(to);
        }
        i += 1;
    }
    None
}

/// The text with each glyph flipped by `table`.
pub fn flip(s: &str, table: &[(char, char)], reverse: bool) -> (r: String)
    ensures
        r@ == s@.map_values(|c: char| flip_char(c, table@, reverse)),
{
    let ghost step = |c: char| flip_char(c, table@, reverse);
    let mut r = String::new();
    for c in it: s.chars()
        invariant
            it.seq() == s@,
            step == (|c: char| flip_char(c, table@, reverse)),
            r@ == s@.take(it.index()).map_values(step),
    {
        let lower = unicode::to_lower(c);
        let glyph = match find_partner(table, lower, reverse) {
            None => c,
            Some(t) => if c != lower {
                unicode::to_upper(t)
            } else {
                t
            },
        };
        proof {
            assert(s@.take(it.index() + 1) =~= s@.take(it.index()).push(c));
            assert(s@.take(it.index() + 1).map_values(step) =~= s@.take(it.index()).map_values(
                step,
            ).push(glyph));
        }
        r.push(glyph);
    }
    proof {
        assert(s@.take(s@.len() as int) =~= s@);
    }
    r
}

/// The text that the same keys give in ЙЦУКЕН.
pub fn en_to_ru(s: &str) -> (r: String)
    ensures
        r@ == flipped(s@, false),
{
    flip(s, QWERTY_TO_JCUKEN.as_slice(), false)
}

/// The text that the same keys give in QWERTY.
pub fn ru_to_en(s: &str) -> (r: String)
    ensures
        r@ == flipped(s@, true),
{
    flip(s, QWERTY_TO_JCUKEN.as_slice(), true)
}

/// A row whose source stands in no earlier row is the one that is found.
proof fn lemma_partner_of_row(table: Seq<(char, char)>, i: int, reverse: bool)
    requires
        0 <= i < table.len(),
        forall|j: int|
            0 <= j < i ==> source(#[trigger] table[j], reverse) != source(table[i], reverse),
    ensures
        partner(table, source(table[i], reverse), reverse) == Some(target(table[i], reverse)),
    decreases table.len(),
{
    if i > 0 {
        let rest = table.drop_first();
        assert(source(table[0], reverse) != source(table[i], reverse));
        assert(rest[i - 1] == table[i]);
        assert forall|j: int| 0 <= j < i - 1 implies source(#[trigger] rest[j], reverse) != source(
            rest[i - 1],
            reverse,
        ) by {
            assert(rest[j] == table[j + 1]);
        }
        lemma_partner_of_row(rest, i - 1, reverse);
    }
}

/// A glyph with a partner stands in the row that holds both.
proof fn lemma_row_of_partner(table: Seq<(char, char)>, c: char, reverse: bool) -> (i: int)
    requires
        partner(table, c, reverse) is Some,
    ensures
        0 <= i < table.len(),
        source(table[i], reverse) == c,
        target(table[i], reverse) == partner(table, c, reverse)->0,
    decreases table.len(),
{
    if source(table[0], reverse) == c {
        0
    } else {
        let k = lemma_row_of_partner(table.drop_first(), c, reverse);
        assert(table.drop_first()[k] == table[k + 1]);
        k + 1
    }
}

/// No glyph stands in two rows of one layout.
proof fn lemma_rows_distinct()
    ensures
        forall|i: int, j: int|
            0 <= i < j < 34 ==> QWERTY_TO_JCUKEN@[i].0 != QWERTY_TO_JCUKEN@[j].0
                && QWERTY_TO_JCUKEN@[i].1 != QWERTY_TO_JCUKEN@[j].1,
{
}

/// What each row holds: a small letter or a sign in QWERTY, a small Russian letter or the full
/// stop in ЙЦУКЕН.
proof fn lemma_rows_plain()
    ensures
        forall|i: int|
            #![trigger QWERTY_TO_JCUKEN@[i]]
            0 <= i < 34 ==> {
                let row = QWERTY_TO_JCUKEN@[i];
                &&& unicode::is_plain(row.0) && unicode::is_plain(row.1)
                &&& unicode::small_letter(row.0) == row.0 && unicode::small_letter(row.1) == row.1
                &&& unicode::is_latin_small(row.0) ==> unicode::is_russian_small(row.1)
                &&& row.1 == '.' || unicode::is_russian_small(row.1)
                &&& !unicode::is_russian_small(row.0)
            },
{
}

/// Every small Latin letter is in the table.
proof fn lemma_latin_in_table(c: char)
    requires
        unicode::is_latin_small(c),
    ensures
        partner(QWERTY_TO_JCUKEN@, c, false) matches Some(t) && unicode::is_russian_small(t),
{
    lemma_rows_distinct();
    lemma_rows_plain();
    let t = QWERTY_TO_JCUKEN@;
    assert(exists|i: int| 0 <= i < 34 && #[trigger] t[i].0 == c) by {
        assert(t[0].0 == 'q' && t[1].0 == 'w' && t[2].0 == 'e' && t[3].0 == 'r' && t[4].0 == 't');
        assert(t[5].0 == 'y' && t[6].0 == 'u' && t[7].0 == 'i' && t[8].0 == 'o' && t[9].0 == 'p');
        assert(t[12].0 == 'a' && t[13].0 == 's' && t[14].0 == 'd' && t[15].0 == 'f');
        assert(t[16].0 == 'g' && t[17].0 == 'h' && t[18].0 == 'j' && t[19].0 == 'k');
        assert(t[20].0 == 'l' && t[23].0 == 'z' && t[24].0 == 'x' && t[25].0 == 'c');
        assert(t[26].0 == 'v' && t[27].0 == 'b' && t[28].0 == 'n' && t[29].0 == 'm');
    }
    let i = choose|i: int| 0 <= i < 34 && #[trigger] t[i].0 == c;
    lemma_partner_of_row(t, i, false);
}

/// The partner of a partner is the glyph itself.
proof fn lemma_partners_mutual(c: char, reverse: bool)
    requires
        partner(QWERTY_TO_JCUKEN@, c, reverse) is Some,
    ensures
        partner(
            QWERTY_TO_JCUKEN@,
            partner(QWERTY_TO_JCUKEN@, c, reverse)->0,
            !reverse,
        ) == Some(c),
{
    lemma_rows_distinct();
    let i = lemma_row_of_partner(QWERTY_TO_JCUKEN@, c, reverse);
    lemma_partner_of_row(QWERTY_TO_JCUKEN@, i, !reverse);
}

/// A glyph with a partner, and its partner, are plain and not capitals.
proof fn lemma_partners_plain(c: char, reverse: bool)
    requires
        partner(QWERTY_TO_JCUKEN@, c, reverse) is Some,
    ensures
        unicode::is_plain(c),
        unicode::small_letter(c) == c,
        unicode::is_plain(partner(QWERTY_TO_JCUKEN@, c, reverse)->0),
        unicode::small_letter(partner(QWERTY_TO_JCUKEN@, c, reverse)->0) == partner(
            QWERTY_TO_JCUKEN@,
            c,
            reverse,
        )->0,
{
    lemma_rows_plain();
    let i = lemma_row_of_partner(QWERTY_TO_JCUKEN@, c, reverse);
}

/// A text and its flip have the same number of characters.
pub proof fn law_flip_keeps_length(s: Seq<char>, reverse: bool)
    ensures
        flipped(s, reverse).len() == s.len(),
{
}

/// A glyph that is on no key of the table is left alone in both directions.
pub proof fn law_unknown_glyphs_stay(s: Seq<char>, reverse: bool)
    requires
        forall|i: int| 0 <= i < s.len() ==> off_table(#[trigger] s[i]),
    ensures
        flipped(s, reverse) == s,
{
    assert(flipped(s, reverse) =~= s);
}

/// The flip keeps the case: the flip of a capital is the capital of the flip of its small
/// letter, where the target key has a letter, and the same sign where it has none.
pub proof fn law_flip_keeps_case(c: char, reverse: bool)
    requires
        unicode::is_latin_capital(c) || unicode::is_russian_capital(c),
    ensures
        flip_char(c, QWERTY_TO_JCUKEN@, reverse) == unicode::capital_letter(
            flip_char(unicode::small_letter(c), QWERTY_TO_JCUKEN@, reverse),
        ),
{
    if partner(QWERTY_TO_JCUKEN@, unicode::small_letter(c), reverse) is Some {
        lemma_partners_plain(unicode::small_letter(c), reverse);
    }
}

proof fn lemma_qwerty_glyph_returns(c: char)
    requires
        is_qwerty_glyph(c) || off_table(c),
    ensures
        flip_char(flip_char(c, QWERTY_TO_JCUKEN@, false), QWERTY_TO_JCUKEN@, true) == c,
{
    if is_qwerty_glyph(c) {
        if unicode::is_latin_capital(c) {
            lemma_latin_in_table(unicode::small_letter(c));
        } else {
            lemma_partners_plain(c, false);
        }
        lemma_partners_plain(unicode::lowercase_of(c), false);
        lemma_partners_mutual(unicode::lowercase_of(c), false);
    }
}

proof fn lemma_jcuken_glyph_returns(c: char)
    requires
        is_cased_jcuken_glyph(c) || off_table(c),
    ensures
        flip_char(flip_char(c, QWERTY_TO_JCUKEN@, true), QWERTY_TO_JCUKEN@, false) == c,
{
    if is_cased_jcuken_glyph(c) {
        if partner(QWERTY_TO_JCUKEN@, c, true) is Some {
            lemma_partners_plain(c, true);
            lemma_partners_mutual(c, true);
        } else {
            lemma_partners_plain(unicode::small_letter(c), true);
            lemma_partners_mutual(unicode::small_letter(c), true);
        }
    }
}

/// Flipping to ЙЦУКЕН and back gives the text again, when it holds glyphs of QWERTY and glyphs
/// that are on no key of the table.
pub proof fn law_en_ru_en(s: Seq<char>)
    requires
        forall|i: int| 0 <= i < s.len() ==> is_qwerty_glyph(#[trigger] s[i]) || off_table(s[i]),
    ensures
        flipped(flipped(s, false), true) == s,
{
    assert forall|i: int| 0 <= i < s.len() implies flipped(flipped(s, false), true)[i]
        == s[i] by {
        lemma_qwerty_glyph_returns(s[i]);
    }
    assert(flipped(flipped(s, false), true) =~= s);
}

/// Flipping to QWERTY and back gives the text again, when it holds glyphs of ЙЦУКЕН that keep
/// their case on the way and glyphs that are on no key of the table.
pub proof fn law_ru_en_ru(s: Seq<char>)
    requires
        forall|i: int|
            0 <= i < s.len() ==> is_cased_jcuken_glyph(#[trigger] s[i]) || off_table(s[i]),
    ensures
        flipped(flipped(s, true), false) == s,
{
    assert forall|i: int| 0 <= i < s.len() implies flipped(flipped(s, true), false)[i]
        == s[i] by {
        lemma_jcuken_glyph_returns(s[i]);
    }
    assert(flipped(flipped(s, true), false) =~= s);
}

/// The flip works glyph by glyph: each glyph is flipped on its own, wherever it stands and
/// whatever stands beside it, so that two texts can be flipped together or apart.
pub proof fn law_flip_works_glyph_by_glyph(a: Seq<char>, b: Seq<char>, reverse: bool)
    ensures
        flipped(a + b, reverse) == flipped(a, reverse) + flipped(b, reverse),
        flipped(a, reverse).len() == a.len(),
        forall|i: int|
            0 <= i < a.len() ==> #[trigger] flipped(a, reverse)[i] == flip_char(
                a[i],
                QWERTY_TO_JCUKEN@,
                reverse,
            ),
{
    assert(flipped(a + b, reverse) =~= flipped(a, reverse) + flipped(b, reverse));
}

/// In any table the first row with the small letter of the glyph decides: a glyph in that form
/// becomes the other glyph of the row, any other form of it the capital of the other glyph.
/// Without such a row the glyph stays.
pub proof fn law_the_first_row_decides(c: char, table: Seq<(char, char)>, i: int)
    requires
        0 <= i <= table.len(),
    ensures
        ({
            &&& i < table.len()
            &&& table[i].0 == unicode::lowercase_of(c)
            &&& forall|j: int| 0 <= j < i ==> (#[trigger] table[j]).0 != unicode::lowercase_of(c)
        }) ==> flip_char(c, table, false) == (if c == table[i].0 {
            table[i].1
        } else {
            unicode::uppercase_of(table[i].1)
        }),
        ({
            &&& i < table.len()
            &&& table[i].1 == unicode::lowercase_of(c)
            &&& forall|j: int| 0 <= j < i ==> (#[trigger] table[j]).1 != unicode::lowercase_of(c)
        }) ==> flip_char(c, table, true) == (if c == table[i].1 {
            table[i].0
        } else {
            unicode::uppercase_of(table[i].0)
        }),
        (forall|j: int|
            0 <= j < table.len() ==> (#[trigger] table[j]).0 != unicode::lowercase_of(c))
            ==> flip_char(c, table, false) == c,
        (forall|j: int|
            0 <= j < table.len() ==> (#[trigger] table[j]).1 != unicode::lowercase_of(c))
            ==> flip_char(c, table, true) == c,
{
    let low = unicode::lowercase_of(c);
    if i < table.len() {
        if table[i].0 == low && (forall|j: int| 0 <= j < i ==> (#[trigger] table[j]).0 != low) {
            lemma_partner_of_row(table, i, false);
        }
        if table[i].1 == low && (forall|j: int| 0 <= j < i ==> (#[trigger] table[j]).1 != low) {
            lemma_partner_of_row(table, i, true);
        }
    }
    if partner(table, low, false) is Some {
        let k = lemma_row_of_partner(table, low, false);
        assert(table[k].0 == low);
    }
    if partner(table, low, true) is Some {
        let k = lemma_row_of_partner(table, low, true);
        assert(table[k].1 == low);
    }
}

/// The keys of the keyboard, as they are printed on it: the flip takes each glyph of the one
/// layout to the glyph on the same key in the other, capitals to capitals, and leaves every glyph
/// alone that is on none of these keys.
pub proof fn law_the_flip_goes_by_the_keys(c: char, i: int)
    requires
        0 <= i < 34,
    ensures
        "qwertyuiop[]asdfghjkl;'zxcvbnm,./`"@.len() == 34,
        "йцукенгшщзхъфывапролджэячсмитьбю.ё"@.len() == 34,
        unicode::lowercase_of(c) == "qwertyuiop[]asdfghjkl;'zxcvbnm,./`"@[i] ==> flip_char(
            c,
            QWERTY_TO_JCUKEN@,
            false,
        ) == (if c == unicode::lowercase_of(c) {
            "йцукенгшщзхъфывапролджэячсмитьбю.ё"@[i]
        } else {
            "ЙЦУКЕНГШЩЗХЪФЫВАПРОЛДЖЭЯЧСМИТЬБЮ.Ё"@[i]
        }),
        unicode::lowercase_of(c) == "йцукенгшщзхъфывапролджэячсмитьбю.ё"@[i] ==> flip_char(
            c,
            QWERTY_TO_JCUKEN@,
            true,
        ) == (if c == unicode::lowercase_of(c) {
            "qwertyuiop[]asdfghjkl;'zxcvbnm,./`"@[i]
        } else {
            "QWERTYUIOP[]ASDFGHJKL;'ZXCVBNM,./`"@[i]
        }),
        !"qwertyuiop[]asdfghjkl;'zxcvbnm,./`"@.contains(unicode::lowercase_of(c)) ==> flip_char(
            c,
            QWERTY_TO_JCUKEN@,
            false,
        ) == c,
        !"йцукенгшщзхъфывапролджэячсмитьбю.ё"@.contains(unicode::lowercase_of(c)) ==> flip_char(
            c,
            QWERTY_TO_JCUKEN@,
            true,
        ) == c,
{
    reveal_strlit("qwertyuiop[]asdfghjkl;'zxcvbnm,./`");
    reveal_strlit("QWERTYUIOP[]ASDFGHJKL;'ZXCVBNM,./`");
    reveal_strlit("йцукенгшщзхъфывапролджэячсмитьбю.ё");
    reveal_strlit("ЙЦУКЕНГШЩЗХЪФЫВАПРОЛДЖЭЯЧСМИТЬБЮ.Ё");
    let us = "qwertyuiop[]asdfghjkl;'zxcvbnm,./`"@;
    let ru = "йцукенгшщзхъфывапролджэячсмитьбю.ё"@;
    let t = QWERTY_TO_JCUKEN@;
    let low = unicode::lowercase_of(c);
    assert(forall|k: int| 0 <= k < 34 ==> (#[trigger] t[k]).0 == us[k] && t[k].1 == ru[k]);
    lemma_rows_distinct();
    lemma_rows_plain();
    law_the_first_row_decides(c, t, i);
    assert(t[i].0 == us[i] && t[i].1 == ru[i]);
    assert(unicode::uppercase_of(ru[i]) == "ЙЦУКЕНГШЩЗХЪФЫВАПРОЛДЖЭЯЧСМИТЬБЮ.Ё"@[i]);
    assert(unicode::uppercase_of(us[i]) == "QWERTYUIOP[]ASDFGHJKL;'ZXCVBNM,./`"@[i]);
    if !us.contains(low) {
        assert forall|j: int| 0 <= j < t.len() implies (#[trigger] t[j]).0 != low by {
            assert(us.contains(us[j]));
        }
    }
    if !ru.contains(low) {
        assert forall|j: int| 0 <= j < t.len() implies (#[trigger] t[j]).1 != low by {
            assert(ru.contains(ru[j]));
        }
    }
}

} // verus!
