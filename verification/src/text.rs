//! Texts as sequences of characters: comparing, searching, splitting, trimming, replacing.

use vstd::prelude::*;

use crate::unicode;

verus! {

/// `String::push`: appends one character.
pub assume_specification[ String::push ](s: &mut String, c: char)
    ensures
        final(s)@ == old(s)@.push(c),
;

/// `String::pop`: removes the last character and returns it, or `None` from an empty text.
pub assume_specification[ String::pop ](s: &mut String) -> (r: Option<char>)
    ensures
        old(s)@.len() == 0 ==> r is None && final(s)@ == old(s)@,
        old(s)@.len() > 0 ==> r == Some(old(s)@.last()) && final(s)@ == old(s)@.drop_last(),
;

/// `part` stands somewhere inside `whole`, as one stretch.
pub open spec fn occurs_in(part: Seq<char>, whole: Seq<char>) -> bool {
    exists|i: int|
        0 <= i <= whole.len() - part.len() && #[trigger] whole.subrange(i, i + part.len()) == part
}

/// The pieces of `s` between the occurrences of `sep`, in order.
pub open spec fn split_on(s: Seq<char>, sep: char) -> Seq<Seq<char>>
    decreases s.len(),
{
    if s.len() == 0 {
        seq![Seq::<char>::empty()]
    } else {
        let before = split_on(s.drop_last(), sep);
        if s.last() == sep {
            before.push(Seq::<char>::empty())
        } else {
            before.drop_last().push(before.last().push(s.last()))
        }
    }
}

/// `s` without the white space at its start.
pub open spec fn trim_start(s: Seq<char>) -> Seq<char>
    decreases s.len(),
{
    if s.len() > 0 && unicode::is_space(s[0]) {
        trim_start(s.drop_first())
    } else {
        s
    }
}

/// `s` without the white space at its end.
pub open spec fn trim_end(s: Seq<char>) -> Seq<char>
    decreases s.len(),
{
    if s.len() > 0 && unicode::is_space(s.last()) {
        trim_end(s.drop_last())
    } else {
        s
    }
}

/// `s` without the white space at both ends.
pub open spec fn trimmed(s: Seq<char>) -> Seq<char> {
    trim_end(trim_start(s))
}

/// The small letter of a Latin capital; any other character itself.
pub open spec fn ascii_lower_char(c: char) -> char {
    if unicode::is_latin_capital(c) {
        unicode::small_letter(c)
    } else {
        c
    }
}

/// `s` with its Latin capitals made small.
pub open spec fn ascii_lower(s: Seq<char>) -> Seq<char> {
    s.map_values(|c: char| ascii_lower_char(c))
}

/// `s` with every occurrence of `from`, read from the left and without overlaps, replaced by
/// `to`.
pub open spec fn replaced(s: Seq<char>, from: Seq<char>, to: Seq<char>) -> Seq<char>
    decreases s.len(),
{
    if from.len() == 0 || s.len() < from.len() {
        s
    } else if s.take(from.len() as int) == from {
        to + replaced(s.skip(from.len() as int), from, to)
    } else {
        seq![s[0]] + replaced(s.skip(1), from, to)
    }
}

/// Every character of `s` is a digit.
pub open spec fn all_digits(s: Seq<char>) -> bool {
    forall|i: int| 0 <= i < s.len() ==> unicode::is_digit(#[trigger] s[i])
}

/// The characters of `s`.
pub fn chars_of(s: &str) -> (chars: Vec<char>)
    ensures
        chars@ == s@,
{
    let mut chars: Vec<char> = Vec::new();
    for c in it: s.chars()
        invariant
            it.seq() == s@,
            chars@ == s@.take(it.index()),
    {
        proof {
            assert(s@.take(it.index() + 1) =~= s@.take(it.index()).push(c));
        }
        chars.push(c);
    }
    proof {
        assert(s@.take(s@.len() as int) =~= s@);
    }
    chars
}

/// The text made of `chars`.
pub fn text_of(chars: &[char]) -> (s: String)
    ensures
        s@ == chars@,
{
    let mut s = String::new();
    let mut i: usize = 0;
    while i < chars.len()
        invariant
            0 <= i <= chars@.len(),
            s@ == chars@.take(i as int),
        decreases chars@.len() - i,
    {
        proof {
            assert(chars@.take(i + 1) =~= chars@.take(i as int).push(chars@[i as int]));
        }
        s.push(chars[i]);
        i += 1;
    }
    proof {
        assert(chars@.take(chars@.len() as int) =~= chars@);
    }
    s
}

/// A copy of `s`.
pub fn owned(s: &str) -> (r: String)
    ensures
        r@ == s@,
{
    let chars = chars_of(s);
    text_of(chars.as_slice())
}

/// Whether `part` stands in `whole` from position `at` on.
fn matches_at(whole: &[char], at: usize, part: &[char]) -> (r: bool)
    requires
        at + part@.len() <= whole@.len(),
    ensures
        r == (whole@.subrange(at as int, at + part@.len()) == part@),
{
    let limit = whole.len();
    let mut i: usize = 0;
    while i < part.len()
        invariant
            at + part@.len() <= whole@.len() == limit,
            0 <= i <= part@.len(),
            forall|k: int| 0 <= k < i ==> whole@[at + k] == part@[k],
        decreases part@.len() - i,
    {
        if whole[at + i] != part[i] {
            proof {
                assert(whole@.subrange(at as int, at + part@.len())[i as int] != part@[i as int]);
            }
            return false;
        }
        i += 1;
    }
    proof {
        assert(whole@.subrange(at as int, at + part@.len()) =~= part@);
    }
    true
}

/// Whether two texts hold the same characters.
pub fn same_text(a: &str, b: &str) -> (r: bool)
    ensures
        r == (a@ == b@),
{
    let x = chars_of(a);
    let y = chars_of(b);
    if x.len() != y.len() {
        return false;
    }
    let r = matches_at(x.as_slice(), 0, y.as_slice());
    proof {
        assert(x@.subrange(0, y@.len() as int) =~= x@);
    }
    r
}

/// Whether `part` stands somewhere inside `whole`.
pub fn contains_text(whole: &str, part: &str) -> (r: bool)
    ensures
        r == occurs_in(part@, whole@),
{
    let w = chars_of(whole);
    let p = chars_of(part);
    if w.len() < p.len() {
        return false;
    }
    let last = w.len() - p.len();
    let mut i: usize = 0;
    while i <= last
        invariant
            w@ == whole@,
            p@ == part@,
            last == w@.len() - p@.len(),
            0 <= i <= last + 1,
            forall|k: int| 0 <= k < i ==> #[trigger] w@.subrange(k, k + p@.len()) != p@,
        decreases last + 1 - i,
    {
        if matches_at(w.as_slice(), i, p.as_slice()) {
            return true;
        }
        if i == last {
            return false;
        }
        i += 1;
    }
    false
}

/// Whether every character is a digit.
pub fn is_all_digits(s: &str) -> (r: bool)
    ensures
        r == all_digits(s@),
{
    let chars = chars_of(s);
    let mut i: usize = 0;
    while i < chars.len()
        invariant
            chars@ == s@,
            0 <= i <= chars@.len(),
            forall|k: int| 0 <= k < i ==> unicode::is_digit(#[trigger] s@[k]),
        decreases chars@.len() - i,
    {
        if !(chars[i] >= '0' && chars[i] <= '9') {
            proof {
                assert(!unicode::is_digit(s@[i as int]));
            }
            return false;
        }
        i += 1;
    }
    true
}

proof fn lemma_trim_start_step(s: Seq<char>, i: int)
    requires
        0 <= i < s.len(),
        unicode::is_space(s[i]),
    ensures
        trim_start(s.skip(i)) == trim_start(s.skip(i + 1)),
{
    assert(s.skip(i).drop_first() =~= s.skip(i + 1));
}

/// `s` without the white space at both ends.
pub fn trim_text(s: &str) -> (r: String)
    ensures
        r@ == trimmed(s@),
{
    let chars = chars_of(s);
    let mut from: usize = 0;
    proof {
        assert(s@.skip(0) =~= s@);
    }
    while from < chars.len() && chars[from].is_whitespace()
        invariant
            chars@ == s@,
            0 <= from <= chars@.len(),
            trim_start(s@.skip(from as int)) == trim_start(s@),
        decreases chars@.len() - from,
    {
        proof {
            lemma_trim_start_step(s@, from as int);
        }
        from += 1;
    }
    let ghost inner = trim_start(s@);
    proof {
        assert(inner =~= s@.skip(from as int));
        assert(inner =~= inner.take(inner.len() as int));
    }
    let mut to: usize = chars.len();
    while from < to && chars[to - 1].is_whitespace()
        invariant
            chars@ == s@,
            inner == s@.skip(from as int),
            from <= to <= chars@.len(),
            trim_end(inner.take(to - from)) == trim_end(inner),
        decreases to - from,
    {
        proof {
            let part = inner.take(to - from);
            assert(part.last() == s@[to - 1]);
            assert(part.drop_last() =~= inner.take(to - from - 1));
        }
        to -= 1;
    }
    proof {
        let part = inner.take(to - from);
        if from < to {
            assert(part.last() == s@[to - 1]);
        }
        assert(trim_end(part) == part);
        assert(part =~= chars@.subrange(from as int, to as int));
    }
    text_of(vstd::slice::slice_subrange(chars.as_slice(), from, to))
}

/// `s` with its Latin capitals made small.
pub fn to_ascii_lower(s: &str) -> (r: String)
    ensures
        r@ == ascii_lower(s@),
{
    let mut r = String::new();
    for c in it: s.chars()
        invariant
            it.seq() == s@,
            r@ == ascii_lower(s@.take(it.index())),
    {
        let low = if c >= 'A' && c <= 'Z' {
            latin_small(c)
        } else {
            c
        };
        proof {
            assert(s@.take(it.index() + 1) =~= s@.take(it.index()).push(c));
            assert(ascii_lower(s@.take(it.index() + 1)) =~= ascii_lower(
                s@.take(it.index()),
            ).push(low));
        }
        r.push(low);
    }
    proof {
        assert(s@.take(s@.len() as int) =~= s@);
    }
    r
}

/// The small letter of a Latin capital.
fn latin_small(c: char) -> (r: char)
    requires
        unicode::is_latin_capital(c),
    ensures
        r == unicode::small_letter(c),
{
    let code = c as u8;
    (code + 32) as char
}

proof fn lemma_split_nonempty(s: Seq<char>, sep: char)
    ensures
        split_on(s, sep).len() >= 1,
    decreases s.len(),
{
    if s.len() > 0 {
        lemma_split_nonempty(s.drop_last(), sep);
    }
}

/// The views of the texts of a list.
pub open spec fn texts(list: Seq<String>) -> Seq<Seq<char>> {
    list.map_values(|t: String| t@)
}

/// The pieces of `s` between the occurrences of `sep`, in order.
pub fn split_text(s: &str, sep: char) -> (parts: Vec<String>)
    ensures
        texts(parts@) == split_on(s@, sep),
{
    let mut parts: Vec<String> = Vec::new();
    let mut current = String::new();
    for c in it: s.chars()
        invariant
            it.seq() == s@,
            texts(parts@).push(current@) == split_on(s@.take(it.index()), sep),
    {
        proof {
            let pre = s@.take(it.index());
            let all = s@.take(it.index() + 1);
            assert(all =~= pre.push(c));
            assert(all.drop_last() =~= pre);
            lemma_split_nonempty(pre, sep);
            assert(texts(parts@).push(current@).drop_last() =~= texts(parts@));
        }
        if c == sep {
            let mut done = String::new();
            std::mem::swap(&mut done, &mut current);
            proof {
                assert(texts(parts@.push(done)) =~= texts(parts@).push(done@));
            }
            parts.push(done);
        } else {
            current.push(c);
        }
    }
    proof {
        assert(s@.take(s@.len() as int) =~= s@);
        assert(texts(parts@.push(current)) =~= texts(parts@).push(current@));
    }
    parts.push(current);
    parts
}

/// `s` with every occurrence of `from`, read from the left and without overlaps, replaced by
/// `to`.
pub fn replace_text(s: &str, from: &str, to: &str) -> (r: String)
    requires
        from@.len() > 0,
    ensures
        r@ == replaced(s@, from@, to@),
{
    let chars = chars_of(s);
    let pattern = chars_of(from);
    let mut r = String::new();
    let mut i: usize = 0;
    proof {
        assert(s@.skip(0) =~= s@);
    }
    while i < chars.len() && chars.len() - i >= pattern.len()
        invariant
            chars@ == s@,
            pattern@ == from@,
            from@.len() > 0,
            0 <= i <= chars@.len(),
            r@ + replaced(s@.skip(i as int), from@, to@) == replaced(s@, from@, to@),
        decreases chars@.len() - i,
    {
        let ghost rest = s@.skip(i as int);
        let ghost done = r@;
        proof {
            assert(rest.take(from@.len() as int) =~= chars@.subrange(i as int, i + from@.len()));
        }
        if matches_at(chars.as_slice(), i, pattern.as_slice()) {
            r.append(to);
            proof {
                assert(rest.skip(from@.len() as int) =~= s@.skip(i + from@.len()));
                assert(r@ + replaced(s@.skip(i + from@.len()), from@, to@) =~= done + (to@
                    + replaced(rest.skip(from@.len() as int), from@, to@)));
            }
            i += pattern.len();
        } else {
            r.push(chars[i]);
            proof {
                assert(rest.skip(1) =~= s@.skip(i + 1));
                assert(r@ + replaced(s@.skip(i + 1), from@, to@) =~= done + (seq![rest[0]]
                    + replaced(rest.skip(1), from@, to@)));
            }
            i += 1;
        }
    }
    let ghost done = r@;
    let tail = text_of(vstd::slice::slice_subrange(chars.as_slice(), i, chars.len()));
    r.append(tail.as_str());
    proof {
        assert(tail@ =~= s@.skip(i as int));
        assert(replaced(tail@, from@, to@) == tail@);
    }
    r
}

/// Small letters stay small letters.
pub proof fn lemma_lower_twice(s: Seq<char>)
    ensures
        ascii_lower(ascii_lower(s)) == ascii_lower(s),
{
    assert(ascii_lower(ascii_lower(s)) =~= ascii_lower(s));
}

/// Splitting and making letters small can be done in either order.
pub proof fn lemma_split_of_lower(s: Seq<char>, sep: char)
    requires
        !unicode::is_latin_capital(sep),
        !unicode::is_latin_small(sep),
    ensures
        split_on(ascii_lower(s), sep) == split_on(s, sep).map_values(
            |p: Seq<char>| ascii_lower(p),
        ),
    decreases s.len(),
{
    let low = |p: Seq<char>| ascii_lower(p);
    let whole = ascii_lower(s);
    if s.len() == 0 {
        assert(ascii_lower(Seq::<char>::empty()) =~= Seq::<char>::empty());
        assert(split_on(whole, sep) =~= split_on(s, sep).map_values(low));
    } else {
        let init = s.drop_last();
        lemma_split_of_lower(init, sep);
        lemma_split_nonempty(init, sep);
        let before = split_on(init, sep);
        assert(whole.drop_last() =~= ascii_lower(init));
        assert(ascii_lower(Seq::<char>::empty()) =~= Seq::<char>::empty());
        assert(ascii_lower(before.last().push(s.last())) =~= ascii_lower(before.last()).push(
            ascii_lower_char(s.last()),
        ));
        assert(split_on(whole, sep) =~= split_on(s, sep).map_values(low));
    }
}

proof fn lemma_trim_start_of_lower(s: Seq<char>)
    ensures
        trim_start(ascii_lower(s)) == ascii_lower(trim_start(s)),
    decreases s.len(),
{
    if s.len() > 0 && unicode::is_space(s[0]) {
        assert(ascii_lower(s).drop_first() =~= ascii_lower(s.drop_first()));
        lemma_trim_start_of_lower(s.drop_first());
    }
}

proof fn lemma_trim_end_of_lower(s: Seq<char>)
    ensures
        trim_end(ascii_lower(s)) == ascii_lower(trim_end(s)),
    decreases s.len(),
{
    if s.len() > 0 && unicode::is_space(s.last()) {
        assert(ascii_lower(s).drop_last() =~= ascii_lower(s.drop_last()));
        lemma_trim_end_of_lower(s.drop_last());
    }
}

/// Trimming and making letters small can be done in either order.
pub proof fn lemma_trim_of_lower(s: Seq<char>)
    ensures
        trimmed(ascii_lower(s)) == ascii_lower(trimmed(s)),
{
    lemma_trim_start_of_lower(s);
    lemma_trim_end_of_lower(trim_start(s));
}

/// A text of white space alone.
pub open spec fn is_blank(s: Seq<char>) -> bool {
    forall|i: int| 0 <= i < s.len() ==> unicode::is_space(#[trigger] s[i])
}

proof fn lemma_trim_start_of_padded(before: Seq<char>, s: Seq<char>)
    requires
        is_blank(before),
    ensures
        trim_start(before + s) == trim_start(s),
    decreases before.len(),
{
    if before.len() > 0 {
        assert(unicode::is_space(before[0]));
        assert((before + s).drop_first() =~= before.drop_first() + s);
        lemma_trim_start_of_padded(before.drop_first(), s);
    } else {
        assert(before + s =~= s);
    }
}

proof fn lemma_trim_end_of_padded(s: Seq<char>, after: Seq<char>)
    requires
        is_blank(after),
    ensures
        trim_end(s + after) == trim_end(s),
    decreases after.len(),
{
    if after.len() > 0 {
        assert(unicode::is_space(after[after.len() - 1]));
        assert((s + after).drop_last() =~= s + after.drop_last());
        lemma_trim_end_of_padded(s, after.drop_last());
    } else {
        assert(s + after =~= s);
    }
}

/// White space at the end stays when the start is trimmed, unless there is nothing else.
proof fn lemma_trim_start_keeps_the_end(s: Seq<char>, after: Seq<char>)
    requires
        is_blank(after),
    ensures
        trim_start(s + after) == (if trim_start(s).len() > 0 {
            trim_start(s) + after
        } else {
            Seq::empty()
        }),
    decreases s.len(),
{
    if s.len() == 0 {
        assert(s + after =~= after + Seq::<char>::empty());
        lemma_trim_start_of_padded(after, Seq::empty());
    } else if unicode::is_space(s[0]) {
        assert((s + after).drop_first() =~= s.drop_first() + after);
        lemma_trim_start_keeps_the_end(s.drop_first(), after);
    }
}

/// White space around a text is trimmed away.
pub proof fn lemma_trim_of_padded(before: Seq<char>, s: Seq<char>, after: Seq<char>)
    requires
        is_blank(before),
        is_blank(after),
    ensures
        trimmed(before + s + after) == trimmed(s),
{
    assert(before + s + after =~= before + (s + after));
    lemma_trim_start_of_padded(before, s + after);
    lemma_trim_start_keeps_the_end(s, after);
    lemma_trim_end_of_padded(trim_start(s), after);
}

/// A part stands inside a text exactly if the text is something, then the part, then something.
pub proof fn law_parts_stand_inside(part: Seq<char>, whole: Seq<char>)
    ensures
        occurs_in(part, whole) <==> exists|before: Seq<char>, after: Seq<char>|
            whole == #[trigger] (before + part + after),
{
    if occurs_in(part, whole) {
        let i = choose|i: int|
            0 <= i <= whole.len() - part.len() && #[trigger] whole.subrange(i, i + part.len())
                == part;
        let (before, after) = (whole.take(i), whole.skip(i + part.len()));
        assert(whole =~= before + part + after) by {
            assert forall|k: int| 0 <= k < whole.len() implies whole[k] == (before + part
                + after)[k] by {
                if i <= k < i + part.len() {
                    assert(whole.subrange(i, i + part.len())[k - i] == part[k - i]);
                }
            }
        }
    }
    if exists|before: Seq<char>, after: Seq<char>| whole == #[trigger] (before + part + after) {
        let (before, after) = choose|before: Seq<char>, after: Seq<char>|
            whole == #[trigger] (before + part + after);
        let i = before.len() as int;
        assert(whole.subrange(i, i + part.len()) =~= part);
    }
}

/// A text is all digits exactly if no character of it is other than `0` to `9`.
pub proof fn law_all_digits(s: Seq<char>)
    ensures
        all_digits(s) <==> forall|i: int| 0 <= i < s.len() ==> '0' <= #[trigger] s[i] <= '9',
{
    if all_digits(s) {
        assert forall|i: int| 0 <= i < s.len() implies '0' <= #[trigger] s[i] <= '9' by {
            assert(unicode::is_digit(s[i]));
        }
    }
}

/// Making letters small goes character by character: `A` to `Z` become `a` to `z`, and nothing
/// else changes.
pub proof fn law_lower_goes_by_characters(s: Seq<char>, i: int)
    requires
        0 <= i < s.len(),
    ensures
        ascii_lower(s).len() == s.len(),
        'A' <= s[i] <= 'Z' ==> ascii_lower(s)[i] as u32 == s[i] as u32 + 32,
        !('A' <= s[i] <= 'Z') ==> ascii_lower(s)[i] == s[i],
{
}

/// A text is its trimmed form with white space around it, and the trimmed form neither starts nor
/// ends with white space.
pub proof fn law_trimming_removes_the_white_space_around(s: Seq<char>)
    ensures
        exists|i: int, j: int|
            {
                &&& 0 <= i <= j <= s.len()
                &&& trimmed(s) == #[trigger] s.subrange(i, j)
                &&& forall|k: int|
                    (0 <= k < i || j <= k < s.len()) ==> unicode::is_space(#[trigger] s[k])
            },
        trimmed(s).len() > 0 ==> !unicode::is_space(trimmed(s)[0]) && !unicode::is_space(
            trimmed(s).last(),
        ),
{
    let i = lemma_trim_start_cuts(s);
    let t = trim_start(s);
    let n = lemma_trim_end_cuts(t);
    assert(trimmed(s) =~= s.subrange(i, i + n));
    assert forall|k: int| (0 <= k < i || i + n <= k < s.len()) implies unicode::is_space(
        #[trigger] s[k],
    ) by {
        if k >= i {
            assert(t[k - i] == s[k]);
        }
    }
    if trimmed(s).len() > 0 {
        assert(trimmed(s)[0] == t[0]);
    }
}

proof fn lemma_trim_start_cuts(s: Seq<char>) -> (i: int)
    ensures
        0 <= i <= s.len(),
        trim_start(s) == s.skip(i),
        forall|k: int| 0 <= k < i ==> unicode::is_space(#[trigger] s[k]),
        i < s.len() ==> !unicode::is_space(s[i]),
    decreases s.len(),
{
    if s.len() > 0 && unicode::is_space(s[0]) {
        let rest = s.drop_first();
        let i = lemma_trim_start_cuts(rest);
        assert(rest.skip(i) =~= s.skip(i + 1));
        assert forall|k: int| 0 <= k < i + 1 implies unicode::is_space(#[trigger] s[k]) by {
            if k > 0 {
                assert(rest[k - 1] == s[k]);
            }
        }
        i + 1
    } else {
        assert(s.skip(0) =~= s);
        0
    }
}

proof fn lemma_trim_end_cuts(s: Seq<char>) -> (n: int)
    ensures
        0 <= n <= s.len(),
        trim_end(s) == s.take(n),
        forall|k: int| n <= k < s.len() ==> unicode::is_space(#[trigger] s[k]),
        n > 0 ==> !unicode::is_space(s[n - 1]),
    decreases s.len(),
{
    if s.len() > 0 && unicode::is_space(s.last()) {
        let rest = s.drop_last();
        let n = lemma_trim_end_cuts(rest);
        assert(rest.take(n) =~= s.take(n));
        assert forall|k: int| n <= k < s.len() implies unicode::is_space(#[trigger] s[k]) by {
            if k < rest.len() {
                assert(rest[k] == s[k]);
            }
        }
        n
    } else {
        assert(s.take(s.len() as int) =~= s);
        s.len() as int
    }
}

/// A text without the separator is one part. A separator ends a part and starts another: the parts
/// of two texts with a separator between them are those of the first and those of the second.
pub proof fn law_splitting_at_a_separator(a: Seq<char>, b: Seq<char>, sep: char)
    ensures
        !a.contains(sep) ==> split_on(a, sep) == seq![a],
        split_on(a.push(sep) + b, sep) == split_on(a, sep) + split_on(b, sep),
    decreases a.len() + b.len(),
{
    if !a.contains(sep) {
        lemma_split_without(a, sep);
    }
    let whole = a.push(sep) + b;
    lemma_split_nonempty(a, sep);
    lemma_split_nonempty(b, sep);
    if b.len() == 0 {
        assert(whole =~= a.push(sep));
        assert(whole.drop_last() =~= a);
        assert(split_on(whole, sep) =~= split_on(a, sep) + split_on(b, sep));
    } else {
        let front = b.drop_last();
        law_splitting_at_a_separator(a, front, sep);
        lemma_split_nonempty(front, sep);
        assert(whole.drop_last() =~= a.push(sep) + front);
        assert(whole.last() == b.last());
        assert(split_on(whole, sep) =~= split_on(a, sep) + split_on(b, sep));
    }
}

proof fn lemma_split_without(s: Seq<char>, sep: char)
    requires
        !s.contains(sep),
    ensures
        split_on(s, sep) == seq![s],
    decreases s.len(),
{
    if s.len() > 0 {
        let front = s.drop_last();
        assert forall|i: int| 0 <= i < front.len() implies front[i] != sep by {
            assert(s.contains(s[i]));
        }
        assert(!front.contains(sep));
        assert(s.contains(s[s.len() - 1]));
        lemma_split_without(front, sep);
        assert(front.push(s.last()) =~= s);
        assert(split_on(s, sep) =~= seq![s]);
    } else {
        assert(s =~= Seq::<char>::empty());
        assert(split_on(s, sep) =~= seq![s]);
    }
}

/// Replacing changes the first occurrence and goes on behind it; what stands before the first
/// occurrence stays, and a text without one stays whole.
pub proof fn law_replacing_goes_from_left_to_right(
    s: Seq<char>,
    from: Seq<char>,
    to: Seq<char>,
    i: int,
)
    requires
        from.len() > 0,
    ensures
        (forall|k: int| 0 <= k <= s.len() - from.len() ==> #[trigger] s.subrange(k, k + from.len())
            != from) ==> replaced(s, from, to) == s,
        ({
            &&& 0 <= i <= s.len() - from.len()
            &&& s.subrange(i, i + from.len()) == from
            &&& forall|k: int| 0 <= k < i ==> #[trigger] s.subrange(k, k + from.len()) != from
        }) ==> replaced(s, from, to) == s.take(i) + to + replaced(
            s.skip(i + from.len()),
            from,
            to,
        ),
    decreases s.len(),
{
    let n = from.len() as int;
    if s.len() >= n {
        let rest = s.skip(1);
        assert(s.subrange(0, 0 + n) =~= s.take(n));
        if forall|k: int| 0 <= k <= s.len() - n ==> #[trigger] s.subrange(k, k + n) != from {
            assert(s.subrange(0, 0 + n) != from);
            assert forall|k: int| 0 <= k <= rest.len() - n implies #[trigger] rest.subrange(
                k,
                k + n,
            ) != from by {
                assert(rest.subrange(k, k + n) =~= s.subrange(k + 1, k + 1 + n));
            }
            law_replacing_goes_from_left_to_right(rest, from, to, -1);
            assert(seq![s[0]] + rest =~= s);
        }
        if 0 <= i <= s.len() - n && s.subrange(i, i + n) == from && (forall|k: int|
            0 <= k < i ==> #[trigger] s.subrange(k, k + n) != from) {
            if i == 0 {
                assert(s.take(0) + to =~= to);
            } else {
                assert(s.subrange(0, 0 + n) != from);
                assert(rest.subrange(i - 1, i - 1 + n) =~= s.subrange(i, i + n));
                assert forall|k: int| 0 <= k < i - 1 implies #[trigger] rest.subrange(k, k + n)
                    != from by {
                    assert(rest.subrange(k, k + n) =~= s.subrange(k + 1, k + 1 + n));
                }
                law_replacing_goes_from_left_to_right(rest, from, to, i - 1);
                assert(rest.skip(i - 1 + n) =~= s.skip(i + n));
                assert(seq![s[0]] + (rest.take(i - 1) + to + replaced(s.skip(i + n), from, to))
                    =~= s.take(i) + to + replaced(s.skip(i + n), from, to));
            }
        }
    }
}

/// A list of strings holds their texts, one by one.
pub proof fn law_texts_of_a_list(list: Seq<String>)
    ensures
        texts(list).len() == list.len(),
        forall|i: int| 0 <= i < list.len() ==> #[trigger] texts(list)[i] == list[i]@,
{
}

} // verus!
