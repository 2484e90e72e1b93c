//! The dictionaries in UTF-8.
//!
//! The system keeps the Russian dictionary in KOI8-R, and the spell checker reads UTF-8. So the
//! dictionaries are kept once more in a cache: the English ones are copied, the Russian ones are
//! decoded, and the line that declares their encoding is rewritten.

use vstd::prelude::*;

use crate::text;

verus! {

/// Why the dictionaries cannot be used.
#[derive(Debug, Clone)]
pub enum DictError {
    /// A file of the system does not decode.
    Undecodable {
        /// The name of the file.
        file: String,
    },
    /// A file is not there.
    NotFound {
        /// The path of the file.
        path: String,
    },
}

impl DictError {
    /// What the user is told.
    pub open spec fn message_text(&self) -> Seq<char> {
        match self {
            DictError::Undecodable { file } => "KOI8-R decode of "@ + file@ + " produced errors"@,
            DictError::NotFound { path } => "hunspell dict not found: "@ + path@,
        }
    }

    /// What the user is told.
    pub fn message(&self) -> (m: String)
        ensures
            m@ == self.message_text(),
            match self {
                DictError::Undecodable { file } => m@ == "KOI8-R decode of "@ + file@
                    + " produced errors"@,
                DictError::NotFound { path } => m@ == "hunspell dict not found: "@ + path@,
            },
    {
        let mut m = String::new();
        match self {
            DictError::Undecodable { file } => {
                m.append("KOI8-R decode of ");
                m.append(file.as_str());
                m.append(" produced errors");
            },
            DictError::NotFound { path } => {
                m.append("hunspell dict not found: ");
                m.append(path.as_str());
            },
        }
        proof {
            assert(m@ =~= self.message_text());
        }
        m
    }
}

/// One file that has to be put into the cache.
#[derive(Debug, Clone, Copy, PartialEq, Eq, Structural)]
pub enum CacheStep {
    /// Copy the English affix file.
    CopyEnglishAffixes,
    /// Copy the English word list.
    CopyEnglishWords,
    /// Decode the Russian affix file.
    ConvertRussianAffixes,
    /// Decode the Russian word list.
    ConvertRussianWords,
}

/// The step, unless the file is in the cache already.
pub open spec fn step_if(present: bool, step: CacheStep) -> Seq<CacheStep> {
    if present {
        seq![]
    } else {
        seq![step]
    }
}

/// The files that are not in the cache yet, in the order in which they are made. What is there
/// is kept as it is.
pub fn ensure_utf8_dicts(en_aff: bool, en_dic: bool, ru_aff: bool, ru_dic: bool) -> (steps: Vec<
    CacheStep,
>)
    ensures
        steps@ == step_if(en_aff, CacheStep::CopyEnglishAffixes) + step_if(
            en_dic,
            CacheStep::CopyEnglishWords,
        ) + step_if(ru_aff, CacheStep::ConvertRussianAffixes) + step_if(
            ru_dic,
            CacheStep::ConvertRussianWords,
        ),
        steps@.contains(CacheStep::CopyEnglishAffixes) <==> !en_aff,
        steps@.contains(CacheStep::CopyEnglishWords) <==> !en_dic,
        steps@.contains(CacheStep::ConvertRussianAffixes) <==> !ru_aff,
        steps@.contains(CacheStep::ConvertRussianWords) <==> !ru_dic,
        steps@.no_duplicates(),
{
    let mut steps: Vec<CacheStep> = Vec::new();
    if !en_aff {
        steps.push(CacheStep::CopyEnglishAffixes);
    }
    if !en_dic {
        steps.push(CacheStep::CopyEnglishWords);
    }
    if !ru_aff {
        steps.push(CacheStep::ConvertRussianAffixes);
    }
    if !ru_dic {
        steps.push(CacheStep::ConvertRussianWords);
    }
    proof {
        assert(steps@ =~= step_if(en_aff, CacheStep::CopyEnglishAffixes) + step_if(
            en_dic,
            CacheStep::CopyEnglishWords,
        ) + step_if(ru_aff, CacheStep::ConvertRussianAffixes) + step_if(
            ru_dic,
            CacheStep::ConvertRussianWords,
        ));
        lemma_steps(steps@, en_aff, en_dic, ru_aff, ru_dic);
    }
    steps
}

proof fn lemma_steps(steps: Seq<CacheStep>, a: bool, b: bool, c: bool, d: bool)
    requires
        steps == step_if(a, CacheStep::CopyEnglishAffixes) + step_if(
            b,
            CacheStep::CopyEnglishWords,
        ) + step_if(c, CacheStep::ConvertRussianAffixes) + step_if(
            d,
            CacheStep::ConvertRussianWords,
        ),
    ensures
        steps.contains(CacheStep::CopyEnglishAffixes) <==> !a,
        steps.contains(CacheStep::CopyEnglishWords) <==> !b,
        steps.contains(CacheStep::ConvertRussianAffixes) <==> !c,
        steps.contains(CacheStep::ConvertRussianWords) <==> !d,
        steps.no_duplicates(),
{
    let (s1, s2, s3, s4) = (
        step_if(a, CacheStep::CopyEnglishAffixes),
        step_if(b, CacheStep::CopyEnglishWords),
        step_if(c, CacheStep::ConvertRussianAffixes),
        step_if(d, CacheStep::ConvertRussianWords),
    );
    if !a {
        assert(steps[0] == CacheStep::CopyEnglishAffixes);
    }
    if !b {
        assert(steps[s1.len() as int] == CacheStep::CopyEnglishWords);
    }
    if !c {
        assert(steps[(s1.len() + s2.len()) as int] == CacheStep::ConvertRussianAffixes);
    }
    if !d {
        assert(steps[(s1.len() + s2.len() + s3.len()) as int] == CacheStep::ConvertRussianWords);
    }
}

/// What decoding a file from KOI8-R gives: its text, and whether some bytes could not be decoded.
pub uninterp spec fn koi8r_decoded(raw: Seq<u8>) -> (Seq<char>, bool);

/// The bytes start with the byte order mark of UTF-8 or UTF-16.
pub open spec fn has_byte_order_mark(raw: Seq<u8>) -> bool {
    ||| raw.len() >= 3 && raw[0] == 0xef && raw[1] == 0xbb && raw[2] == 0xbf
    ||| raw.len() >= 2 && raw[0] == 0xff && raw[1] == 0xfe
    ||| raw.len() >= 2 && raw[0] == 0xfe && raw[1] == 0xff
}

/// The bytes are few enough for the buffers of the decoder, which can take several times as
/// much.
pub open spec fn fits_decoder(raw: Seq<u8>) -> bool {
    raw.len() <= isize::MAX / 8
}

/// `encoding_rs::KOI8_R.decode`: a function of the bytes alone. Without a byte order mark every
/// byte gives one character, an ASCII byte itself, and nothing is undecodable. What the other
/// bytes give, and what a mark in front leads to, is left to the name.
#[verifier::external_body]
fn decode_koi8r(raw: &[u8]) -> (r: (String, bool))
    requires
        fits_decoder(raw@),
    ensures
        (r.0@, r.1) == koi8r_decoded(raw@),
        !has_byte_order_mark(raw@) ==> !r.1 && r.0@.len() == raw@.len() && forall|i: int|
            0 <= i < raw@.len() && raw@[i] < 0x80 ==> #[trigger] r.0@[i] == raw@[i] as char,
{
    let (decoded, _, had_errors) = encoding_rs::KOI8_R.decode(raw);
    (decoded.into_owned(), had_errors)
}

/// The Russian affix file for the cache, from its decoded text: the declaration of the encoding
/// is changed to UTF-8.
pub fn utf8_affixes(decoded: &str, had_errors: bool) -> (r: Result<String, DictError>)
    ensures
        had_errors ==> (r matches Err(DictError::Undecodable { file }) && file@ == "ru_RU.aff"@),
        !had_errors ==> (r matches Ok(t) && t@ == text::replaced(
            decoded@,
            "SET KOI8-R"@,
            "SET UTF-8"@,
        )),
{
    if had_errors {
        return Err(DictError::Undecodable { file: text::owned("ru_RU.aff") });
    }
    proof {
        reveal_strlit("SET KOI8-R");
    }
    Ok(text::replace_text(decoded, "SET KOI8-R", "SET UTF-8"))
}

/// The Russian word list for the cache, from its decoded text.
pub fn utf8_words(decoded: String, had_errors: bool) -> (r: Result<String, DictError>)
    ensures
        had_errors ==> (r matches Err(DictError::Undecodable { file }) && file@ == "ru_RU.dic"@),
        !had_errors ==> (r matches Ok(t) && t@ == decoded@),
{
    if had_errors {
        return Err(DictError::Undecodable { file: text::owned("ru_RU.dic") });
    }
    Ok(decoded)
}

/// The Russian affix file for the cache, from the bytes of the system's file.
pub fn convert_affixes(raw: &[u8]) -> (r: Result<String, DictError>)
    requires
        fits_decoder(raw@),
    ensures
        koi8r_decoded(raw@).1 ==> (r matches Err(DictError::Undecodable { file }) && file@
            == "ru_RU.aff"@),
        !koi8r_decoded(raw@).1 ==> (r matches Ok(t) && t@ == text::replaced(
            koi8r_decoded(raw@).0,
            "SET KOI8-R"@,
            "SET UTF-8"@,
        )),
        !has_byte_order_mark(raw@) ==> r is Ok,
{
    let (decoded, had_errors) = decode_koi8r(raw);
    utf8_affixes(decoded.as_str(), had_errors)
}

/// The Russian word list for the cache, from the bytes of the system's file.
pub fn convert_words(raw: &[u8]) -> (r: Result<String, DictError>)
    requires
        fits_decoder(raw@),
    ensures
        koi8r_decoded(raw@).1 ==> (r matches Err(DictError::Undecodable { file }) && file@
            == "ru_RU.dic"@),
        !koi8r_decoded(raw@).1 ==> (r matches Ok(t) && t@ == koi8r_decoded(raw@).0),
        !has_byte_order_mark(raw@) ==> (r matches Ok(t) && t@.len() == raw@.len() && forall|i: int|
            0 <= i < raw@.len() && raw@[i] < 0x80 ==> #[trigger] t@[i] == raw@[i] as char),
{
    let (decoded, had_errors) = decode_koi8r(raw);
    utf8_words(decoded, had_errors)
}

/// The paths of the four files in the cache: affixes and words, English and Russian.
pub fn dictionary_paths(cache_dir: &str) -> (paths: Vec<String>)
    ensures
        text::texts(paths@) == seq![
            cache_dir@ + "/en_US.aff"@,
            cache_dir@ + "/en_US.dic"@,
            cache_dir@ + "/ru_RU.aff"@,
            cache_dir@ + "/ru_RU.dic"@,
        ],
{
    let mut paths: Vec<String> = Vec::new();
    paths.push(text::owned(cache_dir).concat("/en_US.aff"));
    paths.push(text::owned(cache_dir).concat("/en_US.dic"));
    paths.push(text::owned(cache_dir).concat("/ru_RU.aff"));
    paths.push(text::owned(cache_dir).concat("/ru_RU.dic"));
    proof {
        assert(text::texts(paths@) =~= seq![
            cache_dir@ + "/en_US.aff"@,
            cache_dir@ + "/en_US.dic"@,
            cache_dir@ + "/ru_RU.aff"@,
            cache_dir@ + "/ru_RU.dic"@,
        ]);
    }
    paths
}

/// Whether all files are there; if not, the error names the first that is missing.
pub fn require_dictionaries(paths: &[String], present: &[bool]) -> (r: Result<(), DictError>)
    requires
        paths@.len() == present@.len(),
    ensures
        r is Ok <==> forall|i: int| 0 <= i < present@.len() ==> present@[i],
        r matches Err(e) ==> exists|i: int|
            {
                &&& 0 <= i < present@.len()
                &&& !#[trigger] present@[i]
                &&& forall|j: int| 0 <= j < i ==> present@[j]
                &&& e matches DictError::NotFound { path } && path@ == paths@[i]@
            },
{
    let mut i: usize = 0;
    while i < paths.len()
        invariant
            paths@.len() == present@.len(),
            0 <= i <= paths@.len(),
            forall|j: int| 0 <= j < i ==> present@[j],
        decreases paths@.len() - i,
    {
        if !present[i] {
            return Err(DictError::NotFound { path: paths[i].clone() });
        }
        i += 1;
    }
    Ok(())
}

/// A text that the replacement starts with, and that cannot begin an occurrence, was there
/// before.
proof fn lemma_start_was_there(s: Seq<char>, from: Seq<char>, to: Seq<char>, start: Seq<char>)
    requires
        from.len() > 0,
        to.len() > 0,
        forall|i: int| 0 <= i < start.len() ==> start[i] != to[0],
        text::replaced(s, from, to).len() >= start.len(),
        text::replaced(s, from, to).take(start.len() as int) == start,
    ensures
        s.len() >= start.len(),
        s.take(start.len() as int) == start,
    decreases start.len(),
{
    let r = text::replaced(s, from, to);
    if start.len() == 0 {
        assert(s.take(0) =~= start);
    } else if s.len() < from.len() {
        assert(r == s);
    } else {
        assert(r[0] == r.take(start.len() as int)[0]);
        if s.take(from.len() as int) == from {
            assert(r[0] == to[0]);
        } else {
            let rest = text::replaced(s.skip(1), from, to);
            let tail = start.drop_first();
            assert(r == seq![s[0]] + rest);
            assert(rest.take(tail.len() as int) =~= r.take(start.len() as int).drop_first());
            assert(r.take(start.len() as int).drop_first() == tail);
            lemma_start_was_there(s.skip(1), from, to, tail);
            assert(s.take(start.len() as int) =~= start) by {
                assert forall|k: int| 0 <= k < start.len() implies s[k] == start[k] by {
                    if k > 0 {
                        assert(s.skip(1).take(tail.len() as int)[k - 1] == tail[k - 1]);
                        assert(tail[k - 1] == start[k]);
                    }
                }
            }
        }
    }
}

/// After the conversion the affix file no longer declares KOI8-R anywhere.
pub proof fn law_affixes_declare_utf8(decoded: Seq<char>)
    ensures
        !text::occurs_in(
            "SET KOI8-R"@,
            text::replaced(decoded, "SET KOI8-R"@, "SET UTF-8"@),
        ),
    decreases decoded.len(),
{
    reveal_strlit("SET KOI8-R");
    reveal_strlit("SET UTF-8");
    let from = "SET KOI8-R"@;
    let to = "SET UTF-8"@;
    let n = from.len() as int;
    let r = text::replaced(decoded, from, to);
    if decoded.len() >= n {
        let (head, rest) = if decoded.take(n) == from {
            (to, decoded.skip(n))
        } else {
            (seq![decoded[0]], decoded.skip(1))
        };
        let done = text::replaced(rest, from, to);
        law_affixes_declare_utf8(rest);
        assert(r == head + done);
        assert forall|i: int| 0 <= i <= r.len() - n implies #[trigger] r.subrange(i, i + n)
            != from by {
            let found = r.subrange(i, i + n);
            if i >= head.len() {
                assert(found =~= done.subrange(i - head.len(), i - head.len() + n));
            } else if decoded.take(n) == from {
                assert(found[0] == to[i]);
                if i == 0 {
                    assert(found[4] == to[4]);
                }
            } else if found == from {
                let tail = from.drop_first();
                assert(done.take(n - 1) =~= found.drop_first());
                lemma_start_was_there(rest, from, to, tail);
                assert(decoded.take(n) =~= from) by {
                    assert forall|k: int| 0 <= k < n implies decoded[k] == from[k] by {
                        if k == 0 {
                            assert(found[0] == decoded[0]);
                        } else {
                            assert(rest.take(n - 1)[k - 1] == tail[k - 1]);
                        }
                    }
                }
            }
        }
    }
}

} // verus!
