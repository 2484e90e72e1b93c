use matea_switcher::dictionaries::{
    convert_affixes, convert_words, dictionary_paths, ensure_utf8_dicts, require_dictionaries,
    utf8_affixes, utf8_words, CacheStep, DictError,
};

#[test]
fn koi8r_words_become_utf8() {
    let raw = [0xd0, 0xd2, 0xc9, 0xd7, 0xc5, 0xd4, b'/', b'A', b'\n', 0xa3, 0xb3];
    assert_eq!(convert_words(&raw).unwrap(), "привет/A\nёЁ");
}

#[test]
fn every_koi8r_byte_gives_one_character() {
    for b in 0..=255u8 {
        let text = convert_words(&[b]).unwrap();
        assert_eq!(text.chars().count(), 1);
        assert_eq!(b < 0x80, text.is_ascii());
        if b < 0x80 {
            assert_eq!(text.as_bytes(), [b]);
        }
    }
}

#[test]
fn affixes_declare_utf8_afterwards() {
    let mut raw = b"SET KOI8-R\nTRY ".to_vec();
    raw.extend([0xcf, 0xc1]);
    assert_eq!(convert_affixes(&raw).unwrap(), "SET UTF-8\nTRY оа");
    let twice = convert_affixes(b"SET KOI8-R SET KOI8-RSET").unwrap();
    assert_eq!(twice, "SET UTF-8 SET UTF-8SET");
    assert!(!twice.contains("SET KOI8-R"));
}

#[test]
fn a_byte_order_mark_leads_to_another_decoder() {
    assert_eq!(convert_words(&[0xef, 0xbb, 0xbf, 0xd0, 0xbf]).unwrap(), "п");
    match convert_words(&[0xef, 0xbb, 0xbf, 0xff]) {
        Err(DictError::Undecodable { file }) => assert_eq!(file, "ru_RU.dic"),
        other => panic!("{other:?}"),
    }
    match convert_affixes(&[0xef, 0xbb, 0xbf, 0xff]) {
        Err(DictError::Undecodable { file }) => assert_eq!(file, "ru_RU.aff"),
        other => panic!("{other:?}"),
    }
}

#[test]
fn decoded_files() {
    assert_eq!(utf8_affixes("SET KOI8-R", false).unwrap(), "SET UTF-8");
    assert_eq!(utf8_affixes("set koi8-r", false).unwrap(), "set koi8-r");
    assert_eq!(utf8_words("SET KOI8-R".to_string(), false).unwrap(), "SET KOI8-R");
    let e = utf8_affixes("", true).unwrap_err();
    assert_eq!(e.message(), "KOI8-R decode of ru_RU.aff produced errors");
    let e = utf8_words(String::new(), true).unwrap_err();
    assert_eq!(e.message(), "KOI8-R decode of ru_RU.dic produced errors");
}

#[test]
fn only_missing_files_are_made() {
    assert!(ensure_utf8_dicts(true, true, true, true).is_empty());
    assert_eq!(
        ensure_utf8_dicts(false, false, false, false),
        vec![
            CacheStep::CopyEnglishAffixes,
            CacheStep::CopyEnglishWords,
            CacheStep::ConvertRussianAffixes,
            CacheStep::ConvertRussianWords,
        ]
    );
    assert_eq!(
        ensure_utf8_dicts(true, false, false, true),
        vec![CacheStep::CopyEnglishWords, CacheStep::ConvertRussianAffixes]
    );
}

#[test]
fn the_first_missing_dictionary_is_named() {
    let paths = dictionary_paths("/cache");
    assert_eq!(
        paths,
        vec!["/cache/en_US.aff", "/cache/en_US.dic", "/cache/ru_RU.aff", "/cache/ru_RU.dic"]
    );
    assert!(require_dictionaries(&paths, &[true; 4]).is_ok());
    let e = require_dictionaries(&paths, &[true, false, false, true]).unwrap_err();
    assert_eq!(e.message(), "hunspell dict not found: /cache/en_US.dic");
}
