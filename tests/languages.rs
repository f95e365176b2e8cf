use random_word::{all, all_starts_with, gen, gen_starts_with, Catalog, Codec, Lang};
use unicase::UniCase;

const LANGS: [Lang; 4] = [Lang::De, Lang::En, Lang::Es, Lang::Fr];
const VOWELS: [char; 5] = ['a', 'e', 'i', 'o', 'u'];

fn word_list(lang: Lang) -> &'static str {
    match lang {
        Lang::De => "Abend\nacht\nApfel\nBaum\nEcke\nEis\nessen\nIgel\nimmer\nOfen\noft\nUhr\nund\nzwei",
        Lang::En => "able\napple\nBoat\nearly\nEcho\nice\nidea\nOcean\nold\nunder\nUnit\nzoo",
        Lang::Es => "agua\nel\nella\nigual\nisla\nojo\nOro\nuno\nUva\nzapato\nÁrbol\nárbol",
        Lang::Fr => "ami\nAvion\neau\nEtre\nici\nil\noeuf\noui\nune\nusine\nâge\nécole\nîle",
        _ => "a",
    }
}

fn brotli_bytes(text: &str) -> Vec<u8> {
    let mut input = text.as_bytes();
    let mut out = Vec::new();
    let params = brotli::enc::BrotliEncoderParams::default();
    brotli::BrotliCompress(&mut input, &mut out, &params).unwrap();
    out
}

fn catalog() -> Catalog {
    let mut catalog = Catalog::new();
    for lang in LANGS {
        let archive = brotli_bytes(word_list(lang));
        catalog.load(lang, Codec::Brotli, &archive).unwrap();
    }
    catalog
}

fn is_sorted(word_list: &[String]) -> bool {
    let mut sorted_word_list = word_list.to_vec();
    sorted_word_list.sort_by_key(|s| UniCase::new(s.clone()));
    word_list == &sorted_word_list[..]
}

#[test]
fn tests_test_gen() {
    let catalog = catalog();
    for lang in &LANGS {
        let word = gen(&catalog, *lang);
        assert!(word.len() > 0, "Generated word should not be empty.");
    }
}

#[test]
fn tests_test_gen_starts_with() {
    let catalog = catalog();
    for lang in &LANGS {
        for ch in &VOWELS {
            let word = gen_starts_with(&catalog, *ch, *lang);
            assert!(word.is_some(), "Should return Some for a valid language and character.");
            let word_str = word.unwrap();
            assert!(word_str.len() > 0, "Generated word should not be empty.");
            assert_eq!(
                word_str.chars().next().unwrap(),
                *ch,
                "Generated word should start with the specified character."
            );
        }
    }
}

#[test]
fn tests_test_all_starts_with() {
    let catalog = catalog();
    let supported_char = 'a';
    let unsupported_char = '1';

    for lang in &LANGS {
        let word_list = all_starts_with(&catalog, unsupported_char, *lang);
        assert!(word_list.is_none(), "Should return None for an unsupported character.");

        let word_list = all_starts_with(&catalog, supported_char, *lang);
        assert!(word_list.is_some(), "Should return Some for a supported character.");

        let word_list = word_list.unwrap();
        assert!(is_sorted(word_list), "Returned array should be sorted.");

        for word in word_list {
            assert_eq!(
                word.chars().next().unwrap(),
                supported_char,
                "All words should start with the specified character."
            );
        }
    }
}

#[test]
fn tests_test_all() {
    let catalog = catalog();
    for lang in &LANGS {
        let word_list = all(&catalog, *lang);
        assert!(!word_list.is_empty());
        assert!(is_sorted(word_list), "Returned array should be sorted.");
    }
}

#[test]
fn mod_test_gen() {
    let catalog = catalog();
    for lang in &LANGS {
        let words = catalog.words(*lang).unwrap();
        let word = words.gen();
        assert!(word.len() > 0, "Generated word should not be empty.");
    }
}

#[test]
fn mod_test_gen_starts_with() {
    let catalog = catalog();
    for lang in &LANGS {
        let words = catalog.words(*lang).unwrap();
        for ch in &VOWELS {
            let word = words.gen_starts_with(*ch);
            assert!(word.is_some(), "Should return Some for a valid language and character.");
            let word_str = word.unwrap();
            assert!(word_str.len() > 0, "Generated word should not be empty.");
            assert_eq!(
                word_str.chars().next().unwrap(),
                *ch,
                "Generated word should start with the specified character."
            );
        }
    }
}

#[test]
fn mod_test_all_starts_with() {
    let catalog = catalog();
    let supported_char = 'a';
    let unsupported_char = '1';

    for lang in &LANGS {
        let words = catalog.words(*lang).unwrap();

        let word_list = words.all_starts_with(unsupported_char);
        assert!(word_list.is_none(), "Should return None for an unsupported character.");

        let word_list = words.all_starts_with(supported_char);
        assert!(word_list.is_some(), "Should return Some for a supported character.");

        let word_list = word_list.unwrap();
        assert!(is_sorted(word_list), "Returned array should be sorted.");

        for word in word_list {
            assert_eq!(
                word.chars().next().unwrap(),
                supported_char,
                "All words should start with the specified character."
            );
        }
    }
}

#[test]
fn test_all_len() {
    let catalog = catalog();
    for lang in &LANGS {
        for len in [1, 2, 3, 4, 5, 6, 7, 8, 9, 10, 11, 12, 13, 14, 15] {
            let words = catalog.words(*lang).unwrap();

            if let Some(word_list) = words.all_len(len) {
                assert!(is_sorted(word_list), "Returned array should be sorted.");
                for word in word_list {
                    assert_eq!(word.chars().count(), len, "All words should be of equal length");
                }
            }
        }
    }
}

#[test]
fn mod_test_all() {
    let catalog = catalog();
    for lang in &LANGS {
        let words = catalog.words(*lang).unwrap();
        let word_list = words.all();
        assert!(!word_list.is_empty());
        assert!(is_sorted(word_list), "Returned array should be sorted.");
    }
}
