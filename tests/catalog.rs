use random_word::{
    all, all_len, all_len_starts_with, all_starts_with, decompress_to_string, gen, gen_len,
    gen_len_starts_with, gen_starts_with, ArchiveError, Catalog, Codec, CorpusError, Lang,
    LoadError,
};

fn brotli_bytes(text: &[u8]) -> Vec<u8> {
    let mut input = text;
    let mut out = Vec::new();
    let params = brotli::enc::BrotliEncoderParams::default();
    brotli::BrotliCompress(&mut input, &mut out, &params).unwrap();
    out
}

fn deflate_bytes(text: &[u8]) -> Vec<u8> {
    miniz_oxide::deflate::compress_to_vec(text, 6)
}

#[test]
fn brotli_archive_decompresses() {
    let archive = brotli_bytes(b"car\ncat\ndog\n");
    assert_ne!(archive, b"car\ncat\ndog\n".to_vec());
    assert_eq!(decompress_to_string(Codec::Brotli, &archive).unwrap(), "car\ncat\ndog\n");
}

#[test]
fn deflate_archive_decompresses() {
    let archive = deflate_bytes("äpfel\nöl\n".as_bytes());
    assert_eq!(decompress_to_string(Codec::Deflate, &archive).unwrap(), "äpfel\nöl\n");
}

#[test]
fn archive_errors() {
    let garbage = [0xffu8, 0x00, 0x13, 0x37, 0x42];
    assert_eq!(decompress_to_string(Codec::Deflate, &garbage).err(), Some(ArchiveError::Decompress));
    assert_eq!(decompress_to_string(Codec::Brotli, &garbage).err(), Some(ArchiveError::Decompress));
    let bad_text = brotli_bytes(&[b'a', 0xff, b'\n']);
    assert_eq!(decompress_to_string(Codec::Brotli, &bad_text).err(), Some(ArchiveError::Utf8));
    let bad_text = deflate_bytes(&[0xc3, b'\n']);
    assert_eq!(decompress_to_string(Codec::Deflate, &bad_text).err(), Some(ArchiveError::Utf8));
}

#[test]
fn catalog_answers_for_a_loaded_language() {
    let mut catalog = Catalog::new();
    assert!(!catalog.is_loaded(Lang::En));
    let archive = brotli_bytes(b"car\ncat\ndog");
    assert_eq!(catalog.load(Lang::En, Codec::Brotli, &archive), Ok(()));
    assert!(catalog.is_loaded(Lang::En));
    assert!(!catalog.is_loaded(Lang::De));
    assert!(catalog.words(Lang::De).is_none());
    assert_eq!(all(&catalog, Lang::En), &vec!["car", "cat", "dog"]);
    assert_eq!(all_len(&catalog, 3, Lang::En).unwrap(), &vec!["car", "cat", "dog"]);
    assert_eq!(all_starts_with(&catalog, 'c', Lang::En).unwrap(), &vec!["car", "cat"]);
    assert_eq!(all_len_starts_with(&catalog, 3, 'd', Lang::En).unwrap(), &vec!["dog"]);
    assert!(all_starts_with(&catalog, 'z', Lang::En).is_none());
    assert!(all_len(&catalog, 4, Lang::En).is_none());
    assert!(["car", "cat", "dog"].contains(&gen(&catalog, Lang::En).as_str()));
    assert!(gen_len(&catalog, 1, Lang::En).is_none());
    assert!(["car", "cat"].contains(&gen_starts_with(&catalog, 'c', Lang::En).unwrap().as_str()));
    assert_eq!(gen_len_starts_with(&catalog, 3, 'd', Lang::En).unwrap(), "dog");
}

#[test]
fn each_language_loads_once() {
    let mut catalog = Catalog::new();
    let first = deflate_bytes(b"eins\nzwei");
    assert_eq!(catalog.load(Lang::De, Codec::Deflate, &first), Ok(()));
    let before = all(&catalog, Lang::De).clone();
    let other = brotli_bytes(b"drei\nvier");
    assert_eq!(catalog.load(Lang::De, Codec::Brotli, &other), Ok(()));
    assert_eq!(catalog.load(Lang::De, Codec::Brotli, &[1, 2, 3]), Ok(()));
    assert_eq!(all(&catalog, Lang::De), &before);
    assert_eq!(catalog.load(Lang::Fr, Codec::Brotli, &other), Ok(()));
    assert_eq!(all(&catalog, Lang::De), &before);
    assert_eq!(all(&catalog, Lang::Fr), &vec!["drei", "vier"]);
}

#[test]
fn failed_load_leaves_language_unloaded() {
    let mut catalog = Catalog::new();
    assert_eq!(
        catalog.load(Lang::Es, Codec::Brotli, &[9, 9, 9]),
        Err(LoadError::Archive(ArchiveError::Decompress))
    );
    assert!(!catalog.is_loaded(Lang::Es));
    let empty_line = brotli_bytes(b"uno\n\ndos");
    assert_eq!(
        catalog.load(Lang::Es, Codec::Brotli, &empty_line),
        Err(LoadError::Corpus(CorpusError::EmptyLine(1)))
    );
    let nothing = deflate_bytes(b"");
    assert_eq!(
        catalog.load(Lang::Es, Codec::Deflate, &nothing),
        Err(LoadError::Corpus(CorpusError::NoWords))
    );
    let latin1 = deflate_bytes(&[b'n', 0xf1, b'u']);
    assert_eq!(
        catalog.load(Lang::Es, Codec::Deflate, &latin1),
        Err(LoadError::Archive(ArchiveError::Utf8))
    );
    assert!(!catalog.is_loaded(Lang::Es));
    let good = deflate_bytes(b"dos\nuno");
    assert_eq!(catalog.load(Lang::Es, Codec::Deflate, &good), Ok(()));
    assert_eq!(all(&catalog, Lang::Es), &vec!["dos", "uno"]);
}

#[test]
fn languages_have_distinct_slots() {
    let langs = [Lang::De, Lang::En, Lang::Es, Lang::Fr, Lang::Ja, Lang::Zh];
    let mut seen = Vec::new();
    for lang in langs {
        let i = lang.index();
        assert!(!seen.contains(&i));
        seen.push(i);
    }
}
