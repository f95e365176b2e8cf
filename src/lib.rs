//! Word lists per language, decompressed from an archive once and indexed by
//! word length, by first character and by both, with uniform random picks from
//! any of these views.
//!
//! A [`Catalog`] holds the languages that have been loaded. The functions of
//! this module answer queries for one loaded language of a catalog.

use vstd::prelude::*;

pub mod archive;
pub mod buckets;
pub mod catalog;
pub mod lang;
pub mod laws;
pub mod lines;
pub mod random;
pub mod words;

pub use archive::{decompress_to_string, ArchiveError, Codec};
pub use catalog::{Catalog, LoadError};
pub use lang::Lang;
pub use words::{CorpusError, Words, MAX_WORD_LEN};

use words::{len_bucket, len_start_bucket, start_bucket};

verus! {

/// All words of a loaded language.
pub fn all(catalog: &Catalog, lang: Lang) -> (r: &Vec<String>)
    requires
        catalog.wf(),
        catalog@.contains_key(lang),
    ensures
        r.deep_view() == catalog@[lang],
{
    catalog.words(lang).unwrap().all()
}

/// A word of a loaded language, picked at random.
pub fn gen(catalog: &Catalog, lang: Lang) -> (r: &String)
    requires
        catalog.wf(),
        catalog@.contains_key(lang),
    ensures
        catalog@[lang].contains(r@),
{
    catalog.words(lang).unwrap().gen()
}

/// The words of `len` characters of a loaded language, or `None` where there
/// is none.
pub fn all_len(catalog: &Catalog, len: usize, lang: Lang) -> (r: Option<&Vec<String>>)
    requires
        catalog.wf(),
        catalog@.contains_key(lang),
    ensures
        r is Some <==> len_bucket(catalog@[lang], len as int).len() > 0,
        r matches Some(v) ==> v.deep_view() == len_bucket(catalog@[lang], len as int),
{
    catalog.words(lang).unwrap().all_len(len)
}

/// A word of `len` characters of a loaded language, picked at random, or
/// `None` where there is none.
pub fn gen_len(catalog: &Catalog, len: usize, lang: Lang) -> (r: Option<&String>)
    requires
        catalog.wf(),
        catalog@.contains_key(lang),
    ensures
        r is Some <==> len_bucket(catalog@[lang], len as int).len() > 0,
        r matches Some(w) ==> len_bucket(catalog@[lang], len as int).contains(w@),
{
    catalog.words(lang).unwrap().gen_len(len)
}

/// The words of a loaded language that begin with `ch`, or `None` where there
/// is none.
pub fn all_starts_with(catalog: &Catalog, ch: char, lang: Lang) -> (r: Option<&Vec<String>>)
    requires
        catalog.wf(),
        catalog@.contains_key(lang),
    ensures
        r is Some <==> start_bucket(catalog@[lang], ch).len() > 0,
        r matches Some(v) ==> v.deep_view() == start_bucket(catalog@[lang], ch),
{
    catalog.words(lang).unwrap().all_starts_with(ch)
}

/// A word of a loaded language that begins with `ch`, picked at random, or
/// `None` where there is none.
pub fn gen_starts_with(catalog: &Catalog, ch: char, lang: Lang) -> (r: Option<&String>)
    requires
        catalog.wf(),
        catalog@.contains_key(lang),
    ensures
        r is Some <==> start_bucket(catalog@[lang], ch).len() > 0,
        r matches Some(w) ==> start_bucket(catalog@[lang], ch).contains(w@),
{
    catalog.words(lang).unwrap().gen_starts_with(ch)
}

/// The words of `len` characters of a loaded language that begin with `ch`,
/// or `None` where there is none.
pub fn all_len_starts_with(catalog: &Catalog, len: usize, ch: char, lang: Lang) -> (r: Option<
    &Vec<String>,
>)
    requires
        catalog.wf(),
        catalog@.contains_key(lang),
    ensures
        r is Some <==> len_start_bucket(catalog@[lang], len as int, ch).len() > 0,
        r matches Some(v) ==> v.deep_view() == len_start_bucket(catalog@[lang], len as int, ch),
{
    catalog.words(lang).unwrap().all_len_starts_with(len, ch)
}

/// A word of `len` characters of a loaded language that begins with `ch`,
/// picked at random, or `None` where there is none.
pub fn gen_len_starts_with(catalog: &Catalog, len: usize, ch: char, lang: Lang) -> (r: Option<
    &String,
>)
    requires
        catalog.wf(),
        catalog@.contains_key(lang),
    ensures
        r is Some <==> len_start_bucket(catalog@[lang], len as int, ch).len() > 0,
        r matches Some(w) ==> len_start_bucket(catalog@[lang], len as int, ch).contains(w@),
{
    catalog.words(lang).unwrap().gen_len_starts_with(len, ch)
}

} // verus!
