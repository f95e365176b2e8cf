use vstd::prelude::*;

use crate::archive::{archive_text, decompress_to_string, ArchiveError, Codec};
use crate::lang::{Lang, LANG_COUNT};
use crate::words::{parse_corpus, CorpusError, Words};

verus! {

/// Why a language's word list could not be loaded.
#[derive(Debug, Clone, Copy, PartialEq, Eq, Structural)]
pub enum LoadError {
    /// The archive holds no text.
    Archive(ArchiveError),
    /// The text is no word list.
    Corpus(CorpusError),
}

/// The word list that an archive holds, or why it holds none.
pub open spec fn load_result(codec: Codec, b: Seq<u8>) -> Result<Seq<Seq<char>>, LoadError> {
    match archive_text(codec, b) {
        Err(e) => Err(LoadError::Archive(e)),
        Ok(text) => match parse_corpus(text) {
            Err(e) => Err(LoadError::Corpus(e)),
            Ok(ws) => Ok(ws),
        },
    }
}

/// The loaded word lists after asking to load `lang` from an archive: a
/// language is loaded at most once, and a failed load leaves it unloaded.
pub open spec fn after_load(
    loaded: Map<Lang, Seq<Seq<char>>>,
    lang: Lang,
    codec: Codec,
    b: Seq<u8>,
) -> Map<Lang, Seq<Seq<char>>> {
    if loaded.contains_key(lang) {
        loaded
    } else {
        match load_result(codec, b) {
            Ok(ws) => loaded.insert(lang, ws),
            Err(_) => loaded,
        }
    }
}

/// The word lists of the languages that have been loaded, each built once
/// and then kept unchanged.
pub struct Catalog {
    slots: Vec<Option<Words>>,
}

impl View for Catalog {
    type V = Map<Lang, Seq<Seq<char>>>;

    /// The word list of each loaded language.
    closed spec fn view(&self) -> Map<Lang, Seq<Seq<char>>> {
        Map::new(
            |l: Lang| self.slots@[l.slot()] is Some,
            |l: Lang| self.slots@[l.slot()]->Some_0@,
        )
    }
}

impl Catalog {
    /// One slot per language, and each loaded list is well formed.
    pub closed spec fn wf(&self) -> bool {
        &&& self.slots@.len() == LANG_COUNT
        &&& forall|i: int|
            0 <= i < LANG_COUNT ==> (#[trigger] self.slots@[i] matches Some(w) ==> w.wf())
    }

    /// A catalog with no language loaded.
    pub fn new() -> (r: Catalog)
        ensures
            r.wf(),
            r@ == Map::<Lang, Seq<Seq<char>>>::empty(),
    {
        let mut slots: Vec<Option<Words>> = Vec::new();
        for i in 0..LANG_COUNT
            invariant
                slots@.len() == i,
                forall|j: int| 0 <= j < i ==> #[trigger] slots@[j] is None,
        {
            slots.push(None);
        }
        let r = Catalog { slots };
        assert(r@ =~= Map::<Lang, Seq<Seq<char>>>::empty());
        r
    }

    /// Loads the word list of `lang` from an archive, unless it is loaded
    /// already: then the archive is not read and nothing changes.
    pub fn load(&mut self, lang: Lang, codec: Codec, archive: &[u8]) -> (r: Result<(), LoadError>)
        requires
            old(self).wf(),
        ensures
            final(self).wf(),
            final(self)@ == after_load(old(self)@, lang, codec, archive@),
            r is Ok <==> final(self)@.contains_key(lang),
            r matches Err(e) ==> load_result(codec, archive@) == Err::<Seq<Seq<char>>, LoadError>(e),
    {
        let i = lang.index();
        if self.slots[i].is_some() {
            return Ok(());
        }
        let text = match decompress_to_string(codec, archive) {
            Ok(t) => t,
            Err(e) => {
                return Err(LoadError::Archive(e));
            },
        };
        let words = match Words::from_corpus(text.as_str()) {
            Ok(w) => w,
            Err(e) => {
                return Err(LoadError::Corpus(e));
            },
        };
        let ghost before = self@;
        let ghost ws = words@;
        self.slots.set(i, Some(words));
        proof {
            assert forall|l: Lang| #[trigger] self@.contains_key(l) == before.insert(
                lang,
                ws,
            ).contains_key(l) by {
                Lang::lemma_slot_injective(l, lang);
            }
            assert forall|l: Lang| #[trigger] self@.contains_key(l) implies self@[l] == before.insert(
                lang,
                ws,
            )[l] by {
                Lang::lemma_slot_injective(l, lang);
            }
            assert(self@ =~= before.insert(lang, ws));
        }
        Ok(())
    }

    /// The word list of `lang`, or `None` where it is not loaded.
    pub fn words(&self, lang: Lang) -> (r: Option<&Words>)
        requires
            self.wf(),
        ensures
            r is Some <==> self@.contains_key(lang),
            r matches Some(w) ==> w.wf() && w@ == self@[lang],
    {
        let i = lang.index();
        match &self.slots[i] {
            Some(w) => Some(w),
            None => None,
        }
    }

    /// Whether the word list of `lang` is loaded.
    pub fn is_loaded(&self, lang: Lang) -> (r: bool)
        requires
            self.wf(),
        ensures
            r == self@.contains_key(lang),
    {
        self.slots[lang.index()].is_some()
    }
}

} // verus!
