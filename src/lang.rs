use vstd::prelude::*;

verus! {

/// ISO 639-1 language codes: one variant per word list that can be loaded.
#[derive(Debug, Clone, Copy, PartialEq, Eq, Hash, Structural)]
pub enum Lang {
    /// German.
    De,
    /// English.
    En,
    /// Spanish.
    Es,
    /// French.
    Fr,
    /// Japanese.
    Ja,
    /// Chinese.
    Zh,
}

/// How many languages there are.
pub const LANG_COUNT: usize = 6;

impl Lang {
    /// The position of a language among all languages.
    pub open spec fn slot(self) -> int {
        match self {
            Lang::De => 0,
            Lang::En => 1,
            Lang::Es => 2,
            Lang::Fr => 3,
            Lang::Ja => 4,
            Lang::Zh => 5,
        }
    }

    /// The position of this language among all languages.
    pub fn index(&self) -> (r: usize)
        ensures
            r as int == self.slot(),
            r < LANG_COUNT,
    {
        match self {
            Lang::De => 0,
            Lang::En => 1,
            Lang::Es => 2,
            Lang::Fr => 3,
            Lang::Ja => 4,
            Lang::Zh => 5,
        }
    }

    /// Two languages share a position only if they are the same.
    pub proof fn lemma_slot_injective(a: Lang, b: Lang)
        ensures
            a.slot() == b.slot() <==> a == b,
    {
    }
}

} // verus!
