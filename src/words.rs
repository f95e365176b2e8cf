use vstd::prelude::*;

use crate::buckets::{
    buckets_get, buckets_insert, buckets_new, buckets_remove, char_buckets, CharBuckets,
};
use crate::lines::{lines_of, split_lines};
use crate::random::choose_word;

verus! {

/// No word of a word list is longer than this many characters.
pub const MAX_WORD_LEN: usize = 50;

/// Why a text is not a word list. A line is counted from zero.
#[derive(Debug, Clone, Copy, PartialEq, Eq, Structural)]
pub enum CorpusError {
    /// The text holds no line.
    NoWords,
    /// This line is empty.
    EmptyLine(usize),
    /// This line has more than `MAX_WORD_LEN` characters.
    TooLong(usize),
}

/// A word may stand in a word list.
pub open spec fn valid_word(w: Seq<char>) -> bool {
    0 < w.len() <= MAX_WORD_LEN
}

/// Every word of `ws` may stand in a word list.
pub open spec fn valid_words(ws: Seq<Seq<char>>) -> bool {
    forall|i: int| 0 <= i < ws.len() ==> valid_word(#[trigger] ws[i])
}

/// `w` begins with `ch`.
pub open spec fn starts_with(w: Seq<char>, ch: char) -> bool {
    w.len() > 0 && w[0] == ch
}

/// The words of `ws` that have `n` characters, in the order of `ws`.
pub open spec fn len_bucket(ws: Seq<Seq<char>>, n: int) -> Seq<Seq<char>> {
    ws.filter(|w: Seq<char>| w.len() == n)
}

/// The words of `ws` that begin with `ch`, in the order of `ws`.
pub open spec fn start_bucket(ws: Seq<Seq<char>>, ch: char) -> Seq<Seq<char>> {
    ws.filter(|w: Seq<char>| starts_with(w, ch))
}

/// The words of `ws` that have `n` characters and begin with `ch`, in the
/// order of `ws`.
pub open spec fn len_start_bucket(ws: Seq<Seq<char>>, n: int, ch: char) -> Seq<Seq<char>> {
    start_bucket(len_bucket(ws, n), ch)
}

/// The first line of `ls` from line `i` on that cannot be a word, if any.
pub open spec fn line_error(ls: Seq<Seq<char>>, i: int) -> Option<CorpusError>
    decreases ls.len() - i,
{
    if i < 0 || i >= ls.len() {
        None
    } else if ls[i].len() == 0 {
        Some(CorpusError::EmptyLine(i as usize))
    } else if ls[i].len() > MAX_WORD_LEN {
        Some(CorpusError::TooLong(i as usize))
    } else {
        line_error(ls, i + 1)
    }
}

/// The word list that a text holds, one word per line, or why it holds none.
pub open spec fn parse_corpus(text: Seq<char>) -> Result<Seq<Seq<char>>, CorpusError> {
    let ls = lines_of(text);
    if ls.len() == 0 {
        Err(CorpusError::NoWords)
    } else {
        match line_error(ls, 0) {
            Some(e) => Err(e),
            None => Ok(ls),
        }
    }
}

/// `m` maps each first character of a word of `ws` to the words of `ws` that
/// begin with it, and holds no other key.
pub open spec fn indexes_by_start(m: Map<char, Seq<Seq<char>>>, ws: Seq<Seq<char>>) -> bool {
    forall|ch: char|
        #![trigger m.contains_key(ch)]
        #![trigger start_bucket(ws, ch)]
        (m.contains_key(ch) <==> start_bucket(ws, ch).len() > 0) && (m.contains_key(ch) ==> m[ch]
            == start_bucket(ws, ch))
}

proof fn lemma_filter_push(ws: Seq<Seq<char>>, w: Seq<char>, p: spec_fn(Seq<char>) -> bool)
    ensures
        ws.push(w).filter(p) == (if p(w) {
            ws.filter(p).push(w)
        } else {
            ws.filter(p)
        }),
{
    reveal(Seq::filter);
    assert(ws.push(w).drop_last() =~= ws);
}

proof fn lemma_len_bucket_push(ws: Seq<Seq<char>>, w: Seq<char>, n: int)
    ensures
        len_bucket(ws.push(w), n) == (if w.len() == n {
            len_bucket(ws, n).push(w)
        } else {
            len_bucket(ws, n)
        }),
{
    lemma_filter_push(ws, w, |x: Seq<char>| x.len() == n);
}

proof fn lemma_start_bucket_push(ws: Seq<Seq<char>>, w: Seq<char>, ch: char)
    ensures
        start_bucket(ws.push(w), ch) == (if starts_with(w, ch) {
            start_bucket(ws, ch).push(w)
        } else {
            start_bucket(ws, ch)
        }),
{
    lemma_filter_push(ws, w, |x: Seq<char>| starts_with(x, ch));
}

/// A word list has no word of a length that no word may have.
proof fn lemma_len_bucket_empty(ws: Seq<Seq<char>>, n: int)
    requires
        valid_words(ws),
        n <= 0 || n > MAX_WORD_LEN,
    ensures
        len_bucket(ws, n).len() == 0,
    decreases ws.len(),
{
    if ws.len() > 0 {
        let init = ws.drop_last();
        assert(valid_words(init)) by {
            assert forall|i: int| 0 <= i < init.len() implies valid_word(#[trigger] init[i]) by {
                assert(init[i] == ws[i]);
            }
        }
        lemma_len_bucket_empty(init, n);
        assert(init.push(ws.last()) =~= ws);
        lemma_len_bucket_push(init, ws.last(), n);
    }
}

/// Nothing begins with a character in an empty list.
proof fn lemma_start_bucket_of_empty(ws: Seq<Seq<char>>, ch: char)
    requires
        ws.len() == 0,
    ensures
        start_bucket(ws, ch).len() == 0,
{
    reveal(Seq::filter);
}

/// Adds a word to the map that indexes `ws` by first character.
fn add_word(m: &mut CharBuckets, ws: Ghost<Seq<Seq<char>>>, ch: char, w: String)
    requires
        indexes_by_start(char_buckets(*old(m)), ws@),
        starts_with(w@, ch),
    ensures
        indexes_by_start(char_buckets(*final(m)), ws@.push(w@)),
{
    let ghost before = char_buckets(*m);
    let mut bucket = match buckets_remove(m, ch) {
        Some(b) => b,
        None => Vec::new(),
    };
    proof {
        if !before.contains_key(ch) {
            assert(start_bucket(ws@, ch) =~= Seq::<Seq<char>>::empty());
        }
        assert(bucket.deep_view() == start_bucket(ws@, ch));
    }
    let ghost old_bucket = bucket.deep_view();
    let ghost wv = w@;
    bucket.push(w);
    proof {
        assert(bucket.deep_view() =~= old_bucket.push(wv));
    }
    buckets_insert(m, ch, bucket);
    proof {
        let after = char_buckets(*m);
        assert forall|c: char|
            #![trigger after.contains_key(c)]
            #![trigger start_bucket(ws@.push(wv), c)]
            (after.contains_key(c) <==> start_bucket(ws@.push(wv), c).len() > 0) && (
            after.contains_key(c) ==> after[c] == start_bucket(ws@.push(wv), c)) by {
            lemma_start_bucket_push(ws@, wv, c);
            assert(before.contains_key(c) <==> start_bucket(ws@, c).len() > 0);
        }
    }
}

/// One word of `v` picked at random, or `None` where `v` is empty.
fn pick(v: &Vec<String>) -> (r: Option<&String>)
    ensures
        r is None <==> v.deep_view().len() == 0,
        r matches Some(w) ==> v.deep_view().contains(w@),
{
    let r = choose_word(v);
    proof {
        if let Some(w) = r {
            let i = choose|i: int| 0 <= i < v@.len() && v@[i] == *w;
            assert(v.deep_view()[i] == w@);
        }
    }
    r
}

/// A word list with its indexes by length, by first character and by both.
pub struct Words {
    all: Vec<String>,
    by_len: Vec<Vec<String>>,
    by_start: CharBuckets,
    by_len_start: Vec<CharBuckets>,
}

/// The indexes of a word list `ws`: `by_len[n]` holds the words of `n`
/// characters, `by_start` maps a first character to its words, and
/// `by_len_start[n]` maps a first character to its words of `n` characters.
spec fn indexes(
    ws: Seq<Seq<char>>,
    by_len: Seq<Vec<String>>,
    by_start: CharBuckets,
    by_len_start: Seq<CharBuckets>,
) -> bool {
    &&& by_len.len() == MAX_WORD_LEN + 1
    &&& forall|n: int|
        0 <= n <= MAX_WORD_LEN ==> #[trigger] by_len[n].deep_view() == len_bucket(ws, n)
    &&& indexes_by_start(char_buckets(by_start), ws)
    &&& by_len_start.len() == MAX_WORD_LEN + 1
    &&& forall|n: int|
        0 <= n <= MAX_WORD_LEN ==> indexes_by_start(
            char_buckets(#[trigger] by_len_start[n]),
            len_bucket(ws, n),
        )
}

impl View for Words {
    type V = Seq<Seq<char>>;

    /// The words, in the order of the lines they came from.
    closed spec fn view(&self) -> Seq<Seq<char>> {
        self.all.deep_view()
    }
}

impl Words {
    /// The list holds a word, each word may stand in a word list, and the
    /// indexes hold exactly the buckets of the list.
    pub closed spec fn wf(&self) -> bool {
        &&& self.all.deep_view().len() > 0
        &&& valid_words(self.all.deep_view())
        &&& indexes(self.all.deep_view(), self.by_len@, self.by_start, self.by_len_start@)
    }

    /// A word list holds at least one word, and each of its words may stand
    /// in a word list.
    pub proof fn lemma_valid(&self)
        requires
            self.wf(),
        ensures
            self@.len() > 0,
            valid_words(self@),
    {
    }

    /// Reads a word list from a text with one word per line, and builds its
    /// indexes in one pass over the lines.
    pub fn from_corpus(text: &str) -> (r: Result<Words, CorpusError>)
        ensures
            r matches Ok(w) ==> w.wf() && parse_corpus(text@) == Ok::<Seq<Seq<char>>, CorpusError>(w@),
            r matches Err(e) ==> parse_corpus(text@) == Err::<Seq<Seq<char>>, CorpusError>(e),
    {
        let lines = split_lines(text);
        let ghost ls = lines.deep_view();
        if lines.len() == 0 {
            return Err(CorpusError::NoWords);
        }
        let mut all: Vec<String> = Vec::new();
        let mut by_len: Vec<Vec<String>> = Vec::new();
        let mut by_len_start: Vec<CharBuckets> = Vec::new();
        for n in 0..MAX_WORD_LEN + 1
            invariant
                by_len.len() == n,
                by_len_start.len() == n,
                forall|m: int| 0 <= m < n ==> (#[trigger] by_len[m]).deep_view().len() == 0,
                forall|m: int|
                    0 <= m < n ==> char_buckets(#[trigger] by_len_start[m]).dom() == Set::<
                        char,
                    >::empty(),
        {
            by_len.push(Vec::new());
            by_len_start.push(buckets_new());
        }
        let mut by_start = buckets_new();
        let mut spare_list: Vec<String> = Vec::new();
        let mut spare_map = buckets_new();
        proof {
            let ws = ls.take(0);
            assert forall|n: int| 0 <= n <= MAX_WORD_LEN implies #[trigger] by_len[n].deep_view()
                == len_bucket(ws, n) by {
                reveal(Seq::filter);
                assert(by_len[n].deep_view() =~= len_bucket(ws, n));
            }
            assert forall|n: int| 0 <= n <= MAX_WORD_LEN implies indexes_by_start(
                char_buckets(#[trigger] by_len_start[n]),
                len_bucket(ws, n),
            ) by {
                reveal(Seq::filter);
                assert forall|ch: char| #![auto] true implies start_bucket(len_bucket(ws, n), ch).len()
                    == 0 by {
                    lemma_start_bucket_of_empty(len_bucket(ws, n), ch);
                }
            }
            assert forall|ch: char| #![auto] true implies start_bucket(ws, ch).len() == 0 by {
                lemma_start_bucket_of_empty(ws, ch);
            }
        }
        let mut i: usize = 0;
        while i < lines.len()
            invariant
                ls == lines.deep_view(),
                ls == lines_of(text@),
                ls.len() > 0,
                i <= lines.len(),
                valid_words(ls.take(i as int)),
                line_error(ls, 0) == line_error(ls, i as int),
                all.deep_view() == ls.take(i as int),
                indexes(ls.take(i as int), by_len@, by_start, by_len_start@),
            decreases lines.len() - i,
        {
            let ghost ws = ls.take(i as int);
            let w = &lines[i];
            let ghost wv = w@;
            assert(wv == ls[i as int]);
            let n = w.as_str().unicode_len();
            if n == 0 {
                return Err(CorpusError::EmptyLine(i));
            }
            if n > MAX_WORD_LEN {
                return Err(CorpusError::TooLong(i));
            }
            let ch = w.as_str().get_char(0);
            let ghost ws2 = ws.push(wv);
            proof {
                assert(ls.take(i + 1) =~= ws2);
                assert(valid_words(ws2)) by {
                    assert forall|j: int| 0 <= j < ws2.len() implies valid_word(#[trigger] ws2[j]) by {
                        if j < ws.len() {
                            assert(ws2[j] == ws[j]);
                        }
                    }
                }
            }
            all.push(w.clone());
            proof {
                assert(all.deep_view() =~= ws2);
            }
            let ghost old_by_len = by_len@;
            std::mem::swap(&mut by_len[n], &mut spare_list);
            spare_list.push(w.clone());
            std::mem::swap(&mut by_len[n], &mut spare_list);
            proof {
                assert(by_len[n as int].deep_view() =~= old_by_len[n as int].deep_view().push(wv));
                assert forall|m: int| 0 <= m <= MAX_WORD_LEN implies #[trigger] by_len[m].deep_view()
                    == len_bucket(ws2, m) by {
                    lemma_len_bucket_push(ws, wv, m);
                    if m != n {
                        assert(by_len[m] == old_by_len[m]);
                    }
                }
            }
            add_word(&mut by_start, Ghost(ws), ch, w.clone());
            let ghost old_by_len_start = by_len_start@;
            std::mem::swap(&mut by_len_start[n], &mut spare_map);
            proof {
                lemma_len_bucket_push(ws, wv, n as int);
            }
            add_word(&mut spare_map, Ghost(len_bucket(ws, n as int)), ch, w.clone());
            std::mem::swap(&mut by_len_start[n], &mut spare_map);
            proof {
                assert forall|m: int| 0 <= m <= MAX_WORD_LEN implies indexes_by_start(
                    char_buckets(#[trigger] by_len_start[m]),
                    len_bucket(ws2, m),
                ) by {
                    lemma_len_bucket_push(ws, wv, m);
                    if m != n {
                        assert(by_len_start[m] == old_by_len_start[m]);
                    }
                }
            }
            i = i + 1;
        }
        proof {
            assert(ls.take(ls.len() as int) =~= ls);
        }
        Ok(Words { all, by_len, by_start, by_len_start })
    }

    /// All words, in the order of their lines.
    pub fn all(&self) -> (r: &Vec<String>)
        requires
            self.wf(),
        ensures
            r.deep_view() == self@,
    {
        &self.all
    }

    /// The words of `len` characters, or `None` where there is none.
    pub fn all_len(&self, len: usize) -> (r: Option<&Vec<String>>)
        requires
            self.wf(),
        ensures
            r is Some <==> len_bucket(self@, len as int).len() > 0,
            r matches Some(v) ==> v.deep_view() == len_bucket(self@, len as int),
    {
        if len > MAX_WORD_LEN {
            proof {
                lemma_len_bucket_empty(self@, len as int);
            }
            return None;
        }
        let bucket = &self.by_len[len];
        assert(bucket.deep_view().len() == bucket@.len());
        if bucket.len() == 0 {
            None
        } else {
            Some(bucket)
        }
    }

    /// The words that begin with `ch`, or `None` where there is none.
    pub fn all_starts_with(&self, ch: char) -> (r: Option<&Vec<String>>)
        requires
            self.wf(),
        ensures
            r is Some <==> start_bucket(self@, ch).len() > 0,
            r matches Some(v) ==> v.deep_view() == start_bucket(self@, ch),
    {
        buckets_get(&self.by_start, ch)
    }

    /// The words of `len` characters that begin with `ch`, or `None` where
    /// there is none.
    pub fn all_len_starts_with(&self, len: usize, ch: char) -> (r: Option<&Vec<String>>)
        requires
            self.wf(),
        ensures
            r is Some <==> len_start_bucket(self@, len as int, ch).len() > 0,
            r matches Some(v) ==> v.deep_view() == len_start_bucket(self@, len as int, ch),
    {
        if len > MAX_WORD_LEN {
            proof {
                lemma_len_bucket_empty(self@, len as int);
                lemma_start_bucket_of_empty(len_bucket(self@, len as int), ch);
            }
            return None;
        }
        buckets_get(&self.by_len_start[len], ch)
    }

    /// A word picked at random from all words.
    pub fn gen(&self) -> (r: &String)
        requires
            self.wf(),
        ensures
            self@.contains(r@),
    {
        pick(&self.all).unwrap()
    }

    /// A word of `len` characters picked at random, or `None` where there is
    /// none.
    pub fn gen_len(&self, len: usize) -> (r: Option<&String>)
        requires
            self.wf(),
        ensures
            r is Some <==> len_bucket(self@, len as int).len() > 0,
            r matches Some(w) ==> len_bucket(self@, len as int).contains(w@),
    {
        match self.all_len(len) {
            Some(bucket) => pick(bucket),
            None => None,
        }
    }

    /// A word that begins with `ch` picked at random, or `None` where there
    /// is none.
    pub fn gen_starts_with(&self, ch: char) -> (r: Option<&String>)
        requires
            self.wf(),
        ensures
            r is Some <==> start_bucket(self@, ch).len() > 0,
            r matches Some(w) ==> start_bucket(self@, ch).contains(w@),
    {
        match self.all_starts_with(ch) {
            Some(bucket) => pick(bucket),
            None => None,
        }
    }

    /// A word of `len` characters that begins with `ch` picked at random, or
    /// `None` where there is none.
    pub fn gen_len_starts_with(&self, len: usize, ch: char) -> (r: Option<&String>)
        requires
            self.wf(),
        ensures
            r is Some <==> len_start_bucket(self@, len as int, ch).len() > 0,
            r matches Some(w) ==> len_start_bucket(self@, len as int, ch).contains(w@),
    {
        match self.all_len_starts_with(len, ch) {
            Some(bucket) => pick(bucket),
            None => None,
        }
    }
}

} // verus!
