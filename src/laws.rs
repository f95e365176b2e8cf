//! What holds of every word list and of every catalog, proved over the
//! views that the contracts of the query functions use.

use vstd::multiset::Multiset;
use vstd::prelude::*;

use crate::archive::Codec;
use crate::catalog::after_load;
use crate::lang::Lang;
use crate::words::{
    len_bucket, len_start_bucket, start_bucket, starts_with, valid_word, valid_words, Words,
    MAX_WORD_LEN,
};

verus! {

broadcast use vstd::seq_lib::group_to_multiset_ensures;

/// The words of the length buckets `0 .. k` of `ws`, counted with repetition.
pub open spec fn len_buckets_union(ws: Seq<Seq<char>>, k: nat) -> Multiset<Seq<char>>
    decreases k,
{
    if k == 0 {
        Multiset::empty()
    } else {
        len_buckets_union(ws, (k - 1) as nat).add(len_bucket(ws, k - 1).to_multiset())
    }
}

/// Each word of `ws` comes before or equals, by `le`, each word after it.
pub open spec fn sorted_by(ws: Seq<Seq<char>>, le: spec_fn(Seq<char>, Seq<char>) -> bool) -> bool {
    forall|i: int, j: int| 0 <= i < j < ws.len() ==> le(ws[i], ws[j])
}

proof fn lemma_filter_unfold(ws: Seq<Seq<char>>, p: spec_fn(Seq<char>) -> bool)
    requires
        ws.len() > 0,
    ensures
        ws.filter(p) == (if p(ws.last()) {
            ws.drop_last().filter(p).push(ws.last())
        } else {
            ws.drop_last().filter(p)
        }),
{
    reveal(Seq::filter);
}

/// A word is in a filtered list exactly when it is in the list and passes the
/// filter.
proof fn lemma_filter_contains_iff(ws: Seq<Seq<char>>, p: spec_fn(Seq<char>) -> bool, x: Seq<char>)
    ensures
        ws.filter(p).contains(x) <==> ws.contains(x) && p(x),
    decreases ws.len(),
{
    if ws.len() == 0 {
        reveal(Seq::filter);
    } else {
        let init = ws.drop_last();
        let last = ws.last();
        lemma_filter_unfold(ws, p);
        lemma_filter_contains_iff(init, p, x);
        let f = init.filter(p);
        if ws.contains(x) && p(x) {
            let i = choose|i: int| 0 <= i < ws.len() && ws[i] == x;
            if i < init.len() {
                assert(init[i] == x);
                assert(init.contains(x));
                let j = choose|j: int| 0 <= j < f.len() && f[j] == x;
                if p(last) {
                    assert(f.push(last)[j] == x);
                }
            } else {
                assert(last == x);
                assert(f.push(last)[f.len() as int] == x);
            }
        }
        if ws.filter(p).contains(x) {
            let j = choose|j: int| 0 <= j < ws.filter(p).len() && ws.filter(p)[j] == x;
            if p(last) && j == f.len() {
                assert(ws[ws.len() - 1] == x);
            } else {
                assert(f[j] == x);
                assert(f.contains(x));
                let i = choose|i: int| 0 <= i < init.len() && init[i] == x;
                assert(ws[i] == x);
            }
        }
    }
}

/// Filtering keeps the order of a sorted list.
proof fn lemma_filter_sorted(
    ws: Seq<Seq<char>>,
    p: spec_fn(Seq<char>) -> bool,
    le: spec_fn(Seq<char>, Seq<char>) -> bool,
)
    requires
        sorted_by(ws, le),
    ensures
        sorted_by(ws.filter(p), le),
    decreases ws.len(),
{
    if ws.len() == 0 {
        reveal(Seq::filter);
    } else {
        let init = ws.drop_last();
        let last = ws.last();
        lemma_filter_unfold(ws, p);
        assert(sorted_by(init, le)) by {
            assert forall|i: int, j: int| 0 <= i < j < init.len() implies le(init[i], init[j]) by {
                assert(init[i] == ws[i] && init[j] == ws[j]);
            }
        }
        lemma_filter_sorted(init, p, le);
        let f = init.filter(p);
        if p(last) {
            let g = f.push(last);
            assert forall|i: int, j: int| 0 <= i < j < g.len() implies le(g[i], g[j]) by {
                if j < f.len() {
                    assert(g[i] == f[i] && g[j] == f[j]);
                } else {
                    assert(g[i] == f[i]);
                    lemma_filter_contains_iff(init, p, f[i]);
                    assert(f.contains(f[i]));
                    let k = choose|k: int| 0 <= k < init.len() && init[k] == f[i];
                    assert(ws[k] == f[i] && ws[ws.len() - 1] == last);
                }
            }
        }
    }
}

/// Filtering by two conditions gives the same list in either order.
proof fn lemma_filters_commute(
    ws: Seq<Seq<char>>,
    p: spec_fn(Seq<char>) -> bool,
    q: spec_fn(Seq<char>) -> bool,
)
    ensures
        ws.filter(p).filter(q) == ws.filter(q).filter(p),
    decreases ws.len(),
{
    if ws.len() == 0 {
        reveal(Seq::filter);
    } else {
        let init = ws.drop_last();
        let last = ws.last();
        lemma_filters_commute(init, p, q);
        lemma_filter_unfold(ws, p);
        lemma_filter_unfold(ws, q);
        reveal(Seq::filter);
        assert(init.filter(p).push(last).drop_last() =~= init.filter(p));
        assert(init.filter(q).push(last).drop_last() =~= init.filter(q));
    }
}

proof fn lemma_union_of_empty(ws: Seq<Seq<char>>, k: nat)
    requires
        ws.len() == 0,
    ensures
        len_buckets_union(ws, k) =~= Multiset::<Seq<char>>::empty(),
    decreases k,
{
    if k > 0 {
        lemma_union_of_empty(ws, (k - 1) as nat);
        reveal(Seq::filter);
        assert(len_bucket(ws, k - 1) =~= Seq::<Seq<char>>::empty());
    }
}

proof fn lemma_union_push(ws: Seq<Seq<char>>, w: Seq<char>, k: nat)
    ensures
        len_buckets_union(ws.push(w), k) == (if w.len() < k {
            len_buckets_union(ws, k).insert(w)
        } else {
            len_buckets_union(ws, k)
        }),
    decreases k,
{
    if k > 0 {
        let k1 = (k - 1) as nat;
        lemma_union_push(ws, w, k1);
        lemma_filter_unfold(ws.push(w), |x: Seq<char>| x.len() == k1);
        assert(ws.push(w).drop_last() =~= ws);
        let b = len_bucket(ws, k1 as int);
        if w.len() == k1 {
            assert(b.push(w).to_multiset() =~= b.to_multiset().insert(w));
            assert(len_buckets_union(ws.push(w), k) =~= len_buckets_union(ws, k).insert(w));
        } else if w.len() < k1 {
            assert(len_buckets_union(ws.push(w), k) =~= len_buckets_union(ws, k).insert(w));
        }
    }
}

proof fn lemma_union_covers(ws: Seq<Seq<char>>)
    requires
        valid_words(ws),
    ensures
        len_buckets_union(ws, (MAX_WORD_LEN + 1) as nat) == ws.to_multiset(),
    decreases ws.len(),
{
    let k = (MAX_WORD_LEN + 1) as nat;
    if ws.len() == 0 {
        lemma_union_of_empty(ws, k);
        assert(ws.to_multiset() =~= Multiset::<Seq<char>>::empty());
    } else {
        let init = ws.drop_last();
        let last = ws.last();
        assert(valid_words(init)) by {
            assert forall|i: int| 0 <= i < init.len() implies valid_word(#[trigger] init[i]) by {
                assert(init[i] == ws[i]);
            }
        }
        assert(valid_word(ws[ws.len() - 1]));
        lemma_union_covers(init);
        lemma_union_push(init, last, k);
        assert(init.push(last) =~= ws);
    }
}

/// The length buckets of a word list split it: counted with repetition, the
/// words of the buckets are exactly the words of the list, and a word lies
/// only in the bucket of its own length.
pub proof fn lemma_length_partition(words: &Words)
    requires
        words.wf(),
    ensures
        len_buckets_union(words@, (MAX_WORD_LEN + 1) as nat) == words@.to_multiset(),
        forall|n: int, w: Seq<char>| #[trigger]
            len_bucket(words@, n).contains(w) ==> w.len() == n,
{
    words.lemma_valid();
    lemma_union_covers(words@);
    assert forall|n: int, w: Seq<char>| #[trigger]
        len_bucket(words@, n).contains(w) implies w.len() == n by {
        lemma_filter_contains_iff(words@, |x: Seq<char>| x.len() == n, w);
    }
}

/// The words of `len` characters that begin with `ch` have that length and
/// that first character; as a set they are the words of that length that also
/// begin with that character, and filtering by first character first gives
/// the same list.
pub proof fn lemma_length_and_start_filter(words: &Words, len: int, ch: char)
    ensures
        forall|i: int|
            0 <= i < len_start_bucket(words@, len, ch).len() ==> {
                &&& (#[trigger] len_start_bucket(words@, len, ch)[i]).len() == len
                &&& starts_with(len_start_bucket(words@, len, ch)[i], ch)
            },
        len_start_bucket(words@, len, ch).to_set() == len_bucket(words@, len).to_set().intersect(
            start_bucket(words@, ch).to_set(),
        ),
        len_start_bucket(words@, len, ch) == len_bucket(start_bucket(words@, ch), len),
{
    let ws = words@;
    let by_len = |x: Seq<char>| x.len() == len;
    let by_start = |x: Seq<char>| starts_with(x, ch);
    let b = len_start_bucket(ws, len, ch);
    assert forall|x: Seq<char>| #[trigger] b.contains(x) <==> (len_bucket(ws, len).contains(x)
        && start_bucket(ws, ch).contains(x)) by {
        lemma_filter_contains_iff(ws.filter(by_len), by_start, x);
        lemma_filter_contains_iff(ws, by_len, x);
        lemma_filter_contains_iff(ws, by_start, x);
    }
    assert forall|i: int| 0 <= i < b.len() implies {
        &&& (#[trigger] b[i]).len() == len
        &&& starts_with(b[i], ch)
    } by {
        assert(b.contains(b[i]));
        lemma_filter_contains_iff(ws, by_len, b[i]);
        lemma_filter_contains_iff(ws, by_start, b[i]);
    }
    assert(b.to_set() =~= len_bucket(ws, len).to_set().intersect(start_bucket(ws, ch).to_set()));
    lemma_filters_commute(ws, by_len, by_start);
}

/// Where the words of a list come in an order, every bucket keeps it: the
/// index never reorders the lines it was built from.
pub proof fn lemma_buckets_keep_order(
    words: &Words,
    le: spec_fn(Seq<char>, Seq<char>) -> bool,
    len: int,
    ch: char,
)
    requires
        sorted_by(words@, le),
    ensures
        sorted_by(len_bucket(words@, len), le),
        sorted_by(start_bucket(words@, ch), le),
        sorted_by(len_start_bucket(words@, len, ch), le),
{
    lemma_filter_sorted(words@, |x: Seq<char>| x.len() == len, le);
    lemma_filter_sorted(words@, |x: Seq<char>| starts_with(x, ch), le);
    lemma_filter_sorted(len_bucket(words@, len), |x: Seq<char>| starts_with(x, ch), le);
}

/// No word list holds a word of no characters or of more than `MAX_WORD_LEN`
/// characters, so for such a length the queries find nothing.
pub proof fn lemma_no_word_of_length(words: &Words, len: int)
    requires
        words.wf(),
        len <= 0 || len > MAX_WORD_LEN,
    ensures
        len_bucket(words@, len).len() == 0,
{
    words.lemma_valid();
    if len_bucket(words@, len).len() > 0 {
        let w = len_bucket(words@, len)[0];
        assert(len_bucket(words@, len).contains(w));
        lemma_filter_contains_iff(words@, |x: Seq<char>| x.len() == len, w);
        let i = choose|i: int| 0 <= i < words@.len() && words@[i] == w;
        assert(valid_word(words@[i]));
    }
}

/// Once a language is loaded, loading it again changes nothing, whatever
/// archive is given, and loading another language leaves its words as they
/// are.
pub proof fn lemma_load_at_most_once(
    loaded: Map<Lang, Seq<Seq<char>>>,
    lang: Lang,
    codec: Codec,
    archive: Seq<u8>,
    other: Lang,
    other_codec: Codec,
    other_archive: Seq<u8>,
)
    requires
        after_load(loaded, lang, codec, archive).contains_key(lang),
    ensures
        after_load(
            after_load(loaded, lang, codec, archive),
            lang,
            other_codec,
            other_archive,
        ) == after_load(loaded, lang, codec, archive),
        after_load(after_load(loaded, lang, codec, archive), other, other_codec, other_archive)[lang]
            == after_load(loaded, lang, codec, archive)[lang],
        loaded.contains_key(lang) ==> after_load(loaded, lang, codec, archive) == loaded,
{
}

} // verus!
