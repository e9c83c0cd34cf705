//! Ordering of merged results.  The aggregator sorts the concatenated
//! torrents of all providers once, strictly descending in the requested
//! sort key, with a stable insertion sort: torrents with equal keys keep
//! the relative order the providers produced them in.

use vstd::prelude::*;
use vstd::seq_lib::group_to_multiset_ensures;
use vstd::seq_lib::lemma_multiset_commutative;

use crate::OrderBy;
use crate::Torrent;
use crate::TorrentView;

verus! {

/// The sort key of a torrent under an ordering.
pub open spec fn sort_key(ob: OrderBy, t: TorrentView) -> u32 {
    match ob {
        OrderBy::Seeders => t.seeders,
        OrderBy::Peers => t.peers,
    }
}

fn key_of(ob: &OrderBy, t: &Torrent) -> (k: u32)
    ensures
        k == sort_key(*ob, t@),
{
    match ob {
        OrderBy::Seeders => t.seeders,
        OrderBy::Peers => t.peers,
    }
}

/// Whether a sequence is non-increasing in the sort key.
pub open spec fn sorted_desc(ob: OrderBy, s: Seq<TorrentView>) -> bool {
    forall|i: int, j: int|
        0 <= i < j < s.len() ==> sort_key(ob, #[trigger] s[i]) >= sort_key(ob, #[trigger] s[j])
}

/// Where a torrent lands when inserted into a sequence: after every element
/// whose key is at least its own, before the first element with a strictly
/// smaller key.  This is the stable position: it never passes an element
/// with an equal key.
pub open spec fn insert_desc(ob: OrderBy, s: Seq<TorrentView>, t: TorrentView) -> Seq<TorrentView>
    decreases s.len(),
{
    if s.len() == 0 {
        seq![t]
    } else if sort_key(ob, s[0]) >= sort_key(ob, t) {
        seq![s[0]] + insert_desc(ob, s.drop_first(), t)
    } else {
        seq![t] + s
    }
}

/// The stable descending sort of a sequence: every element inserted at its
/// stable position, in order.
pub open spec fn sort_desc(ob: OrderBy, s: Seq<TorrentView>) -> Seq<TorrentView>
    decreases s.len(),
{
    if s.len() == 0 {
        Seq::empty()
    } else {
        insert_desc(ob, sort_desc(ob, s.drop_last()), s.last())
    }
}

/// The stable position is a plain splice: with every key before `i` at
/// least the new key and the key at `i` (if any) strictly below it, the
/// insertion puts the new element exactly at `i`.
proof fn lemma_insert_desc_at(ob: OrderBy, s: Seq<TorrentView>, t: TorrentView, i: int)
    requires
        0 <= i <= s.len(),
        forall|j: int| 0 <= j < i ==> sort_key(ob, #[trigger] s[j]) >= sort_key(ob, t),
        i < s.len() ==> sort_key(ob, s[i]) < sort_key(ob, t),
    ensures
        insert_desc(ob, s, t) == s.take(i) + seq![t] + s.skip(i),
    decreases i,
{
    if s.len() == 0 {
        assert(s.take(0) + seq![t] + s.skip(0) =~= seq![t]);
    } else if i == 0 {
        assert(s.take(0) + seq![t] + s.skip(0) =~= seq![t] + s);
    } else {
        assert(forall|j: int|
            0 <= j < s.drop_first().len() ==> #[trigger] s.drop_first()[j] == s[j + 1]);
        lemma_insert_desc_at(ob, s.drop_first(), t, i - 1);
        assert(seq![s[0]] + (s.drop_first().take(i - 1) + seq![t] + s.drop_first().skip(i - 1))
            =~= s.take(i) + seq![t] + s.skip(i));
    }
}

/// Every key of an insertion's result is bounded by any bound on the keys
/// of the sequence and of the inserted element.
proof fn lemma_insert_desc_key_bound(ob: OrderBy, s: Seq<TorrentView>, t: TorrentView, bound: u32)
    requires
        forall|j: int| 0 <= j < s.len() ==> sort_key(ob, #[trigger] s[j]) <= bound,
        sort_key(ob, t) <= bound,
    ensures
        forall|j: int|
            0 <= j < insert_desc(ob, s, t).len() ==> sort_key(
                ob,
                #[trigger] insert_desc(ob, s, t)[j],
            ) <= bound,
    decreases s.len(),
{
    if s.len() == 0 {
    } else if sort_key(ob, s[0]) >= sort_key(ob, t) {
        assert(forall|j: int|
            0 <= j < s.drop_first().len() ==> #[trigger] s.drop_first()[j] == s[j + 1]);
        lemma_insert_desc_key_bound(ob, s.drop_first(), t, bound);
        assert(forall|j: int|
            1 <= j < insert_desc(ob, s, t).len() ==> #[trigger] insert_desc(ob, s, t)[j]
                == insert_desc(ob, s.drop_first(), t)[j - 1]);
    } else {
    }
}

/// Inserting into a sorted sequence keeps it sorted.
pub proof fn lemma_insert_desc_sorted(ob: OrderBy, s: Seq<TorrentView>, t: TorrentView)
    requires
        sorted_desc(ob, s),
    ensures
        sorted_desc(ob, insert_desc(ob, s, t)),
    decreases s.len(),
{
    if s.len() == 0 {
    } else if sort_key(ob, s[0]) >= sort_key(ob, t) {
        assert(forall|j: int|
            0 <= j < s.drop_first().len() ==> #[trigger] s.drop_first()[j] == s[j + 1]);
        lemma_insert_desc_sorted(ob, s.drop_first(), t);
        lemma_insert_desc_key_bound(ob, s.drop_first(), t, sort_key(ob, s[0]));
        assert(forall|j: int|
            1 <= j < insert_desc(ob, s, t).len() ==> #[trigger] insert_desc(ob, s, t)[j]
                == insert_desc(ob, s.drop_first(), t)[j - 1]);
    } else {
        assert(forall|j: int|
            1 <= j < (seq![t] + s).len() ==> #[trigger] (seq![t] + s)[j] == s[j - 1]);
    }
}

/// The insertion only adds the new element: the result holds exactly the
/// old elements and the new one.
pub proof fn lemma_insert_desc_multiset(ob: OrderBy, s: Seq<TorrentView>, t: TorrentView)
    ensures
        insert_desc(ob, s, t).to_multiset() == s.to_multiset().insert(t),
    decreases s.len(),
{
    broadcast use group_to_multiset_ensures;
    broadcast use vstd::multiset::group_multiset_axioms;

    if s.len() == 0 {
        assert(seq![t] =~= Seq::<TorrentView>::empty().push(t));
        assert(insert_desc(ob, s, t).to_multiset() =~= s.to_multiset().insert(t));
    } else if sort_key(ob, s[0]) >= sort_key(ob, t) {
        lemma_insert_desc_multiset(ob, s.drop_first(), t);
        lemma_multiset_commutative(seq![s[0]], insert_desc(ob, s.drop_first(), t));
        lemma_multiset_commutative(seq![s[0]], s.drop_first());
        assert(seq![s[0]] + s.drop_first() =~= s);
        assert(seq![s[0]] =~= Seq::<TorrentView>::empty().push(s[0]));
        assert(insert_desc(ob, s, t).to_multiset() =~= s.to_multiset().insert(t));
    } else {
        lemma_multiset_commutative(seq![t], s);
        assert(seq![t] =~= Seq::<TorrentView>::empty().push(t));
        assert(insert_desc(ob, s, t).to_multiset() =~= s.to_multiset().insert(t));
    }
}

/// The sort returns a sequence that is non-increasing in the sort key.
pub proof fn lemma_sort_desc_sorted(ob: OrderBy, s: Seq<TorrentView>)
    ensures
        sorted_desc(ob, sort_desc(ob, s)),
    decreases s.len(),
{
    if s.len() > 0 {
        lemma_sort_desc_sorted(ob, s.drop_last());
        lemma_insert_desc_sorted(ob, sort_desc(ob, s.drop_last()), s.last());
    }
}

/// The sort is a permutation: it returns exactly the elements it was given.
pub proof fn lemma_sort_desc_multiset(ob: OrderBy, s: Seq<TorrentView>)
    ensures
        sort_desc(ob, s).to_multiset() == s.to_multiset(),
    decreases s.len(),
{
    broadcast use group_to_multiset_ensures;

    if s.len() > 0 {
        lemma_sort_desc_multiset(ob, s.drop_last());
        lemma_insert_desc_multiset(ob, sort_desc(ob, s.drop_last()), s.last());
        assert(s.drop_last().push(s.last()) =~= s);
    }
}

/// The sort is stable: a sequence that is already in order comes back
/// unchanged, so elements with equal keys keep their relative order.
pub proof fn lemma_sort_desc_of_sorted(ob: OrderBy, s: Seq<TorrentView>)
    requires
        sorted_desc(ob, s),
    ensures
        sort_desc(ob, s) == s,
    decreases s.len(),
{
    if s.len() > 0 {
        assert(sorted_desc(ob, s.drop_last()));
        lemma_sort_desc_of_sorted(ob, s.drop_last());
        lemma_insert_desc_at(ob, s.drop_last(), s.last(), s.len() - 1);
        assert(s.drop_last().take(s.len() - 1) + seq![s.last()] + s.drop_last().skip(s.len() - 1)
            =~= s);
    }
}

/// Inserts a torrent at its stable position of a vector.
fn insert_sorted(ob: &OrderBy, v: &mut Vec<Torrent>, t: Torrent)
    ensures
        final(v).deep_view() == insert_desc(*ob, old(v).deep_view(), t@),
{
    let key = key_of(ob, &t);
    let mut i: usize = 0;
    while i < v.len() && key_of(ob, &v[i]) >= key
        invariant
            0 <= i <= v@.len(),
            v == old(v),
            key == sort_key(*ob, t@),
            forall|j: int| 0 <= j < i ==> sort_key(*ob, #[trigger] v.deep_view()[j]) >= sort_key(
                *ob,
                t@,
            ),
        decreases v@.len() - i,
    {
        proof {
            assert(v.deep_view()[i as int] == v@[i as int]@);
            assert(sort_key(*ob, v.deep_view()[i as int]) >= sort_key(*ob, t@));
        }
        i = i + 1;
    }
    proof {
        if (i as int) < v@.len() {
            assert(v.deep_view()[i as int] == v@[i as int]@);
        }
        lemma_insert_desc_at(*ob, v.deep_view(), t@, i as int);
    }
    v.insert(i, t);
    proof {
        assert(v.deep_view() =~= old(v).deep_view().take(i as int) + seq![t@]
            + old(v).deep_view().skip(i as int));
    }
}

/// Sorts torrents by the requested key, strictly descending and stable.
pub fn sort_torrents(ob: &OrderBy, torrents: Vec<Torrent>) -> (r: Vec<Torrent>)
    ensures
        r.deep_view() == sort_desc(*ob, torrents.deep_view()),
{
    let ghost whole = torrents.deep_view();
    let mut input = torrents;
    let mut r: Vec<Torrent> = Vec::new();
    proof {
        assert(whole.take(0) =~= Seq::<TorrentView>::empty());
        assert(whole.skip(0) =~= input.deep_view());
    }
    let ghost mut done: int = 0;
    while input.len() > 0
        invariant
            0 <= done <= whole.len(),
            input.deep_view() == whole.skip(done),
            r.deep_view() == sort_desc(*ob, whole.take(done)),
        decreases input@.len(),
    {
        let t = input.remove(0);
        proof {
            assert(input.deep_view() =~= whole.skip(done).drop_first());
            assert(whole.skip(done).drop_first() =~= whole.skip(done + 1));
            assert(t@ == whole.skip(done)[0]);
            assert(t@ == whole[done]);
        }
        insert_sorted(ob, &mut r, t);
        proof {
            assert(whole.take(done + 1).drop_last() =~= whole.take(done));
            assert(whole.take(done + 1).last() == whole[done]);
            done = done + 1;
        }
    }
    proof {
        assert(whole.skip(done).len() == 0);
        assert(done == whole.len());
        assert(whole.take(done) =~= whole);
    }
    r
}

} // verus!
