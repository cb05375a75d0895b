//! A list of moves with stable, best-first ordering.

use vstd::prelude::*;
use crate::chess::ChessMove;

verus! {

/// A list of moves.
pub struct MoveList {
    moves: Vec<ChessMove>,
}

impl View for MoveList {
    type V = Seq<ChessMove>;

    closed spec fn view(&self) -> Seq<ChessMove> {
        self.moves@
    }
}

/// The key that a deterministic key function gives a move.
pub open spec fn key_of<F: Fn(ChessMove) -> i32>(key_fn: F, mv: ChessMove) -> i32 {
    choose|k: i32| call_ensures(key_fn, (mv,), k)
}

/// `sorted` with `mv` inserted after every entry whose key is at least
/// the key of `mv` (and before the entries of smaller key that end it).
pub open spec fn insert_by_key(sorted: Seq<ChessMove>, mv: ChessMove, key: spec_fn(ChessMove) -> int) -> Seq<
    ChessMove,
>
    decreases sorted.len(),
{
    if sorted.len() == 0 {
        seq![mv]
    } else if key(sorted.last()) >= key(mv) {
        sorted.push(mv)
    } else {
        insert_by_key(sorted.drop_last(), mv, key).push(sorted.last())
    }
}

/// `s` sorted by decreasing key, moves of equal key in their order in `s`.
pub open spec fn sorted_by_key(s: Seq<ChessMove>, key: spec_fn(ChessMove) -> int) -> Seq<ChessMove>
    decreases s.len(),
{
    if s.len() == 0 {
        Seq::empty()
    } else {
        insert_by_key(sorted_by_key(s.drop_last(), key), s.last(), key)
    }
}

proof fn lemma_insert_elements(t: Seq<ChessMove>, x: ChessMove, key: spec_fn(ChessMove) -> int)
    ensures
        insert_by_key(t, x, key).len() == t.len() + 1,
        forall|i: int|
            0 <= i < insert_by_key(t, x, key).len() ==> #[trigger] insert_by_key(t, x, key)[i] == x
                || t.contains(insert_by_key(t, x, key)[i]),
    decreases t.len(),
{
    if t.len() > 0 && key(t.last()) < key(x) {
        lemma_insert_elements(t.drop_last(), x, key);
        let r = insert_by_key(t, x, key);
        let r0 = insert_by_key(t.drop_last(), x, key);
        assert forall|i: int| 0 <= i < r.len() implies #[trigger] r[i] == x || t.contains(r[i]) by {
            if i < r0.len() {
                if r0[i] != x {
                    let j = choose|j: int| 0 <= j < t.drop_last().len() && t.drop_last()[j] == r0[i];
                    assert(t[j] == r0[i]);
                }
            } else {
                assert(r[i] == t[t.len() - 1]);
            }
        }
    } else if t.len() > 0 {
        let r = insert_by_key(t, x, key);
        assert forall|i: int| 0 <= i < r.len() implies #[trigger] r[i] == x || t.contains(r[i]) by {
            if i < t.len() {
                assert(r[i] == t[i]);
            }
        }
    }
}

/// The moves of a sorted list are moves of the list.
pub proof fn lemma_sorted_elements(s: Seq<ChessMove>, key: spec_fn(ChessMove) -> int)
    ensures
        sorted_by_key(s, key).len() == s.len(),
        forall|i: int|
            0 <= i < sorted_by_key(s, key).len() ==> s.contains(#[trigger] sorted_by_key(s, key)[i]),
    decreases s.len(),
{
    if s.len() > 0 {
        lemma_sorted_elements(s.drop_last(), key);
        let t = sorted_by_key(s.drop_last(), key);
        lemma_insert_elements(t, s.last(), key);
        let r = sorted_by_key(s, key);
        assert forall|i: int| 0 <= i < r.len() implies s.contains(#[trigger] r[i]) by {
            if r[i] != s.last() {
                assert(t.contains(r[i]));
                let j = choose|j: int| 0 <= j < t.len() && t[j] == r[i];
                let k = choose|k: int| 0 <= k < s.drop_last().len() && s.drop_last()[k] == t[j];
                assert(s[k] == r[i]);
            } else {
                assert(s[s.len() - 1] == r[i]);
            }
        }
    }
}

proof fn lemma_insert_same_keys(
    t: Seq<ChessMove>,
    x: ChessMove,
    k1: spec_fn(ChessMove) -> int,
    k2: spec_fn(ChessMove) -> int,
)
    requires
        forall|i: int| 0 <= i < t.len() ==> k1(#[trigger] t[i]) == k2(t[i]),
        k1(x) == k2(x),
    ensures
        insert_by_key(t, x, k1) == insert_by_key(t, x, k2),
    decreases t.len(),
{
    if t.len() > 0 {
        assert(k1(t[t.len() - 1]) == k2(t[t.len() - 1]));
        lemma_insert_same_keys(t.drop_last(), x, k1, k2);
    }
}

/// Sorting by two keys that agree on the moves of a list gives one result.
pub proof fn lemma_sorted_same_keys(
    s: Seq<ChessMove>,
    k1: spec_fn(ChessMove) -> int,
    k2: spec_fn(ChessMove) -> int,
)
    requires
        forall|i: int| 0 <= i < s.len() ==> k1(#[trigger] s[i]) == k2(s[i]),
    ensures
        sorted_by_key(s, k1) == sorted_by_key(s, k2),
    decreases s.len(),
{
    if s.len() > 0 {
        lemma_sorted_same_keys(s.drop_last(), k1, k2);
        let t = sorted_by_key(s.drop_last(), k1);
        lemma_sorted_elements(s.drop_last(), k1);
        assert forall|i: int| 0 <= i < t.len() implies k1(#[trigger] t[i]) == k2(t[i]) by {
            assert(s.drop_last().contains(t[i]));
            let j = choose|j: int| 0 <= j < s.drop_last().len() && s.drop_last()[j] == t[i];
            assert(s[j] == t[i]);
        }
        assert(k1(s[s.len() - 1]) == k2(s[s.len() - 1]));
        lemma_insert_same_keys(t, s.last(), k1, k2);
    }
}

proof fn lemma_insert_same_moves(t: Seq<ChessMove>, x: ChessMove, key: spec_fn(ChessMove) -> int)
    ensures
        insert_by_key(t, x, key).to_multiset() =~= t.to_multiset().insert(x),
    decreases t.len(),
{
    broadcast use vstd::seq_lib::group_to_multiset_ensures, vstd::multiset::group_multiset_axioms;

    if t.len() == 0 {
        assert(seq![x] =~= Seq::<ChessMove>::empty().push(x));
    } else if key(t.last()) < key(x) {
        lemma_insert_same_moves(t.drop_last(), x, key);
        assert(t.drop_last().push(t.last()) =~= t);
    }
}

/// Sorting rearranges a list: the sorted list holds each move exactly as
/// often as the list does.
pub proof fn lemma_sorted_same_moves(s: Seq<ChessMove>, key: spec_fn(ChessMove) -> int)
    ensures
        sorted_by_key(s, key).to_multiset() =~= s.to_multiset(),
    decreases s.len(),
{
    broadcast use vstd::seq_lib::group_to_multiset_ensures, vstd::multiset::group_multiset_axioms;

    if s.len() > 0 {
        lemma_sorted_same_moves(s.drop_last(), key);
        lemma_insert_same_moves(sorted_by_key(s.drop_last(), key), s.last(), key);
        assert(s.drop_last().push(s.last()) =~= s);
    }
}

/// A sorted list holds the same moves as the list, and repeats none when
/// the list repeats none.
pub proof fn lemma_sorted_keeps_moves(s: Seq<ChessMove>, key: spec_fn(ChessMove) -> int)
    ensures
        forall|mv: ChessMove| #[trigger] sorted_by_key(s, key).contains(mv) <==> s.contains(mv),
        s.no_duplicates() ==> sorted_by_key(s, key).no_duplicates(),
{
    broadcast use vstd::seq_lib::group_to_multiset_ensures;

    let t = sorted_by_key(s, key);
    lemma_sorted_same_moves(s, key);
    assert forall|mv: ChessMove| #[trigger] t.contains(mv) <==> s.contains(mv) by {
        assert(t.to_multiset().count(mv) == s.to_multiset().count(mv));
    }
    if s.no_duplicates() {
        s.lemma_multiset_has_no_duplicates();
        t.lemma_multiset_has_no_duplicates_conv();
    }
}

/// The keys of a key function, as a spec function.
pub open spec fn key_spec<F: Fn(ChessMove) -> i32>(key_fn: F) -> spec_fn(ChessMove) -> int {
    |mv: ChessMove| key_of(key_fn, mv) as int
}

/// A key function that accepts every move of `s` and gives each move one key.
pub open spec fn key_fn_ok<F: Fn(ChessMove) -> i32>(key_fn: F, s: Seq<ChessMove>) -> bool {
    &&& forall|i: int| 0 <= i < s.len() ==> call_requires(key_fn, (#[trigger] s[i],))
    &&& forall|mv: ChessMove, k1: i32, k2: i32|
        call_ensures(key_fn, (mv,), k1) && call_ensures(key_fn, (mv,), k2) ==> k1 == k2
}

/// `p` is a permutation of `0..n`.
pub open spec fn is_permutation(p: Seq<int>, n: int) -> bool {
    &&& p.len() == n
    &&& forall|i: int| 0 <= i < n ==> 0 <= #[trigger] p[i] < n
    &&& forall|i: int, j: int| 0 <= i < j < n ==> p[i] != p[j]
}

/// `sorted` holds the moves of `s` rearranged by `p` (entry `i` is
/// `s[p[i]]`), in decreasing order of `key`, moves of equal key keeping
/// their order in `s`.
pub open spec fn is_stable_sort_by_key(
    s: Seq<ChessMove>,
    sorted: Seq<ChessMove>,
    p: Seq<int>,
    key: spec_fn(ChessMove) -> int,
) -> bool {
    &&& sorted.len() == s.len()
    &&& is_permutation(p, s.len() as int)
    &&& forall|i: int| 0 <= i < s.len() ==> #[trigger] sorted[i] == s[p[i]]
    &&& forall|i: int, j: int|
        0 <= i < j < s.len() ==> key(#[trigger] sorted[i]) > key(#[trigger] sorted[j]) || (key(
            sorted[i],
        ) == key(sorted[j]) && p[i] < p[j])
}

impl MoveList {
    /// An empty list.
    pub fn new() -> (r: MoveList)
        ensures
            r@ == Seq::<ChessMove>::empty(),
    {
        MoveList { moves: Vec::new() }
    }

    /// Appends a move.
    pub fn push(&mut self, mv: ChessMove)
        ensures
            final(self)@ == old(self)@.push(mv),
    {
        self.moves.push(mv);
    }

    /// The number of moves.
    pub fn count(&self) -> (r: usize)
        ensures
            r == self@.len(),
    {
        self.moves.len()
    }

    /// Whether the list holds no move.
    pub fn is_empty(&self) -> (r: bool)
        ensures
            r == (self@.len() == 0),
    {
        self.moves.len() == 0
    }

    /// The move at `index`, or `None` past the end of the list.
    pub fn index(&self, index: usize) -> (r: Option<ChessMove>)
        ensures
            r == if index < self@.len() {
                Some(self@[index as int])
            } else {
                None
            },
    {
        if index < self.moves.len() {
            Some(self.moves[index])
        } else {
            None
        }
    }

    /// Iterates the moves from first to last.
    pub fn into_iter(self) -> (r: MoveListIntoIter)
        ensures
            r.list@ == self@,
            r.index == 0,
    {
        MoveListIntoIter { list: self, index: 0 }
    }

    /// Sorts the moves by decreasing key, keeping moves of equal key in
    /// their order (a stable sort by the reversed key).
    pub fn sort_by_key<F: Fn(ChessMove) -> i32>(&mut self, key_fn: F)
        requires
            key_fn_ok(key_fn, old(self)@),
        ensures
            exists|p: Seq<int>|
                #[trigger] is_stable_sort_by_key(
                    old(self)@,
                    final(self)@,
                    p,
                    key_spec(key_fn),
                ),
            final(self)@ == sorted_by_key(old(self)@, key_spec(key_fn)),
            final(self)@.len() == old(self)@.len(),
            forall|i: int|
                0 <= i < final(self)@.len() ==> old(self)@.contains(#[trigger] final(self)@[i]),
            forall|i: int|
                0 <= i < old(self)@.len() ==> call_ensures(
                    key_fn,
                    (old(self)@[i],),
                    key_of(key_fn, #[trigger] old(self)@[i]),
                ),
    {
        let ghost s = self.moves@;
        let ghost key = key_spec(key_fn);
        let n = self.moves.len();
        let mut keys: Vec<i32> = Vec::new();
        let mut i: usize = 0;
        while i < n
            invariant
                n == self.moves@.len(),
                self.moves@ == s,
                key_fn_ok(key_fn, s),
                i <= n,
                keys@.len() == i,
                forall|j: int| 0 <= j < i ==> #[trigger] keys@[j] == key_of(key_fn, s[j]) as int,
                forall|j: int|
                    0 <= j < i ==> call_ensures(key_fn, (s[j],), key_of(key_fn, #[trigger] s[j])),
            decreases n - i,
        {
            let mv = self.moves[i];
            assert(call_requires(key_fn, (s[i as int],)));
            let k = key_fn(mv);
            proof {
                assert(call_ensures(key_fn, (s[i as int],), k));
                assert(call_ensures(key_fn, (s[i as int],), key_of(key_fn, s[i as int])));
                assert(k == key_of(key_fn, s[i as int]));
            }
            keys.push(k);
            i = i + 1;
        }
        assert(forall|j: int|
            0 <= j < n ==> call_ensures(key_fn, (s[j],), key_of(key_fn, #[trigger] s[j])));
        let ghost mut p: Seq<int> = Seq::new(n as nat, |j: int| j);
        proof {
            assert forall|mv: ChessMove| #[trigger] key(mv) == key_of(key_fn, mv) as int by {}
            if n > 0 {
                assert(s.take(1).drop_last() == Seq::<ChessMove>::empty());
                assert(s.take(1).last() == s[0]);
                assert(sorted_by_key(Seq::<ChessMove>::empty(), key) == Seq::<ChessMove>::empty());
                assert(insert_by_key(Seq::<ChessMove>::empty(), s[0], key) == seq![s[0]]);
                assert(sorted_by_key(s.take(1), key) == seq![s[0]]);
                assert(self.moves@.take(1) =~= seq![s[0]]);
            }
        }
        let mut i: usize = 1;
        while i < n
            invariant
                n == self.moves@.len(),
                keys@.len() == n,
                1 <= i,
                i <= n || n == 0,
                is_permutation(p, n as int),
                forall|k: int| 0 <= k < n ==> #[trigger] self.moves@[k] == s[p[k]],
                forall|k: int| 0 <= k < n ==> #[trigger] keys@[k] == key_of(key_fn, self.moves@[k]) as int,
                forall|k: int| i <= k < n ==> #[trigger] p[k] == k,
                forall|k: int| 0 <= k < i && k < n ==> #[trigger] p[k] < i,
                n > 0 ==> self.moves@.take(i as int) == sorted_by_key(s.take(i as int), key),
                s.len() == n,
                forall|mv: ChessMove| #[trigger] key(mv) == key_of(key_fn, mv) as int,
                forall|a: int, b: int|
                    0 <= a < b < i && b < n ==> keys@[a] > keys@[b] || (keys@[a] == keys@[b] && p[a] < p[b]),
            decreases n - i,
        {
            let ghost sorted_prefix = sorted_by_key(s.take(i as int), key);
            let ghost x = s[i as int];
            assert(self.moves@[i as int] == x);
            assert(self.moves@.take(i + 1) == sorted_prefix.take(i as int) + seq![x] + sorted_prefix.skip(i as int));
            assert(insert_by_key(sorted_prefix.take(i as int), x, key) + sorted_prefix.skip(i as int) == insert_by_key(sorted_prefix, x, key)) by {
                assert(sorted_prefix.take(i as int) == sorted_prefix);
                assert(sorted_prefix.skip(i as int) == Seq::<ChessMove>::empty());
            }
            let mut j: usize = i;
            while j > 0 && keys[j - 1] < keys[j]
                invariant
                    n == self.moves@.len(),
                    keys@.len() == n,
                    1 <= i < n,
                    j <= i,
                    is_permutation(p, n as int),
                    forall|k: int| 0 <= k < n ==> #[trigger] self.moves@[k] == s[p[k]],
                    forall|k: int| 0 <= k < n ==> #[trigger] keys@[k] == key_of(key_fn, self.moves@[k]) as int,
                    forall|k: int| i < k < n ==> #[trigger] p[k] == k,
                    p[j as int] == i,
                    forall|k: int| 0 <= k <= i && k != j ==> #[trigger] p[k] < i,
                    forall|a: int, b: int|
                        0 <= a < b <= i && a != j && b != j ==> keys@[a] > keys@[b] || (keys@[a]
                            == keys@[b] && p[a] < p[b]),
                    forall|b: int| j < b <= i ==> keys@[b] < keys@[j as int],
                    s.len() == n,
                    forall|mv: ChessMove| #[trigger] key(mv) == key_of(key_fn, mv) as int,
                    x == s[i as int],
                    sorted_prefix == sorted_by_key(s.take(i as int), key),
                    sorted_prefix.len() == i,
                    self.moves@.take(i + 1) == sorted_prefix.take(j as int) + seq![x] + sorted_prefix.skip(j as int),
                    insert_by_key(sorted_prefix.take(j as int), x, key) + sorted_prefix.skip(j as int) == insert_by_key(sorted_prefix, x, key),
                    forall|k: int| i < k < n ==> #[trigger] self.moves@[k] == s[k],
                decreases j,
            {
                let ghost old_moves = self.moves@;
                proof {
                    assert(old_moves.take(i + 1)[j - 1] == old_moves[j - 1]);
                    assert(old_moves.take(i + 1)[j as int] == old_moves[j as int]);
                    assert((sorted_prefix.take(j as int) + seq![x] + sorted_prefix.skip(j as int))[j - 1] == sorted_prefix[j - 1]);
                    assert((sorted_prefix.take(j as int) + seq![x] + sorted_prefix.skip(j as int))[j as int] == x);
                }
                let ka = keys[j - 1];
                let kb = keys[j];
                keys.set(j - 1, kb);
                keys.set(j, ka);
                let ma = self.moves[j - 1];
                let mb = self.moves[j];
                self.moves.set(j - 1, mb);
                self.moves.set(j, ma);
                proof {
                    let pa = p[j - 1];
                    let pb = p[j as int];
                    p = p.update(j - 1, pb).update(j as int, pa);
                    let t = sorted_prefix.take(j as int);
                    assert(t.last() == sorted_prefix[j - 1]);
                    assert(t.drop_last() == sorted_prefix.take(j - 1));
                    assert(old_moves[j - 1] == sorted_prefix[j - 1]);
                    assert(old_moves[j as int] == x);
                    assert(ka == key_of(key_fn, old_moves[j - 1]) as int);
                    assert(kb == key_of(key_fn, old_moves[j as int]) as int);
                    assert(key(t.last()) < key(x));
                    assert(insert_by_key(t, x, key) == insert_by_key(sorted_prefix.take(j - 1), x, key).push(sorted_prefix[j - 1]));
                    assert(insert_by_key(sorted_prefix.take(j - 1), x, key) + sorted_prefix.skip(j - 1) =~= insert_by_key(t, x, key) + sorted_prefix.skip(j as int));
                    assert(self.moves@ == old_moves.update(j - 1, x).update(j as int, sorted_prefix[j - 1]));
                    assert forall|k: int| 0 <= k < i + 1 implies #[trigger] self.moves@.take(i + 1)[k]
                        == (sorted_prefix.take(j - 1) + seq![x] + sorted_prefix.skip(j - 1))[k] by {
                        assert(old_moves.take(i + 1)[k] == (sorted_prefix.take(j as int) + seq![x] + sorted_prefix.skip(j as int))[k]);
                    }
                    assert(self.moves@.take(i + 1) =~= sorted_prefix.take(j - 1) + seq![x] + sorted_prefix.skip(j - 1));
                }
                j = j - 1;
            }
            proof {
                let t = sorted_prefix.take(j as int);
                if j > 0 {
                    assert(t.last() == sorted_prefix[j - 1]);
                    assert(self.moves@.take(i + 1)[j - 1] == self.moves@[j - 1]);
                    assert(self.moves@.take(i + 1)[j as int] == self.moves@[j as int]);
                    assert((sorted_prefix.take(j as int) + seq![x] + sorted_prefix.skip(j as int))[j - 1] == sorted_prefix[j - 1]);
                    assert((sorted_prefix.take(j as int) + seq![x] + sorted_prefix.skip(j as int))[j as int] == x);
                    assert(keys@[j - 1] == key_of(key_fn, self.moves@[j - 1]) as int);
                    assert(key(t.last()) >= key(x));
                } else {
                    assert(t == Seq::<ChessMove>::empty());
                }
                assert(insert_by_key(t, x, key) == t.push(x));
                assert(s.take(i + 1).drop_last() == s.take(i as int));
                assert(s.take(i + 1).last() == x);
                assert(self.moves@.take(i + 1) =~= insert_by_key(sorted_prefix, x, key));
            }
            proof {
                assert forall|a: int, b: int| 0 <= a < b <= i implies keys@[a] > keys@[b] || (
                keys@[a] == keys@[b] && p[a] < p[b]) by {
                    if b == j {
                        assert(j > 0);
                        assert(keys@[j - 1] >= keys@[j as int]);
                        if a < j - 1 {
                            assert(keys@[a] > keys@[j - 1] || (keys@[a] == keys@[j - 1] && p[a]
                                < p[j - 1]));
                        }
                        assert(p[a] < i);
                    }
                }
                assert forall|k: int| 0 <= k < i + 1 implies #[trigger] p[k] < i + 1 by {
                    if k != j {
                        assert(p[k] < i);
                    }
                }
            }
            i = i + 1;
        }
        proof {
            if n > 0 {
                assert(self.moves@.take(n as int) == self.moves@);
                assert(s.take(n as int) == s);
            }
            assert forall|a: int, b: int| 0 <= a < b < n implies key(#[trigger] self.moves@[a]) > key(
                #[trigger] self.moves@[b],
            ) || (key(self.moves@[a]) == key(self.moves@[b]) && p[a] < p[b]) by {
                assert(keys@[a] == key_of(key_fn, self.moves@[a]) as int);
                assert(keys@[b] == key_of(key_fn, self.moves@[b]) as int);
            }
            assert(is_stable_sort_by_key(s, self.moves@, p, key));
            assert(is_stable_sort_by_key(s, self@, p, key_spec(key_fn)));
            assert forall|k: int| 0 <= k < self.moves@.len() implies s.contains(
                #[trigger] self.moves@[k],
            ) by {
                assert(self.moves@[k] == s[p[k]]);
            }
        }
    }
}

/// A stable sort by one key is a stable sort by any key that agrees with
/// it on the sorted moves.
pub proof fn lemma_stable_sort_same_keys(
    s: Seq<ChessMove>,
    sorted: Seq<ChessMove>,
    p: Seq<int>,
    k1: spec_fn(ChessMove) -> int,
    k2: spec_fn(ChessMove) -> int,
)
    requires
        is_stable_sort_by_key(s, sorted, p, k1),
        forall|i: int| 0 <= i < s.len() ==> k1(#[trigger] s[i]) == k2(s[i]),
    ensures
        is_stable_sort_by_key(s, sorted, p, k2),
{
    assert forall|i: int| 0 <= i < s.len() implies k1(#[trigger] sorted[i]) == k2(sorted[i]) by {
        assert(sorted[i] == s[p[i]]);
    }
}

/// An iterator over a [`MoveList`], from first move to last.
pub struct MoveListIntoIter {
    pub list: MoveList,
    pub index: usize,
}

impl MoveListIntoIter {
    /// The next move, if any is left.
    pub fn next(&mut self) -> (r: Option<ChessMove>)
        ensures
            final(self).list@ == old(self).list@,
            old(self).index < old(self).list@.len() ==> r == Some(old(self).list@[old(
                self,
            ).index as int]) && final(self).index == old(self).index + 1,
            old(self).index >= old(self).list@.len() ==> r is None && final(self).index == old(
                self,
            ).index,
    {
        if self.index < self.list.count() {
            let result = self.list.index(self.index);
            self.index = self.index + 1;
            result
        } else {
            None
        }
    }
}

/// The contents of a new list after pushing `pushed` in order (the
/// contents [`MoveList::new`] and [`MoveList::push`] give).
pub open spec fn after_pushes(pushed: Seq<ChessMove>) -> Seq<ChessMove>
    decreases pushed.len(),
{
    if pushed.len() == 0 {
        Seq::empty()
    } else {
        after_pushes(pushed.drop_last()).push(pushed.last())
    }
}

/// What [`MoveList::index`] gives for `i` on a list holding `moves`.
pub open spec fn index_result(moves: Seq<ChessMove>, i: int) -> Option<ChessMove> {
    if 0 <= i < moves.len() {
        Some(moves[i])
    } else {
        None
    }
}

/// A new list after `k` pushes counts `k` moves, and the move at each
/// index is the move pushed at that turn; past them there is none.
pub proof fn lemma_pushes_in_order(pushed: Seq<ChessMove>)
    ensures
        after_pushes(pushed).len() == pushed.len(),
        forall|i: int| #[trigger] index_result(after_pushes(pushed), i) == index_result(pushed, i),
    decreases pushed.len(),
{
    assert(after_pushes(pushed) =~= pushed) by {
        if pushed.len() > 0 {
            lemma_pushes_in_order(pushed.drop_last());
            assert forall|i: int| 0 <= i < pushed.len() - 1 implies after_pushes(pushed.drop_last())[i]
                == pushed[i] by {
                assert(index_result(after_pushes(pushed.drop_last()), i) == index_result(pushed.drop_last(), i));
            }
        }
    }
}

/// The results of `k` calls of [`MoveListIntoIter::next`] from index `i`
/// on a list holding `moves`, in order.
pub open spec fn next_results(moves: Seq<ChessMove>, i: int, k: nat) -> Seq<Option<ChessMove>>
    decreases k,
{
    if k == 0 {
        Seq::empty()
    } else {
        let next_index = if i < moves.len() {
            i + 1
        } else {
            i
        };
        seq![index_result(moves, i)].add(next_results(moves, next_index, (k - 1) as nat))
    }
}

/// Iterating a list gives its moves in order, then `None` forever: the
/// `j`-th of any number of calls of `next` on a fresh iterator gives the
/// move at index `j`, or `None` past the last move.
pub proof fn lemma_iteration_in_order(moves: Seq<ChessMove>, k: nat)
    ensures
        next_results(moves, 0, k).len() == k,
        forall|j: int| 0 <= j < k ==> #[trigger] next_results(moves, 0, k)[j] == index_result(moves, j),
{
    lemma_iteration_from(moves, 0, k);
}

proof fn lemma_iteration_from(moves: Seq<ChessMove>, i: int, k: nat)
    requires
        0 <= i,
    ensures
        next_results(moves, i, k).len() == k,
        forall|j: int|
            0 <= j < k ==> #[trigger] next_results(moves, i, k)[j] == if i <= moves.len() {
                index_result(moves, i + j)
            } else {
                index_result(moves, i)
            },
    decreases k,
{
    if k > 0 {
        let next_index = if i < moves.len() {
            i + 1
        } else {
            i
        };
        lemma_iteration_from(moves, next_index, (k - 1) as nat);
        let r = next_results(moves, i, k);
        let rest = next_results(moves, next_index, (k - 1) as nat);
        assert forall|j: int| 0 <= j < k implies #[trigger] r[j] == if i <= moves.len() {
            index_result(moves, i + j)
        } else {
            index_result(moves, i)
        } by {
            if j > 0 {
                assert(r[j] == rest[j - 1]);
            }
        }
    }
}

} // verus!
