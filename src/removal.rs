//! Removals by index, queued while a collection is walked and applied later
//! in one pass, from the highest position down.
use vstd::prelude::*;

verus! {

/// Whether position `j` is in `queue`.
pub open spec fn queued(queue: Seq<usize>, j: int) -> bool {
    exists|t: int| 0 <= t < queue.len() && #[trigger] queue[t] as int == j
}

/// For each of `n` positions, whether it is queued for removal.
pub open spec fn removal_mask(queue: Seq<usize>, n: nat) -> Seq<bool> {
    Seq::new(n, |j: int| queued(queue, j))
}

/// The elements of `s` from position `i` on whose mark in `d` is unset, in
/// their order.
pub open spec fn kept_from<T>(s: Seq<T>, d: Seq<bool>, i: int) -> Seq<T>
    decreases s.len() - i,
{
    if i >= s.len() || i < 0 {
        Seq::empty()
    } else if d[i] {
        kept_from(s, d, i + 1)
    } else {
        seq![s[i]] + kept_from(s, d, i + 1)
    }
}

/// The elements of `s` whose mark in `d` is unset, in their order.
pub open spec fn kept<T>(s: Seq<T>, d: Seq<bool>) -> Seq<T> {
    kept_from(s, d, 0)
}

/// The mask of the positions below `n` that `queue` names; positions past
/// `n` are ignored, and a position named twice is removed once.
pub fn mask_of(queue: &Vec<usize>, n: usize) -> (r: Vec<bool>)
    ensures
        r@ == removal_mask(queue@, n as nat),
{
    let mut d: Vec<bool> = Vec::new();
    while d.len() < n
        invariant
            d@.len() <= n,
            forall|j: int| 0 <= j < d@.len() ==> !#[trigger] d@[j],
        decreases n - d@.len(),
    {
        d.push(false);
    }
    let mut t: usize = 0;
    while t < queue.len()
        invariant
            t <= queue@.len(),
            d@.len() == n,
            forall|j: int| 0 <= j < n ==> #[trigger] d@[j] == queued(queue@.take(t as int), j),
        decreases queue@.len() - t,
    {
        let idx: usize = queue[t];
        if idx < n {
            d.set(idx, true);
        }
        let ghost before = queue@.take(t as int);
        let ghost after = queue@.take(t + 1);
        assert forall|j: int| 0 <= j < n implies #[trigger] d@[j] == queued(after, j) by {
            if queued(before, j) {
                let w = choose|w: int| 0 <= w < before.len() && #[trigger] before[w] as int == j;
                assert(after[w] == before[w]);
            }
            if j == idx as int {
                assert(after[t as int] as int == j);
            }
            if queued(after, j) {
                let w = choose|w: int| 0 <= w < after.len() && #[trigger] after[w] as int == j;
                if w < t {
                    assert(before[w] == after[w]);
                }
            }
        }
        t = t + 1;
    }
    assert(queue@.take(t as int) =~= queue@);
    assert(d@ =~= removal_mask(queue@, n as nat));
    d
}

/// Removes from `v` every element whose mark in `d` is set, from the highest
/// position down.
pub fn drop_marked<T>(v: &mut Vec<T>, d: &Vec<bool>)
    requires
        old(v)@.len() == d@.len(),
    ensures
        final(v)@ == kept(old(v)@, d@),
{
    let ghost s = v@;
    let mut i: usize = v.len();
    assert(v@ =~= s.take(i as int) + kept_from(s, d@, i as int));
    while i > 0
        invariant
            i <= s.len(),
            d@.len() == s.len(),
            v@ == s.take(i as int) + kept_from(s, d@, i as int),
        decreases i,
    {
        i = i - 1;
        if d[i] {
            assert(v@[i as int] == s[i as int]);
            v.remove(i);
        }
        assert(v@ =~= s.take(i as int) + kept_from(s, d@, i as int));
    }
    assert(v@ =~= kept(s, d@));
}

/// Sequences of one length lose the same number of elements to one mask.
pub proof fn lemma_kept_len<T, U>(a: Seq<T>, b: Seq<U>, d: Seq<bool>, i: int)
    requires
        a.len() == b.len(),
        0 <= i,
    ensures
        kept_from(a, d, i).len() == kept_from(b, d, i).len(),
    decreases a.len() - i,
{
    if i < a.len() {
        lemma_kept_len(a, b, d, i + 1);
    }
}

/// What holds of every element of `s` holds of every element kept.
pub proof fn lemma_kept_all<T>(s: Seq<T>, d: Seq<bool>, i: int, p: spec_fn(T) -> bool)
    requires
        0 <= i,
        forall|j: int| 0 <= j < s.len() ==> p(#[trigger] s[j]),
    ensures
        forall|j: int| 0 <= j < kept_from(s, d, i).len() ==> p(#[trigger] kept_from(s, d, i)[j]),
    decreases s.len() - i,
{
    if i < s.len() {
        lemma_kept_all(s, d, i + 1, p);
        let rest = kept_from(s, d, i + 1);
        if !d[i] {
            assert forall|j: int| 0 <= j < kept_from(s, d, i).len() implies p(#[trigger] kept_from(s, d, i)[j]) by {
                if j > 0 {
                    assert(kept_from(s, d, i)[j] == rest[j - 1]);
                }
            }
        }
    }
}

/// A mask that marks position `p` alone removes exactly that element.
pub proof fn lemma_kept_single<T>(s: Seq<T>, d: Seq<bool>, p: int, i: int)
    requires
        0 <= i <= s.len(),
        0 <= p < s.len(),
        d.len() == s.len(),
        d[p],
        forall|j: int| 0 <= j < d.len() && j != p ==> !#[trigger] d[j],
    ensures
        kept_from(s, d, i) == if i > p {
            s.subrange(i, s.len() as int)
        } else {
            s.subrange(i, s.len() as int).remove(p - i)
        },
    decreases s.len() - i,
{
    if i < s.len() {
        lemma_kept_single(s, d, p, i + 1);
        if i == p {
            assert(s.subrange(i, s.len() as int).remove(0) =~= s.subrange(i + 1, s.len() as int));
        } else if i > p {
            assert(seq![s[i]] + s.subrange(i + 1, s.len() as int) =~= s.subrange(i, s.len() as int));
        } else {
            assert(seq![s[i]] + s.subrange(i + 1, s.len() as int).remove(p - i - 1) =~= s.subrange(
                i,
                s.len() as int,
            ).remove(p - i));
        }
    } else {
        assert(s.subrange(i, s.len() as int) =~= Seq::<T>::empty());
    }
}

/// A queue holding one position in range removes exactly that element.
pub proof fn lemma_single_removal<T>(s: Seq<T>, i: usize)
    requires
        i < s.len(),
    ensures
        kept(s, removal_mask(seq![i], s.len())) == s.remove(i as int),
{
    let q = seq![i];
    let d = removal_mask(q, s.len());
    assert(q[0] as int == i as int);
    assert(d[i as int]);
    assert forall|j: int| 0 <= j < d.len() && j != i implies !#[trigger] d[j] by {
        if queued(q, j) {
            let w = choose|w: int| 0 <= w < q.len() && #[trigger] q[w] as int == j;
            assert(w == 0);
        }
    }
    lemma_kept_single(s, d, i as int, 0);
    assert(s.subrange(0, s.len() as int) =~= s);
}

} // verus!
