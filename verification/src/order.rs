//! Putting rows in order.

use vstd::prelude::*;

verus! {

/// Rows that have a place in a total order in which ties are allowed.
pub trait Ranked: Sized {
    /// `self` stands at or before `other`.
    spec fn goes_before(&self, other: &Self) -> bool;

    /// Of two rows, one stands at or before the other.
    proof fn lemma_total(a: &Self, b: &Self)
        ensures
            a.goes_before(b) || b.goes_before(a),
    ;

    proof fn lemma_transitive(a: &Self, b: &Self, c: &Self)
        requires
            a.goes_before(b),
            b.goes_before(c),
        ensures
            a.goes_before(c),
    ;

    fn precedes(&self, other: &Self) -> (b: bool)
        ensures
            b == self.goes_before(other),
    ;
}

/// Every row stands at or before the rows that follow it.
pub open spec fn is_sorted<T: Ranked>(s: Seq<T>) -> bool {
    forall|i: int, j: int|
        #![trigger s[i], s[j]]
        0 <= i < j < s.len() ==> s[i].goes_before(&s[j])
}

/// `out` holds the items of `inp`, the item at `k` being the one that `inp`
/// has at `p[k]`.
pub open spec fn is_rearrangement<T>(out: Seq<T>, inp: Seq<T>, p: Seq<int>) -> bool {
    &&& p.len() == inp.len()
    &&& out.len() == inp.len()
    &&& p.no_duplicates()
    &&& forall|k: int| 0 <= k < p.len() ==> 0 <= #[trigger] p[k] < inp.len() && out[k] == inp[p[k]]
}

/// `out` holds exactly the items of `inp`, each as often, in some order.
pub open spec fn rearranges<T>(out: Seq<T>, inp: Seq<T>) -> bool {
    exists|p: Seq<int>| is_rearrangement(out, inp, p)
}

/// A rearrangement of rows is a rearrangement of what is seen of them.
pub proof fn lemma_rearranges_map<T, U>(out: Seq<T>, inp: Seq<T>, f: spec_fn(T) -> U)
    requires
        rearranges(out, inp),
    ensures
        rearranges(out.map_values(f), inp.map_values(f)),
{
    let p = choose|p: Seq<int>| is_rearrangement(out, inp, p);
    assert(is_rearrangement(out.map_values(f), inp.map_values(f), p));
}

/// Every item of a rearrangement is an item of the list that it
/// rearranges, and the other way round.
pub proof fn lemma_rearranges_contains<T>(out: Seq<T>, inp: Seq<T>)
    requires
        rearranges(out, inp),
    ensures
        forall|x: T| out.contains(x) <==> inp.contains(x),
{
    let p = choose|p: Seq<int>| is_rearrangement(out, inp, p);
    assert forall|x: T| out.contains(x) implies inp.contains(x) by {
        let k = choose|k: int| 0 <= k < out.len() && out[k] == x;
        assert(inp[p[k]] == x);
    }
    assert forall|x: T| inp.contains(x) implies out.contains(x) by {
        let i = choose|i: int| 0 <= i < inp.len() && inp[i] == x;
        lemma_covers(p, inp.len() as int, i);
        let k = choose|k: int| 0 <= k < p.len() && p[k] == i;
        assert(out[k] == x);
    }
}

/// A list of `n` different numbers below `n` holds each number below `n`.
pub proof fn lemma_covers(p: Seq<int>, n: int, i: int)
    requires
        p.len() == n,
        p.no_duplicates(),
        forall|k: int| 0 <= k < p.len() ==> 0 <= #[trigger] p[k] < n,
        0 <= i < n,
    ensures
        exists|k: int| 0 <= k < p.len() && p[k] == i,
{
    if !p.contains(i) {
        let below = Set::new(|x: int| 0 <= x < n);
        let without = below.remove(i);
        vstd::set_lib::lemma_int_range(0, n);
        assert(below =~= vstd::set_lib::set_int_range(0, n));
        assert(p.to_set().subset_of(without)) by {
            assert forall|x: int| p.to_set().contains(x) implies without.contains(x) by {
                let k = choose|k: int| 0 <= k < p.len() && p[k] == x;
                assert(0 <= p[k] < n);
            }
        }
        p.unique_seq_to_set();
        vstd::set_lib::lemma_len_subset(p.to_set(), without);
        assert(false);
    }
    let k = choose|k: int| 0 <= k < p.len() && p[k] == i;
    assert(0 <= k < p.len() && p[k] == i);
}

/// The rows in order.
pub fn sort<T: Ranked>(v: Vec<T>) -> (r: Vec<T>)
    ensures
        is_sorted(r@),
        rearranges(r@, v@),
{
    let mut input = v;
    let mut out: Vec<T> = Vec::new();
    let ghost mut p: Seq<int> = Seq::empty();
    while input.len() > 0
        invariant
            input@ == v@.take(input@.len() as int),
            input@.len() <= v@.len(),
            out@.len() + input@.len() == v@.len(),
            is_sorted(out@),
            p.len() == out@.len(),
            p.no_duplicates(),
            forall|k: int|
                0 <= k < p.len() ==> input@.len() <= #[trigger] p[k] < v@.len() && out@[k] == v@[p[k]],
        decreases input.len(),
    {
        let ghost at = input@.len() - 1;
        let x = input.pop().unwrap();
        assert(x == v@[at]);
        let mut pos: usize = 0;
        let mut placed = false;
        while pos < out.len() && !placed
            invariant
                pos <= out.len(),
                forall|k: int| 0 <= k < pos ==> (#[trigger] out@[k]).goes_before(&x),
                placed ==> pos < out.len() && !out@[pos as int].goes_before(&x),
            decreases out.len() - pos + (if placed { 0int } else { 1int }),
        {
            if out[pos].precedes(&x) {
                pos = pos + 1;
            } else {
                placed = true;
            }
        }
        proof {
            let old_out = out@;
            assert forall|k: int|
                #![trigger old_out[k]]
                pos <= k < old_out.len() implies x.goes_before(&old_out[k]) by {
                T::lemma_total(&x, &old_out[pos as int]);
                if k > pos {
                    T::lemma_transitive(&x, &old_out[pos as int], &old_out[k]);
                }
            }
            let new_out = old_out.insert(pos as int, x);
            assert forall|i: int, j: int|
                #![trigger new_out[i], new_out[j]]
                0 <= i < j < new_out.len() implies new_out[i].goes_before(&new_out[j]) by {
                if j < pos {
                    assert(new_out[i] == old_out[i] && new_out[j] == old_out[j]);
                } else if j == pos {
                    assert(new_out[i] == old_out[i]);
                } else if i < pos {
                    assert(new_out[i] == old_out[i] && new_out[j] == old_out[j - 1]);
                } else if i == pos {
                    assert(new_out[j] == old_out[j - 1]);
                } else {
                    assert(new_out[i] == old_out[i - 1] && new_out[j] == old_out[j - 1]);
                }
            }
            let new_p = p.insert(pos as int, at);
            assert forall|i: int, j: int|
                0 <= i < new_p.len() && 0 <= j < new_p.len() && i != j implies new_p[i]
                != new_p[j] by {
                let a = if i < pos {
                    i
                } else {
                    i - 1
                };
                let b = if j < pos {
                    j
                } else {
                    j - 1
                };
                if i != pos {
                    assert(new_p[i] == p[a]);
                }
                if j != pos {
                    assert(new_p[j] == p[b]);
                }
            }
            assert forall|k: int| 0 <= k < new_p.len() implies at <= #[trigger] new_p[k] < v@.len()
                && new_out[k] == v@[new_p[k]] by {
                if k < pos {
                    assert(new_p[k] == p[k]);
                } else if k > pos {
                    assert(new_p[k] == p[k - 1]);
                }
            }
            p = new_p;
        }
        out.insert(pos, x);
    }
    proof {
        assert(is_rearrangement(out@, v@, p));
    }
    out
}

} // verus!
