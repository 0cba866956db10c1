//! Ordering results by packet index.
//!
//! The order is the stable one: results with the same index keep the order
//! in which they stood.

use crate::packet_result::PacketResult;
use vstd::prelude::*;

verus! {

/// Whether the indices of `s` never decrease from one result to the next.
pub open spec fn ordered_by_index(s: Seq<PacketResult>) -> bool {
    forall|i: int, j: int| 0 <= i < j < s.len() ==> s[i].index <= s[j].index
}

/// `s` with `x` put behind the last result whose index is not larger.
pub open spec fn insert_by_index(s: Seq<PacketResult>, x: PacketResult) -> Seq<PacketResult>
    decreases s.len(),
{
    if s.len() == 0 {
        seq![x]
    } else if s.last().index <= x.index {
        s.push(x)
    } else {
        insert_by_index(s.drop_last(), x).push(s.last())
    }
}

/// The results of `s` in ascending order of index, those of the same index
/// in the order in which they stand in `s`.
pub open spec fn sorted_by_index(s: Seq<PacketResult>) -> Seq<PacketResult>
    decreases s.len(),
{
    if s.len() == 0 {
        Seq::empty()
    } else {
        insert_by_index(sorted_by_index(s.drop_last()), s.last())
    }
}

/// An index that bounds `x` and every result of `s` bounds every result of
/// `s` with `x` inserted.
proof fn lemma_insert_bounded(s: Seq<PacketResult>, x: PacketResult, bound: u64)
    requires
        x.index <= bound,
        forall|k: int| 0 <= k < s.len() ==> s[k].index <= bound,
    ensures
        forall|i: int|
            0 <= i < insert_by_index(s, x).len() ==> insert_by_index(s, x)[i].index <= bound,
    decreases s.len(),
{
    let r = insert_by_index(s, x);
    if s.len() > 0 && s.last().index > x.index {
        let init = s.drop_last();
        assert forall|k: int| 0 <= k < init.len() implies init[k].index <= bound by {
            assert(init[k] == s[k]);
        }
        lemma_insert_bounded(init, x, bound);
        let t = insert_by_index(init, x);
        assert(r == t.push(s.last()));
        assert forall|i: int| 0 <= i < r.len() implies r[i].index <= bound by {
            if i < t.len() {
                assert(r[i] == t[i]);
            } else {
                assert(r[i] == s[s.len() - 1]);
            }
        }
    } else if s.len() > 0 {
        assert(r == s.push(x));
        assert forall|i: int| 0 <= i < r.len() implies r[i].index <= bound by {
            if i < s.len() {
                assert(r[i] == s[i]);
            }
        }
    } else {
        assert(r == seq![x]);
    }
}

/// Inserting adds one result and keeps an ascending sequence ascending.
pub proof fn lemma_insert_keeps_order(s: Seq<PacketResult>, x: PacketResult)
    requires
        ordered_by_index(s),
    ensures
        ordered_by_index(insert_by_index(s, x)),
        insert_by_index(s, x).len() == s.len() + 1,
        insert_by_index(s, x).to_multiset() == s.to_multiset().insert(x),
    decreases s.len(),
{
    broadcast use vstd::seq_lib::group_to_multiset_ensures;

    let r = insert_by_index(s, x);
    if s.len() == 0 {
        assert(s =~= Seq::empty());
        assert(r =~= Seq::<PacketResult>::empty().push(x));
    } else if s.last().index <= x.index {
    } else {
        let init = s.drop_last();
        assert(ordered_by_index(init)) by {
            assert forall|i: int, j: int| 0 <= i < j < init.len() implies init[i].index
                <= init[j].index by {
                assert(init[i] == s[i] && init[j] == s[j]);
            }
        }
        lemma_insert_keeps_order(init, x);
        let t = insert_by_index(init, x);
        assert(s =~= init.push(s.last()));
        assert forall|k: int| 0 <= k < init.len() implies init[k].index <= s.last().index by {
            assert(init[k] == s[k]);
        }
        lemma_insert_bounded(init, x, s.last().index);
        assert(s.to_multiset() =~= init.to_multiset().insert(s.last()));
        assert(r.to_multiset() =~= s.to_multiset().insert(x));
    }
}

/// Sorting gives an ascending sequence with the same results, each as often
/// as before.
pub proof fn lemma_sorted_is_ordered(s: Seq<PacketResult>)
    ensures
        ordered_by_index(sorted_by_index(s)),
        sorted_by_index(s).len() == s.len(),
        sorted_by_index(s).to_multiset() == s.to_multiset(),
    decreases s.len(),
{
    broadcast use vstd::seq_lib::group_to_multiset_ensures;

    if s.len() == 0 {
        assert(s =~= Seq::empty());
    } else {
        lemma_sorted_is_ordered(s.drop_last());
        lemma_insert_keeps_order(sorted_by_index(s.drop_last()), s.last());
        assert(s =~= s.drop_last().push(s.last()));
        assert(s.to_multiset() =~= s.drop_last().to_multiset().insert(s.last()));
    }
}

/// Sorting leaves an ascending sequence as it is.
pub proof fn lemma_sorted_of_ordered(s: Seq<PacketResult>)
    requires
        ordered_by_index(s),
    ensures
        sorted_by_index(s) == s,
    decreases s.len(),
{
    if s.len() == 0 {
        assert(s =~= Seq::empty());
    } else {
        let init = s.drop_last();
        assert(ordered_by_index(init)) by {
            assert forall|i: int, j: int| 0 <= i < j < init.len() implies init[i].index
                <= init[j].index by {
                assert(init[i] == s[i] && init[j] == s[j]);
            }
        }
        lemma_sorted_of_ordered(init);
        if init.len() > 0 {
            assert(init.last() == s[init.len() - 1]);
        }
        assert(insert_by_index(init, s.last()) =~= s);
    }
}

/// Sorting twice is sorting once.
pub proof fn lemma_sort_idempotent(s: Seq<PacketResult>)
    ensures
        sorted_by_index(sorted_by_index(s)) == sorted_by_index(s),
{
    lemma_sorted_is_ordered(s);
    lemma_sorted_of_ordered(sorted_by_index(s));
}

/// Changing results without touching their indices and then sorting is
/// sorting and then changing: the order depends on the indices alone.
pub proof fn lemma_sort_commutes(s: Seq<PacketResult>, f: spec_fn(PacketResult) -> PacketResult)
    requires
        forall|r: PacketResult| (#[trigger] f(r)).index == r.index,
    ensures
        sorted_by_index(s.map_values(f)) == sorted_by_index(s).map_values(f),
    decreases s.len(),
{
    if s.len() == 0 {
        assert(s.map_values(f) =~= Seq::empty());
        assert(sorted_by_index(s).map_values(f) =~= Seq::empty());
    } else {
        let init = s.drop_last();
        lemma_sort_commutes(init, f);
        assert(s.map_values(f).drop_last() =~= init.map_values(f));
        assert(s.map_values(f).last() == f(s.last()));
        lemma_insert_commutes(sorted_by_index(init), s.last(), f);
    }
}

proof fn lemma_insert_commutes(
    s: Seq<PacketResult>,
    x: PacketResult,
    f: spec_fn(PacketResult) -> PacketResult,
)
    requires
        forall|r: PacketResult| (#[trigger] f(r)).index == r.index,
    ensures
        insert_by_index(s.map_values(f), f(x)) == insert_by_index(s, x).map_values(f),
    decreases s.len(),
{
    let mapped = s.map_values(f);
    if s.len() == 0 {
        assert(insert_by_index(mapped, f(x)) =~= insert_by_index(s, x).map_values(f));
    } else {
        assert(mapped.last() == f(s.last()));
        assert(mapped.drop_last() =~= s.drop_last().map_values(f));
        if s.last().index <= x.index {
            assert(mapped.push(f(x)) =~= s.push(x).map_values(f));
        } else {
            lemma_insert_commutes(s.drop_last(), x, f);
            assert(insert_by_index(s.drop_last(), x).map_values(f).push(f(s.last()))
                =~= insert_by_index(s.drop_last(), x).push(s.last()).map_values(f));
        }
    }
}

/// Two ascending sequences brought into one: at every step the larger of
/// the two last results goes to the end, and that of `b` where they have
/// the same index.
pub open spec fn merged_by_index(a: Seq<PacketResult>, b: Seq<PacketResult>) -> Seq<PacketResult>
    decreases a.len() + b.len(),
{
    if a.len() == 0 {
        b
    } else if b.len() == 0 {
        a
    } else if a.last().index > b.last().index {
        merged_by_index(a.drop_last(), b).push(a.last())
    } else {
        merged_by_index(a, b.drop_last()).push(b.last())
    }
}

/// Inserting into a merged sequence is merging with the insertion made
/// on the right.
proof fn lemma_insert_into_merged(a: Seq<PacketResult>, b: Seq<PacketResult>, z: PacketResult)
    ensures
        insert_by_index(merged_by_index(a, b), z) == merged_by_index(a, insert_by_index(b, z)),
    decreases a.len() + b.len(),
{
    let right = insert_by_index(b, z);
    if b.len() > 0 && b.last().index > z.index {
        let b_init = b.drop_last();
        assert(right == insert_by_index(b_init, z).push(b.last()));
        assert(right.drop_last() =~= insert_by_index(b_init, z));
        assert(right.last() == b.last());
        if a.len() > 0 && a.last().index > b.last().index {
            lemma_insert_into_merged(a.drop_last(), b, z);
            let m = merged_by_index(a.drop_last(), b);
            assert(m.push(a.last()).drop_last() =~= m);
        } else {
            lemma_insert_into_merged(a, b_init, z);
            let m = merged_by_index(a, b_init);
            if a.len() > 0 {
                assert(m.push(b.last()).drop_last() =~= m);
            } else {
                assert(merged_by_index(a, b) == b);
                assert(merged_by_index(a, right) == right);
                assert(m == b_init);
            }
        }
    } else {
        assert(right == b.push(z)) by {
            if b.len() == 0 {
                assert(b.push(z) =~= seq![z]);
            }
        }
        assert(right.drop_last() =~= b);
        assert(right.last() == z);
        if a.len() > 0 && a.last().index > z.index {
            lemma_insert_into_merged(a.drop_last(), b, z);
            let m = merged_by_index(a.drop_last(), b);
            assert(m.push(a.last()).drop_last() =~= m);
            if b.len() == 0 {
                assert(merged_by_index(a, b) == a);
                assert(merged_by_index(a.drop_last(), b) == a.drop_last()) by {
                    if a.drop_last().len() == 0 {
                        assert(a.drop_last() =~= b);
                    }
                }
            }
        } else if a.len() > 0 {
            let m = merged_by_index(a, b);
            if b.len() == 0 {
                assert(m == a);
            } else if a.last().index > b.last().index {
                assert(m.last() == a.last());
            } else {
                assert(m.last() == b.last());
            }
        } else {
            assert(merged_by_index(a, b) == b);
        }
    }
}

/// Sorting a sequence in two parts and merging the parts is sorting the
/// whole.
pub proof fn lemma_sorted_of_parts(x: Seq<PacketResult>, y: Seq<PacketResult>)
    ensures
        sorted_by_index(x + y) == merged_by_index(sorted_by_index(x), sorted_by_index(y)),
    decreases y.len(),
{
    if y.len() == 0 {
        assert(x + y =~= x);
        let sx = sorted_by_index(x);
        assert(sorted_by_index(y) =~= Seq::empty());
        if sx.len() == 0 {
            assert(sx =~= sorted_by_index(y));
        }
    } else {
        let whole = x + y;
        assert(whole.drop_last() =~= x + y.drop_last());
        assert(whole.last() == y.last());
        lemma_sorted_of_parts(x, y.drop_last());
        lemma_insert_into_merged(sorted_by_index(x), sorted_by_index(y.drop_last()), y.last());
    }
}

/// Whether the indices of `v` never decrease.
fn is_ordered(v: &Vec<PacketResult>) -> (b: bool)
    ensures
        b == ordered_by_index(v@),
{
    let n = v.len();
    if n < 2 {
        return true;
    }
    let mut i: usize = 1;
    while i < n
        invariant
            1 <= i <= n,
            n == v@.len(),
            forall|k: int| 0 < k < i ==> v@[k - 1].index <= (#[trigger] v@[k]).index,
        decreases n - i,
    {
        if v[i - 1].index > v[i].index {
            return false;
        }
        i = i + 1;
    }
    proof {
        assert forall|p: int, q: int| 0 <= p < q < n implies v@[p].index <= v@[q].index by {
            lemma_steps_give_order(v@, p, q);
        }
    }
    true
}

/// Results that never decrease from one to the next never decrease from
/// any one to any later one.
proof fn lemma_steps_give_order(s: Seq<PacketResult>, p: int, q: int)
    requires
        0 <= p <= q < s.len(),
        forall|k: int| 0 < k < s.len() ==> s[k - 1].index <= (#[trigger] s[k]).index,
    ensures
        s[p].index <= s[q].index,
    decreases q - p,
{
    if p < q {
        lemma_steps_give_order(s, p, q - 1);
    }
}

/// Brings two ascending sequences into one.
fn merge(a: &Vec<PacketResult>, b: &Vec<PacketResult>) -> (out: Vec<PacketResult>)
    requires
        a@.len() + b@.len() <= usize::MAX,
    ensures
        out@ == merged_by_index(a@, b@),
{
    let n = a.len() + b.len();
    // The places are made first and filled from the end.
    let mut out: Vec<PacketResult> = Vec::with_capacity(n);
    let mut fill: usize = 0;
    while fill < a.len()
        invariant
            fill <= a@.len(),
            out@.len() == fill,
        decreases a@.len() - fill,
    {
        out.push(a[fill]);
        fill = fill + 1;
    }
    fill = 0;
    while fill < b.len()
        invariant
            fill <= b@.len(),
            out@.len() == a@.len() + fill,
        decreases b@.len() - fill,
    {
        out.push(b[fill]);
        fill = fill + 1;
    }
    let mut i: usize = a.len();
    let mut j: usize = b.len();
    assert(a@.take(i as int) =~= a@ && b@.take(j as int) =~= b@);
    assert(out@.subrange(n as int, n as int) =~= Seq::empty());
    while i > 0 || j > 0
        invariant
            i <= a@.len(),
            j <= b@.len(),
            n == a@.len() + b@.len(),
            out@.len() == n,
            merged_by_index(a@, b@) == merged_by_index(a@.take(i as int), b@.take(j as int))
                + out@.subrange(i + j, n as int),
        decreases i + j,
    {
        let ghost left = a@.take(i as int);
        let ghost right = b@.take(j as int);
        let ghost tail = out@.subrange(i + j, n as int);
        let from_left = if i == 0 {
            false
        } else if j == 0 {
            true
        } else {
            a[i - 1].index > b[j - 1].index
        };
        if from_left {
            let x = a[i - 1];
            out.set(i + j - 1, x);
            proof {
                assert(left.last() == x);
                assert(left.drop_last() =~= a@.take(i - 1));
                assert(out@.subrange(i + j - 1, n as int) =~= seq![x] + tail);
                let rest = merged_by_index(a@.take(i - 1), right);
                assert(merged_by_index(left, right) == rest.push(x)) by {
                    if j == 0 {
                        assert(right.len() == 0);
                        assert(merged_by_index(left, right) == left);
                        assert(rest =~= a@.take(i - 1)) by {
                            if i - 1 == 0 {
                                assert(a@.take(i - 1) =~= right);
                            }
                        }
                        assert(left =~= rest.push(x));
                    }
                }
                assert(rest.push(x) + tail =~= rest + (seq![x] + tail));
            }
            i = i - 1;
        } else {
            let x = b[j - 1];
            out.set(i + j - 1, x);
            proof {
                assert(right.last() == x);
                assert(right.drop_last() =~= b@.take(j - 1));
                assert(out@.subrange(i + j - 1, n as int) =~= seq![x] + tail);
                let rest = merged_by_index(left, b@.take(j - 1));
                assert(merged_by_index(left, right) == rest.push(x)) by {
                    if i == 0 {
                        assert(left.len() == 0);
                        assert(merged_by_index(left, right) == right);
                        assert(rest == b@.take(j - 1));
                        assert(right =~= rest.push(x));
                    }
                }
                assert(rest.push(x) + tail =~= rest + (seq![x] + tail));
            }
            j = j - 1;
        }
    }
    assert(a@.take(0) =~= Seq::empty());
    assert(out@ =~= merged_by_index(a@.take(0), b@.take(0)) + out@.subrange(0, n as int));
    out
}

/// The results of `v` from position `lo` up to `hi`, in ascending order of
/// index.
fn sorted_range(v: &Vec<PacketResult>, lo: usize, hi: usize) -> (out: Vec<PacketResult>)
    requires
        lo <= hi <= v@.len(),
    ensures
        out@ == sorted_by_index(v@.subrange(lo as int, hi as int)),
        out@.len() == hi - lo,
    decreases hi - lo,
{
    let ghost part = v@.subrange(lo as int, hi as int);
    proof {
        lemma_sorted_is_ordered(part);
    }
    if hi - lo <= 1 {
        let mut out: Vec<PacketResult> = Vec::new();
        if hi - lo == 1 {
            out.push(v[lo]);
            proof {
                let x = v@[lo as int];
                assert(part.drop_last().len() == 0);
                assert(part.last() == x);
                assert(sorted_by_index(part.drop_last()).len() == 0);
                assert(sorted_by_index(part) == insert_by_index(
                    sorted_by_index(part.drop_last()),
                    x,
                ));
                assert(out@ =~= seq![x]);
            }
        } else {
            assert(out@ =~= sorted_by_index(part));
        }
        return out;
    }
    let mid = lo + (hi - lo) / 2;
    let left = sorted_range(v, lo, mid);
    let right = sorted_range(v, mid, hi);
    proof {
        assert(part =~= v@.subrange(lo as int, mid as int) + v@.subrange(mid as int, hi as int));
        lemma_sorted_of_parts(v@.subrange(lo as int, mid as int), v@.subrange(mid as int, hi as int));
    }
    merge(&left, &right)
}

/// Puts the results of `v` in ascending order of index, keeping the order
/// of results that share an index. Results that are in order already are
/// left as they are after one pass.
pub fn sort_by_index(v: &mut Vec<PacketResult>)
    ensures
        final(v)@ == sorted_by_index(old(v)@),
{
    if is_ordered(v) {
        proof {
            lemma_sorted_of_ordered(v@);
        }
        return;
    }
    let n = v.len();
    let sorted = sorted_range(v, 0, n);
    assert(v@.subrange(0, n as int) =~= v@);
    *v = sorted;
}

} // verus!
