//! Index-based sorting shared by `sorted()` and `list.sort()`: sort a vector of
//! indices by comparing the items (or their keys), then rearrange the items in
//! place according to the sorted indices.
use vstd::prelude::*;
use core::cmp::Ordering;
use crate::compare::{comparable, lemma_compare_antisym, lemma_compare_ge_trans, lemma_compare_le_trans, order_class, py_compare, val_eq, val_gt, val_lt};
use crate::exception::{ExcType, RunError};
use crate::heap::{Heap, HeapView};
use crate::value::{Value, py_type, py_type_spec, type_str, type_str_spec};
use crate::text::{push_str, str_to_string};

verus! {

/// Whether `p` is a permutation of `0..n`: every entry is below `n` and no entry repeats.
pub open spec fn is_permutation(p: Seq<usize>, n: nat) -> bool {
    &&& p.len() == n
    &&& forall|k: int| 0 <= k < p.len() ==> #[trigger] p[k] < n
    &&& forall|a: int, b: int| 0 <= a < p.len() && 0 <= b < p.len() && a != b ==> #[trigger] p[a] != #[trigger] p[b]
}

/// The number of positions `k` with `p[k] != k`.
pub open spec fn unsettled(p: Seq<usize>) -> nat
    decreases p.len(),
{
    if p.len() == 0 {
        0
    } else {
        unsettled(p.drop_last()) + if p.last() == (p.len() - 1) as usize { 0nat } else { 1nat }
    }
}

/// Settling one unsettled position lowers the count by one.
proof fn lemma_settle(p: Seq<usize>, c: int)
    requires
        0 <= c < p.len(),
        p[c] != c as usize,
    ensures
        unsettled(p.update(c, c as usize)) + 1 == unsettled(p),
    decreases p.len(),
{
    let q = p.update(c, c as usize);
    if c == p.len() - 1 {
        assert(q.drop_last() == p.drop_last());
    } else {
        assert(q.drop_last() == p.drop_last().update(c, c as usize));
        lemma_settle(p.drop_last(), c);
    }
}

/// Swaps two elements of a slice (`<[T]>::swap`).
#[verifier::external_body]
fn slice_swap<T>(s: &mut [T], a: usize, b: usize)
    requires
        a < old(s)@.len(),
        b < old(s)@.len(),
    ensures
        final(s)@ == old(s)@.update(a as int, old(s)@[b as int]).update(b as int, old(s)@[a as int]),
{
    s.swap(a, b);
}

/// Rearranges `items` in place so that `items[i]` holds the element that was at
/// `items[indices[i]]`, following the permutation's cycles and swapping each element
/// into place. `indices` is consumed as scratch space and ends as the identity.
pub fn apply_permutation<T>(items: &mut [T], indices: &mut [usize])
    requires
        old(items)@.len() == old(indices)@.len(),
        is_permutation(old(indices)@, old(indices)@.len()),
    ensures
        final(items)@.len() == old(items)@.len(),
        final(indices)@.len() == old(indices)@.len(),
        forall|k: int| 0 <= k < old(items)@.len() ==> #[trigger] final(items)@[k] == old(items)@[old(indices)@[k] as int],
        forall|k: int| 0 <= k < old(indices)@.len() ==> #[trigger] final(indices)@[k] == k,
{
    let ghost a = items@;
    let ghost p = indices@;
    let n = items.len();
    let mut i: usize = 0;
    while i < n
        invariant
            n == a.len(),
            n == p.len(),
            items@.len() == n,
            indices@.len() == n,
            is_permutation(p, n as nat),
            i <= n,
            forall|k: int| 0 <= k < n ==> #[trigger] indices@[k] == k || indices@[k] == p[k],
            forall|k: int| 0 <= k < i ==> #[trigger] indices@[k] == k,
            forall|k: int|
                0 <= k < n && #[trigger] indices@[k] == k ==> exists|m: int|
                    0 <= m < n && indices@[m] == m && #[trigger] p[m] == k,
            forall|k: int| 0 <= k < n && #[trigger] indices@[k] == k ==> items@[k] == a[p[k] as int],
            forall|k: int| 0 <= k < n && #[trigger] indices@[k] != k ==> items@[k] == a[k],
        decreases n - i,
    {
        if indices[i] == i {
            i = i + 1;
            continue;
        }
        let mut current = i;
        let ghost mut prev: int = -1;
        loop
            invariant_except_break
                n == a.len(),
                n == p.len(),
                items@.len() == n,
                indices@.len() == n,
                is_permutation(p, n as nat),
                i < n,
                current < n,
                indices@[current as int] == p[current as int],
                p[current as int] != current,
                forall|k: int| 0 <= k < n ==> #[trigger] indices@[k] == k || indices@[k] == p[k],
                forall|k: int| 0 <= k < i ==> #[trigger] indices@[k] == k,
                indices@[i as int] != i ==> current == i,
                current == i ==> prev == -1,
                current != i ==> 0 <= prev < n && indices@[prev] == prev && p[prev] == current,
                forall|k: int|
                    0 <= k < n && #[trigger] indices@[k] == k && k != i ==> exists|m: int|
                        0 <= m < n && indices@[m] == m && #[trigger] p[m] == k,
                forall|k: int| 0 <= k < n && #[trigger] indices@[k] == k ==> items@[k] == a[p[k] as int],
                forall|k: int| 0 <= k < n && #[trigger] indices@[k] != k && k != current ==> items@[k] == a[k],
                items@[current as int] == a[i as int],
            ensures
                forall|k: int| 0 <= k < n ==> #[trigger] indices@[k] == k || indices@[k] == p[k],
                forall|k: int| 0 <= k <= i ==> #[trigger] indices@[k] == k,
                forall|k: int|
                    0 <= k < n && #[trigger] indices@[k] == k ==> exists|m: int|
                        0 <= m < n && indices@[m] == m && #[trigger] p[m] == k,
                forall|k: int| 0 <= k < n && #[trigger] indices@[k] == k ==> items@[k] == a[p[k] as int],
                forall|k: int| 0 <= k < n && #[trigger] indices@[k] != k ==> items@[k] == a[k],
                items@.len() == n,
                indices@.len() == n,
            decreases unsettled(indices@),
        {
            let target = indices[current];
            proof {
                lemma_settle(indices@, current as int);
            }
            let ghost before = indices@;
            indices[current] = current;
            if target == i {
                proof {
                    assert forall|k: int| 0 <= k < n && #[trigger] indices@[k] == k implies exists|m: int|
                        0 <= m < n && indices@[m] == m && #[trigger] p[m] == k by {
                        if k == i {
                            assert(indices@[current as int] == current as int && p[current as int] == k);
                        } else if k != current {
                            assert(before[k] == k);
                            let m = choose|m: int| 0 <= m < n && before[m] == m && #[trigger] p[m] == k;
                            assert(indices@[m] == m);
                        } else {
                            if current != i {
                                assert(indices@[prev] == prev && p[prev] == k);
                            }
                        }
                    }
                }
                break;
            }
            proof {
                assert(target as int == p[current as int]);
                assert(indices@[target as int] != target) by {
                    if indices@[target as int] == target {
                        assert(target != current);
                        assert(before[target as int] == target);
                        let m = choose|m: int| 0 <= m < n && before[m] == m && #[trigger] p[m] == target;
                        assert(p[m] == p[current as int]);
                        assert(m == current);
                    }
                }
                assert(indices@[target as int] == p[target as int]);
            }
            slice_swap(items, current, target);
            proof {
                assert forall|k: int|
                    0 <= k < n && #[trigger] indices@[k] == k && k != i implies exists|m: int|
                        0 <= m < n && indices@[m] == m && #[trigger] p[m] == k by {
                    if k == current {
                        if current != i {
                            assert(indices@[prev] == prev && p[prev] == k);
                        }
                    } else {
                        assert(before[k] == k);
                        let m = choose|m: int| 0 <= m < n && before[m] == m && #[trigger] p[m] == k;
                        assert(indices@[m] == m);
                    }
                }
                prev = current as int;
            }
            current = target;
        }
        i = i + 1;
    }
    assert forall|k: int| 0 <= k < n implies #[trigger] items@[k] == a[p[k] as int] by {
        assert(indices@[k] == k);
    }
}

/// `"'<' not supported between instances of '{a}' and '{b}'"`.
pub open spec fn lt_not_supported_message(a: Seq<char>, b: Seq<char>) -> Seq<char> {
    "'<' not supported between instances of '"@ + a + "' and '"@ + b + "'"@
}

/// Whether `a` must come after `b` in a sort in the given direction.
pub open spec fn goes_after(a: Value, b: Value, reverse: bool, heap: HeapView) -> bool {
    if reverse { val_lt(a, b, heap) } else { val_gt(a, b, heap) }
}

/// Whether every two distinct positions of `vals` hold values that can be compared.
pub open spec fn all_comparable(vals: Seq<Value>, heap: HeapView) -> bool {
    forall|i: int, j: int|
        0 <= i < vals.len() && 0 <= j < vals.len() && i != j ==> comparable(#[trigger] vals[i], #[trigger] vals[j], heap)
}

/// Whether `ind` lists positions of `vals` in sorted order for the given direction:
/// no position is followed by one that must come before it, and equal values keep
/// their original relative order.
pub open spec fn sorted_stable(vals: Seq<Value>, ind: Seq<usize>, reverse: bool, heap: HeapView) -> bool {
    &&& forall|a: int, b: int|
        0 <= a < b < ind.len() ==> !goes_after(#[trigger] vals[ind[a] as int], #[trigger] vals[ind[b] as int], reverse, heap)
    &&& forall|a: int, b: int|
        0 <= a < b < ind.len() && val_eq(#[trigger] vals[ind[a] as int], #[trigger] vals[ind[b] as int], heap) ==> ind[a] < ind[b]
}

/// Compares two values for sorting, reversing the result when `reverse` is set, and
/// raising TypeError when they are not ordered.
pub fn compare_values(a: &Value, b: &Value, reverse: bool, heap: &Heap) -> (r: Result<Ordering, RunError>)
    ensures
        match r {
            Ok(o) => comparable(*a, *b, heap@) && (o == Ordering::Greater) == goes_after(*a, *b, reverse, heap@)
                && (o == Ordering::Less) == goes_after(*b, *a, reverse, heap@),
            Err(e) => !comparable(*a, *b, heap@) && e.exc_type == ExcType::TypeError
                && e.message@ == lt_not_supported_message(type_str_spec(py_type_spec(*a, heap@)), type_str_spec(py_type_spec(*b, heap@))),
        },
{
    proof {
        lemma_compare_antisym(*a, *b, heap@);
    }
    match py_compare(a, b, heap) {
        Some(o) => {
            if reverse {
                match o {
                    Ordering::Less => Ok(Ordering::Greater),
                    Ordering::Greater => Ok(Ordering::Less),
                    Ordering::Equal => Ok(Ordering::Equal),
                }
            } else {
                Ok(o)
            }
        },
        None => {
            let mut m = str_to_string("'<' not supported between instances of '");
            push_str(&mut m, type_str(py_type(a, heap)));
            push_str(&mut m, "' and '");
            push_str(&mut m, type_str(py_type(b, heap)));
            push_str(&mut m, "'");
            Err(RunError { exc_type: ExcType::TypeError, message: m })
        },
    }
}

/// Whether `b` must come after `a` when sorting in the given direction, found by
/// asking whether `a < b` (`a > b` when reversed); TypeError when the two are not
/// ordered. Asking with the later value on the left is how Python's sort compares.
fn must_precede(a: &Value, b: &Value, reverse: bool, heap: &Heap) -> (r: Result<bool, RunError>)
    ensures
        match r {
            Ok(g) => comparable(*b, *a, heap@) && g == goes_after(*b, *a, reverse, heap@),
            Err(e) => !comparable(*a, *b, heap@) && e.exc_type == ExcType::TypeError
                && e.message@ == lt_not_supported_message(type_str_spec(py_type_spec(*a, heap@)), type_str_spec(py_type_spec(*b, heap@))),
        },
{
    proof {
        lemma_compare_antisym(*a, *b, heap@);
    }
    match compare_values(a, b, reverse, heap) {
        Ok(Ordering::Less) => Ok(true),
        Ok(_) => Ok(false),
        Err(e) => Err(e),
    }
}

/// The keys `values[perm[k]]`, position for position.
pub open spec fn keyed(values: Seq<Value>, perm: Seq<usize>) -> Seq<Value> {
    Seq::new(perm.len(), |k: int| values[perm[k] as int])
}

/// Whether `after` lists the positions of `vals` in sorted order for the given
/// direction, as a rearrangement of `before` that keeps equal values in the order
/// they had in `before`.
pub open spec fn sorted_stable_from(vals: Seq<Value>, before: Seq<usize>, after: Seq<usize>, reverse: bool, heap: HeapView) -> bool {
    &&& forall|a: int, b: int|
        0 <= a < b < after.len() ==> !goes_after(#[trigger] vals[after[a] as int], #[trigger] vals[after[b] as int], reverse, heap)
    &&& exists|pos: Seq<usize>| {
        &&& #[trigger] is_permutation(pos, after.len())
        &&& forall|k: int| 0 <= k < after.len() ==> #[trigger] after[k] == before[pos[k] as int]
        &&& forall|a: int, b: int|
            0 <= a < b < after.len() && val_eq(#[trigger] vals[after[a] as int], #[trigger] vals[after[b] as int], heap) ==> pos[a] < pos[b]
    }
}

/// Whether some entry of `p` is `v`.
pub open spec fn takes_value(p: Seq<usize>, v: int) -> bool {
    exists|k: int| 0 <= k < p.len() && #[trigger] p[k] == v
}

/// A permutation of `0..n` takes every value below `n`.
proof fn lemma_perm_onto(p: Seq<usize>, n: nat)
    requires
        is_permutation(p, n),
    ensures
        forall|v: int| 0 <= v < n ==> #[trigger] takes_value(p, v),
{
    let q = Seq::new(n, |k: int| p[k] as int);
    assert(q.no_duplicates()) by {
        assert forall|a: int, b: int| 0 <= a < q.len() && 0 <= b < q.len() && a != b implies q[a] != q[b] by {
            assert(p[a] != p[b]);
        }
    }
    q.unique_seq_to_set();
    vstd::set_lib::lemma_int_range(0, n as int);
    vstd::seq_lib::seq_to_set_is_finite(q);
    assert(q.to_set().subset_of(vstd::set_lib::set_int_range(0, n as int))) by {
        assert forall|x: int| q.to_set().contains(x) implies vstd::set_lib::set_int_range(0, n as int).contains(x) by {
            let k = choose|k: int| 0 <= k < q.len() && q[k] == x;
            assert(p[k] < n);
        }
    }
    vstd::set_lib::lemma_subset_equality(q.to_set(), vstd::set_lib::set_int_range(0, n as int));
    assert forall|v: int| 0 <= v < n implies #[trigger] takes_value(p, v) by {
        assert(vstd::set_lib::set_int_range(0, n as int).contains(v));
        assert(q.to_set().contains(v));
        let k = choose|k: int| 0 <= k < q.len() && q[k] == v;
        assert(p[k] == v);
    }
}

/// Sorts `indices`, a permutation of `0..n` for `n = values.len()`, so that they
/// list the positions of `values` in ascending order, or descending with `reverse`;
/// the sort is stable: positions of equal values keep the order they had in
/// `indices`. Fails with TypeError at the first comparison of two values that are
/// not ordered; that happens exactly when two values are not comparable.
pub fn sort_indices(indices: &mut [usize], values: &[Value], reverse: bool, heap: &Heap) -> (r: Result<(), RunError>)
    requires
        is_permutation(old(indices)@, values@.len()),
    ensures
        final(indices)@.len() == values@.len(),
        (r is Ok) == (values@.len() <= 1 || all_comparable(values@, heap@)),
        r is Ok ==> is_permutation(final(indices)@, values@.len()),
        r is Ok ==> sorted_stable_from(values@, old(indices)@, final(indices)@, reverse, heap@),
        r is Ok && (forall|k: int| 0 <= k < old(indices)@.len() ==> #[trigger] old(indices)@[k] == k)
            ==> sorted_stable(values@, final(indices)@, reverse, heap@),
        r matches Err(e) ==> exists|i: int, j: int|
            0 <= i < values@.len() && 0 <= j < values@.len() && i != j && !comparable(values@[i], values@[j], heap@)
                && e.exc_type == ExcType::TypeError && e.message@ == lt_not_supported_message(
                type_str_spec(py_type_spec(values@[i], heap@)),
                type_str_spec(py_type_spec(values@[j], heap@)),
            ),
{
    let n = indices.len();
    let ghost before = indices@;
    let ghost vals = values@;
    let mut perm: Vec<usize> = Vec::with_capacity(n);
    let mut k: usize = 0;
    while k < n
        invariant
            k <= n,
            n == indices@.len(),
            n == before.len(),
            perm@ == before.take(k as int),
            forall|q: int| 0 <= q < k ==> #[trigger] indices@[q] == q,
            forall|q: int| k <= q < n ==> #[trigger] indices@[q] == before[q],
        decreases n - k,
    {
        perm.push(indices[k]);
        indices[k] = k;
        k = k + 1;
        assert(perm@ =~= before.take(k as int));
    }
    proof {
        assert(perm@ =~= before);
        lemma_perm_onto(before, n as nat);
    }
    let ghost kv = keyed(vals, before);
    let res = sort_positions(indices, values, perm.as_slice(), reverse, heap);
    proof {
        assert(keyed(values@, perm@) == kv);
        if all_comparable(vals, heap@) {
            assert forall|a: int, b: int| 0 <= a < kv.len() && 0 <= b < kv.len() && a != b implies comparable(#[trigger] kv[a], #[trigger] kv[b], heap@) by {
                assert(before[a] != before[b]);
            }
        }
        if n > 1 && all_comparable(kv, heap@) {
            assert forall|i: int, j: int| 0 <= i < vals.len() && 0 <= j < vals.len() && i != j implies comparable(#[trigger] vals[i], #[trigger] vals[j], heap@) by {
                assert(takes_value(before, i) && takes_value(before, j));
                let a = choose|a: int| 0 <= a < n && #[trigger] before[a] == i;
                let b = choose|b: int| 0 <= b < n && #[trigger] before[b] == j;
                assert(kv[a] == vals[i] && kv[b] == vals[j]);
            }
        }
    }
    match res {
        Err(e) => {
            proof {
                let (i, j) = choose|i: int, j: int|
                    0 <= i < vals.len() && 0 <= j < vals.len() && i != j && !comparable(kv[i], kv[j], heap@)
                        && e.exc_type == ExcType::TypeError && e.message@ == lt_not_supported_message(
                        type_str_spec(py_type_spec(kv[i], heap@)),
                        type_str_spec(py_type_spec(kv[j], heap@)),
                    );
                assert(kv[i] == vals[before[i] as int] && kv[j] == vals[before[j] as int]);
                assert(before[i] != before[j]);
            }
            return Err(e);
        },
        Ok(()) => {},
    }
    let ghost pos = indices@;
    let mut k: usize = 0;
    while k < n
        invariant
            k <= n,
            n == indices@.len(),
            n == pos.len(),
            perm@ == before,
            before.len() == n,
            is_permutation(pos, n as nat),
            forall|q: int| 0 <= q < k ==> #[trigger] indices@[q] == before[pos[q] as int],
            forall|q: int| k <= q < n ==> #[trigger] indices@[q] == pos[q],
        decreases n - k,
    {
        let at = indices[k];
        proof {
            assert(at == pos[k as int]);
            assert(pos[k as int] < n);
        }
        indices[k] = perm[at];
        k = k + 1;
    }
    proof {
        let after = indices@;
        assert forall|q: int| 0 <= q < n implies #[trigger] after[q] < n && after[q] == before[pos[q] as int] by {}
        assert(is_permutation(after, n as nat)) by {
            assert forall|a: int, b: int| 0 <= a < n && 0 <= b < n && a != b implies #[trigger] after[a] != #[trigger] after[b] by {
                assert(pos[a] != pos[b]);
                assert(after[a] == before[pos[a] as int] && after[b] == before[pos[b] as int]);
            }
        }
        assert forall|q: int| 0 <= q < n implies #[trigger] vals[after[q] as int] == kv[pos[q] as int] by {
            assert(after[q] == before[pos[q] as int]);
        }
        assert forall|a: int, b: int| 0 <= a < b < n implies !goes_after(#[trigger] vals[after[a] as int], #[trigger] vals[after[b] as int], reverse, heap@) by {
            assert(vals[after[a] as int] == kv[pos[a] as int] && vals[after[b] as int] == kv[pos[b] as int]);
        }
        assert forall|a: int, b: int| 0 <= a < b < n && val_eq(#[trigger] vals[after[a] as int], #[trigger] vals[after[b] as int], heap@) implies pos[a] < pos[b] by {
            assert(vals[after[a] as int] == kv[pos[a] as int] && vals[after[b] as int] == kv[pos[b] as int]);
        }
        assert(sorted_stable_from(vals, before, after, reverse, heap@));
        if forall|q: int| 0 <= q < before.len() ==> #[trigger] before[q] == q {
            assert(kv =~= vals);
            assert(after =~= pos);
        }
    }
    Ok(())
}

/// Sorts `indices`, which start as `0..n`, so that they list the positions of the
/// keys `values[perm[k]]` in ascending order, or descending with `reverse`; the sort
/// is stable. Fails with TypeError at the first comparison of two keys that are not
/// ordered; that happens exactly when two keys are not comparable.
fn sort_positions(indices: &mut [usize], values: &[Value], perm: &[usize], reverse: bool, heap: &Heap) -> (r: Result<(), RunError>)
    requires
        old(indices)@.len() == values@.len(),
        is_permutation(perm@, values@.len()),
        forall|k: int| 0 <= k < old(indices)@.len() ==> #[trigger] old(indices)@[k] == k,
    ensures
        final(indices)@.len() == values@.len(),
        (r is Ok) == (values@.len() <= 1 || all_comparable(keyed(values@, perm@), heap@)),
        r is Ok ==> is_permutation(final(indices)@, values@.len()),
        r is Ok ==> sorted_stable(keyed(values@, perm@), final(indices)@, reverse, heap@),
        r matches Err(e) ==> exists|i: int, j: int|
            0 <= i < values@.len() && 0 <= j < values@.len() && i != j && !comparable(keyed(values@, perm@)[i], keyed(values@, perm@)[j], heap@)
                && e.exc_type == ExcType::TypeError && e.message@ == lt_not_supported_message(
                type_str_spec(py_type_spec(keyed(values@, perm@)[i], heap@)),
                type_str_spec(py_type_spec(keyed(values@, perm@)[j], heap@)),
            ),
{
    let n = indices.len();
    let ghost vals = keyed(values@, perm@);
    if n <= 1 {
        proof {
            assert(is_permutation(indices@, n as nat)) by {
                assert forall|a: int, b: int| 0 <= a < n && 0 <= b < n && a != b implies #[trigger] indices@[a] != #[trigger] indices@[b] by {}
            }
        }
        return Ok(());
    }
    let mut j: usize = 1;
    while j < n
        invariant
            2 <= n,
            n == vals.len(),
            vals == keyed(values@, perm@),
                values@.len() == n,
                perm@.len() == n,
                forall|k: int| 0 <= k < n ==> #[trigger] perm@[k] < n,
            indices@.len() == n,
            1 <= j <= n,
            forall|k: int| 0 <= k < j ==> #[trigger] indices@[k] < j,
            forall|a: int, b: int| 0 <= a < j && 0 <= b < j && a != b ==> #[trigger] indices@[a] != #[trigger] indices@[b],
            forall|k: int| j <= k < n ==> #[trigger] indices@[k] == k,
            forall|a: int, b: int|
                0 <= a < b < j ==> !goes_after(#[trigger] vals[indices@[a] as int], #[trigger] vals[indices@[b] as int], reverse, heap@),
            forall|a: int, b: int|
                0 <= a < b < j && val_eq(#[trigger] vals[indices@[a] as int], #[trigger] vals[indices@[b] as int], heap@) ==> indices@[a] < indices@[b],
            forall|k: int| 0 <= k < j ==> #[trigger] order_class(vals[k], heap@) == order_class(vals[0], heap@),
            j >= 2 ==> order_class(vals[0], heap@) != 0,
        decreases n - j,
    {
        let x = indices[j];
        let mut pos = j;
        let ghost pref = indices@;
        let mut done = false;
        while pos > 0 && !done
            invariant
                2 <= n,
                n == vals.len(),
                vals == keyed(values@, perm@),
                values@.len() == n,
                perm@.len() == n,
                forall|k: int| 0 <= k < n ==> #[trigger] perm@[k] < n,
                indices@.len() == n,
                1 <= j < n,
                x == j,
                pos <= j,
                pref.len() == n,
                forall|k: int| 0 <= k < j ==> #[trigger] pref[k] < j,
                forall|a: int, b: int| 0 <= a < j && 0 <= b < j && a != b ==> #[trigger] pref[a] != #[trigger] pref[b],
                forall|k: int| j <= k < n ==> #[trigger] pref[k] == k,
                forall|a: int, b: int|
                    0 <= a < b < j ==> !goes_after(#[trigger] vals[pref[a] as int], #[trigger] vals[pref[b] as int], reverse, heap@),
                forall|a: int, b: int|
                    0 <= a < b < j && val_eq(#[trigger] vals[pref[a] as int], #[trigger] vals[pref[b] as int], heap@) ==> pref[a] < pref[b],
                forall|k: int| 0 <= k < j ==> #[trigger] order_class(vals[k], heap@) == order_class(vals[0], heap@),
                j >= 2 ==> order_class(vals[0], heap@) != 0,
                forall|k: int| 0 <= k < pos ==> #[trigger] indices@[k] == pref[k],
                forall|k: int| pos < k <= j ==> #[trigger] indices@[k] == pref[k - 1],
                forall|k: int| j < k < n ==> #[trigger] indices@[k] == pref[k],
                forall|k: int| pos < k <= j ==> goes_after(#[trigger] vals[indices@[k] as int], vals[j as int], reverse, heap@),
                pos < j || done ==> comparable(vals[pref[j - 1] as int], vals[j as int], heap@),
                done ==> pos > 0 && comparable(vals[indices@[pos - 1] as int], vals[j as int], heap@)
                    && !goes_after(vals[indices@[pos - 1] as int], vals[j as int], reverse, heap@),
            decreases pos, if done { 0int } else { 1int },
        {
            let prev = indices[pos - 1];
            proof {
                assert(perm@[x as int] < n);
                assert(prev < n);
                assert(perm@[prev as int] < n);
                assert(vals[x as int] == values@[perm@[x as int] as int]);
                assert(vals[prev as int] == values@[perm@[prev as int] as int]);
            }
            let c = must_precede(&values[perm[x]], &values[perm[prev]], reverse, heap);
            match c {
                Err(e) => {
                    proof {
                        assert(prev != x);
                    }
                    return Err(e);
                },
                Ok(g) => {
                    if g {
                        indices[pos] = prev;
                        pos = pos - 1;
                    } else {
                        done = true;
                    }
                },
            }
        }
        indices[pos] = x;
        proof {
            let ind = indices@;
            // The new element shares the ordering family of the ones before it.
            assert(comparable(vals[pref[j - 1] as int], vals[j as int], heap@));
            assert(order_class(vals[j as int], heap@) == order_class(vals[0], heap@));
            assert(order_class(vals[0], heap@) != 0);
            assert forall|a: int, b: int| 0 <= a < b <= j implies !goes_after(#[trigger] vals[ind[a] as int], #[trigger] vals[ind[b] as int], reverse, heap@) by {
                if b == pos {
                    if a == pos - 1 {
                    } else {
                        let m = pref[pos - 1] as int;
                        if reverse {
                            lemma_compare_ge_trans(vals[ind[a] as int], vals[m], vals[j as int], heap@);
                        } else {
                            lemma_compare_le_trans(vals[ind[a] as int], vals[m], vals[j as int], heap@);
                        }
                    }
                } else if a == pos {
                    lemma_compare_antisym(vals[ind[b] as int], vals[j as int], heap@);
                    lemma_compare_antisym(vals[j as int], vals[ind[b] as int], heap@);
                } else if b < pos {
                } else if a > pos {
                    assert(ind[a] == pref[a - 1] && ind[b] == pref[b - 1]);
                } else {
                    assert(ind[b] == pref[b - 1]);
                }
            }
            assert forall|a: int, b: int| 0 <= a < b <= j && val_eq(#[trigger] vals[ind[a] as int], #[trigger] vals[ind[b] as int], heap@) implies ind[a] < ind[b] by {
                if b == pos {
                } else if a == pos {
                    lemma_compare_antisym(vals[ind[b] as int], vals[j as int], heap@);
                    lemma_compare_antisym(vals[j as int], vals[ind[b] as int], heap@);
                } else if b < pos {
                } else if a > pos {
                    assert(ind[a] == pref[a - 1] && ind[b] == pref[b - 1]);
                } else {
                    assert(ind[b] == pref[b - 1]);
                }
            }
            assert forall|a: int, b: int| 0 <= a <= j && 0 <= b <= j && a != b implies #[trigger] ind[a] != #[trigger] ind[b] by {
                if a == pos || b == pos {
                } else {
                    let pa = if a < pos { a } else { a - 1 };
                    let pb = if b < pos { b } else { b - 1 };
                    assert(ind[a] == pref[pa] && ind[b] == pref[pb]);
                }
            }
            assert forall|k: int| 0 <= k <= j implies #[trigger] ind[k] < j + 1 by {
                if k < pos {
                } else if k > pos {
                    assert(ind[k] == pref[k - 1]);
                }
            }
        }
        j = j + 1;
    }
    proof {
        assert(is_permutation(indices@, n as nat));
        assert forall|i: int, k: int| 0 <= i < n && 0 <= k < n && i != k implies comparable(#[trigger] vals[i], #[trigger] vals[k], heap@) by {
            assert(order_class(vals[i], heap@) == order_class(vals[0], heap@));
            assert(order_class(vals[k], heap@) == order_class(vals[0], heap@));
        }
    }
    Ok(())
}

/// `0..n` as a vector.
fn identity_indices(n: usize) -> (r: Vec<usize>)
    ensures
        r@.len() == n,
        forall|k: int| 0 <= k < n ==> #[trigger] r@[k] == k,
{
    let mut v: Vec<usize> = Vec::with_capacity(n);
    let mut i: usize = 0;
    while i < n
        invariant
            i <= n,
            v@.len() == i,
            forall|k: int| 0 <= k < i ==> #[trigger] v@[k] == k,
        decreases n - i,
    {
        v.push(i);
        i = i + 1;
    }
    v
}

/// The result of sorting `vals` by the sort keys `keys` (position for position):
/// some stable sorted order `p` of the keys, applied to the values.
pub open spec fn sorted_result(result: Seq<Value>, vals: Seq<Value>, keys: Seq<Value>, reverse: bool, heap: HeapView) -> bool {
    exists|p: Seq<usize>|
        #[trigger] is_permutation(p, vals.len()) && sorted_stable(keys, p, reverse, heap) && result.len() == vals.len()
            && forall|k: int| 0 <= k < vals.len() ==> #[trigger] result[k] == vals[p[k] as int]
}

/// Sorts `values` in place, ascending or (with `reverse`) descending, stably. With
/// `keys` (the key function's result for each value, position for position) the
/// values are ordered by their keys, otherwise by themselves. Fails with TypeError,
/// leaving `values` unchanged, when two of the compared values are not ordered.
pub fn sort_values(values: &mut Vec<Value>, keys: Option<&Vec<Value>>, reverse: bool, heap: &Heap) -> (r: Result<(), RunError>)
    requires
        keys matches Some(k) ==> k@.len() == old(values)@.len(),
    ensures
        ({
            let cmp_keys = match keys { Some(k) => k@, None => old(values)@ };
            &&& (r is Ok) == (old(values)@.len() <= 1 || all_comparable(cmp_keys, heap@))
            &&& r is Ok ==> sorted_result(final(values)@, old(values)@, cmp_keys, reverse, heap@)
            &&& r is Err ==> final(values)@ == old(values)@
            &&& r matches Err(e) ==> unordered_pair_error(cmp_keys, e, heap@)
        }),
{
    let n = values.len();
    let mut indices = identity_indices(n);
    let res = match keys {
        Some(k) => sort_indices(indices.as_mut_slice(), k.as_slice(), reverse, heap),
        None => sort_indices(indices.as_mut_slice(), values.as_slice(), reverse, heap),
    };
    match res {
        Err(e) => {
            proof {
                let cmp_keys = match keys { Some(k) => k@, None => values@ };
                let (i, j) = choose|i: int, j: int|
                    0 <= i < cmp_keys.len() && 0 <= j < cmp_keys.len() && i != j && !comparable(cmp_keys[i], cmp_keys[j], heap@)
                        && e.exc_type == ExcType::TypeError && e.message@ == lt_not_supported_message(
                        type_str_spec(py_type_spec(cmp_keys[i], heap@)),
                        type_str_spec(py_type_spec(cmp_keys[j], heap@)),
                    );
                assert(0 <= i < cmp_keys.len() && 0 <= j < cmp_keys.len() && i != j && !comparable(cmp_keys[i], cmp_keys[j], heap@));
            }
            Err(e)
        },
        Ok(()) => {
            let ghost p = indices@;
            let ghost before = values@;
            apply_permutation(values.as_mut_slice(), indices.as_mut_slice());
            proof {
                let cmp_keys = match keys { Some(k) => k@, None => before };
                assert(is_permutation(p, before.len()) && sorted_stable(cmp_keys, p, reverse, heap@));
            }
            Ok(())
        },
    }
}

/// Whether all values can be compared does not depend on anything but what the
/// heap holds for them.
pub proof fn lemma_all_comparable_agrees(vals: Seq<Value>, a: HeapView, b: HeapView)
    requires
        crate::heap::all_agree(vals, a, b),
    ensures
        all_comparable(vals, a) == all_comparable(vals, b),
{
    assert forall|i: int, j: int| 0 <= i < vals.len() && 0 <= j < vals.len() && i != j implies
        comparable(#[trigger] vals[i], #[trigger] vals[j], a) == comparable(vals[i], vals[j], b) by {
        crate::compare::lemma_compare_agrees(vals[i], vals[j], a, b);
    }
}

/// A sorted result stays a sorted result in a heap that agrees on every key.
pub proof fn lemma_sorted_result_agrees(result: Seq<Value>, vals: Seq<Value>, keys: Seq<Value>, reverse: bool, a: HeapView, b: HeapView)
    requires
        crate::heap::all_agree(keys, a, b),
        keys.len() == vals.len(),
        sorted_result(result, vals, keys, reverse, a),
    ensures
        sorted_result(result, vals, keys, reverse, b),
{
    let p = choose|p: Seq<usize>|
        #[trigger] is_permutation(p, vals.len()) && sorted_stable(keys, p, reverse, a) && result.len() == vals.len()
            && forall|k: int| 0 <= k < vals.len() ==> #[trigger] result[k] == vals[p[k] as int];
    assert forall|x: int, y: int| 0 <= x < y < p.len() implies
        !goes_after(#[trigger] keys[p[x] as int], #[trigger] keys[p[y] as int], reverse, b) by {
        crate::compare::lemma_compare_agrees(keys[p[x] as int], keys[p[y] as int], a, b);
    }
    assert forall|x: int, y: int| 0 <= x < y < p.len() && val_eq(#[trigger] keys[p[x] as int], #[trigger] keys[p[y] as int], b) implies p[x] < p[y] by {
        crate::compare::lemma_compare_agrees(keys[p[x] as int], keys[p[y] as int], a, b);
    }
    assert(is_permutation(p, vals.len()));
}

/// The TypeError for an unordered pair of sort keys reads the same in a heap that
/// agrees on every key.
pub open spec fn unordered_pair_error(keys: Seq<Value>, e: RunError, heap: HeapView) -> bool {
    exists|i: int, j: int|
        0 <= i < keys.len() && 0 <= j < keys.len() && i != j && !comparable(keys[i], keys[j], heap)
            && e.exc_type == ExcType::TypeError && e.message@ == lt_not_supported_message(
            type_str_spec(py_type_spec(keys[i], heap)),
            type_str_spec(py_type_spec(keys[j], heap)),
        )
}

/// Moves an unordered-pair error from one heap to another that agrees on every key.
pub proof fn lemma_unordered_pair_error_agrees(keys: Seq<Value>, e: RunError, a: HeapView, b: HeapView)
    requires
        crate::heap::all_agree(keys, a, b),
        unordered_pair_error(keys, e, a),
    ensures
        unordered_pair_error(keys, e, b),
{
    let (i, j) = choose|i: int, j: int|
        0 <= i < keys.len() && 0 <= j < keys.len() && i != j && !comparable(keys[i], keys[j], a)
            && e.exc_type == ExcType::TypeError && e.message@ == lt_not_supported_message(
            type_str_spec(py_type_spec(keys[i], a)),
            type_str_spec(py_type_spec(keys[j], a)),
        );
    crate::compare::lemma_compare_agrees(keys[i], keys[j], a, b);
    assert(0 <= i < keys.len() && 0 <= j < keys.len() && i != j && !comparable(keys[i], keys[j], b));
}

} // verus!
