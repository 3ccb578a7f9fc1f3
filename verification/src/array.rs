//! Removing duplicate elements from a slice, keeping the first
//! occurrence of each element in order.

use vstd::prelude::*;

use vstd::std_specs::cmp::PartialEqSpec;

verus! {

/// The first-occurrence deduplication of a sequence: scanning left to
/// right, an element is kept exactly when it has not occurred before.
pub open spec fn dedup<T>(s: Seq<T>) -> Seq<T>
    decreases s.len(),
{
    if s.len() == 0 {
        Seq::empty()
    } else {
        let pre = dedup(s.drop_last());
        if pre.contains(s.last()) {
            pre
        } else {
            pre.push(s.last())
        }
    }
}

/// Whether a vector holds an element equal to `x`.
fn holds_elem<T: Copy + PartialEq>(v: &Vec<T>, x: T) -> (b: bool)
    requires
        T::obeys_eq_spec(),
        forall|a: T, c: T| #[trigger] a.eq_spec(&c) <==> a == c,
    ensures
        b == v@.contains(x),
{
    let mut i: usize = 0;
    while i < v.len()
        invariant
            i <= v@.len(),
            T::obeys_eq_spec(),
            forall|a: T, c: T| #[trigger] a.eq_spec(&c) <==> a == c,
            forall|k: int| 0 <= k < i ==> v@[k] != x,
        decreases v@.len() - i,
    {
        if v[i] == x {
            assert(v@.contains(x));
            return true;
        }
        i = i + 1;
    }
    proof {
        if v@.contains(x) {
            let k = choose|k: int| 0 <= k < v@.len() && v@[k] == x;
            assert(false);
        }
    }
    false
}

/// Removes duplicate elements, returning the first occurrence of each
/// element in its original order. Equality on the element type must
/// agree with logical equality, as it does for the primitive types.
pub fn duplicate<T: Copy + PartialEq>(elems: &[T]) -> (r: Vec<T>)
    requires
        T::obeys_eq_spec(),
        forall|a: T, c: T| #[trigger] a.eq_spec(&c) <==> a == c,
    ensures
        r@ == dedup(elems@),
{
    let mut ans: Vec<T> = Vec::new();
    let mut i: usize = 0;
    assert(ans@ =~= dedup(elems@.take(0)));
    while i < elems.len()
        invariant
            i <= elems@.len(),
            T::obeys_eq_spec(),
            forall|a: T, c: T| #[trigger] a.eq_spec(&c) <==> a == c,
            ans@ == dedup(elems@.take(i as int)),
        decreases elems@.len() - i,
    {
        let e = elems[i];
        if !holds_elem(&ans, e) {
            ans.push(e);
        }
        i = i + 1;
        proof {
            let pre = elems@.take(i - 1);
            let cur = elems@.take(i as int);
            assert(cur.drop_last() =~= pre);
            assert(cur.last() == elems@[i - 1]);
        }
    }
    proof {
        assert(elems@.take(elems@.len() as int) =~= elems@);
    }
    ans
}

} // verus!
