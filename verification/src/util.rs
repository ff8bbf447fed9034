//! Small vector helpers shared across the crate.

use vstd::prelude::*;

verus! {

/// An element-for-element copy of a vector of copyable values.
pub fn copy_vec<T: Copy>(v: &Vec<T>) -> (r: Vec<T>)
    ensures
        r@ == v@,
{
    let mut r: Vec<T> = Vec::new();
    let mut n: usize = 0;
    while n < v.len()
        invariant
            n <= v@.len(),
            r@ == v@.take(n as int),
        decreases v@.len() - n,
    {
        r.push(v[n]);
        assert(r@ =~= v@.take(n + 1));
        n += 1;
    }
    assert(r@ =~= v@);
    r
}

/// A vector holding `n` copies of `x`.
pub fn filled_vec<T: Copy>(x: T, n: usize) -> (r: Vec<T>)
    ensures
        r@ == Seq::new(n as nat, |i: int| x),
{
    let mut r: Vec<T> = Vec::new();
    let mut k: usize = 0;
    while k < n
        invariant
            k <= n,
            r@.len() == k,
            forall|i: int| 0 <= i < k ==> r@[i] == x,
        decreases n - k,
    {
        r.push(x);
        k += 1;
    }
    assert(r@ =~= Seq::new(n as nat, |i: int| x));
    r
}

} // verus!
