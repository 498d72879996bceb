use vstd::prelude::*;

use vstd::arithmetic::div_mod::{
    lemma_add_mod_noop, lemma_mod_add_multiples_vanish, lemma_mod_sub_multiples_vanish,
    lemma_mod_twice, lemma_small_mod, lemma_sub_mod_noop,
};

use crate::error::MatrixError;

verus! {

/// The sum of `a[k] * b[k]` for `k < n`, accumulated from left to right
/// with `i64`'s wrapping addition and multiplication, starting from zero.
pub open spec fn dot_upto(a: Seq<i64>, b: Seq<i64>, n: nat) -> i64
    decreases n,
{
    if n == 0 {
        0
    } else {
        dot_upto(a, b, (n - 1) as nat).wrapping_add(a[n - 1].wrapping_mul(b[n - 1]))
    }
}

/// The dot product of two sequences of equal length, with `i64` semantics.
pub open spec fn dot(a: Seq<i64>, b: Seq<i64>) -> i64 {
    dot_upto(a, b, a.len())
}

/// The exact sum of `a[k] * b[k]` for `k < n`, over the integers.
pub open spec fn sum_of_products(a: Seq<i64>, b: Seq<i64>, n: nat) -> int
    decreases n,
{
    if n == 0 {
        0
    } else {
        sum_of_products(a, b, (n - 1) as nat) + a[n - 1] * b[n - 1]
    }
}

/// The modulus of `i64`'s wrapping arithmetic.
pub open spec fn word() -> int {
    0x1_0000_0000_0000_0000
}

proof fn lemma_wrapping_add_mod(x: i64, y: i64)
    ensures
        x.wrapping_add(y) as int % word() == (x + y) % word(),
{
    let s = x + y;
    if s > i64::MAX {
        lemma_mod_sub_multiples_vanish(s, word());
    } else if s < i64::MIN {
        lemma_mod_add_multiples_vanish(s, word());
    }
}

proof fn lemma_wrapping_mul_mod(x: i64, y: i64)
    ensures
        x.wrapping_mul(y) as int % word() == (x * y) % word(),
{
    let p = x * y;
    let r = p % word();
    lemma_mod_twice(p, word());
    if r > i64::MAX {
        lemma_mod_sub_multiples_vanish(r, word());
    }
}

/// The wrapping dot product agrees with the exact sum modulo 2^64.
proof fn lemma_dot_congruent(a: Seq<i64>, b: Seq<i64>, n: nat)
    requires
        n <= a.len(),
        n <= b.len(),
    ensures
        dot_upto(a, b, n) as int % word() == sum_of_products(a, b, n) % word(),
    decreases n,
{
    if n > 0 {
        let m = (n - 1) as nat;
        lemma_dot_congruent(a, b, m);
        let prev = dot_upto(a, b, m);
        let prod = a[n - 1].wrapping_mul(b[n - 1]);
        lemma_wrapping_add_mod(prev, prod);
        lemma_wrapping_mul_mod(a[n - 1], b[n - 1]);
        lemma_add_mod_noop(prev as int, prod as int, word());
        lemma_add_mod_noop(sum_of_products(a, b, m), a[n - 1] * b[n - 1], word());
    }
}

/// Whenever the exact sum of products fits in `i64`, the wrapping dot
/// product equals it.
pub proof fn lemma_dot_exact(a: Seq<i64>, b: Seq<i64>)
    requires
        a.len() == b.len(),
        i64::MIN <= sum_of_products(a, b, a.len()) <= i64::MAX,
    ensures
        dot(a, b) as int == sum_of_products(a, b, a.len()),
{
    let x = dot(a, b) as int;
    let y = sum_of_products(a, b, a.len());
    lemma_dot_congruent(a, b, a.len());
    lemma_sub_mod_noop(x, y, word());
    assert((x - y) % word() == 0);
    let d = x - y;
    if d > 0 {
        lemma_small_mod(d as nat, word() as nat);
    } else if d < 0 {
        lemma_mod_add_multiples_vanish(d, word());
        lemma_small_mod((word() + d) as nat, word() as nat);
    }
}

/// An owned row or column of a matrix.
#[derive(Debug)]
pub struct Vector {
    data: Vec<i64>,
}

impl View for Vector {
    type V = Seq<i64>;

    closed spec fn view(&self) -> Seq<i64> {
        self.data@
    }
}

impl Vector {
    /// Wraps the given elements.
    pub fn new(data: Vec<i64>) -> (v: Vector)
        ensures
            v@ == data@,
    {
        Vector { data }
    }

    pub fn len(&self) -> (n: usize)
        ensures
            n == self@.len(),
    {
        self.data.len()
    }

    /// The elements, in order.
    pub fn as_vec(&self) -> (r: &Vec<i64>)
        ensures
            r@ == self@,
    {
        &self.data
    }
}

/// The dot product of `a` and `b`; fails when their lengths differ.
pub fn dot_product(a: Vector, b: Vector) -> (r: Result<i64, MatrixError>)
    ensures
        r matches Ok(v) <==> a@.len() == b@.len(),
        r matches Ok(v) ==> v == dot(a@, b@),
        r matches Err(e) ==> e == MatrixError::DimensionMismatch,
{
    if a.len() != b.len() {
        return Err(MatrixError::DimensionMismatch);
    }
    let x = a.as_vec();
    let y = b.as_vec();
    let mut sum: i64 = 0;
    let mut i: usize = 0;
    while i < x.len()
        invariant
            x@ == a@,
            y@ == b@,
            x@.len() == y@.len(),
            i <= x@.len(),
            sum == dot_upto(a@, b@, i as nat),
        decreases x@.len() - i,
    {
        sum = sum.wrapping_add(x[i].wrapping_mul(y[i]));
        i = i + 1;
    }
    Ok(sum)
}

} // verus!
