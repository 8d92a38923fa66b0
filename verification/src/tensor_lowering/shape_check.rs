//! Tensor shape validation and broadcasting.
//!
//! NumPy-style broadcasting rules:
//!   1. If tensors have different ranks, prepend 1s to the smaller-rank tensor
//!   2. For each dimension, sizes must be equal or one must be 1
//!   3. Output dimension is the larger of the two (the one that is not 1)

use vstd::prelude::*;
use crate::text::{push_decimal, push_decimals_joined, push_str, str_to_string, decimal, decimals, join};

verus! {

/// The product of all sizes in a shape.
pub open spec fn product(s: Seq<usize>) -> int
    decreases s.len(),
{
    if s.len() == 0 { 1 } else { product(s.drop_last()) * s.last() }
}

/// `s` with 1s prepended to reach rank `n`.
pub open spec fn padded(s: Seq<usize>, n: int) -> Seq<usize> {
    Seq::new(n as nat, |i: int| if i < n - s.len() { 1usize } else { s[i - (n - s.len())] })
}

/// The larger of two ranks.
pub open spec fn max_rank(a: Seq<usize>, b: Seq<usize>) -> int {
    if a.len() >= b.len() { a.len() as int } else { b.len() as int }
}

/// Two aligned sizes are compatible: equal, or one of them is 1.
pub open spec fn dims_compatible(l: usize, r: usize) -> bool {
    l == 1 || r == 1 || l == r
}

/// The broadcast of two compatible sizes.
pub open spec fn broadcast_dim(l: usize, r: usize) -> usize {
    if l == 1 { r } else { l }
}

/// Two shapes can be broadcast together.
pub open spec fn broadcastable(a: Seq<usize>, b: Seq<usize>) -> bool {
    let n = max_rank(a, b);
    forall|i: int| 0 <= i < n ==> dims_compatible(#[trigger] padded(a, n)[i], padded(b, n)[i])
}

/// The broadcast shape of two broadcastable shapes.
pub open spec fn broadcast_shape(a: Seq<usize>, b: Seq<usize>) -> Seq<usize> {
    let n = max_rank(a, b);
    Seq::new(n as nat, |i: int| broadcast_dim(padded(a, n)[i], padded(b, n)[i]))
}

/// Broadcasting a list of shapes left to right: `None` when the list is
/// empty or some step is not broadcastable.
pub open spec fn fold_broadcast(ss: Seq<Seq<usize>>) -> Option<Seq<usize>>
    decreases ss.len(),
{
    if ss.len() == 0 {
        None
    } else if ss.len() == 1 {
        Some(ss[0])
    } else {
        match fold_broadcast(ss.drop_last()) {
            Some(acc) => if broadcastable(acc, ss.last()) {
                Some(broadcast_shape(acc, ss.last()))
            } else {
                None
            },
            None => None,
        }
    }
}

/// A tensor shape: e.g., [batch, height, width, channels]
#[derive(Debug, Clone, PartialEq, Eq, Hash)]
pub struct TensorShape(pub Vec<usize>);

impl TensorShape {
    pub fn new(dims: Vec<usize>) -> (r: Self)
        ensures
            r.0@ == dims@,
    {
        TensorShape(dims)
    }

    /// The number of dimensions.
    pub fn rank(&self) -> (r: usize)
        ensures
            r == self.0@.len(),
    {
        self.0.len()
    }

    /// A rank-0 shape is a scalar.
    pub fn is_scalar(&self) -> (r: bool)
        ensures
            r == (self.0@.len() == 0),
    {
        self.0.len() == 0
    }

    /// The number of elements: the product of all sizes.
    pub fn volume(&self) -> (r: usize)
        requires
            forall|i: int| 0 <= i <= self.0@.len() ==> product(#[trigger] self.0@.take(i)) <= usize::MAX,
        ensures
            r == product(self.0@),
    {
        let mut acc: usize = 1;
        let mut i: usize = 0;
        assert(self.0@.take(0) =~= Seq::<usize>::empty());
        while i < self.0.len()
            invariant
                i <= self.0@.len(),
                acc == product(self.0@.take(i as int)),
                forall|j: int| 0 <= j <= self.0@.len() ==> product(#[trigger] self.0@.take(j)) <= usize::MAX,
            decreases self.0@.len() - i,
        {
            assert(self.0@.take(i + 1).drop_last() =~= self.0@.take(i as int));
            assert(product(self.0@.take(i + 1)) <= usize::MAX);
            acc = acc * self.0[i];
            i = i + 1;
        }
        assert(self.0@.take(self.0@.len() as int) =~= self.0@);
        acc
    }

    /// The shape rendered as "(d0, d1, ...)".
    pub fn to_text(&self) -> (r: String)
        ensures
            r@ == seq!['('] + join(decimals(self.0@), ", "@) + seq![')'],
    {
        let mut s = str_to_string("(");
        push_decimals_joined(&mut s, self.0.as_slice(), ", ");
        push_str(&mut s, ")");
        proof { reveal_strlit("("); reveal_strlit(")"); }
        assert(s@ =~= seq!['('] + join(decimals(self.0@), ", "@) + seq![')']);
        s
    }
}

/// Error in shape operations.
#[derive(Debug, Clone)]
pub enum ShapeError {
    Mismatch(String),
    BroadcastFailed,
    InvalidDimension(String),
}

/// The text of a shape error.
pub open spec fn shape_error_text(e: ShapeError) -> Seq<char> {
    match e {
        ShapeError::Mismatch(m) => "shape mismatch: "@ + m@,
        ShapeError::BroadcastFailed => "broadcast failed: shapes not compatible"@,
        ShapeError::InvalidDimension(m) => "dimension error: "@ + m@,
    }
}

/// The message of an inner-dimension mismatch in a matrix product.
pub open spec fn inner_mismatch_text(a: usize, b: usize) -> Seq<char> {
    "inner dimensions do not match: "@ + decimal(a as nat) + " vs "@ + decimal(b as nat)
}

/// The outcome of checking a matrix product of two shapes.
pub open spec fn matmul_check(left: Seq<usize>, right: Seq<usize>) -> Option<ShapeError> {
    if left.len() < 2 || right.len() < 2 {
        Some(ShapeError::InvalidDimension(arbitrary()))
    } else if left[left.len() - 1] != right[right.len() - 2] {
        Some(ShapeError::Mismatch(arbitrary()))
    } else {
        None
    }
}

impl ShapeError {
    /// The error's message text.
    pub fn to_text(&self) -> (r: String)
        ensures
            r@ == shape_error_text(*self),
    {
        match self {
            ShapeError::Mismatch(m) => {
                let mut s = str_to_string("shape mismatch: ");
                push_str(&mut s, m.as_str());
                s
            }
            ShapeError::BroadcastFailed => str_to_string("broadcast failed: shapes not compatible"),
            ShapeError::InvalidDimension(m) => {
                let mut s = str_to_string("dimension error: ");
                push_str(&mut s, m.as_str());
                s
            }
        }
    }
}

/// Validates and performs shape operations.
pub struct ShapeChecker;

impl ShapeChecker {
    pub fn new() -> (r: Self) {
        ShapeChecker
    }

    /// Broadcast two shapes according to NumPy rules.
    /// Returns the broadcasted shape or an error.
    pub fn broadcast(&self, left: &[usize], right: &[usize]) -> (r: Result<Vec<usize>, ShapeError>)
        ensures
            broadcastable(left@, right@) <==> r is Ok,
            r matches Ok(v) ==> v@ == broadcast_shape(left@, right@),
            r matches Err(e) ==> e is BroadcastFailed,
    {
        let n = if left.len() >= right.len() { left.len() } else { right.len() };
        let lpad = n - left.len();
        let rpad = n - right.len();
        let ghost pl = padded(left@, n as int);
        let ghost pr = padded(right@, n as int);
        let mut result: Vec<usize> = Vec::new();
        let mut i: usize = 0;
        while i < n
            invariant
                n == max_rank(left@, right@),
                lpad == n - left@.len(),
                rpad == n - right@.len(),
                pl == padded(left@, n as int),
                pr == padded(right@, n as int),
                i <= n,
                result@.len() == i,
                forall|j: int| 0 <= j < i ==> dims_compatible(#[trigger] pl[j], pr[j]),
                forall|j: int| 0 <= j < i ==> #[trigger] result@[j] == broadcast_dim(pl[j], pr[j]),
            decreases n - i,
        {
            let l = if i < lpad { 1 } else { left[i - lpad] };
            let r = if i < rpad { 1 } else { right[i - rpad] };
            assert(l == pl[i as int] && r == pr[i as int]);
            let dim = if l == 1 {
                r
            } else if r == 1 {
                l
            } else if l == r {
                l
            } else {
                assert(!dims_compatible(pl[i as int], pr[i as int]));
                return Err(ShapeError::BroadcastFailed);
            };
            result.push(dim);
            i = i + 1;
        }
        assert(result@ =~= broadcast_shape(left@, right@));
        Ok(result)
    }

    /// Check if two shapes could be broadcasted together.
    pub fn are_compatible(&self, left: &[usize], right: &[usize]) -> (r: bool)
        ensures
            r == broadcastable(left@, right@),
    {
        self.broadcast(left, right).is_ok()
    }

    /// Verify matrix multiplication dimensions.
    pub fn check_matmul(&self, left: &[usize], right: &[usize]) -> (r: Result<(), ShapeError>)
        ensures
            r is Ok <==> matmul_check(left@, right@) is None,
            r matches Err(e) ==> (matmul_check(left@, right@) matches Some(k)
                && (e is InvalidDimension <==> k is InvalidDimension)
                && (e is Mismatch <==> k is Mismatch)),
            r matches Err(ShapeError::InvalidDimension(m)) ==> m@ == "matrices must be at least 2D"@,
            r matches Err(ShapeError::Mismatch(m)) ==> m@ == inner_mismatch_text(
                left@[left@.len() - 1], right@[right@.len() - 2]),
    {
        if left.len() < 2 || right.len() < 2 {
            return Err(ShapeError::InvalidDimension(str_to_string("matrices must be at least 2D")));
        }
        if left[left.len() - 1] != right[right.len() - 2] {
            let mut m = str_to_string("inner dimensions do not match: ");
            push_decimal(&mut m, left[left.len() - 1] as u64);
            push_str(&mut m, " vs ");
            push_decimal(&mut m, right[right.len() - 2] as u64);
            return Err(ShapeError::Mismatch(m));
        }
        Ok(())
    }

    /// Verify tensor addition/subtraction: all shapes must broadcast together.
    pub fn check_elementwise(&self, shapes: &[&[usize]]) -> (r: Result<(), ShapeError>)
        ensures
            shapes@.len() == 0 ==> (r matches Err(ShapeError::InvalidDimension(m))
                && m@ == "at least one shape required"@),
            shapes@.len() > 0 ==> (r is Ok <==> fold_broadcast(shapes@.map_values(|x: &[usize]| x@)) is Some),
            shapes@.len() > 0 ==> (r matches Err(e) ==> e is BroadcastFailed),
    {
        let ghost ss = shapes@.map_values(|x: &[usize]| x@);
        if shapes.len() == 0 {
            return Err(ShapeError::InvalidDimension(str_to_string("at least one shape required")));
        }
        let mut acc: Vec<usize> = vstd::slice::slice_to_vec(shapes[0]);
        assert(ss.take(1).drop_last() =~= Seq::<Seq<usize>>::empty());
        assert(fold_broadcast(ss.take(1)) == Some(ss[0]));
        let mut i: usize = 1;
        while i < shapes.len()
            invariant
                ss == shapes@.map_values(|x: &[usize]| x@),
                1 <= i <= shapes@.len(),
                fold_broadcast(ss.take(i as int)) == Some(acc@),
            decreases shapes@.len() - i,
        {
            assert(ss.take(i + 1).drop_last() =~= ss.take(i as int));
            match self.broadcast(acc.as_slice(), shapes[i]) {
                Ok(v) => { acc = v; }
                Err(e) => {
                    proof { lemma_fold_none_extends(ss, (i + 1) as nat); }
                    return Err(e);
                }
            }
            i = i + 1;
        }
        assert(ss.take(shapes@.len() as int) =~= ss);
        Ok(())
    }
}

/// Once broadcasting a prefix fails, broadcasting any longer prefix fails.
pub proof fn lemma_fold_none_extends(ss: Seq<Seq<usize>>, k: nat)
    requires
        1 <= k <= ss.len(),
        fold_broadcast(ss.take(k as int)) is None,
    ensures
        fold_broadcast(ss) is None,
    decreases ss.len() - k,
{
    if k < ss.len() {
        assert(ss.take((k + 1) as int).drop_last() =~= ss.take(k as int));
        lemma_fold_none_extends(ss, k + 1);
    } else {
        assert(ss.take(k as int) =~= ss);
    }
}

/// Broadcasting does not depend on the order of the two shapes.
pub proof fn lemma_broadcast_symmetric(a: Seq<usize>, b: Seq<usize>)
    ensures
        broadcastable(a, b) == broadcastable(b, a),
        broadcastable(a, b) ==> broadcast_shape(a, b) == broadcast_shape(b, a),
{
    let n = max_rank(a, b);
    assert(max_rank(b, a) == n);
    if broadcastable(a, b) {
        assert forall|i: int| 0 <= i < n implies dims_compatible(#[trigger] padded(b, n)[i], padded(a, n)[i]) by {
            assert(dims_compatible(padded(a, n)[i], padded(b, n)[i]));
        }
        assert(broadcast_shape(a, b) =~= broadcast_shape(b, a)) by {
            assert forall|i: int| 0 <= i < n implies broadcast_shape(a, b)[i] == broadcast_shape(b, a)[i] by {
                assert(dims_compatible(padded(a, n)[i], padded(b, n)[i]));
            }
        }
    }
    if broadcastable(b, a) {
        assert forall|i: int| 0 <= i < n implies dims_compatible(#[trigger] padded(a, n)[i], padded(b, n)[i]) by {
            assert(dims_compatible(padded(b, n)[i], padded(a, n)[i]));
        }
    }
}

/// `s` broadcasts into `r` unchanged: it is no longer, and each of its sizes,
/// aligned to the right, is 1 or the size of `r`.
pub open spec fn fits_into(s: Seq<usize>, r: Seq<usize>) -> bool {
    &&& s.len() <= r.len()
    &&& forall|j: int| 0 <= j < s.len() ==> #[trigger] s[j] == 1 || s[j] == r[j + r.len() - s.len()]
}

/// A shape that fits into `r` broadcasts with `r` to `r` itself.
proof fn lemma_fits_broadcast(s: Seq<usize>, r: Seq<usize>)
    requires
        fits_into(s, r),
    ensures
        broadcastable(s, r),
        broadcast_shape(s, r) == r,
{
    let n = max_rank(s, r);
    assert(n == r.len());
    assert forall|i: int| 0 <= i < n implies dims_compatible(#[trigger] padded(s, n)[i], padded(r, n)[i])
        && broadcast_dim(padded(s, n)[i], padded(r, n)[i]) == r[i] by {
        assert(padded(r, n)[i] == r[i]);
        if i >= n - s.len() {
            let j = i - (n - s.len());
            assert(s[j] == 1 || s[j] == r[j + r.len() - s.len()]);
        }
    }
    assert(broadcast_shape(s, r) =~= r);
}

/// Both shapes of a broadcast fit into its result.
proof fn lemma_broadcast_fits(a: Seq<usize>, x: Seq<usize>)
    requires
        broadcastable(a, x),
    ensures
        fits_into(a, broadcast_shape(a, x)),
        fits_into(x, broadcast_shape(a, x)),
{
    let n = max_rank(a, x);
    let r = broadcast_shape(a, x);
    assert forall|j: int| 0 <= j < a.len() implies #[trigger] a[j] == 1 || a[j] == r[j + r.len() - a.len()] by {
        let k = j + n - a.len();
        assert(padded(a, n)[k] == a[j]);
        assert(dims_compatible(padded(a, n)[k], padded(x, n)[k]));
    }
    assert forall|j: int| 0 <= j < x.len() implies #[trigger] x[j] == 1 || x[j] == r[j + r.len() - x.len()] by {
        let k = j + n - x.len();
        assert(padded(x, n)[k] == x[j]);
        assert(dims_compatible(padded(a, n)[k], padded(x, n)[k]));
    }
}

/// Fitting is transitive.
proof fn lemma_fits_trans(s: Seq<usize>, a: Seq<usize>, r: Seq<usize>)
    requires
        fits_into(s, a),
        fits_into(a, r),
    ensures
        fits_into(s, r),
{
    assert forall|j: int| 0 <= j < s.len() implies #[trigger] s[j] == 1 || s[j] == r[j + r.len() - s.len()] by {
        let k = j + a.len() - s.len();
        assert(s[j] == 1 || s[j] == a[k]);
        assert(a[k] == 1 || a[k] == r[k + r.len() - a.len()]);
    }
}

/// Every shape of a list that broadcasts together fits into the result.
proof fn lemma_fold_fits(ss: Seq<Seq<usize>>)
    requires
        fold_broadcast(ss) is Some,
    ensures
        forall|i: int| 0 <= i < ss.len() ==> fits_into(#[trigger] ss[i], fold_broadcast(ss)->0),
    decreases ss.len(),
{
    let r = fold_broadcast(ss)->0;
    if ss.len() == 1 {
        assert(fits_into(ss[0], ss[0]));
    } else {
        let pre = ss.drop_last();
        lemma_fold_fits(pre);
        let acc = fold_broadcast(pre)->0;
        lemma_broadcast_fits(acc, ss.last());
        assert forall|i: int| 0 <= i < ss.len() implies fits_into(#[trigger] ss[i], r) by {
            if i < ss.len() - 1 {
                assert(ss[i] == pre[i]);
                lemma_fits_trans(ss[i], acc, r);
            }
        }
    }
}

/// When a list of shapes broadcasts together (as `check_elementwise` and
/// `validate_elementwise` both require), every shape of the list
/// broadcasts with the common shape to that common shape, which is as long
/// as the longest of them.
pub proof fn lemma_inputs_broadcast_to_result(ss: Seq<Seq<usize>>)
    requires
        fold_broadcast(ss) is Some,
    ensures
        forall|i: int| 0 <= i < ss.len() ==> broadcastable(#[trigger] ss[i], fold_broadcast(ss)->0)
            && broadcast_shape(ss[i], fold_broadcast(ss)->0) == fold_broadcast(ss)->0,
        forall|i: int| 0 <= i < ss.len() ==> (#[trigger] ss[i]).len() <= fold_broadcast(ss)->0.len(),
        exists|i: int| 0 <= i < ss.len() && (#[trigger] ss[i]).len() == fold_broadcast(ss)->0.len(),
    decreases ss.len(),
{
    lemma_fold_fits(ss);
    let r = fold_broadcast(ss)->0;
    assert forall|i: int| 0 <= i < ss.len() implies broadcastable(#[trigger] ss[i], r)
        && broadcast_shape(ss[i], r) == r by {
        lemma_fits_broadcast(ss[i], r);
    }
    if ss.len() == 1 {
        assert(ss[0].len() == r.len());
    } else {
        let pre = ss.drop_last();
        lemma_inputs_broadcast_to_result(pre);
        let acc = fold_broadcast(pre)->0;
        let i0 = choose|i: int| 0 <= i < pre.len() && (#[trigger] pre[i]).len() == acc.len();
        if acc.len() >= ss.last().len() {
            assert(ss[i0] == pre[i0]);
            assert(ss[i0].len() == r.len());
        } else {
            assert(ss[ss.len() - 1].len() == r.len());
        }
    }
}

impl Default for ShapeChecker {
    fn default() -> (r: Self)
        ensures
            r == ShapeChecker,
    {
        ShapeChecker::new()
    }
}

} // verus!
