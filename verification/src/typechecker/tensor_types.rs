//! Type rules for tensor operations: matrix multiply (`@`), element-wise
//! operations, and the shape of a gradient.

use vstd::prelude::*;
use crate::text::{decimal, push_decimal, push_str};
use crate::typechecker::render::{shape_text, ty_text};
use crate::typechecker::types::{NovaType, ShapeModel, TensorShape, Ty};
use crate::typechecker::unify::{UnifyError, sizes_text};

verus! {

/// The result of a tensor operation: the inferred output type.
#[derive(Debug, Clone)]
pub struct TensorOpResult {
    pub output_type: NovaType,
}

/// Element types that may meet in a tensor operation: equal types, and
/// `Float` with `Float` or a unit float, unit floats of one dimension.
pub open spec fn elem_compatible(l: Ty, r: Ty) -> bool {
    match (l, r) {
        (Ty::Float, Ty::Float) => true,
        (Ty::UnitFloat { dim: d1, .. }, Ty::UnitFloat { dim: d2, .. }) => d1 == d2 || l == r,
        (Ty::Float, Ty::UnitFloat { .. }) => true,
        (Ty::UnitFloat { .. }, Ty::Float) => true,
        (Ty::Int, Ty::Int) => true,
        _ => l == r,
    }
}

/// The message for an operand that is not a tensor.
pub open spec fn not_tensor_text(t: Ty) -> Seq<char> {
    "expected Tensor type, found "@ + ty_text(t) + "\n  hint: @ operator requires both operands to be Tensor types"@
}

/// The message for element types that may not meet.
pub open spec fn elem_mismatch_text(l: Ty, r: Ty) -> Seq<char> {
    "tensor element type mismatch: "@ + ty_text(l) + " vs "@ + ty_text(r)
}

/// The shape of `A @ B`, or the message when the shapes do not fit.
pub open spec fn matmul_shape(l: ShapeModel, r: ShapeModel) -> Result<ShapeModel, Seq<char>> {
    match (l, r) {
        (ShapeModel::Known(a), ShapeModel::Known(b)) =>
            if a.len() < 2 || b.len() < 2 {
                Err("matmul requires at least rank-2 tensors"@)
            } else if a[a.len() - 1] != b[b.len() - 2] {
                Err("matmul shape mismatch: inner dimensions "@ + decimal(a[a.len() - 1] as nat) + " vs "@
                    + decimal(b[b.len() - 2] as nat) + " do not match\n  left:  "@ + sizes_text(a)
                    + "\n  right: "@ + sizes_text(b) + "\n  hint:  A @ B requires A.cols == B.rows"@)
            } else {
                Ok(ShapeModel::Known(a.drop_last().push(b[b.len() - 1])))
            },
        (ShapeModel::Rank(r1), ShapeModel::Rank(r2)) =>
            if r1 == r2 && r1 >= 2 {
                Ok(l)
            } else {
                Err("matmul incompatible shapes: "@ + shape_text(l) + " @ "@ + shape_text(r))
            },
        (ShapeModel::Unknown, _) => Ok(ShapeModel::Rank(2)),
        (_, ShapeModel::Unknown) => Ok(ShapeModel::Rank(2)),
        _ => Err("matmul incompatible shapes: "@ + shape_text(l) + " @ "@ + shape_text(r)),
    }
}

/// The shape of an element-wise operation, or the message when the shapes differ.
pub open spec fn broadcast_shape_ty(l: ShapeModel, r: ShapeModel) -> Result<ShapeModel, Seq<char>> {
    match (l, r) {
        (ShapeModel::Known(a), ShapeModel::Known(b)) if a == b => Ok(l),
        (ShapeModel::Rank(a), ShapeModel::Rank(b)) if a == b => Ok(l),
        (ShapeModel::Unknown, _) => Ok(r),
        (_, ShapeModel::Unknown) => Ok(l),
        _ => Err("tensor shape mismatch for element-wise op: "@ + shape_text(l) + " vs "@ + shape_text(r)),
    }
}

/// What a binary tensor operation gives, with `shape` the rule for the output shape.
pub open spec fn tensor_op_result(
    l: Ty,
    r: Ty,
    shape: spec_fn(ShapeModel, ShapeModel) -> Result<ShapeModel, Seq<char>>,
) -> Result<Ty, Seq<char>> {
    match (l, r) {
        (Ty::Tensor { elem: e1, shape: s1 }, Ty::Tensor { elem: e2, shape: s2 }) =>
            if !elem_compatible(*e1, *e2) {
                Err(elem_mismatch_text(*e1, *e2))
            } else {
                match shape(s1, s2) {
                    Ok(s) => Ok(Ty::Tensor { elem: e1, shape: s }),
                    Err(m) => Err(m),
                }
            },
        (Ty::Tensor { .. }, _) => Err(not_tensor_text(r)),
        _ => Err(not_tensor_text(l)),
    }
}

/// The type of a gradient: the shape of the forward value, without units.
pub open spec fn gradient_ty(t: Ty) -> Ty {
    match t {
        Ty::Tensor { elem, shape } => Ty::Tensor {
            elem: Box::new(if *elem is UnitFloat { Ty::Float } else { *elem }),
            shape,
        },
        Ty::UnitFloat { .. } => Ty::Float,
        Ty::Float => Ty::Float,
        _ => t,
    }
}

/// The element type and shape of a tensor type.
fn expect_tensor(ty: &NovaType, line: u32, col: u32) -> (r: Result<(&NovaType, &TensorShape), UnifyError>)
    ensures
        match r {
            Ok((e, s)) => ty.model() == Ty::Tensor { elem: Box::new(e.model()), shape: s.model() },
            Err(err) => ty.model() !is Tensor && err.message@ == not_tensor_text(ty.model())
                && err.line == line && err.col == col,
        },
{
    match ty {
        NovaType::Tensor { elem, shape } => Ok((&**elem, shape)),
        _ => {
            let mut m = String::new();
            push_str(&mut m, "expected Tensor type, found ");
            ty.push_text(&mut m);
            push_str(&mut m, "\n  hint: @ operator requires both operands to be Tensor types");
            Err(UnifyError { message: m, line, col })
        }
    }
}

/// Checks that two element types may meet.
fn check_elem_compatible(lhs: &NovaType, rhs: &NovaType, line: u32, col: u32) -> (r: Result<(), UnifyError>)
    ensures
        match r {
            Ok(()) => elem_compatible(lhs.model(), rhs.model()),
            Err(e) => !elem_compatible(lhs.model(), rhs.model())
                && e.message@ == elem_mismatch_text(lhs.model(), rhs.model()) && e.line == line && e.col == col,
        },
{
    match (lhs, rhs) {
        (NovaType::Float, NovaType::Float) => { return Ok(()); }
        (NovaType::UnitFloat { dim: d1, .. }, NovaType::UnitFloat { dim: d2, .. }) => {
            if *d1 == *d2 { return Ok(()); }
        }
        (NovaType::Float, NovaType::UnitFloat { .. }) => { return Ok(()); }
        (NovaType::UnitFloat { .. }, NovaType::Float) => { return Ok(()); }
        (NovaType::Int, NovaType::Int) => { return Ok(()); }
        _ => {}
    }
    if lhs.same(rhs) {
        return Ok(());
    }
    let mut m = String::new();
    push_str(&mut m, "tensor element type mismatch: ");
    lhs.push_text(&mut m);
    push_str(&mut m, " vs ");
    rhs.push_text(&mut m);
    Err(UnifyError { message: m, line, col })
}

/// Appends `[a, b, ...]`.
fn push_sizes(s: &mut String, d: &Vec<usize>)
    ensures
        final(s)@ == old(s)@ + sizes_text(d@),
{
    crate::text::push_char(s, '[');
    crate::text::push_decimals_joined(s, d.as_slice(), ", ");
    proof { reveal_strlit(", "); assert(", "@ =~= crate::typechecker::render::comma()); }
    crate::text::push_char(s, ']');
    assert(s@ =~= old(s)@ + sizes_text(d@));
}

/// The message for shapes that `@` cannot combine.
fn incompatible_shapes(lhs: &TensorShape, rhs: &TensorShape, line: u32, col: u32) -> (e: UnifyError)
    ensures
        e.message@ == "matmul incompatible shapes: "@ + shape_text(lhs.model()) + " @ "@ + shape_text(rhs.model()),
        e.line == line,
        e.col == col,
{
    let mut m = String::new();
    push_str(&mut m, "matmul incompatible shapes: ");
    lhs.push_text(&mut m);
    push_str(&mut m, " @ ");
    rhs.push_text(&mut m);
    UnifyError { message: m, line, col }
}

/// The output shape of `A @ B`.
fn infer_matmul_shape(lhs: &TensorShape, rhs: &TensorShape, line: u32, col: u32) -> (r: Result<TensorShape, UnifyError>)
    ensures
        match r {
            Ok(s) => matmul_shape(lhs.model(), rhs.model()) == Ok::<ShapeModel, Seq<char>>(s.model()),
            Err(e) => matmul_shape(lhs.model(), rhs.model()) == Err::<ShapeModel, Seq<char>>(e.message@)
                && e.line == line && e.col == col,
        },
{
    match (lhs, rhs) {
        (TensorShape::Known(a), TensorShape::Known(b)) => {
            if a.len() < 2 || b.len() < 2 {
                return Err(UnifyError::at("matmul requires at least rank-2 tensors", line, col));
            }
            let a_inner = a[a.len() - 1];
            let b_outer = b[b.len() - 2];
            if a_inner != b_outer {
                let mut m = String::new();
                push_str(&mut m, "matmul shape mismatch: inner dimensions ");
                push_decimal(&mut m, a_inner as u64);
                push_str(&mut m, " vs ");
                push_decimal(&mut m, b_outer as u64);
                push_str(&mut m, " do not match\n  left:  ");
                push_sizes(&mut m, a);
                push_str(&mut m, "\n  right: ");
                push_sizes(&mut m, b);
                push_str(&mut m, "\n  hint:  A @ B requires A.cols == B.rows");
                assert(m@ =~= matmul_shape(lhs.model(), rhs.model())->Err_0);
                return Err(UnifyError { message: m, line, col });
            }
            let mut out: Vec<usize> = Vec::new();
            let mut i: usize = 0;
            while i < a.len() - 1
                invariant
                    a@.len() >= 2,
                    i <= a@.len() - 1,
                    out@ == a@.take(i as int),
                decreases a@.len() - 1 - i,
            {
                out.push(a[i]);
                i = i + 1;
                assert(out@ =~= a@.take(i as int));
            }
            out.push(b[b.len() - 1]);
            assert(out@ =~= a@.drop_last().push(b@[b@.len() - 1]));
            Ok(TensorShape::Known(out))
        }
        (TensorShape::Rank(r1), TensorShape::Rank(r2)) => {
            if *r1 == *r2 && *r1 >= 2 {
                Ok(TensorShape::Rank(*r1))
            } else {
                Err(incompatible_shapes(lhs, rhs, line, col))
            }
        }
        (TensorShape::Unknown, _) => Ok(TensorShape::Rank(2)),
        (_, TensorShape::Unknown) => Ok(TensorShape::Rank(2)),
        _ => Err(incompatible_shapes(lhs, rhs, line, col)),
    }
}

/// The output shape of an element-wise operation.
fn broadcast_shapes(lhs: &TensorShape, rhs: &TensorShape, line: u32, col: u32) -> (r: Result<TensorShape, UnifyError>)
    ensures
        match r {
            Ok(s) => broadcast_shape_ty(lhs.model(), rhs.model()) == Ok::<ShapeModel, Seq<char>>(s.model()),
            Err(e) => broadcast_shape_ty(lhs.model(), rhs.model()) == Err::<ShapeModel, Seq<char>>(e.message@)
                && e.line == line && e.col == col,
        },
{
    match (lhs, rhs) {
        (TensorShape::Known(a), TensorShape::Known(b)) => {
            if crate::typechecker::types::usize_seq_eq(a, b) {
                return Ok(TensorShape::Known(a.clone()));
            }
        }
        (TensorShape::Rank(a), TensorShape::Rank(b)) => {
            if *a == *b {
                return Ok(TensorShape::Rank(*a));
            }
        }
        (TensorShape::Unknown, s) => { return Ok(s.duplicate()); }
        (s, TensorShape::Unknown) => { return Ok(s.duplicate()); }
        _ => {}
    }
    let mut m = String::new();
    push_str(&mut m, "tensor shape mismatch for element-wise op: ");
    lhs.push_text(&mut m);
    push_str(&mut m, " vs ");
    rhs.push_text(&mut m);
    Err(UnifyError { message: m, line, col })
}

/// The type of `A @ B`: both must be tensors with compatible element types,
/// and `Tensor[T, (m, k)] @ Tensor[T, (k, n)]` is `Tensor[T, (m, n)]`.
pub fn infer_matmul(lhs: &NovaType, rhs: &NovaType, line: u32, col: u32) -> (r: Result<TensorOpResult, UnifyError>)
    ensures
        match r {
            Ok(res) => tensor_op_result(lhs.model(), rhs.model(), |a, b| matmul_shape(a, b))
                == Ok::<Ty, Seq<char>>(res.output_type.model()),
            Err(e) => tensor_op_result(lhs.model(), rhs.model(), |a, b| matmul_shape(a, b))
                == Err::<Ty, Seq<char>>(e.message@) && e.line == line && e.col == col,
        },
{
    let (l_elem, l_shape) = match expect_tensor(lhs, line, col) {
        Ok(p) => p,
        Err(e) => return Err(e),
    };
    let (r_elem, r_shape) = match expect_tensor(rhs, line, col) {
        Ok(p) => p,
        Err(e) => return Err(e),
    };
    match check_elem_compatible(l_elem, r_elem, line, col) {
        Ok(()) => {},
        Err(e) => return Err(e),
    }
    let out_shape = match infer_matmul_shape(l_shape, r_shape, line, col) {
        Ok(s) => s,
        Err(e) => return Err(e),
    };
    Ok(TensorOpResult { output_type: NovaType::Tensor { elem: Box::new(l_elem.clone()), shape: out_shape } })
}

/// The type of an element-wise operation on two tensors: compatible element
/// types and equal shapes (an unknown shape takes the other).
pub fn infer_elementwise(lhs: &NovaType, rhs: &NovaType, line: u32, col: u32) -> (r: Result<TensorOpResult, UnifyError>)
    ensures
        match r {
            Ok(res) => tensor_op_result(lhs.model(), rhs.model(), |a, b| broadcast_shape_ty(a, b))
                == Ok::<Ty, Seq<char>>(res.output_type.model()),
            Err(e) => tensor_op_result(lhs.model(), rhs.model(), |a, b| broadcast_shape_ty(a, b))
                == Err::<Ty, Seq<char>>(e.message@) && e.line == line && e.col == col,
        },
{
    let (l_elem, l_shape) = match expect_tensor(lhs, line, col) {
        Ok(p) => p,
        Err(e) => return Err(e),
    };
    let (r_elem, r_shape) = match expect_tensor(rhs, line, col) {
        Ok(p) => p,
        Err(e) => return Err(e),
    };
    match check_elem_compatible(l_elem, r_elem, line, col) {
        Ok(()) => {},
        Err(e) => return Err(e),
    }
    let out_shape = match broadcast_shapes(l_shape, r_shape, line, col) {
        Ok(s) => s,
        Err(e) => return Err(e),
    };
    Ok(TensorOpResult { output_type: NovaType::Tensor { elem: Box::new(l_elem.clone()), shape: out_shape } })
}

/// The type of the gradient of a value of the given type: a tensor keeps its
/// shape and loses the unit of its elements; a float loses its unit.
pub fn infer_gradient_shape(forward_type: &NovaType) -> (r: NovaType)
    ensures
        r.model() == gradient_ty(forward_type.model()),
{
    match forward_type {
        NovaType::Tensor { elem, shape } => NovaType::Tensor {
            elem: Box::new(strip_unit((**elem).clone())),
            shape: shape.duplicate(),
        },
        NovaType::UnitFloat { .. } | NovaType::Float => NovaType::Float,
        other => other.clone(),
    }
}

/// A float type without its unit; other types unchanged.
fn strip_unit(ty: NovaType) -> (r: NovaType)
    ensures
        r.model() == if ty.model() is UnitFloat { Ty::Float } else { ty.model() },
{
    match ty {
        NovaType::UnitFloat { .. } => NovaType::Float,
        other => other,
    }
}

} // verus!
