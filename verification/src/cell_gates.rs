//! Logic-gate cells: unary gates, N-ary folding gates and reductions.

use vstd::prelude::*;

use crate::errors::CellError;
use crate::operations::ReturnValue;
use crate::sigmap::SigMap;
use crate::vector3vl::{
    tri_and, tri_not, tri_or, tri_xor, view_has_tri, view_odd_ones, Vec3vl,
};

verus! {

/// A unary gate operation.
pub enum GateMonop {
    Repeater,
    Not,
}

/// A binary gate operation, folded over all inputs.
pub enum GateBinop {
    And,
    Or,
    Xor,
    Nand,
    Nor,
    Xnor,
}

/// A reduction of all bits of one input to a single bit.
pub enum GateReduceOp {
    And,
    Or,
    Xor,
    Nand,
    Nor,
    Xnor,
}

/// The three-valued truth table of a binary gate operation.
pub open spec fn tri_binop(op: GateBinop, x: i32, y: i32) -> i32 {
    match op {
        GateBinop::And => tri_and(x, y),
        GateBinop::Or => tri_or(x, y),
        GateBinop::Xor => tri_xor(x, y),
        GateBinop::Nand => tri_not(tri_and(x, y)),
        GateBinop::Nor => tri_not(tri_or(x, y)),
        GateBinop::Xnor => tri_not(tri_xor(x, y)),
    }
}

/// Bit `i` of the left fold of `op` over the first `n` input signals,
/// in insertion order.
pub open spec fn tri_fold(op: GateBinop, s: Seq<(String, Vec3vl)>, i: nat, n: int) -> i32
    decreases n,
{
    if n <= 1 {
        s[0].1.tri_at(i)
    } else {
        tri_binop(op, tri_fold(op, s, i, n - 1), s[n - 1].1.tri_at(i))
    }
}

/// All input signals have the given width.
pub open spec fn inputs_same_bits(s: Seq<(String, Vec3vl)>, bits: u32) -> bool {
    forall|j: int| 0 <= j < s.len() ==> (#[trigger] s[j].1).bits == bits
}

/// All input signals are canonically encoded.
pub open spec fn inputs_canonical(s: Seq<(String, Vec3vl)>) -> bool {
    forall|j: int| 0 <= j < s.len() ==> (#[trigger] s[j].1).canonical()
}

/// Evaluate a unary gate on its first (and only) input.
pub fn gate_11(args: &SigMap, op: &GateMonop) -> (r: Result<ReturnValue, CellError>)
    requires
        args.wf(),
        args.entries_wf(),
    ensures
        r is Ok <==> args.entries@.len() > 0,
        r is Err ==> r->Err_0 == CellError::MissingInput,
        r is Ok ==> {
            let rv = r->Ok_0;
            let v = args.entries@[0].1;
            &&& rv.out is Some
            &&& !rv.clock
            &&& rv.out->0.bits == v.bits
            &&& rv.out->0.well_formed()
            &&& match op {
                GateMonop::Repeater => rv.out->0@ == v@,
                GateMonop::Not => forall|i: nat|
                    i < v.bits ==> #[trigger] rv.out->0.tri_at(i) == tri_not(v.tri_at(i)),
            }
        },
{
    if args.len() == 0 {
        return Err(CellError::MissingInput);
    }
    let v = args.val_at(0);
    let out = match op {
        GateMonop::Repeater => v.clone(),
        GateMonop::Not => v.not(),
    };
    ReturnValue::out(out)
}

/// Evaluate an N-ary gate: fold the operation over every input signal
/// in insertion order.  All inputs must share one width.
pub fn gate_x1(args: &SigMap, op: &GateBinop) -> (r: Result<ReturnValue, CellError>)
    requires
        args.wf(),
        args.entries_wf(),
    ensures
        r is Ok <==> (args.entries@.len() > 0 && inputs_same_bits(
            args.entries@,
            args.entries@[0].1.bits,
        )),
        r is Err ==> r->Err_0 == (if args.entries@.len() == 0 {
            CellError::MissingInput
        } else {
            CellError::WidthMismatch
        }),
        r is Ok ==> {
            let rv = r->Ok_0;
            let bits = args.entries@[0].1.bits;
            &&& rv.out is Some
            &&& !rv.clock
            &&& rv.out->0.bits == bits
            &&& rv.out->0.well_formed()
            &&& inputs_canonical(args.entries@) ==> {
                &&& rv.out->0.canonical()
                &&& forall|i: nat|
                    i < bits ==> #[trigger] rv.out->0.tri_at(i) == tri_fold(
                        *op,
                        args.entries@,
                        i,
                        args.entries@.len() as int,
                    )
            }
        },
{
    let n = args.len();
    if n == 0 {
        return Err(CellError::MissingInput);
    }
    let mut acc = args.val_at(0).clone();
    let ghost bits = args.entries@[0].1.bits;
    let mut k: usize = 1;
    while k < n
        invariant
            1 <= k <= n,
            n == args.entries@.len(),
            args.wf(),
            args.entries_wf(),
            bits == args.entries@[0].1.bits,
            acc.bits == bits,
            acc.well_formed(),
            forall|j: int| 0 <= j < k ==> (#[trigger] args.entries@[j].1).bits == bits,
            inputs_canonical(args.entries@) ==> acc.canonical(),
            inputs_canonical(args.entries@) ==> forall|i: nat|
                i < bits ==> #[trigger] acc.tri_at(i) == tri_fold(*op, args.entries@, i, k as int),
        decreases n - k,
    {
        let cur = args.val_at(k);
        let step = match op {
            GateBinop::And => acc.and(cur),
            GateBinop::Or => acc.or(cur),
            GateBinop::Xor => acc.xor(cur),
            GateBinop::Nand => acc.nand(cur),
            GateBinop::Nor => acc.nor(cur),
            GateBinop::Xnor => acc.xnor(cur),
        };
        acc = match step {
            Ok(v) => v,
            Err(_) => {
                return Err(CellError::WidthMismatch);
            },
        };
        k = k + 1;
    }
    ReturnValue::out(acc)
}

/// Evaluate a reduction gate on its `in` signal: the whole vector folds
/// to one bit.
pub fn gate_reduce(args: &SigMap, op: &GateReduceOp) -> (r: Result<ReturnValue, CellError>)
    requires
        args.wf(),
        args.entries_wf(),
    ensures
        r is Ok <==> args@.contains_key("in"@),
        r is Err ==> r->Err_0 == CellError::MissingInput,
        r is Ok ==> {
            let rv = r->Ok_0;
            let v = args@["in"@];
            &&& rv.out is Some
            &&& !rv.clock
            &&& rv.out->0.bits == 1
            &&& rv.out->0.well_formed()
            &&& rv.out->0.canonical()
            &&& rv.out->0.tri_at(0) == reduce_spec(*op, v)
        },
{
    let got = args.get("in");
    let v = match got {
        Some(v) => v,
        None => {
            return Err(CellError::MissingInput);
        },
    };
    proof {
        crate::sigmap::lemma_entries_wf_values(*args);
    }
    let out = match op {
        GateReduceOp::And => v.reduce_and(),
        GateReduceOp::Or => v.reduce_or(),
        GateReduceOp::Xor => v.reduce_xor(),
        GateReduceOp::Nand => v.reduce_nand(),
        GateReduceOp::Nor => v.reduce_nor(),
        GateReduceOp::Xnor => v.reduce_xnor(),
    };
    ReturnValue::out(out)
}

/// The single-bit result of reducing a vector's content with an
/// operation, per the three-valued reduction rules.
pub open spec fn reduce_spec(op: GateReduceOp, v: crate::vector3vl::Vec3vlV) -> i32 {
    match op {
        GateReduceOp::And => if view_has_tri(v, -1i32) {
            -1i32
        } else if view_has_tri(v, 0i32) {
            0i32
        } else {
            1i32
        },
        GateReduceOp::Or => if view_has_tri(v, 1i32) {
            1i32
        } else if view_has_tri(v, 0i32) {
            0i32
        } else {
            -1i32
        },
        GateReduceOp::Xor => if view_has_tri(v, 0i32) {
            0i32
        } else if view_odd_ones(v, v.bits as nat) {
            1i32
        } else {
            -1i32
        },
        GateReduceOp::Nand => tri_not(
            if view_has_tri(v, -1i32) {
                -1i32
            } else if view_has_tri(v, 0i32) {
                0i32
            } else {
                1i32
            },
        ),
        GateReduceOp::Nor => tri_not(
            if view_has_tri(v, 1i32) {
                1i32
            } else if view_has_tri(v, 0i32) {
                0i32
            } else {
                -1i32
            },
        ),
        GateReduceOp::Xnor => tri_not(
            if view_has_tri(v, 0i32) {
                0i32
            } else if view_odd_ones(v, v.bits as nat) {
                1i32
            } else {
                -1i32
            },
        ),
    }
}

} // verus!
