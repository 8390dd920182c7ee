//! Selector rows, and the polynomial `A·QL + B·QR + A·B·QM + C·QO + QC` that
//! each trace row must bring to zero.
use vstd::prelude::*;

use crate::circuit::{GateType, Wire};
use crate::trace::Trace;

verus! {

/// A selector row `(QL, QR, QM, QO, QC)`.
#[derive(Debug, Clone, Copy, PartialEq, Eq, Structural)]
pub struct QGate(pub i32, pub i32, pub i32, pub i32, pub i32);

/// The constraint polynomial of selector row `q` at the witness `(a, b, c)`.
pub open spec fn row_value(q: QGate, a: int, b: int, c: int) -> int {
    a * q.0 + b * q.1 + a * b * q.2 + c * q.3 + q.4
}

/// The selector row of a gate. A literal right operand of an addition or a
/// subtraction is folded into `QC` (negated for a subtraction), and `QR`
/// drops to zero; a subtraction otherwise uses the selectors of an addition.
pub open spec fn selector_of(t: GateType, right: Wire) -> QGate {
    match t {
        GateType::Mul => QGate(0, 0, 1, -1i32, 0),
        GateType::Add => match right {
            Wire::Literal(v) => QGate(1, 0, 0, -1i32, v as i32),
            _ => QGate(1, 1, 0, -1i32, 0),
        },
        GateType::Sub => match right {
            Wire::Literal(v) => QGate(1, 0, 0, -1i32, (-(v as int)) as i32),
            _ => QGate(1, 1, 0, -1i32, 0),
        },
    }
}

/// The `B` value that a gate's row is evaluated with: zero where a literal
/// was folded into the selectors, negated for a subtraction of a wire, and
/// the trace's own `B` otherwise.
pub open spec fn folded_b(t: GateType, right: Wire, row: Trace) -> int {
    match t {
        GateType::Mul => row.1 as int,
        GateType::Add => if right is Literal {
            0
        } else {
            row.1 as int
        },
        GateType::Sub => if right is Literal {
            0
        } else {
            -(row.1 as int)
        },
    }
}

/// The constraint value of a trace row for a gate of type `t` whose right
/// operand is `right`.
pub open spec fn gate_row_value(t: GateType, right: Wire, row: Trace) -> int {
    row_value(selector_of(t, right), row.0 as int, folded_b(t, right, row), row.2 as int)
}

impl QGate {
    /// The selector row of a multiplication gate.
    pub fn new_mul() -> (r: QGate)
        ensures
            r == QGate(0, 0, 1, -1i32, 0),
    {
        QGate(0, 0, 1, -1, 0)
    }

    /// The selector row of an addition gate.
    pub fn new_add() -> (r: QGate)
        ensures
            r == QGate(1, 1, 0, -1i32, 0),
    {
        QGate(1, 1, 0, -1, 0)
    }

    /// The selector row of a gate of type `gate_type` with right operand
    /// `right`, with a literal operand folded in.
    pub fn for_gate(gate_type: &GateType, right: &Wire) -> (r: QGate)
        ensures
            r == selector_of(*gate_type, *right),
    {
        match gate_type {
            GateType::Mul => QGate::new_mul(),
            GateType::Add => match right {
                Wire::Literal(v) => QGate(1, 0, 0, -1, *v as i32),
                _ => QGate::new_add(),
            },
            GateType::Sub => match right {
                Wire::Literal(v) => QGate(1, 0, 0, -1, -(*v as i32)),
                _ => QGate::new_add(),
            },
        }
    }
}

fn eval_folded(q: &QGate, a: i128, b: i128, c: i128) -> (r: i128)
    requires
        -0x8000_0000 <= a <= 0x8000_0000,
        -0x8000_0000 <= b <= 0x8000_0000,
        -0x8000_0000 <= c <= 0x8000_0000,
    ensures
        r == row_value(*q, a as int, b as int, c as int),
{
    let (ql, qr, qm, qo, qc) = (q.0 as i128, q.1 as i128, q.2 as i128, q.3 as i128, q.4 as i128);
    let bound: i128 = 0x8000_0000;
    proof {
        assert(forall|x: int, y: int|
            -bound <= x <= bound && -bound <= y <= bound ==> -bound * bound <= #[trigger] (x * y)
                <= bound * bound) by (nonlinear_arith);
        assert(-bound * bound * bound <= (a * b) * qm <= bound * bound * bound) by (nonlinear_arith)
            requires
                -bound * bound <= a * b <= bound * bound,
                -bound <= qm <= bound,
                bound == 0x8000_0000,
        ;
    }
    let ab = a * b;
    a * ql + b * qr + ab * qm + c * qo + qc
}

/// The constraint polynomial of selector row `gate` at the trace row.
pub fn eval_q_row(gate: &QGate, trace: &Trace) -> (r: i128)
    ensures
        r == row_value(*gate, trace.0 as int, trace.1 as int, trace.2 as int),
{
    eval_folded(gate, trace.0 as i128, trace.1 as i128, trace.2 as i128)
}

/// The constraint value of a trace row for a gate of type `gate_type` whose
/// right operand is `right`; zero means the row is satisfied.
pub fn evaluate_row(gate_type: &GateType, right: &Wire, trace: &Trace) -> (r: i128)
    ensures
        r == gate_row_value(*gate_type, *right, *trace),
{
    let q = QGate::for_gate(gate_type, right);
    let b: i128 = match gate_type {
        GateType::Mul => trace.1 as i128,
        GateType::Add => match right {
            Wire::Literal(_) => 0,
            _ => trace.1 as i128,
        },
        GateType::Sub => match right {
            Wire::Literal(_) => 0,
            _ => -(trace.1 as i128),
        },
    };
    eval_folded(&q, trace.0 as i128, b, trace.2 as i128)
}

} // verus!
