//! Generating the witness trace of a circuit for a binding set.
use vstd::prelude::*;

use crate::bindings::Bindings;
use crate::circuit::{Gate, GateType, Wire};
use crate::error::PlonkError;

verus! {

/// One witness row: the values of a gate's left, right and output wires.
#[derive(Debug, Clone, Copy, PartialEq, Eq, Structural)]
pub struct Trace(pub i32, pub i32, pub i32);

/// The value of an input wire: a bound variable or a literal.
pub open spec fn resolve(b: Map<char, i32>, w: Wire) -> Option<int> {
    match w {
        Wire::Variable(c) => if b.contains_key(c) {
            Some(b[c] as int)
        } else {
            None
        },
        Wire::Literal(v) => Some(v as int),
        Wire::GateOutput(_) => None,
    }
}

/// What a gate computes, in plain integers.
pub open spec fn apply(t: GateType, a: int, b: int) -> int {
    match t {
        GateType::Mul => a * b,
        GateType::Add => a + b,
        GateType::Sub => a - b,
    }
}

pub open spec fn fits_i32(x: int) -> bool {
    i32::MIN <= x <= i32::MAX
}

/// The rows so far, extended by the row of gate `g`. The first gate reads its
/// left operand from its wire; every later gate chains the previous output.
pub open spec fn trace_step(b: Map<char, i32>, g: Gate, prev: Seq<Trace>) -> Result<
    Seq<Trace>,
    PlonkError,
> {
    let left = if prev.len() == 0 {
        resolve(b, g.gate.0)
    } else {
        Some(prev.last().2 as int)
    };
    let right = resolve(b, g.gate.1);
    if left is None || right is None {
        Err(PlonkError::UnresolvedWireError)
    } else {
        let c = apply(g.gate_type, left->0, right->0);
        if fits_i32(c) {
            Ok(prev.push(Trace(left->0 as i32, right->0 as i32, c as i32)))
        } else {
            Err(PlonkError::OverflowError)
        }
    }
}

/// The trace of `gates` under `b`, or the error of the first gate that fails.
pub open spec fn trace_of(b: Map<char, i32>, gates: Seq<Gate>) -> Result<Seq<Trace>, PlonkError>
    decreases gates.len(),
{
    if gates.len() == 0 {
        Ok(Seq::empty())
    } else {
        match trace_of(b, gates.drop_last()) {
            Ok(prev) => trace_step(b, gates.last(), prev),
            Err(e) => Err(e),
        }
    }
}

proof fn lemma_trace_error_persists(b: Map<char, i32>, gates: Seq<Gate>, i: int)
    requires
        0 <= i <= gates.len(),
        trace_of(b, gates.take(i)) is Err,
    ensures
        trace_of(b, gates) == trace_of(b, gates.take(i)),
    decreases gates.len(),
{
    if i == gates.len() {
        assert(gates.take(i) =~= gates);
    } else {
        assert(gates.drop_last().take(i) =~= gates.take(i));
        lemma_trace_error_persists(b, gates.drop_last(), i);
    }
}

fn resolve_wire(inputs: &Bindings, w: &Wire) -> (r: Option<i32>)
    requires
        inputs.wf(),
    ensures
        match r {
            Some(v) => resolve(inputs@, *w) == Some(v as int),
            None => resolve(inputs@, *w) is None,
        },
{
    match w {
        Wire::Variable(c) => inputs.get(*c),
        Wire::Literal(v) => Some(*v as i32),
        Wire::GateOutput(_) => None,
    }
}

fn apply_checked(t: &GateType, a: i32, b: i32) -> (r: Option<i32>)
    ensures
        match r {
            Some(c) => fits_i32(apply(*t, a as int, b as int)) && c == apply(*t, a as int, b as int),
            None => !fits_i32(apply(*t, a as int, b as int)),
        },
{
    let (a, b) = (a as i64, b as i64);
    proof {
        assert(-0x8000_0000 * 0x8000_0000 <= a * b <= 0x8000_0000 * 0x8000_0000)
            by (nonlinear_arith)
            requires
                -0x8000_0000 <= a <= 0x7fff_ffff,
                -0x8000_0000 <= b <= 0x7fff_ffff,
        ;
    }
    let c: i64 = match t {
        GateType::Mul => a * b,
        GateType::Add => a + b,
        GateType::Sub => a - b,
    };
    if i32::MIN as i64 <= c && c <= i32::MAX as i64 {
        Some(c as i32)
    } else {
        None
    }
}

impl Trace {
    /// The witness rows of `gates` under `inputs`, one per gate, in order:
    /// the error of the first gate whose operand cannot be resolved or whose
    /// output does not fit in an `i32`.
    pub fn new_trace_matrix(inputs: &Bindings, gates: &[Gate]) -> (r: Result<Vec<Trace>, PlonkError>)
        requires
            inputs.wf(),
        ensures
            match r {
                Ok(t) => trace_of(inputs@, gates@) == Ok::<Seq<Trace>, PlonkError>(t@),
                Err(e) => trace_of(inputs@, gates@) == Err::<Seq<Trace>, PlonkError>(e),
            },
    {
        let mut rows: Vec<Trace> = Vec::new();
        let mut i: usize = 0;
        assert(gates@.take(0) =~= Seq::<Gate>::empty());
        while i < gates.len()
            invariant
                inputs.wf(),
                i <= gates@.len(),
                rows@.len() == i,
                trace_of(inputs@, gates@.take(i as int)) == Ok::<Seq<Trace>, PlonkError>(rows@),
            decreases gates@.len() - i,
        {
            let ghost prev = gates@.take(i as int);
            assert(gates@.take(i + 1).drop_last() =~= prev);
            assert(gates@.take(i + 1).last() == gates@[i as int]);
            assert(trace_of(inputs@, gates@.take(i + 1)) == trace_step(
                inputs@,
                gates@[i as int],
                rows@,
            ));
            let g = &gates[i];
            let left = if i == 0 {
                resolve_wire(inputs, &g.gate.0)
            } else {
                Some(rows[i - 1].2)
            };
            let right = resolve_wire(inputs, &g.gate.1);
            let step = match (left, right) {
                (Some(a), Some(b)) => match apply_checked(&g.gate_type, a, b) {
                    Some(c) => Ok(Trace(a, b, c)),
                    None => Err(PlonkError::OverflowError),
                },
                _ => Err(PlonkError::UnresolvedWireError),
            };
            match step {
                Ok(row) => {
                    rows.push(row);
                },
                Err(e) => {
                    proof {
                        lemma_trace_error_persists(inputs@, gates@, i + 1);
                    }
                    return Err(e);
                },
            }
            i = i + 1;
        }
        assert(gates@.take(gates@.len() as int) =~= gates@);
        Ok(rows)
    }
}

} // verus!
