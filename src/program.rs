//! A program: an equation, its binding set, the compiled circuit and its
//! trace, and the check of the trace against the circuit.
use vstd::prelude::*;
use vstd::string::*;

use crate::bindings::Bindings;
use crate::circuit::{
    alphabetic, circuit_of, gate_types_of, is_alphabetic, is_well_formed, strip_spaces, wires_of,
    Gate, GateType, Wire,
};
use crate::circuit::{gate_type_of, is_digit, is_operand, wire_of};
use crate::constraint::{evaluate_row, folded_b, gate_row_value, selector_of, QGate};
use crate::error::PlonkError;
use crate::trace::{apply, fits_i32, resolve, trace_of, Trace};

verus! {

/// What a program holds, as mathematical values.
pub struct ProgramView {
    pub wires: Seq<(Wire, Wire, Wire)>,
    pub gates: Seq<GateType>,
    pub trace: Seq<Trace>,
    pub inputs: Map<char, i32>,
    pub equation: Seq<char>,
}

/// The variables of an equation: its alphabetic characters.
pub open spec fn variables(equation: Seq<char>) -> Set<char> {
    Set::new(|c: char| equation.contains(c) && alphabetic(c))
}

/// Building a program: the binding set must bind exactly the equation's
/// variables, the equation must compile, and its trace must be generated.
pub open spec fn program_of(b: Map<char, i32>, equation: Seq<char>) -> Result<
    ProgramView,
    PlonkError,
> {
    if variables(equation) != b.dom() {
        Err(PlonkError::BindingMismatchError)
    } else if !is_well_formed(strip_spaces(equation)) {
        Err(PlonkError::ParseError)
    } else {
        let c = circuit_of(strip_spaces(equation));
        match trace_of(b, c) {
            Ok(t) => Ok(
                ProgramView {
                    wires: wires_of(c),
                    gates: gate_types_of(c),
                    trace: t,
                    inputs: b,
                    equation,
                },
            ),
            Err(e) => Err(e),
        }
    }
}

/// The constraint value of row `i` of a program.
pub open spec fn row_value_at(v: ProgramView, i: int) -> int {
    gate_row_value(v.gates[i], v.wires[i].1, v.trace[i])
}

/// Every row of the trace satisfies its gate.
pub open spec fn rows_hold(v: ProgramView) -> bool {
    forall|i: int| 0 <= i < v.gates.len() ==> #[trigger] row_value_at(v, i) == 0
}

/// A program whose binding set matches its equation and whose trace was
/// generated from its circuit.
pub struct Program {
    v_matrix: Vec<(Wire, Wire, Wire)>,
    gates: Vec<GateType>,
    trace: Vec<Trace>,
    inputs: Bindings,
    equation: String,
}

impl View for Program {
    type V = ProgramView;

    closed spec fn view(&self) -> ProgramView {
        ProgramView {
            wires: self.v_matrix@,
            gates: self.gates@,
            trace: self.trace@,
            inputs: self.inputs@,
            equation: self.equation@,
        }
    }
}

fn contains_char(s: &str, c: char) -> (r: bool)
    ensures
        r == s@.contains(c),
{
    let n = s.unicode_len();
    let mut i: usize = 0;
    while i < n
        invariant
            n == s@.len(),
            i <= n,
            forall|j: int| 0 <= j < i ==> s@[j] != c,
        decreases n - i,
    {
        if s.get_char(i) == c {
            return true;
        }
        i = i + 1;
    }
    false
}

fn variables_match(inputs: &Bindings, equation: &str) -> (r: bool)
    requires
        inputs.wf(),
    ensures
        r == (variables(equation@) == inputs@.dom()),
{
    let n = equation.unicode_len();
    let mut i: usize = 0;
    while i < n
        invariant
            inputs.wf(),
            n == equation@.len(),
            i <= n,
            forall|j: int|
                0 <= j < i && alphabetic(#[trigger] equation@[j]) ==> inputs@.contains_key(
                    equation@[j],
                ),
        decreases n - i,
    {
        let c = equation.get_char(i);
        if is_alphabetic(c) && inputs.get(c).is_none() {
            assert(variables(equation@).contains(c));
            return false;
        }
        i = i + 1;
    }
    let keys = inputs.keys();
    let mut k: usize = 0;
    while k < keys.len()
        invariant
            forall|c: char| inputs@.contains_key(c) <==> keys@.contains(c),
            k <= keys@.len(),
            forall|j: int| 0 <= j < k ==> variables(equation@).contains(#[trigger] keys@[j]),
        decreases keys@.len() - k,
    {
        let c = keys[k];
        if !is_alphabetic(c) || !contains_char(equation, c) {
            assert(keys@.contains(c));
            assert(!variables(equation@).contains(c));
            return false;
        }
        k = k + 1;
    }
    assert forall|c: char| variables(equation@).contains(c) implies inputs@.contains_key(c) by {
        let j = choose|j: int| 0 <= j < equation@.len() && equation@[j] == c;
        assert(alphabetic(equation@[j]));
    }
    assert forall|c: char| inputs@.contains_key(c) implies variables(equation@).contains(c) by {
        assert(keys@.contains(c));
        let j = choose|j: int| 0 <= j < keys@.len() && keys@[j] == c;
        assert(variables(equation@).contains(keys@[j]));
    }
    assert(variables(equation@) =~= inputs@.dom());
    true
}

impl Program {
    #[verifier::type_invariant]
    spec fn inv(&self) -> bool {
        &&& self.v_matrix@.len() == self.gates@.len()
        &&& self.trace@.len() == self.gates@.len()
    }

    /// Builds the program of `equation` under `inputs`: the error
    /// `BindingMismatchError` where the bound names differ from the
    /// equation's variables, then the errors of compiling and tracing.
    pub fn new(inputs: Bindings, equation: &str) -> (r: Result<Program, PlonkError>)
        requires
            inputs.wf(),
        ensures
            match r {
                Ok(p) => program_of(inputs@, equation@) == Ok::<ProgramView, PlonkError>(p@),
                Err(e) => program_of(inputs@, equation@) == Err::<ProgramView, PlonkError>(e),
            },
    {
        if !variables_match(&inputs, equation) {
            return Err(PlonkError::BindingMismatchError);
        }
        let gate_matrix: Vec<Gate> = match Gate::new_gate_matrix(equation) {
            Ok(g) => g,
            Err(e) => {
                return Err(e);
            },
        };
        let trace = match Trace::new_trace_matrix(&inputs, gate_matrix.as_slice()) {
            Ok(t) => t,
            Err(e) => {
                return Err(e);
            },
        };
        proof {
            lemma_trace_len(inputs@, gate_matrix@);
        }
        let v_matrix = Gate::generate_v_matrix(gate_matrix.as_slice());
        let gates = Gate::generate_gates(gate_matrix.as_slice());
        let p = Program { v_matrix, gates, trace, inputs, equation: equation.to_owned() };
        assert(p@.wires == wires_of(gate_matrix@));
        Ok(p)
    }

    /// The `(left, right, output)` wires of each gate.
    pub fn v_matrix(&self) -> (r: &Vec<(Wire, Wire, Wire)>)
        ensures
            r@ == self@.wires,
    {
        &self.v_matrix
    }

    /// The operation of each gate.
    pub fn gates(&self) -> (r: &Vec<GateType>)
        ensures
            r@ == self@.gates,
    {
        &self.gates
    }

    /// The witness rows, one per gate.
    pub fn trace(&self) -> (r: &Vec<Trace>)
        ensures
            r@ == self@.trace,
    {
        &self.trace
    }

    /// Checks every trace row against its gate's constraint, in order:
    /// `ConstraintViolation` names the first row whose value is not zero.
    pub fn evaluate_q_matrix(&self) -> (r: Result<(), PlonkError>)
        ensures
            r is Ok <==> rows_hold(self@),
            match r {
                Ok(_) => true,
                Err(e) => match e {
                    PlonkError::ConstraintViolation { row, value } => {
                        &&& row < self@.gates.len()
                        &&& value == row_value_at(self@, row as int)
                        &&& value != 0
                        &&& forall|j: int| 0 <= j < row ==> #[trigger] row_value_at(self@, j) == 0
                    },
                    _ => false,
                },
            },
    {
        proof {
            use_type_invariant(self);
        }
        let mut i: usize = 0;
        while i < self.gates.len()
            invariant
                i <= self.gates@.len(),
                self.v_matrix@.len() == self.gates@.len(),
                self.trace@.len() == self.gates@.len(),
                forall|j: int| 0 <= j < i ==> #[trigger] row_value_at(self@, j) == 0,
            decreases self.gates@.len() - i,
        {
            let value = evaluate_row(&self.gates[i], &self.v_matrix[i].1, &self.trace[i]);
            if value != 0 {
                assert(row_value_at(self@, i as int) != 0);
                return Err(PlonkError::ConstraintViolation { row: i, value });
            }
            i = i + 1;
        }
        Ok(())
    }
}

proof fn lemma_trace_len(b: Map<char, i32>, gates: Seq<Gate>)
    ensures
        trace_of(b, gates) matches Ok(t) ==> t.len() == gates.len(),
    decreases gates.len(),
{
    if gates.len() > 0 {
        lemma_trace_len(b, gates.drop_last());
    }
}

proof fn lemma_strip_spaces_from(s: Seq<char>)
    ensures
        forall|i: int| 0 <= i < strip_spaces(s).len() ==> s.contains(#[trigger] strip_spaces(s)[i]),
    decreases s.len(),
{
    if s.len() > 0 {
        lemma_strip_spaces_from(s.drop_last());
        let r = strip_spaces(s.drop_last());
        assert forall|i: int| 0 <= i < strip_spaces(s).len() implies s.contains(
            #[trigger] strip_spaces(s)[i],
        ) by {
            if i < r.len() {
                let j = choose|j: int| 0 <= j < s.drop_last().len() && s.drop_last()[j] == r[i];
                assert(s[j] == r[i]);
            } else {
                assert(s[s.len() - 1] == s.last());
            }
        }
    }
}

proof fn lemma_trace_rows_hold(b: Map<char, i32>, gates: Seq<Gate>)
    ensures
        trace_of(b, gates) matches Ok(t) ==> {
            &&& t.len() == gates.len()
            &&& forall|i: int|
                0 <= i < gates.len() ==> gate_row_value(
                    #[trigger] gates[i].gate_type,
                    gates[i].gate.1,
                    t[i],
                ) == 0
        },
    decreases gates.len(),
{
    if gates.len() > 0 {
        let prefix = gates.drop_last();
        lemma_trace_rows_hold(b, prefix);
        if let Ok(t) = trace_of(b, gates) {
            let prev = trace_of(b, prefix)->Ok_0;
            let g = gates.last();
            let row = t.last();
            assert(t == prev.push(row));
            assert forall|i: int| 0 <= i < gates.len() implies gate_row_value(
                #[trigger] gates[i].gate_type,
                gates[i].gate.1,
                t[i],
            ) == 0 by {
                if i < prefix.len() {
                    assert(gates[i] == prefix[i]);
                    assert(t[i] == prev[i]);
                    assert(gate_row_value(prefix[i].gate_type, prefix[i].gate.1, prev[i]) == 0);
                } else {
                    let left = if prev.len() == 0 {
                        resolve(b, g.gate.0)
                    } else {
                        Some(prev.last().2 as int)
                    };
                    let right = resolve(b, g.gate.1);
                    assert(left is Some && right is Some);
                    let (a, r) = (left->0, right->0);
                    let c = apply(g.gate_type, a, r);
                    assert(fits_i32(c));
                    assert(row == Trace(a as i32, r as i32, c as i32));
                    assert(row.0 as int == a && row.1 as int == r && row.2 as int == c);
                    assert(gates[i] == g && t[i] == row);
                    match g.gate_type {
                        GateType::Mul => {
                            assert(selector_of(g.gate_type, g.gate.1) == QGate(0, 0, 1, -1i32, 0));
                            assert(folded_b(g.gate_type, g.gate.1, row) == r);
                            assert(a * 0 + r * 0 + a * r * 1 + c * (-1) + 0 == a * r - c)
                                by (nonlinear_arith);
                        },
                        _ => {
                            let q = selector_of(g.gate_type, g.gate.1);
                            let fb = folded_b(g.gate_type, g.gate.1, row);
                            assert(q.2 == 0 && q.0 == 1 && q.3 == -1);
                            assert(a * fb * 0 == 0) by (nonlinear_arith);
                            assert(gate_row_value(g.gate_type, g.gate.1, row) == a + fb * q.1 - c
                                + q.4);
                            if let Wire::Literal(v) = g.gate.1 {
                                assert(r == v as int);
                                assert(q.1 == 0);
                            } else {
                                assert(q.1 == 1 && q.4 == 0);
                            }
                        },
                    }
                }
            }
        }
    }
}

proof fn lemma_trace_resolves(b: Map<char, i32>, gates: Seq<Gate>)
    requires
        gates.len() > 0 ==> resolve(b, gates[0].gate.0) is Some,
        forall|i: int| 0 <= i < gates.len() ==> resolve(b, #[trigger] gates[i].gate.1) is Some,
    ensures
        trace_of(b, gates) is Ok || trace_of(b, gates) == Err::<Seq<Trace>, PlonkError>(
            PlonkError::OverflowError,
        ),
    decreases gates.len(),
{
    if gates.len() > 0 {
        let prefix = gates.drop_last();
        assert forall|i: int| 0 <= i < prefix.len() implies resolve(
            b,
            #[trigger] prefix[i].gate.1,
        ) is Some by {
            assert(prefix[i] == gates[i]);
        }
        if prefix.len() > 0 {
            assert(prefix[0] == gates[0]);
        }
        lemma_trace_resolves(b, prefix);
        lemma_trace_len(b, prefix);
        assert(resolve(b, gates[gates.len() - 1].gate.1) is Some);
    }
}

/// The value of an operand token under `b`: a digit's value, or the value
/// bound to a variable.
pub open spec fn operand_value(b: Map<char, i32>, c: char) -> int {
    if is_digit(c) {
        (c as u32 - '0' as u32) as int
    } else {
        b[c] as int
    }
}

/// The value of the token sequence `t` after its first `k` operators, taken
/// strictly left to right, without precedence.
pub open spec fn fold_value(b: Map<char, i32>, t: Seq<char>, k: nat) -> int
    decreases k,
{
    if k == 0 {
        operand_value(b, t[0])
    } else {
        apply(
            gate_type_of(t[2 * k as int - 1]),
            fold_value(b, t, (k - 1) as nat),
            operand_value(b, t[2 * k as int]),
        )
    }
}

proof fn lemma_trace_folds(b: Map<char, i32>, t: Seq<char>, m: int)
    requires
        is_well_formed(t),
        0 <= m <= circuit_of(t).len(),
        forall|j: int|
            0 <= j < t.len() && j % 2 == 0 ==> resolve(b, wire_of(#[trigger] t[j])) == Some(
                operand_value(b, t[j]),
            ),
    ensures
        match trace_of(b, circuit_of(t).take(m)) {
            Ok(tr) => tr.len() == m && forall|i: int|
                0 <= i < m ==> (#[trigger] tr[i]).2 == fold_value(b, t, (i + 1) as nat),
            Err(e) => e == PlonkError::OverflowError && exists|k: int|
                1 <= k <= m && !fits_i32(#[trigger] fold_value(b, t, k as nat)),
        },
    decreases m,
{
    let c = circuit_of(t);
    if m == 0 {
        assert(c.take(0) =~= Seq::<Gate>::empty());
    } else {
        lemma_trace_folds(b, t, m - 1);
        assert(c.take(m).drop_last() =~= c.take(m - 1));
        assert(c.take(m).last() == c[m - 1]);
        let g = c[m - 1];
        assert(g.gate.1 == wire_of(t[2 * m]));
        assert(g.gate_type == gate_type_of(t[2 * m - 1]));
        assert(resolve(b, g.gate.1) == Some(operand_value(b, t[2 * m])));
        if let Ok(prev) = trace_of(b, c.take(m - 1)) {
            if m == 1 {
                assert(g.gate.0 == wire_of(t[0]));
            } else {
                assert(prev.last() == prev[m - 2]);
            }
            let left = fold_value(b, t, (m - 1) as nat);
            let out = fold_value(b, t, m as nat);
            if let Ok(tr) = trace_of(b, c.take(m)) {
                assert forall|i: int| 0 <= i < m implies (#[trigger] tr[i]).2 == fold_value(
                    b,
                    t,
                    (i + 1) as nat,
                ) by {
                    if i < m - 1 {
                        assert(tr[i] == prev[i]);
                    }
                }
            } else {
                assert(!fits_i32(out));
            }
        }
    }
}

/// When the binding set binds exactly the equation's variables, building the
/// program fails only on a malformed equation or where the equation's
/// left-to-right value leaves the `i32` range after some operator. A program
/// that is built has, in its output column, those left-to-right values, and
/// every row of its trace satisfies its gate, so that `evaluate_q_matrix`
/// accepts it.
pub proof fn lemma_matching_bindings_satisfy_constraints(b: Map<char, i32>, equation: Seq<char>)
    requires
        variables(equation) == b.dom(),
    ensures
        match program_of(b, equation) {
            Ok(v) => {
                &&& rows_hold(v)
                &&& v.trace.len() == v.gates.len()
                &&& forall|i: int|
                    0 <= i < v.trace.len() ==> (#[trigger] v.trace[i]).2 == fold_value(
                        b,
                        strip_spaces(equation),
                        (i + 1) as nat,
                    )
            },
            Err(e) => (e == PlonkError::ParseError && !is_well_formed(strip_spaces(equation))) || (
            e == PlonkError::OverflowError && exists|k: int|
                1 <= k <= strip_spaces(equation).len() / 2 && !fits_i32(
                    #[trigger] fold_value(b, strip_spaces(equation), k as nat),
                )),
        },
{
    let t = strip_spaces(equation);
    if is_well_formed(t) {
        let c = circuit_of(t);
        lemma_strip_spaces_from(equation);
        assert forall|j: int| 0 <= j < t.len() && j % 2 == 0 implies resolve(
            b,
            wire_of(#[trigger] t[j]),
        ) == Some(operand_value(b, t[j])) by {
            assert(is_operand(t[j]));
            if !is_digit(t[j]) {
                assert(equation.contains(t[j]));
                assert(variables(equation).contains(t[j]));
            }
        }
        assert forall|i: int| 0 <= i < c.len() implies resolve(b, #[trigger] c[i].gate.1) is Some by {
            assert(c[i].gate.1 == wire_of(t[2 * i + 2]));
        }
        if c.len() > 0 {
            assert(c[0].gate.0 == wire_of(t[0]));
        }
        lemma_trace_rows_hold(b, c);
        lemma_trace_folds(b, t, c.len() as int);
        assert(c.take(c.len() as int) =~= c);
        if let Ok(v) = program_of(b, equation) {
            assert forall|i: int| 0 <= i < v.gates.len() implies #[trigger] row_value_at(v, i)
                == 0 by {
                assert(v.gates[i] == c[i].gate_type);
                assert(v.wires[i] == c[i].gate);
            }
        }
    }
}

/// The circuit of a program depends on its equation alone: two programs
/// built from one equation under any two binding sets have the same wires
/// and the same gates.
pub proof fn lemma_circuit_ignores_bindings(b1: Map<char, i32>, b2: Map<char, i32>, equation: Seq<char>)
    requires
        program_of(b1, equation) is Ok,
        program_of(b2, equation) is Ok,
    ensures
        program_of(b1, equation)->Ok_0.wires == program_of(b2, equation)->Ok_0.wires,
        program_of(b1, equation)->Ok_0.gates == program_of(b2, equation)->Ok_0.gates,
{
}

} // verus!
