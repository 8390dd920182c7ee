//! Compiling an equation into a left-to-right chain of gates.
use vstd::prelude::*;
use vstd::string::*;

use crate::error::PlonkError;

verus! {

/// The arithmetic operation that a gate performs.
#[derive(Debug, Clone, Copy, PartialEq, Eq, Structural)]
pub enum GateType {
    Mul,
    Add,
    Sub,
}

/// One operand slot of a gate.
#[derive(Debug, Clone, Copy, PartialEq, Eq, Structural)]
pub enum Wire {
    /// A single-character variable, looked up in the binding set.
    Variable(char),
    /// A single decimal digit.
    Literal(u8),
    /// The result wire of gate number `n`.
    GateOutput(usize),
}

/// A gate: its `(left, right, output)` wires and its operation.
#[derive(Debug, Clone, Copy)]
pub struct Gate {
    pub gate: (Wire, Wire, Wire),
    pub gate_type: GateType,
}

/// Whether `c` has the Unicode `Alphabetic` property.
pub uninterp spec fn alphabetic(c: char) -> bool;

/// Relies on `char::is_alphabetic`, which tells whether a character has the
/// Unicode `Alphabetic` property; the answer depends on the character alone.
#[verifier::external_body]
pub(crate) fn is_alphabetic(c: char) -> (r: bool)
    ensures
        r == alphabetic(c),
{
    c.is_alphabetic()
}

pub open spec fn is_digit(c: char) -> bool {
    '0' <= c && c <= '9'
}

pub open spec fn is_operator(c: char) -> bool {
    c == '+' || c == '-' || c == '*'
}

/// A variable or a literal token.
pub open spec fn is_operand(c: char) -> bool {
    is_digit(c) || alphabetic(c)
}

/// The equation with its spaces removed.
pub open spec fn strip_spaces(s: Seq<char>) -> Seq<char>
    decreases s.len(),
{
    if s.len() == 0 {
        s
    } else if s.last() == ' ' {
        strip_spaces(s.drop_last())
    } else {
        strip_spaces(s.drop_last()).push(s.last())
    }
}

/// Operands at the even positions, operators at the odd ones, and an operand
/// at each end.
pub open spec fn is_well_formed(t: Seq<char>) -> bool {
    &&& t.len() % 2 == 1
    &&& forall|i: int|
        0 <= i < t.len() ==> if i % 2 == 0 {
            is_operand(#[trigger] t[i])
        } else {
            is_operator(t[i])
        }
}

pub open spec fn wire_of(c: char) -> Wire {
    if is_digit(c) {
        Wire::Literal((c as u32 - '0' as u32) as u8)
    } else {
        Wire::Variable(c)
    }
}

pub open spec fn gate_type_of(c: char) -> GateType {
    if c == '*' {
        GateType::Mul
    } else if c == '+' {
        GateType::Add
    } else {
        GateType::Sub
    }
}

/// Gate `k` of the token sequence `t`: its left operand is the first token
/// for the first gate and the previous gate's output otherwise.
pub open spec fn gate_of(t: Seq<char>, k: int) -> Gate {
    Gate {
        gate: (
            if k == 0 {
                wire_of(t[0])
            } else {
                Wire::GateOutput((k - 1) as usize)
            },
            wire_of(t[2 * k + 2]),
            Wire::GateOutput(k as usize),
        ),
        gate_type: gate_type_of(t[2 * k + 1]),
    }
}

/// The circuit of a well-formed token sequence: one gate per operator.
pub open spec fn circuit_of(t: Seq<char>) -> Seq<Gate> {
    Seq::new((t.len() / 2) as nat, |k: int| gate_of(t, k))
}

/// The `(left, right, output)` wires of each gate.
pub open spec fn wires_of(gates: Seq<Gate>) -> Seq<(Wire, Wire, Wire)> {
    Seq::new(gates.len(), |i: int| gates[i].gate)
}

/// The operation of each gate.
pub open spec fn gate_types_of(gates: Seq<Gate>) -> Seq<GateType> {
    Seq::new(gates.len(), |i: int| gates[i].gate_type)
}

/// The decimal digit character of `d`, for `d < 10`.
pub open spec fn digit_char(d: nat) -> char {
    ((d + 48) as u8) as char
}

/// The decimal digits of `n`, most significant first.
pub open spec fn decimal(n: nat) -> Seq<char>
    decreases n,
{
    if n < 10 {
        seq![digit_char(n)]
    } else {
        decimal(n / 10).push(digit_char(n % 10))
    }
}

/// The text of a wire: the variable's name, the literal's digit, or `GO:`
/// followed by the index of its gate.
pub open spec fn label_of(w: Wire) -> Seq<char> {
    match w {
        Wire::Variable(c) => seq![c],
        Wire::Literal(v) => decimal(v as nat),
        Wire::GateOutput(i) => seq!['G', 'O', ':'] + decimal(i as nat),
    }
}

fn push_decimal(n: usize, out: &mut Vec<char>)
    ensures
        final(out)@ == old(out)@ + decimal(n as nat),
    decreases n,
{
    if n >= 10 {
        push_decimal(n / 10, out);
    }
    out.push(((n % 10) as u8 + 48u8) as char);
    proof {
        if n >= 10 {
            assert(old(out)@ + decimal(n as nat) =~= (old(out)@ + decimal((n / 10) as nat)).push(
                digit_char((n % 10) as nat),
            ));
        } else {
            assert(old(out)@ + decimal(n as nat) =~= old(out)@.push(digit_char(n as nat)));
        }
    }
}

impl Wire {
    /// The text of this wire, as in `e`, `1` or `GO:0`.
    pub fn label(&self) -> (r: Vec<char>)
        ensures
            r@ == label_of(*self),
    {
        let mut out: Vec<char> = Vec::new();
        match self {
            Wire::Variable(c) => {
                out.push(*c);
            },
            Wire::Literal(v) => {
                push_decimal(*v as usize, &mut out);
            },
            Wire::GateOutput(i) => {
                out.push('G');
                out.push('O');
                out.push(':');
                push_decimal(*i, &mut out);
            },
        }
        assert(out@ =~= label_of(*self));
        out
    }
}

fn is_digit_char(c: char) -> (r: bool)
    ensures
        r == is_digit(c),
{
    '0' <= c && c <= '9'
}

fn is_operand_char(c: char) -> (r: bool)
    ensures
        r == is_operand(c),
{
    is_digit_char(c) || is_alphabetic(c)
}

fn wire_from_char(c: char) -> (r: Wire)
    ensures
        r == wire_of(c),
{
    if is_digit_char(c) {
        Wire::Literal((c as u32 - '0' as u32) as u8)
    } else {
        Wire::Variable(c)
    }
}

fn gate_type_from_char(c: char) -> (r: Option<GateType>)
    ensures
        r == (if is_operator(c) {
            Some(gate_type_of(c))
        } else {
            None
        }),
{
    if c == '*' {
        Some(GateType::Mul)
    } else if c == '+' {
        Some(GateType::Add)
    } else if c == '-' {
        Some(GateType::Sub)
    } else {
        None
    }
}

fn strip(program: &str) -> (r: Vec<char>)
    ensures
        r@ == strip_spaces(program@),
{
    let n = program.unicode_len();
    let mut out: Vec<char> = Vec::new();
    let mut i: usize = 0;
    while i < n
        invariant
            n == program@.len(),
            i <= n,
            out@ == strip_spaces(program@.take(i as int)),
        decreases n - i,
    {
        let c = program.get_char(i);
        assert(program@.take(i + 1).drop_last() =~= program@.take(i as int));
        if c != ' ' {
            out.push(c);
        }
        i = i + 1;
    }
    assert(program@.take(n as int) =~= program@);
    out
}

impl Gate {
    /// Compiles an equation into its gates, ignoring spaces. The equation
    /// must be a chain of single-character operands joined by `+`, `-` or
    /// `*`; gate `k` applies operator `k` to the previous result and operand
    /// `k + 1`, left to right and without precedence.
    pub fn new_gate_matrix(program: &str) -> (r: Result<Vec<Gate>, PlonkError>)
        ensures
            match r {
                Ok(gates) => is_well_formed(strip_spaces(program@)) && gates@ == circuit_of(
                    strip_spaces(program@),
                ),
                Err(e) => !is_well_formed(strip_spaces(program@)) && e == PlonkError::ParseError,
            },
    {
        let tokens = strip(program);
        let ghost t = tokens@;
        let n = tokens.len();
        if n % 2 == 0 || !is_operand_char(tokens[0]) {
            assert(n % 2 == 0 || !is_operand(t[0]));
            return Err(PlonkError::ParseError);
        }
        let mut gates: Vec<Gate> = Vec::new();
        let mut i: usize = 1;
        while i < n
            invariant
                t == tokens@,
                t == strip_spaces(program@),
                n == t.len(),
                n % 2 == 1,
                i % 2 == 1,
                1 <= i <= n,
                forall|j: int|
                    0 <= j < i ==> if j % 2 == 0 {
                        is_operand(#[trigger] t[j])
                    } else {
                        is_operator(t[j])
                    },
                gates@ =~= Seq::new((i / 2) as nat, |k: int| gate_of(t, k)),
            decreases n - i,
        {
            let op = gate_type_from_char(tokens[i]);
            let gate_type = match op {
                Some(g) => g,
                None => {
                    assert(!is_operator(t[i as int]));
                    return Err(PlonkError::ParseError);
                },
            };
            if !is_operand_char(tokens[i + 1]) {
                assert(!is_operand(t[i + 1]));
                return Err(PlonkError::ParseError);
            }
            let k = gates.len();
            let left = if k == 0 {
                wire_from_char(tokens[0])
            } else {
                Wire::GateOutput(k - 1)
            };
            let gate = Gate {
                gate: (left, wire_from_char(tokens[i + 1]), Wire::GateOutput(k)),
                gate_type,
            };
            assert(gate == gate_of(t, k as int));
            gates.push(gate);
            i = i + 2;
        }
        Ok(gates)
    }

    /// The `(left, right, output)` wires of each gate, in order.
    pub fn generate_v_matrix(gates: &[Gate]) -> (r: Vec<(Wire, Wire, Wire)>)
        ensures
            r@ == wires_of(gates@),
    {
        let mut out: Vec<(Wire, Wire, Wire)> = Vec::new();
        let mut i: usize = 0;
        while i < gates.len()
            invariant
                i <= gates@.len(),
                out@ =~= wires_of(gates@.take(i as int)),
            decreases gates@.len() - i,
        {
            out.push(gates[i].gate);
            i = i + 1;
        }
        assert(gates@.take(gates@.len() as int) =~= gates@);
        out
    }

    /// The operation of each gate, in order.
    pub fn generate_gates(gates: &[Gate]) -> (r: Vec<GateType>)
        ensures
            r@ == gate_types_of(gates@),
    {
        let mut out: Vec<GateType> = Vec::new();
        let mut i: usize = 0;
        while i < gates.len()
            invariant
                i <= gates@.len(),
                out@ =~= gate_types_of(gates@.take(i as int)),
            decreases gates@.len() - i,
        {
            out.push(gates[i].gate_type);
            i = i + 1;
        }
        assert(gates@.take(gates@.len() as int) =~= gates@);
        out
    }
}

} // verus!
