//! Verification circuit definitions for ARC Chain ZK proofs.
//!
//! Circuits are composed of wires (variables) and gates (constraints), and can be
//! evaluated against a witness to verify that all constraints hold.
//!
//! Pre-built circuits:
//! - **TransferCircuit**: verifies balance transfer correctness (sufficient funds,
//!   no overflow, correct new balances).
//! - **StateTransitionCircuit**: verifies that a state root transition is valid
//!   given a set of leaf updates.

use vstd::prelude::*;

use crate::encoding;
use crate::encoding::{bytes_eq, push_text, push_u64, read_u64, text_vec};
use crate::field;
use crate::hash;
use crate::hash::blake3_hash;

verus! {

// ---------------------------------------------------------------------------
// Types
// ---------------------------------------------------------------------------

/// Why a circuit does not evaluate.
#[derive(Clone, Copy, Debug, PartialEq, Eq, Structural)]
pub enum CircuitError {
    /// A wire index beyond the number of wires.
    InvalidWire(usize, usize),
    ConstraintViolation { index: usize, expected: u64, got: u64 },
    MissingInput(usize),
    ArithmeticOverflow(usize),
}

/// A gate in an arithmetic circuit.
///
/// Each gate operates on wire indices. The convention is:
/// `out = op(left, right)` where the tuple fields are (left, right, out).
#[derive(Clone, Copy, Debug, PartialEq, Eq, Structural)]
pub enum Gate {
    /// Addition gate: wire[out] = wire[a] + wire[b].
    Add(usize, usize, usize),
    /// Multiplication gate: wire[out] = wire[a] * wire[b].
    Mul(usize, usize, usize),
    /// Constant gate: wire[out] = value.
    Const(usize, u64),
    /// Public input gate: marks wire[idx] as a public input.
    PublicInput(usize),
    /// Assertion gate: asserts wire[idx] == value.
    Assert(usize, u64),
}

/// A wire (variable) in the circuit.
#[derive(Clone, Copy, Debug, PartialEq)]
pub struct Wire {
    pub id: usize,
    pub value: Option<u64>,
    pub is_public: bool,
}

/// A complete arithmetic circuit with gates, wires, and public input designations.
#[derive(Clone, Debug)]
pub struct Circuit {
    /// Unique circuit identifier (BLAKE3 of circuit structure).
    pub id: [u8; 32],
    /// Human-readable name.
    pub name: String,
    /// Ordered list of gates.
    pub gates: Vec<Gate>,
    /// Wire definitions.
    pub wires: Vec<Wire>,
    /// Indices of wires that are public inputs.
    pub public_inputs: Vec<usize>,
    /// Total number of constraints (assertion gates + multiplication gates).
    pub constraints: usize,
}

impl CircuitError {
    /// The error as a sentence.
    pub fn message(&self) -> (s: String)
        ensures
            s@ == match *self {
                CircuitError::InvalidWire(wire, count) => {
                    "invalid wire index "@ + encoding::decimal(wire as nat) + ": circuit has "@
                        + encoding::decimal(count as nat) + " wires"@
                },
                CircuitError::ConstraintViolation { index, expected, got } => {
                    "constraint violation at gate "@ + encoding::decimal(index as nat)
                        + ": expected "@ + encoding::decimal(expected as nat) + ", got "@
                        + encoding::decimal(got as nat)
                },
                CircuitError::MissingInput(wire) => {
                    "missing input for wire "@ + encoding::decimal(wire as nat)
                },
                CircuitError::ArithmeticOverflow(gate) => {
                    "arithmetic overflow at gate "@ + encoding::decimal(gate as nat)
                },
            },
    {
        match self {
            CircuitError::InvalidWire(wire, count) => {
                let a: String = encoding::decimal_text(*wire as u64);
                let b: String = encoding::decimal_text(*count as u64);
                let s: String = "invalid wire index ".to_owned();
                s.concat(a.as_str()).concat(": circuit has ").concat(b.as_str()).concat(" wires")
            },
            CircuitError::ConstraintViolation { index, expected, got } => {
                let a: String = encoding::decimal_text(*index as u64);
                let b: String = encoding::decimal_text(*expected);
                let c: String = encoding::decimal_text(*got);
                let s: String = "constraint violation at gate ".to_owned();
                s.concat(a.as_str()).concat(": expected ").concat(b.as_str()).concat(
                    ", got ",
                ).concat(c.as_str())
            },
            CircuitError::MissingInput(wire) => {
                let a: String = encoding::decimal_text(*wire as u64);
                "missing input for wire ".to_owned().concat(a.as_str())
            },
            CircuitError::ArithmeticOverflow(gate) => {
                let a: String = encoding::decimal_text(*gate as u64);
                "arithmetic overflow at gate ".to_owned().concat(a.as_str())
            },
        }
    }
}

// ---------------------------------------------------------------------------
// Circuit identifiers
// ---------------------------------------------------------------------------

/// A gate as bytes: a tag and its fields.
pub open spec fn gate_bytes(g: Gate) -> Seq<u8> {
    match g {
        Gate::Add(a, b, c) => seq![0u8] + encoding::le_bytes(a as nat, 8) + encoding::le_bytes(
            b as nat,
            8,
        ) + encoding::le_bytes(c as nat, 8),
        Gate::Mul(a, b, c) => seq![1u8] + encoding::le_bytes(a as nat, 8) + encoding::le_bytes(
            b as nat,
            8,
        ) + encoding::le_bytes(c as nat, 8),
        Gate::Const(i, v) => seq![2u8] + encoding::le_bytes(i as nat, 8) + encoding::le_bytes(
            v as nat,
            8,
        ),
        Gate::PublicInput(i) => seq![3u8] + encoding::le_bytes(i as nat, 8),
        Gate::Assert(i, v) => seq![4u8] + encoding::le_bytes(i as nat, 8) + encoding::le_bytes(
            v as nat,
            8,
        ),
    }
}

/// The first `n` gates as bytes, each after its number.
pub open spec fn gates_bytes(gates: Seq<Gate>, n: nat) -> Seq<u8>
    decreases n,
{
    if n == 0 {
        Seq::empty()
    } else {
        gates_bytes(gates, (n - 1) as nat) + encoding::le_bytes((n - 1) as nat, 8) + gate_bytes(
            gates[n - 1],
        )
    }
}

/// The identifier of a circuit: the hash of its name, its sizes and its gates.
pub open spec fn circuit_id(name: Seq<char>, gates: Seq<Gate>, wire_count: nat) -> Seq<u8> {
    hash::blake3_digest(circuit_bytes(name, gates, wire_count))
}

/// What the identifier of a circuit hashes.
pub open spec fn circuit_bytes(name: Seq<char>, gates: Seq<Gate>, wire_count: nat) -> Seq<u8> {
    encoding::text_bytes("arc-circuit-id"@) + encoding::text_bytes(name) + encoding::le_bytes(
        gates.len(),
        8,
    ) + encoding::le_bytes(wire_count, 8) + gates_bytes(gates, gates.len())
}

fn push_gate(out: &mut Vec<u8>, g: Gate)
    ensures
        final(out)@ == old(out)@ + gate_bytes(g),
{
    let ghost before = out@;
    match g {
        Gate::Add(a, b, c) => {
            out.push(0);
            push_u64(out, a as u64);
            push_u64(out, b as u64);
            push_u64(out, c as u64);
        },
        Gate::Mul(a, b, c) => {
            out.push(1);
            push_u64(out, a as u64);
            push_u64(out, b as u64);
            push_u64(out, c as u64);
        },
        Gate::Const(i, v) => {
            out.push(2);
            push_u64(out, i as u64);
            push_u64(out, v);
        },
        Gate::PublicInput(i) => {
            out.push(3);
            push_u64(out, i as u64);
        },
        Gate::Assert(i, v) => {
            out.push(4);
            push_u64(out, i as u64);
            push_u64(out, v);
        },
    }
    assert(out@ =~= before + gate_bytes(g));
}

impl Circuit {
    /// Compute a deterministic ID for this circuit based on its structure.
    pub fn compute_id(name: &str, gates: &[Gate], wire_count: usize) -> (id: [u8; 32])
        ensures
            id@ == circuit_id(name@, gates@, wire_count as nat),
    {
        let mut input: Vec<u8> = text_vec("arc-circuit-id");
        push_text(&mut input, name);
        push_u64(&mut input, gates.len() as u64);
        push_u64(&mut input, wire_count as u64);
        let ghost head = input@;
        let mut i: usize = 0;
        assert(input@ =~= head + gates_bytes(gates@, 0));
        while i < gates.len()
            invariant
                i <= gates.len(),
                input@ == head + gates_bytes(gates@, i as nat),
            decreases gates.len() - i,
        {
            push_u64(&mut input, i as u64);
            push_gate(&mut input, gates[i]);
            assert(input@ =~= head + gates_bytes(gates@, (i + 1) as nat));
            i = i + 1;
        }
        blake3_hash(&input)
    }
}

// ---------------------------------------------------------------------------
// Circuit builder
// ---------------------------------------------------------------------------

/// The wire that a gate computes.
pub open spec fn output(g: Gate) -> Option<int> {
    match g {
        Gate::Add(_, _, out) => Some(out as int),
        Gate::Mul(_, _, out) => Some(out as int),
        Gate::Const(i, _) => Some(i as int),
        Gate::PublicInput(_) => None,
        Gate::Assert(_, _) => None,
    }
}

/// Whether wire `i` is among the public inputs.
pub open spec fn is_listed(public: Seq<usize>, i: int) -> bool {
    exists|k: int| 0 <= k < public.len() && #[trigger] public[k] == i
}

/// Whether every wire that a gate computes is computed by that gate alone or is a public input.
pub open spec fn outputs_once(gates: Seq<Gate>, public: Seq<usize>) -> bool {
    forall|j: int, k: int|
        0 <= j < k < gates.len() ==> (output(#[trigger] gates[j]) matches Some(out) ==> is_listed(
            public,
            out,
        ) || output(#[trigger] gates[k]) != Some(out))
}

/// Whether every wire that a gate computes is one of the first `n`.
pub open spec fn outputs_below(gates: Seq<Gate>, n: int) -> bool {
    forall|k: int|
        0 <= k < gates.len() ==> (output(#[trigger] gates[k]) matches Some(out) ==> out < n)
}

/// Whether a gate counts as a constraint.
pub open spec fn is_constraint(g: Gate) -> bool {
    g is Assert || g is Mul
}

/// The number of constraints among the gates.
pub open spec fn constraint_count(gates: Seq<Gate>) -> nat
    decreases gates.len(),
{
    if gates.len() == 0 {
        0
    } else {
        constraint_count(gates.drop_last()) + if is_constraint(gates.last()) {
            1nat
        } else {
            0nat
        }
    }
}

/// Fluent builder for constructing arithmetic circuits.
pub struct CircuitBuilder {
    name: String,
    gates: Vec<Gate>,
    wire_count: usize,
    public_inputs: Vec<usize>,
}

impl CircuitBuilder {
    pub closed spec fn circuit_name(&self) -> Seq<char> {
        self.name@
    }

    pub closed spec fn gate_list(&self) -> Seq<Gate> {
        self.gates@
    }

    pub closed spec fn wires_allocated(&self) -> nat {
        self.wire_count as nat
    }

    pub closed spec fn public_list(&self) -> Seq<usize> {
        self.public_inputs@
    }

    /// The public inputs and the wires that gates compute are allocated, and each of the latter is
    /// computed by one gate alone. Whatever is added keeps this.
    pub open spec fn sound(&self) -> bool {
        &&& outputs_below(self.gate_list(), self.wires_allocated() as int)
        &&& outputs_once(self.gate_list(), self.public_list())
        &&& forall|i: int|
            0 <= i < self.public_list().len() ==> (#[trigger] self.public_list()[i])
                < self.wires_allocated()
    }

    /// Create a new circuit builder with the given name.
    pub fn new(name: &str) -> (b: Self)
        ensures
            b.circuit_name() == name@,
            b.gate_list() == Seq::<Gate>::empty(),
            b.wires_allocated() == 0,
            b.public_list() == Seq::<usize>::empty(),
            b.sound(),
    {
        CircuitBuilder {
            name: name.to_owned(),
            gates: Vec::new(),
            wire_count: 0,
            public_inputs: Vec::new(),
        }
    }

    /// Allocate a new wire and return its index.
    fn alloc_wire(&mut self, is_public: bool) -> (idx: usize)
        requires
            old(self).wires_allocated() < usize::MAX,
        ensures
            idx == old(self).wires_allocated(),
            final(self).wires_allocated() == old(self).wires_allocated() + 1,
            final(self).circuit_name() == old(self).circuit_name(),
            final(self).gate_list() == old(self).gate_list(),
            final(self).public_list() == if is_public {
                old(self).public_list().push(idx)
            } else {
                old(self).public_list()
            },
    {
        let idx: usize = self.wire_count;
        self.wire_count = self.wire_count + 1;
        if is_public {
            self.public_inputs.push(idx);
        }
        idx
    }

    /// Add a public input wire and return its index.
    pub fn add_public_input(&mut self) -> (idx: usize)
        requires
            old(self).wires_allocated() < usize::MAX,
        ensures
            idx == old(self).wires_allocated(),
            final(self).wires_allocated() == old(self).wires_allocated() + 1,
            final(self).circuit_name() == old(self).circuit_name(),
            final(self).gate_list() == old(self).gate_list().push(Gate::PublicInput(idx)),
            final(self).public_list() == old(self).public_list().push(idx),
            old(self).sound() ==> final(self).sound(),
    {
        let ghost listed = self.public_list();
        let idx: usize = self.alloc_wire(true);
        self.gates.push(Gate::PublicInput(idx));
        assert forall|i: int| #[trigger] is_listed(listed, i) implies is_listed(
            self.public_list(),
            i,
        ) by {
            let k = choose|k: int| 0 <= k < listed.len() && #[trigger] listed[k] == i;
            assert(self.public_list()[k] == i);
        }
        idx
    }

    /// Add a private (witness) input wire and return its index.
    pub fn add_private_input(&mut self) -> (idx: usize)
        requires
            old(self).wires_allocated() < usize::MAX,
        ensures
            idx == old(self).wires_allocated(),
            final(self).wires_allocated() == old(self).wires_allocated() + 1,
            final(self).circuit_name() == old(self).circuit_name(),
            final(self).gate_list() == old(self).gate_list(),
            final(self).public_list() == old(self).public_list(),
            old(self).sound() ==> final(self).sound(),
    {
        self.alloc_wire(false)
    }

    /// Add an addition gate: wire[out] = wire[a] + wire[b]. Returns the output wire index.
    pub fn add(&mut self, a: usize, b: usize) -> (out: usize)
        requires
            old(self).wires_allocated() < usize::MAX,
        ensures
            out == old(self).wires_allocated(),
            final(self).wires_allocated() == old(self).wires_allocated() + 1,
            final(self).circuit_name() == old(self).circuit_name(),
            final(self).gate_list() == old(self).gate_list().push(Gate::Add(a, b, out)),
            final(self).public_list() == old(self).public_list(),
            old(self).sound() ==> final(self).sound(),
    {
        let out: usize = self.alloc_wire(false);
        self.gates.push(Gate::Add(a, b, out));
        out
    }

    /// Add a multiplication gate: wire[out] = wire[a] * wire[b]. Returns the output wire index.
    pub fn mul(&mut self, a: usize, b: usize) -> (out: usize)
        requires
            old(self).wires_allocated() < usize::MAX,
        ensures
            out == old(self).wires_allocated(),
            final(self).wires_allocated() == old(self).wires_allocated() + 1,
            final(self).circuit_name() == old(self).circuit_name(),
            final(self).gate_list() == old(self).gate_list().push(Gate::Mul(a, b, out)),
            final(self).public_list() == old(self).public_list(),
            old(self).sound() ==> final(self).sound(),
    {
        let out: usize = self.alloc_wire(false);
        self.gates.push(Gate::Mul(a, b, out));
        out
    }

    /// Add a constant gate: wire[out] = val. Returns the output wire index.
    pub fn constant(&mut self, val: u64) -> (out: usize)
        requires
            old(self).wires_allocated() < usize::MAX,
        ensures
            out == old(self).wires_allocated(),
            final(self).wires_allocated() == old(self).wires_allocated() + 1,
            final(self).circuit_name() == old(self).circuit_name(),
            final(self).gate_list() == old(self).gate_list().push(Gate::Const(out, val)),
            final(self).public_list() == old(self).public_list(),
            old(self).sound() ==> final(self).sound(),
    {
        let out: usize = self.alloc_wire(false);
        self.gates.push(Gate::Const(out, val));
        out
    }

    /// Add an assertion gate: assert wire[idx] == val.
    pub fn assert_equal(&mut self, wire: usize, val: u64)
        ensures
            final(self).wires_allocated() == old(self).wires_allocated(),
            final(self).circuit_name() == old(self).circuit_name(),
            final(self).gate_list() == old(self).gate_list().push(Gate::Assert(wire, val)),
            final(self).public_list() == old(self).public_list(),
            old(self).sound() ==> final(self).sound(),
    {
        self.gates.push(Gate::Assert(wire, val));
    }

    /// Build the circuit.
    pub fn build(self) -> (c: Circuit)
        ensures
            c.name@ == self.circuit_name(),
            c.gates@ == self.gate_list(),
            c.public_inputs@ == self.public_list(),
            c.constraints == constraint_count(self.gate_list()),
            c.wires.len() == self.wires_allocated(),
            forall|i: int|
                0 <= i < c.wires.len() ==> {
                    &&& (#[trigger] c.wires@[i]).id == i
                    &&& c.wires@[i].value is None
                    &&& c.wires@[i].is_public == self.public_list().contains(i as usize)
                },
            c.id@ == circuit_id(
                self.circuit_name(),
                self.gate_list(),
                self.wires_allocated(),
            ),
            self.sound() ==> outputs_below(c.gates@, c.wires.len() as int) && outputs_once(
                c.gates@,
                c.public_inputs@,
            ),
    {
        let mut constraints: usize = 0;
        let mut k: usize = 0;
        assert(self.gates@.take(0) =~= Seq::<Gate>::empty());
        while k < self.gates.len()
            invariant
                k <= self.gates.len(),
                constraints <= k,
                constraints == constraint_count(self.gates@.take(k as int)),
            decreases self.gates.len() - k,
        {
            let ghost part = self.gates@.take(k + 1);
            assert(part.drop_last() =~= self.gates@.take(k as int));
            let counts: bool = match self.gates[k] {
                Gate::Assert(_, _) => true,
                Gate::Mul(_, _, _) => true,
                _ => false,
            };
            if counts {
                constraints = constraints + 1;
            }
            k = k + 1;
        }
        assert(self.gates@.take(k as int) =~= self.gates@);
        let mut wires: Vec<Wire> = Vec::new();
        let mut i: usize = 0;
        while i < self.wire_count
            invariant
                i <= self.wire_count,
                wires.len() == i,
                forall|j: int|
                    0 <= j < i ==> {
                        &&& (#[trigger] wires@[j]).id == j
                        &&& wires@[j].value is None
                        &&& wires@[j].is_public == self.public_inputs@.contains(j as usize)
                    },
            decreases self.wire_count - i,
        {
            let is_public: bool = contains_wire(&self.public_inputs, i);
            wires.push(Wire { id: i, value: None, is_public });
            i = i + 1;
        }
        let id: [u8; 32] = Circuit::compute_id(
            self.name.as_str(),
            &self.gates,
            self.wire_count,
        );
        Circuit {
            id,
            name: self.name,
            gates: self.gates,
            wires,
            public_inputs: self.public_inputs,
            constraints,
        }
    }
}

fn contains_wire(list: &Vec<usize>, wire: usize) -> (r: bool)
    ensures
        r == list@.contains(wire),
{
    let mut i: usize = 0;
    while i < list.len()
        invariant
            i <= list.len(),
            forall|j: int| 0 <= j < i ==> list@[j] != wire,
        decreases list.len() - i,
    {
        if list[i] == wire {
            assert(list@[i as int] == wire);
            return true;
        }
        i = i + 1;
    }
    false
}

// ---------------------------------------------------------------------------
// Evaluation
// ---------------------------------------------------------------------------

/// Whether a gate computes wire `i`.
pub open spec fn is_produced(gates: Seq<Gate>, i: int) -> bool {
    exists|k: int| 0 <= k < gates.len() && output(#[trigger] gates[k]) == Some(i)
}

/// The wires after the first `k` public inputs are assigned, and the number of inputs used.
pub open spec fn public_assignment(
    public: Seq<usize>,
    inputs: Seq<u64>,
    wire_count: nat,
    k: nat,
) -> Result<(Seq<Option<u64>>, nat), CircuitError>
    decreases k,
{
    if k == 0 {
        Ok((Seq::new(wire_count, |i: int| None::<u64>), 0))
    } else {
        match public_assignment(public, inputs, wire_count, (k - 1) as nat) {
            Err(e) => Err(e),
            Ok((values, used)) => if public[k - 1] >= wire_count {
                Err(CircuitError::InvalidWire(public[k - 1], wire_count as usize))
            } else if used >= inputs.len() {
                Err(CircuitError::MissingInput(public[k - 1]))
            } else {
                Ok((values.update(public[k - 1] as int, Some(inputs[used as int])), used + 1))
            },
        }
    }
}

/// Whether wire `i` waits for a private input.
pub open spec fn is_open(gates: Seq<Gate>, values: Seq<Option<u64>>, i: int) -> bool {
    values[i] is None && !is_produced(gates, i)
}

/// The number of wires below `i` that wait for a private input.
pub open spec fn open_below(gates: Seq<Gate>, values: Seq<Option<u64>>, i: nat) -> nat
    decreases i,
{
    if i == 0 {
        0
    } else {
        open_below(gates, values, (i - 1) as nat) + if is_open(gates, values, i - 1) {
            1nat
        } else {
            0nat
        }
    }
}

/// The wires after the remaining inputs went, in order, to the wires that wait for one.
pub open spec fn private_assignment(
    gates: Seq<Gate>,
    inputs: Seq<u64>,
    values: Seq<Option<u64>>,
    used: nat,
) -> Seq<Option<u64>> {
    Seq::new(
        values.len(),
        |i: int|
            if is_open(gates, values, i) && used + open_below(gates, values, i as nat)
                < inputs.len() {
                Some(inputs[(used + open_below(gates, values, i as nat)) as int])
            } else {
                values[i]
            },
    )
}

/// The wires after a gate's result goes to its output wire. A public input keeps its value, which
/// must be the result.
pub open spec fn result_stored(
    values: Seq<Option<u64>>,
    public: Seq<usize>,
    out: usize,
    result: u64,
    index: nat,
) -> Result<Seq<Option<u64>>, CircuitError> {
    if is_listed(public, out as int) && values[out as int] is Some && values[out as int]->0
        != result {
        Err(
            CircuitError::ConstraintViolation {
                index: index as usize,
                expected: result,
                got: values[out as int]->0,
            },
        )
    } else {
        Ok(values.update(out as int, Some(result)))
    }
}

/// What a gate of two operands makes of the wires.
pub open spec fn binary_step(
    values: Seq<Option<u64>>,
    public: Seq<usize>,
    a: usize,
    b: usize,
    out: usize,
    result: int,
    index: nat,
) -> Result<Seq<Option<u64>>, CircuitError> {
    let n = values.len();
    if a >= n {
        Err(CircuitError::InvalidWire(a, n as usize))
    } else if b >= n {
        Err(CircuitError::InvalidWire(b, n as usize))
    } else if out >= n {
        Err(CircuitError::InvalidWire(out, n as usize))
    } else if values[a as int] is None {
        Err(CircuitError::MissingInput(a))
    } else if values[b as int] is None {
        Err(CircuitError::MissingInput(b))
    } else if result > u64::MAX {
        Err(CircuitError::ArithmeticOverflow(index as usize))
    } else {
        result_stored(values, public, out, result as u64, index)
    }
}

/// What a gate makes of the wires.
pub open spec fn gate_step(
    values: Seq<Option<u64>>,
    public: Seq<usize>,
    g: Gate,
    index: nat,
) -> Result<Seq<Option<u64>>, CircuitError> {
    let n = values.len();
    match g {
        Gate::PublicInput(idx) => if idx >= n {
            Err(CircuitError::InvalidWire(idx, n as usize))
        } else {
            Ok(values)
        },
        Gate::Const(idx, val) => if idx >= n {
            Err(CircuitError::InvalidWire(idx, n as usize))
        } else {
            result_stored(values, public, idx, val, index)
        },
        Gate::Add(a, b, out) => binary_step(
            values,
            public,
            a,
            b,
            out,
            values[a as int]->0 + values[b as int]->0,
            index,
        ),
        Gate::Mul(a, b, out) => binary_step(
            values,
            public,
            a,
            b,
            out,
            values[a as int]->0 * values[b as int]->0,
            index,
        ),
        Gate::Assert(idx, expected) => if idx >= n {
            Err(CircuitError::InvalidWire(idx, n as usize))
        } else if values[idx as int] is None {
            Err(CircuitError::MissingInput(idx))
        } else if values[idx as int]->0 != expected {
            Err(
                CircuitError::ConstraintViolation {
                    index: index as usize,
                    expected,
                    got: values[idx as int]->0,
                },
            )
        } else {
            Ok(values)
        },
    }
}

/// What the first `k` gates make of the wires.
pub open spec fn gates_run(
    values: Seq<Option<u64>>,
    gates: Seq<Gate>,
    public: Seq<usize>,
    k: nat,
) -> Result<Seq<Option<u64>>, CircuitError>
    decreases k,
{
    if k == 0 {
        Ok(values)
    } else {
        match gates_run(values, gates, public, (k - 1) as nat) {
            Err(e) => Err(e),
            Ok(before) => gate_step(before, public, gates[k - 1], (k - 1) as nat),
        }
    }
}

/// The wires before the gates run.
pub open spec fn initial_wires(
    gates: Seq<Gate>,
    public: Seq<usize>,
    wire_count: nat,
    inputs: Seq<u64>,
) -> Result<Seq<Option<u64>>, CircuitError> {
    match public_assignment(public, inputs, wire_count, public.len()) {
        Err(e) => Err(e),
        Ok((values, used)) => Ok(private_assignment(gates, inputs, values, used)),
    }
}

/// The wire values, zero where a wire has none.
pub open spec fn settled(values: Seq<Option<u64>>) -> Seq<u64> {
    Seq::new(
        values.len(),
        |i: int|
            match values[i] {
                Some(v) => v,
                None => 0,
            },
    )
}

/// What evaluating a circuit gives.
pub open spec fn evaluated(
    gates: Seq<Gate>,
    public: Seq<usize>,
    wire_count: nat,
    inputs: Seq<u64>,
) -> Result<Seq<u64>, CircuitError> {
    match initial_wires(gates, public, wire_count, inputs) {
        Err(e) => Err(e),
        Ok(values) => match gates_run(values, gates, public, gates.len()) {
            Err(e) => Err(e),
            Ok(after) => Ok(settled(after)),
        },
    }
}

/// Whether a witness meets a gate's constraint.
pub open spec fn gate_holds(g: Gate, w: Seq<u64>) -> bool {
    match g {
        Gate::Add(a, b, out) => w[a as int] + w[b as int] == w[out as int],
        Gate::Mul(a, b, out) => w[a as int] * w[b as int] == w[out as int],
        Gate::Assert(i, v) => w[i as int] == v,
        Gate::Const(i, v) => w[i as int] == v,
        Gate::PublicInput(_) => true,
    }
}

/// Whether a gate's constraint can be looked up in a witness of length `n`: the result is looked
/// up only where it fits in 64 bits.
pub open spec fn gate_readable(g: Gate, w: Seq<u64>) -> bool {
    match g {
        Gate::Add(a, b, out) => a < w.len() && b < w.len() && (w[a as int] + w[b as int]
            <= u64::MAX ==> out < w.len()),
        Gate::Mul(a, b, out) => a < w.len() && b < w.len() && (w[a as int] * w[b as int]
            <= u64::MAX ==> out < w.len()),
        Gate::Assert(i, _) => i < w.len(),
        Gate::Const(i, _) => i < w.len(),
        Gate::PublicInput(_) => true,
    }
}

/// Whether the first `k` gates' constraints are met.
pub open spec fn gates_hold(gates: Seq<Gate>, w: Seq<u64>, k: int) -> bool {
    forall|j: int| 0 <= j < k ==> gate_holds(#[trigger] gates[j], w)
}

/// Evaluates circuits against input witnesses and verifies constraints.
pub struct CircuitEvaluator;

impl CircuitEvaluator {
    /// Evaluate a circuit with the given inputs.
    ///
    /// `inputs` provides values for wires in order: public inputs first (in the
    /// order they appear in `circuit.public_inputs`), then private inputs for
    /// any remaining wires that are not computed by gates. A gate whose output is a
    /// public input is a constraint on that input.
    ///
    /// Returns the final wire values.
    pub fn evaluate(circuit: &Circuit, inputs: &[u64]) -> (r: Result<Vec<u64>, CircuitError>)
        requires
            outputs_below(circuit.gates@, circuit.wires.len() as int),
        ensures
            ({
                let want = evaluated(
                    circuit.gates@,
                    circuit.public_inputs@,
                    circuit.wires.len() as nat,
                    inputs@,
                );
                match r {
                    Ok(w) => want == Ok::<Seq<u64>, CircuitError>(w@),
                    Err(e) => want == Err::<Seq<u64>, CircuitError>(e),
                }
            }),
            r matches Ok(w) ==> w.len() == circuit.wires.len(),
            r matches Ok(w) ==> outputs_once(circuit.gates@, circuit.public_inputs@) ==> {
                &&& gates_hold(circuit.gates@, w@, circuit.gates.len() as int)
                &&& forall|k: int|
                    0 <= k < circuit.gates.len() ==> gate_readable(
                        #[trigger] circuit.gates@[k],
                        w@,
                    )
            },
    {
        let wire_count: usize = circuit.wires.len();
        let produced: Vec<bool> = Self::find_produced(circuit);
        let (mut values, used) = match Self::assign_public(circuit, inputs) {
            Ok(assigned) => assigned,
            Err(e) => {
                return Err(e);
            },
        };
        let ghost values0 = values@;
        let ghost gates = circuit.gates@;
        let mut input_idx: usize = used;
        let mut i: usize = 0;
        while i < wire_count
            invariant
                i <= wire_count,
                wire_count == values.len(),
                gates == circuit.gates@,
                produced.len() == wire_count,
                forall|j: int| 0 <= j < wire_count ==> produced@[j] == #[trigger] is_produced(gates, j),
                values0.len() == wire_count,
                used <= inputs.len(),
                input_idx == if used + open_below(gates, values0, i as nat) <= inputs.len() {
                    used + open_below(gates, values0, i as nat)
                } else {
                    inputs.len() as int
                },
                forall|j: int|
                    i <= j < wire_count ==> #[trigger] values@[j] == values0[j],
                forall|j: int|
                    0 <= j < i ==> #[trigger] values@[j] == private_assignment(
                        gates,
                        inputs@,
                        values0,
                        used as nat,
                    )[j],
            decreases wire_count - i,
        {
            assert(values@[i as int] == values0[i as int]);
            if values[i].is_none() && !produced[i] && input_idx < inputs.len() {
                values[i] = Some(inputs[input_idx]);
                input_idx = input_idx + 1;
            }
            i = i + 1;
        }
        assert(values@ =~= private_assignment(gates, inputs@, values0, used as nat));
        let ghost start = values@;
        let mut k: usize = 0;
        while k < circuit.gates.len()
            invariant
                k <= circuit.gates.len(),
                gates == circuit.gates@,
                wire_count == circuit.wires.len(),
                wire_count == values.len(),
                initial_wires(gates, circuit.public_inputs@, wire_count as nat, inputs@) == Ok::<
                    Seq<Option<u64>>,
                    CircuitError,
                >(start),
                gates_run(start, gates, circuit.public_inputs@, k as nat) == Ok::<
                    Seq<Option<u64>>,
                    CircuitError,
                >(values@),
            decreases circuit.gates.len() - k,
        {
            let ghost before = values@;
            match Self::run_gate(&mut values, &circuit.public_inputs, circuit.gates[k], k) {
                Ok(()) => {},
                Err(e) => {
                    proof {
                        lemma_run_fails(
                            start,
                            gates,
                            circuit.public_inputs@,
                            (k + 1) as nat,
                            gates.len(),
                            e,
                        );
                    }
                    return Err(e);
                },
            }
            k = k + 1;
        }
        let mut witness: Vec<u64> = Vec::new();
        let mut j: usize = 0;
        while j < values.len()
            invariant
                j <= values.len(),
                witness.len() == j,
                forall|m: int| 0 <= m < j ==> #[trigger] witness@[m] == settled(values@)[m],
            decreases values.len() - j,
        {
            let v: u64 = match values[j] {
                Some(v) => v,
                None => 0,
            };
            witness.push(v);
            j = j + 1;
        }
        assert(witness@ =~= settled(values@));
        proof {
            if outputs_once(gates, circuit.public_inputs@) {
                law_evaluation_meets_constraints(
                    gates,
                    circuit.public_inputs@,
                    wire_count as nat,
                    inputs@,
                    witness@,
                );
            }
        }
        Ok(witness)
    }

    /// Which wires gates compute.
    fn find_produced(circuit: &Circuit) -> (produced: Vec<bool>)
        requires
            outputs_below(circuit.gates@, circuit.wires.len() as int),
        ensures
            produced.len() == circuit.wires.len(),
            forall|j: int|
                0 <= j < produced.len() ==> produced@[j] == #[trigger] is_produced(
                    circuit.gates@,
                    j,
                ),
    {
        let wire_count: usize = circuit.wires.len();
        let mut produced: Vec<bool> = vec![false; wire_count];
        let mut k: usize = 0;
        while k < circuit.gates.len()
            invariant
                k <= circuit.gates.len(),
                produced.len() == wire_count,
                wire_count == circuit.wires.len(),
                outputs_below(circuit.gates@, circuit.wires.len() as int),
                forall|j: int|
                    0 <= j < wire_count ==> produced@[j] == #[trigger] is_produced(
                        circuit.gates@.take(k as int),
                        j,
                    ),
            decreases circuit.gates.len() - k,
        {
            let ghost before = produced@;
            let ghost part = circuit.gates@.take(k as int);
            let ghost more = circuit.gates@.take(k + 1);
            let g: Gate = circuit.gates[k];
            match g {
                Gate::Add(_, _, out) => {
                    produced[out] = true;
                },
                Gate::Mul(_, _, out) => {
                    produced[out] = true;
                },
                Gate::Const(idx, _) => {
                    produced[idx] = true;
                },
                Gate::PublicInput(_) => {},
                Gate::Assert(_, _) => {},
            }
            proof {
                assert forall|j: int| 0 <= j < wire_count implies produced@[j]
                    == #[trigger] is_produced(more, j) by {
                    assert(before[j] == is_produced(part, j));
                    if is_produced(part, j) {
                        let m = choose|m: int|
                            0 <= m < part.len() && output(#[trigger] part[m]) == Some(j);
                        assert(more[m] == part[m]);
                    }
                    if output(g) == Some(j) {
                        assert(more[k as int] == g);
                    } else if is_produced(more, j) {
                        let m = choose|m: int|
                            0 <= m < more.len() && output(#[trigger] more[m]) == Some(j);
                        assert(part[m] == more[m]);
                    }
                }
            }
            k = k + 1;
        }
        assert(circuit.gates@.take(k as int) =~= circuit.gates@);
        produced
    }

    /// Assign public inputs in the order they appear in `circuit.public_inputs`.
    fn assign_public(circuit: &Circuit, inputs: &[u64]) -> (r: Result<
        (Vec<Option<u64>>, usize),
        CircuitError,
    >)
        ensures
            match r {
                Ok((values, used)) => {
                    &&& public_assignment(
                        circuit.public_inputs@,
                        inputs@,
                        circuit.wires.len() as nat,
                        circuit.public_inputs.len() as nat,
                    ) == Ok::<(Seq<Option<u64>>, nat), CircuitError>((values@, used as nat))
                    &&& values.len() == circuit.wires.len()
                    &&& used <= inputs.len()
                },
                Err(e) => public_assignment(
                    circuit.public_inputs@,
                    inputs@,
                    circuit.wires.len() as nat,
                    circuit.public_inputs.len() as nat,
                ) == Err::<(Seq<Option<u64>>, nat), CircuitError>(e),
            },
    {
        let wire_count: usize = circuit.wires.len();
        let ghost public = circuit.public_inputs@;
        let mut values: Vec<Option<u64>> = Vec::new();
        let mut i: usize = 0;
        while i < wire_count
            invariant
                i <= wire_count,
                values.len() == i,
                forall|j: int| 0 <= j < i ==> #[trigger] values@[j] is None,
            decreases wire_count - i,
        {
            values.push(None);
            i = i + 1;
        }
        let mut used: usize = 0;
        let mut k: usize = 0;
        assert(values@ =~= Seq::new(wire_count as nat, |i: int| None::<u64>));
        while k < circuit.public_inputs.len()
            invariant
                k <= circuit.public_inputs.len(),
                public == circuit.public_inputs@,
                wire_count == circuit.wires.len(),
                values.len() == wire_count,
                used <= inputs.len(),
                public_assignment(public, inputs@, wire_count as nat, k as nat) == Ok::<
                    (Seq<Option<u64>>, nat),
                    CircuitError,
                >((values@, used as nat)),
            decreases circuit.public_inputs.len() - k,
        {
            let idx: usize = circuit.public_inputs[k];
            if idx >= wire_count {
                let e: CircuitError = CircuitError::InvalidWire(idx, wire_count);
                proof {
                    lemma_assignment_fails(
                        public,
                        inputs@,
                        wire_count as nat,
                        (k + 1) as nat,
                        public.len(),
                        e,
                    );
                }
                return Err(e);
            }
            if used >= inputs.len() {
                let e: CircuitError = CircuitError::MissingInput(idx);
                proof {
                    lemma_assignment_fails(
                        public,
                        inputs@,
                        wire_count as nat,
                        (k + 1) as nat,
                        public.len(),
                        e,
                    );
                }
                return Err(e);
            }
            values[idx] = Some(inputs[used]);
            used = used + 1;
            k = k + 1;
        }
        Ok((values, used))
    }

    /// Brings a gate's result to its output wire.
    fn store_result(
        values: &mut Vec<Option<u64>>,
        public: &Vec<usize>,
        out: usize,
        result: u64,
        gate_idx: usize,
    ) -> (r: Result<(), CircuitError>)
        requires
            out < old(values).len(),
        ensures
            final(values).len() == old(values).len(),
            match r {
                Ok(()) => result_stored(old(values)@, public@, out, result, gate_idx as nat)
                    == Ok::<Seq<Option<u64>>, CircuitError>(final(values)@),
                Err(e) => result_stored(old(values)@, public@, out, result, gate_idx as nat)
                    == Err::<Seq<Option<u64>>, CircuitError>(e),
            },
    {
        assert(public@.contains(out) == is_listed(public@, out as int));
        if let Some(got) = values[out] {
            if got != result && contains_wire(public, out) {
                return Err(
                    CircuitError::ConstraintViolation { index: gate_idx, expected: result, got },
                );
            }
        }
        values[out] = Some(result);
        Ok(())
    }

    /// Evaluates one gate.
    fn run_gate(
        values: &mut Vec<Option<u64>>,
        public: &Vec<usize>,
        g: Gate,
        gate_idx: usize,
    ) -> (r: Result<(), CircuitError>)
        ensures
            final(values).len() == old(values).len(),
            match r {
                Ok(()) => gate_step(old(values)@, public@, g, gate_idx as nat) == Ok::<
                    Seq<Option<u64>>,
                    CircuitError,
                >(final(values)@),
                Err(e) => gate_step(old(values)@, public@, g, gate_idx as nat) == Err::<
                    Seq<Option<u64>>,
                    CircuitError,
                >(e),
            },
    {
        let wire_count: usize = values.len();
        match g {
            Gate::PublicInput(idx) => {
                if idx >= wire_count {
                    return Err(CircuitError::InvalidWire(idx, wire_count));
                }
                Ok(())
            },
            Gate::Const(idx, val) => {
                if idx >= wire_count {
                    return Err(CircuitError::InvalidWire(idx, wire_count));
                }
                Self::store_result(values, public, idx, val, gate_idx)
            },
            Gate::Add(a, b, out) => {
                if a >= wire_count {
                    return Err(CircuitError::InvalidWire(a, wire_count));
                }
                if b >= wire_count {
                    return Err(CircuitError::InvalidWire(b, wire_count));
                }
                if out >= wire_count {
                    return Err(CircuitError::InvalidWire(out, wire_count));
                }
                let va: u64 = match values[a] {
                    Some(v) => v,
                    None => {
                        return Err(CircuitError::MissingInput(a));
                    },
                };
                let vb: u64 = match values[b] {
                    Some(v) => v,
                    None => {
                        return Err(CircuitError::MissingInput(b));
                    },
                };
                match va.checked_add(vb) {
                    Some(sum) => Self::store_result(values, public, out, sum, gate_idx),
                    None => Err(CircuitError::ArithmeticOverflow(gate_idx)),
                }
            },
            Gate::Mul(a, b, out) => {
                if a >= wire_count {
                    return Err(CircuitError::InvalidWire(a, wire_count));
                }
                if b >= wire_count {
                    return Err(CircuitError::InvalidWire(b, wire_count));
                }
                if out >= wire_count {
                    return Err(CircuitError::InvalidWire(out, wire_count));
                }
                let va: u64 = match values[a] {
                    Some(v) => v,
                    None => {
                        return Err(CircuitError::MissingInput(a));
                    },
                };
                let vb: u64 = match values[b] {
                    Some(v) => v,
                    None => {
                        return Err(CircuitError::MissingInput(b));
                    },
                };
                proof {
                    field::lemma_u64_product(va, vb);
                }
                match va.checked_mul(vb) {
                    Some(product) => Self::store_result(values, public, out, product, gate_idx),
                    None => Err(CircuitError::ArithmeticOverflow(gate_idx)),
                }
            },
            Gate::Assert(idx, expected) => {
                if idx >= wire_count {
                    return Err(CircuitError::InvalidWire(idx, wire_count));
                }
                let actual: u64 = match values[idx] {
                    Some(v) => v,
                    None => {
                        return Err(CircuitError::MissingInput(idx));
                    },
                };
                if actual != expected {
                    return Err(
                        CircuitError::ConstraintViolation {
                            index: gate_idx,
                            expected,
                            got: actual,
                        },
                    );
                }
                Ok(())
            },
        }
    }

    /// Verify that all constraints in the circuit are satisfied by the given witness.
    ///
    /// Every wire that is looked up, up to the first constraint that fails, must be in the witness.
    pub fn verify_constraints(circuit: &Circuit, witness: &[u64]) -> (r: bool)
        requires
            witness.len() >= circuit.wires.len() ==> forall|k: int|
                0 <= k < circuit.gates.len() && gates_hold(circuit.gates@, witness@, k)
                    ==> gate_readable(#[trigger] circuit.gates@[k], witness@),
        ensures
            r == (witness.len() >= circuit.wires.len() && gates_hold(
                circuit.gates@,
                witness@,
                circuit.gates.len() as int,
            )),
    {
        if witness.len() < circuit.wires.len() {
            return false;
        }
        let mut k: usize = 0;
        while k < circuit.gates.len()
            invariant
                k <= circuit.gates.len(),
                gates_hold(circuit.gates@, witness@, k as int),
                forall|k: int|
                    0 <= k < circuit.gates.len() && gates_hold(circuit.gates@, witness@, k)
                        ==> gate_readable(#[trigger] circuit.gates@[k], witness@),
            decreases circuit.gates.len() - k,
        {
            let g: Gate = circuit.gates[k];
            assert(gate_readable(circuit.gates@[k as int], witness@));
            let holds: bool = match g {
                Gate::Add(a, b, out) => match witness[a].checked_add(witness[b]) {
                    Some(sum) => sum == witness[out],
                    None => false,
                },
                Gate::Mul(a, b, out) => {
                    proof {
                        field::lemma_u64_product(witness@[a as int], witness@[b as int]);
                    }
                    match witness[a].checked_mul(witness[b]) {
                        Some(product) => product == witness[out],
                        None => false,
                    }
                },
                Gate::Assert(idx, expected) => witness[idx] == expected,
                Gate::Const(idx, val) => witness[idx] == val,
                Gate::PublicInput(_) => true,
            };
            if !holds {
                assert(!gate_holds(circuit.gates@[k as int], witness@));
                return false;
            }
            k = k + 1;
        }
        true
    }
}

proof fn lemma_run_fails(
    values: Seq<Option<u64>>,
    gates: Seq<Gate>,
    public: Seq<usize>,
    k: nat,
    n: nat,
    e: CircuitError,
)
    requires
        k <= n,
        gates_run(values, gates, public, k) == Err::<Seq<Option<u64>>, CircuitError>(e),
    ensures
        gates_run(values, gates, public, n) == Err::<Seq<Option<u64>>, CircuitError>(e),
    decreases n,
{
    if k < n {
        lemma_run_fails(values, gates, public, k, (n - 1) as nat, e);
    }
}

proof fn lemma_assignment_fails(
    public: Seq<usize>,
    inputs: Seq<u64>,
    wire_count: nat,
    k: nat,
    n: nat,
    e: CircuitError,
)
    requires
        k <= n,
        public_assignment(public, inputs, wire_count, k) == Err::<
            (Seq<Option<u64>>, nat),
            CircuitError,
        >(e),
    ensures
        public_assignment(public, inputs, wire_count, n) == Err::<
            (Seq<Option<u64>>, nat),
            CircuitError,
        >(e),
    decreases n,
{
    if k < n {
        lemma_assignment_fails(public, inputs, wire_count, k, (n - 1) as nat, e);
    }
}

// ---------------------------------------------------------------------------
// Evaluation and constraints
// ---------------------------------------------------------------------------

/// Whether wire `i` is there and has a value.
spec fn has_value(values: Seq<Option<u64>>, i: usize) -> bool {
    i < values.len() && values[i as int] is Some
}

/// Whether the wires of a gate's constraint have values, and they meet it.
spec fn gate_settled(g: Gate, values: Seq<Option<u64>>) -> bool {
    &&& gate_holds(g, settled(values))
    &&& match g {
        Gate::Add(a, b, out) => has_value(values, a) && has_value(values, b) && has_value(
            values,
            out,
        ),
        Gate::Mul(a, b, out) => has_value(values, a) && has_value(values, b) && has_value(
            values,
            out,
        ),
        Gate::Const(i, _) => has_value(values, i),
        Gate::PublicInput(_) => true,
        Gate::Assert(i, _) => has_value(values, i),
    }
}

/// Whether the wires that the gates from the `k`th on compute have no value yet, and the public
/// inputs have theirs.
spec fn rest_waits(
    values: Seq<Option<u64>>,
    gates: Seq<Gate>,
    public: Seq<usize>,
    k: int,
) -> bool {
    &&& forall|j: int|
        k <= j < gates.len() ==> (output(#[trigger] gates[j]) matches Some(out) ==> !is_listed(
            public,
            out,
        ) ==> out < values.len() ==> values[out] is None)
    &&& forall|i: int| 0 <= i < public.len() ==> has_value(values, #[trigger] public[i])
}

proof fn lemma_run_settles(
    values: Seq<Option<u64>>,
    gates: Seq<Gate>,
    public: Seq<usize>,
    k: nat,
) -> (after: Seq<Option<u64>>)
    requires
        outputs_once(gates, public),
        rest_waits(values, gates, public, 0),
        k <= gates.len(),
        gates_run(values, gates, public, k) is Ok,
    ensures
        gates_run(values, gates, public, k) == Ok::<Seq<Option<u64>>, CircuitError>(after),
        after.len() == values.len(),
        rest_waits(after, gates, public, k as int),
        forall|j: int| 0 <= j < k ==> gate_settled(#[trigger] gates[j], after),
    decreases k,
{
    if k == 0 {
        values
    } else {
        let before = lemma_run_settles(values, gates, public, (k - 1) as nat);
        let g = gates[k - 1];
        let after = gate_step(before, public, g, (k - 1) as nat)->Ok_0;
        if let Some(out) = output(g) {
            if is_listed(public, out) {
                let i = choose|i: int| 0 <= i < public.len() && #[trigger] public[i] == out;
                assert(has_value(before, public[i]));
                assert(after =~= before);
            }
        }
        assert forall|j: int| 0 <= j < k implies gate_settled(#[trigger] gates[j], after) by {
            if j < k - 1 {
                assert(gate_settled(gates[j], before));
            }
        }
        assert forall|j: int| k <= j < gates.len() implies (output(#[trigger] gates[j]) matches Some(
            out,
        ) ==> !is_listed(public, out) ==> out < after.len() ==> after[out] is None) by {
            if let Some(out) = output(gates[k - 1]) {
                assert(is_listed(public, out) || output(gates[j]) != Some(out));
            }
        }
        after
    }
}

/// Assignment gives values to the first `k` public inputs and to no wire that is none.
proof fn lemma_public_waits(
    public: Seq<usize>,
    inputs: Seq<u64>,
    wire_count: nat,
    k: nat,
)
    requires
        k <= public.len(),
    ensures
        public_assignment(public, inputs, wire_count, k) matches Ok(r) ==> {
            &&& r.0.len() == wire_count
            &&& forall|i: int| 0 <= i < k ==> has_value(r.0, #[trigger] public[i])
            &&& forall|i: int|
                0 <= i < wire_count && !is_listed(public, i) ==> #[trigger] r.0[i] is None
        },
    decreases k,
{
    if k > 0 {
        lemma_public_waits(public, inputs, wire_count, (k - 1) as nat);
        if let Ok(r) = public_assignment(public, inputs, wire_count, k) {
            assert(is_listed(public, public[k - 1] as int));
        }
    }
}

/// A witness that evaluation returns meets every constraint of a circuit in which no wire
/// but a public input is computed twice, as in every circuit that a builder has built.
pub proof fn law_evaluation_meets_constraints(
    gates: Seq<Gate>,
    public: Seq<usize>,
    wire_count: nat,
    inputs: Seq<u64>,
    witness: Seq<u64>,
)
    requires
        outputs_once(gates, public),
        evaluated(gates, public, wire_count, inputs) == Ok::<Seq<u64>, CircuitError>(witness),
    ensures
        witness.len() == wire_count,
        gates_hold(gates, witness, gates.len() as int),
        forall|k: int| 0 <= k < gates.len() ==> gate_readable(#[trigger] gates[k], witness),
{
    let (assigned, used) = public_assignment(public, inputs, wire_count, public.len())->Ok_0;
    let values = private_assignment(gates, inputs, assigned, used);
    lemma_public_waits(public, inputs, wire_count, public.len());
    assert(rest_waits(values, gates, public, 0)) by {
        assert forall|j: int| 0 <= j < gates.len() implies (output(
            #[trigger] gates[j],
        ) matches Some(out) ==> !is_listed(public, out) ==> out < values.len() ==> values[out] is None) by {
            if let Some(out) = output(gates[j]) {
                assert(is_produced(gates, out));
                if out < values.len() && !is_listed(public, out) {
                    assert(assigned[out] is None);
                }
            }
        }
        assert forall|i: int| 0 <= i < public.len() implies has_value(
            values,
            #[trigger] public[i],
        ) by {
            assert(has_value(assigned, public[i]));
        }
    }
    let after = lemma_run_settles(values, gates, public, gates.len());
    assert forall|k: int| 0 <= k < gates.len() implies {
        &&& gate_readable(#[trigger] gates[k], witness)
        &&& gate_holds(gates[k], witness)
    } by {
        assert(gate_settled(gates[k], after));
    }
}

// ---------------------------------------------------------------------------
// The transfer circuit
// ---------------------------------------------------------------------------

/// Builds a circuit that verifies a balance transfer.
///
/// Constraints verified:
/// 1. sender_balance >= amount
/// 2. receiver_balance + amount does not overflow
/// 3. new_sender = sender_balance - amount
/// 4. new_receiver = receiver_balance + amount
///
/// Wire layout:
/// 0: sender_balance (public)
/// 1: receiver_balance (public)
/// 2: amount (public)
/// 3: new_sender = sender_balance - amount (private)
/// 4: new_sender + amount
/// 5: new_receiver = receiver_balance + amount
pub struct TransferCircuit;

/// Result of a verified transfer circuit evaluation.
#[derive(Clone, Debug)]
pub struct TransferResult {
    pub new_sender_balance: u64,
    pub new_receiver_balance: u64,
    pub witness: Vec<u64>,
    pub circuit_id: [u8; 32],
}

/// The gates of the transfer circuit.
pub open spec fn transfer_gates() -> Seq<Gate> {
    seq![
        Gate::PublicInput(0),
        Gate::PublicInput(1),
        Gate::PublicInput(2),
        Gate::Add(3, 2, 4),
        Gate::Add(1, 2, 5),
        Gate::Add(3, 2, 0),
    ]
}

/// Whether a witness is that of a transfer: the sender pays the amount and the receiver gets it.
pub open spec fn is_transfer(w: Seq<u64>) -> bool {
    &&& w[2] <= w[0]
    &&& w[3] == w[0] - w[2]
    &&& w[4] == w[0]
    &&& w[1] + w[2] <= u64::MAX
    &&& w[5] == w[1] + w[2]
}

/// The witnesses that meet the constraints of the transfer circuit are those of transfers.
pub proof fn law_transfer_constraints_bind_balances(w: Seq<u64>)
    requires
        w.len() >= 6,
    ensures
        gates_hold(transfer_gates(), w, transfer_gates().len() as int) <==> is_transfer(w),
{
    let gates = transfer_gates();
    if gates_hold(gates, w, gates.len() as int) {
        assert(gate_holds(gates[3], w));
        assert(gate_holds(gates[4], w));
        assert(gate_holds(gates[5], w));
    }
}

/// Evaluating the transfer circuit: the inputs are refused where the sender's balance is not the
/// sum of the rest and the amount.
pub proof fn law_transfer_inputs_are_bound(sender: u64, receiver: u64, amount: u64, rest: u64)
    ensures
        evaluated(
            transfer_gates(),
            seq![0usize, 1, 2],
            6,
            seq![sender, receiver, amount, rest],
        ) == if rest + amount > u64::MAX {
            Err::<Seq<u64>, CircuitError>(CircuitError::ArithmeticOverflow(3))
        } else if receiver + amount > u64::MAX {
            Err(CircuitError::ArithmeticOverflow(4))
        } else if rest + amount != sender {
            Err(
                CircuitError::ConstraintViolation {
                    index: 5,
                    expected: (rest + amount) as u64,
                    got: sender,
                },
            )
        } else {
            Ok(seq![sender, receiver, amount, rest, sender, (receiver + amount) as u64])
        },
{
    let gates = transfer_gates();
    let public = seq![0usize, 1, 2];
    let start = seq![Some(sender), Some(receiver), Some(amount), Some(rest), None, None];
    lemma_transfer_start(sender, receiver, amount, rest);
    assert(public[0] == 0);
    assert(is_listed(public, 0) && !is_listed(public, 4) && !is_listed(public, 5));
    assert(gates_run(start, gates, public, 0) == Ok::<Seq<Option<u64>>, CircuitError>(start));
    assert(gates_run(start, gates, public, 1) == Ok::<Seq<Option<u64>>, CircuitError>(start));
    assert(gates_run(start, gates, public, 2) == Ok::<Seq<Option<u64>>, CircuitError>(start));
    assert(gates_run(start, gates, public, 3) == Ok::<Seq<Option<u64>>, CircuitError>(start));
    assert(gates[3] == Gate::Add(3, 2, 4));
    assert(gates[4] == Gate::Add(1, 2, 5));
    assert(gates[5] == Gate::Add(3, 2, 0));
    if rest + amount > u64::MAX {
        lemma_run_fails(start, gates, public, 4, 6, CircuitError::ArithmeticOverflow(3));
    } else {
        let sum = (rest + amount) as u64;
        let summed = start.update(4, Some(sum));
        assert(gates_run(start, gates, public, 4) == Ok::<Seq<Option<u64>>, CircuitError>(summed));
        if receiver + amount > u64::MAX {
            lemma_run_fails(start, gates, public, 5, 6, CircuitError::ArithmeticOverflow(4));
        } else {
            let paid = (receiver + amount) as u64;
            let computed = summed.update(5, Some(paid));
            assert(gates_run(start, gates, public, 5) == Ok::<Seq<Option<u64>>, CircuitError>(
                computed,
            ));
            if sum == sender {
                assert(computed.update(0, Some(sum)) =~= computed);
                assert(settled(computed) =~= seq![sender, receiver, amount, rest, sender, paid]);
            }
        }
    }
}

proof fn lemma_transfer_start(sender: u64, receiver: u64, amount: u64, rest: u64)
    ensures
        initial_wires(
            transfer_gates(),
            seq![0usize, 1, 2],
            6,
            seq![sender, receiver, amount, rest],
        ) == Ok::<Seq<Option<u64>>, CircuitError>(
            seq![Some(sender), Some(receiver), Some(amount), Some(rest), None, None],
        ),
{
    let gates = transfer_gates();
    let public = seq![0usize, 1, 2];
    let inputs = seq![sender, receiver, amount, rest];
    reveal_with_fuel(public_assignment, 4);
    reveal_with_fuel(open_below, 7);
    let none = Seq::new(6, |i: int| None::<u64>);
    let assigned = none.update(0, Some(sender)).update(1, Some(receiver)).update(2, Some(amount));
    assert(public_assignment(public, inputs, 6, 3) == Ok::<
        (Seq<Option<u64>>, nat),
        CircuitError,
    >((assigned, 3)));
    assert(is_produced(gates, 4)) by {
        assert(output(gates[3]) == Some(4int));
    }
    assert(is_produced(gates, 5)) by {
        assert(output(gates[4]) == Some(5int));
    }
    assert(!is_produced(gates, 3));
    assert(open_below(gates, assigned, 3) == 0);
    assert(private_assignment(gates, inputs, assigned, 3) =~= seq![
        Some(sender),
        Some(receiver),
        Some(amount),
        Some(rest),
        None,
        None,
    ]);
}

impl TransferCircuit {
    /// The circuit that ties the balances of a transfer together.
    pub fn build_transfer_circuit() -> (c: Circuit)
        ensures
            c.gates@ == transfer_gates(),
            c.wires.len() == 6,
            c.public_inputs@ == seq![0usize, 1, 2],
            c.name@ == "transfer-verification"@,
            c.constraints == 0,
            c.id@ == circuit_id("transfer-verification"@, transfer_gates(), 6),
            outputs_below(c.gates@, c.wires.len() as int),
            outputs_once(c.gates@, c.public_inputs@),
            forall|w: Seq<u64>|
                w.len() >= 6 ==> (#[trigger] gates_hold(c.gates@, w, c.gates.len() as int)
                    <==> is_transfer(w)),
    {
        let mut builder: CircuitBuilder = CircuitBuilder::new("transfer-verification");
        let sender_bal: usize = builder.add_public_input();
        let receiver_bal: usize = builder.add_public_input();
        let amount: usize = builder.add_public_input();
        let new_sender: usize = builder.add_private_input();
        let _sum_check: usize = builder.add(new_sender, amount);
        let _new_receiver: usize = builder.add(receiver_bal, amount);
        builder.gates.push(Gate::Add(new_sender, amount, sender_bal));
        proof {
            assert(builder.gate_list() =~= transfer_gates());
            assert(builder.public_list() =~= seq![0usize, 1, 2]);
            reveal_with_fuel(constraint_count, 7);
            assert(builder.public_list()[0] == 0);
            assert forall|w: Seq<u64>| w.len() >= 6 implies (#[trigger] gates_hold(
                transfer_gates(),
                w,
                transfer_gates().len() as int,
            ) <==> is_transfer(w)) by {
                law_transfer_constraints_bind_balances(w);
            }
        }
        builder.build()
    }

    /// Evaluate the transfer circuit with concrete values.
    ///
    /// Returns the new balances if the transfer is valid: the sender can pay the amount and the
    /// receiver's balance does not overflow.
    pub fn verify_transfer(sender_balance: u64, receiver_balance: u64, amount: u64) -> (r: Result<
        TransferResult,
        CircuitError,
    >)
        ensures
            match r {
                Ok(t) => {
                    &&& amount <= sender_balance
                    &&& receiver_balance + amount <= u64::MAX
                    &&& t.new_sender_balance == sender_balance - amount
                    &&& t.new_receiver_balance == receiver_balance + amount
                    &&& t.new_sender_balance + t.new_receiver_balance == sender_balance
                        + receiver_balance
                    &&& t.witness@ == seq![
                        sender_balance,
                        receiver_balance,
                        amount,
                        t.new_sender_balance,
                        sender_balance,
                        t.new_receiver_balance,
                    ]
                    &&& t.circuit_id@ == circuit_id(
                        "transfer-verification"@,
                        transfer_gates(),
                        6,
                    )
                },
                Err(e) => {
                    ||| amount > sender_balance && e == (CircuitError::ConstraintViolation {
                        index: 0,
                        expected: amount,
                        got: sender_balance,
                    })
                    ||| amount <= sender_balance && receiver_balance + amount > u64::MAX && e
                        == CircuitError::ArithmeticOverflow(1)
                },
            },
    {
        if amount > sender_balance {
            return Err(
                CircuitError::ConstraintViolation {
                    index: 0,
                    expected: amount,
                    got: sender_balance,
                },
            );
        }
        let new_receiver: u64 = match receiver_balance.checked_add(amount) {
            Some(v) => v,
            None => {
                return Err(CircuitError::ArithmeticOverflow(1));
            },
        };
        let new_sender: u64 = sender_balance - amount;
        let circuit: Circuit = Self::build_transfer_circuit();
        let inputs: Vec<u64> = vec![sender_balance, receiver_balance, amount, new_sender];
        assert(inputs@ =~= seq![sender_balance, receiver_balance, amount, new_sender]);
        proof {
            law_transfer_inputs_are_bound(sender_balance, receiver_balance, amount, new_sender);
        }
        match CircuitEvaluator::evaluate(&circuit, &inputs) {
            Ok(witness) => {
                proof {
                    law_transfer_constraints_bind_balances(witness@);
                }
                if !CircuitEvaluator::verify_constraints(&circuit, &witness) {
                    return Err(
                        CircuitError::ConstraintViolation { index: 0, expected: 0, got: 1 },
                    );
                }
                Ok(
                    TransferResult {
                        new_sender_balance: new_sender,
                        new_receiver_balance: new_receiver,
                        witness,
                        circuit_id: circuit.id,
                    },
                )
            },
            Err(e) => Err(e),
        }
    }
}

// ---------------------------------------------------------------------------
// The state transition circuit
// ---------------------------------------------------------------------------

/// Builds a circuit that verifies state root transitions: over an old and a new state root and a
/// list of leaf updates, it computes leaf_index * old_value + new_value for each update
/// (leaf_index, old_value, new_value).
pub struct StateTransitionCircuit;

/// The gates of the state transition circuit.
pub open spec fn transition_gates(n: nat) -> Seq<Gate> {
    Seq::new(
        8 + 2 * n,
        |k: int|
            if k < 8 {
                Gate::PublicInput(k as usize)
            } else if k % 2 == 0 {
                let base = 8 + 5 * ((k - 8) / 2);
                Gate::Mul(base as usize, (base + 1) as usize, (base + 3) as usize)
            } else {
                let base = 8 + 5 * ((k - 9) / 2);
                Gate::Add((base + 3) as usize, (base + 2) as usize, (base + 4) as usize)
            },
    )
}

/// The inputs of the state transition circuit: the roots as four little-endian limbs each, then
/// the updates.
pub open spec fn transition_inputs(
    old_root: Seq<u8>,
    new_root: Seq<u8>,
    updates: Seq<(u64, u64, u64)>,
) -> Seq<u64> {
    Seq::new(
        8 + 3 * updates.len(),
        |i: int|
            if i < 4 {
                encoding::le_value(old_root.subrange(8 * i, 8 * i + 8)) as u64
            } else if i < 8 {
                encoding::le_value(new_root.subrange(8 * (i - 4), 8 * (i - 4) + 8)) as u64
            } else if (i - 8) % 3 == 0 {
                updates[(i - 8) / 3].0
            } else if (i - 8) % 3 == 1 {
                updates[(i - 8) / 3].1
            } else {
                updates[(i - 8) / 3].2
            },
    )
}

/// The first gate of the state transition circuit at which one of the first `n` updates overflows.
pub open spec fn overflow_gate(updates: Seq<(u64, u64, u64)>, n: nat) -> Option<nat>
    decreases n,
{
    if n == 0 {
        None
    } else {
        match overflow_gate(updates, (n - 1) as nat) {
            Some(g) => Some(g),
            None => {
                let (leaf, old_value, new_value) = updates[n - 1];
                if leaf * old_value > u64::MAX {
                    Some((8 + 2 * (n - 1)) as nat)
                } else if leaf * old_value + new_value > u64::MAX {
                    Some((9 + 2 * (n - 1)) as nat)
                } else {
                    None
                }
            },
        }
    }
}

/// The wires of the state transition circuit once the inputs are assigned and the first `u`
/// updates are computed.
spec fn transition_wires(
    inputs: Seq<u64>,
    updates: Seq<(u64, u64, u64)>,
    u: int,
) -> Seq<Option<u64>> {
    Seq::new(
        8 + 5 * updates.len(),
        |i: int|
            if i < 8 {
                Some(inputs[i])
            } else {
                let v = (i - 8) / 5;
                let c = (i - 8) % 5;
                if c == 0 {
                    Some(updates[v].0)
                } else if c == 1 {
                    Some(updates[v].1)
                } else if c == 2 {
                    Some(updates[v].2)
                } else if v >= u {
                    None
                } else if c == 3 {
                    Some((updates[v].0 * updates[v].1) as u64)
                } else {
                    Some((updates[v].0 * updates[v].1 + updates[v].2) as u64)
                }
            },
    )
}

/// The wires once the first `k` public inputs are assigned.
spec fn public_wires(inputs: Seq<u64>, wire_count: nat, k: int) -> Seq<Option<u64>> {
    Seq::new(
        wire_count,
        |i: int|
            if i < k && i < 8 {
                Some(inputs[i])
            } else {
                None
            },
    )
}

/// The public inputs of the state transition circuit.
pub open spec fn transition_public() -> Seq<usize> {
    Seq::new(8, |i: int| i as usize)
}

proof fn lemma_transition_public(inputs: Seq<u64>, n: nat, k: nat)
    requires
        inputs.len() >= 8,
        8 + 5 * n <= usize::MAX,
        k <= 8,
    ensures
        public_assignment(transition_public(), inputs, 8 + 5 * n, k) == Ok::<
            (Seq<Option<u64>>, nat),
            CircuitError,
        >((public_wires(inputs, 8 + 5 * n, k as int), k)),
    decreases k,
{
    let w = public_wires(inputs, 8 + 5 * n, k as int);
    if k == 0 {
        assert(w =~= Seq::new(8 + 5 * n, |i: int| None::<u64>));
    } else {
        lemma_transition_public(inputs, n, (k - 1) as nat);
        let before = public_wires(inputs, 8 + 5 * n, k - 1);
        assert(w =~= before.update(k - 1, Some(inputs[k - 1])));
    }
}

proof fn lemma_transition_produced(n: nat, i: int)
    requires
        0 <= i < 8 + 5 * n,
        8 + 5 * n <= usize::MAX,
    ensures
        is_produced(transition_gates(n), i) == (i >= 8 && (i - 8) % 5 >= 3),
{
    let gates = transition_gates(n);
    if i >= 8 && (i - 8) % 5 >= 3 {
        let v = (i - 8) / 5;
        let k = if (i - 8) % 5 == 3 {
            8 + 2 * v
        } else {
            9 + 2 * v
        };
        assert(0 <= k < gates.len());
        assert(output(gates[k]) == Some(i));
    } else {
        assert forall|k: int| 0 <= k < gates.len() implies output(#[trigger] gates[k]) != Some(i) by {
            if k >= 8 && k % 2 == 0 {
                assert(output(gates[k]) == Some(8 + 5 * ((k - 8) / 2) + 3));
            } else if k >= 8 {
                assert(output(gates[k]) == Some(8 + 5 * ((k - 9) / 2) + 4));
            }
        }
    }
}

/// The number of wires below `i` that wait for a private input.
spec fn transition_open(i: int) -> int {
    if i < 8 {
        0
    } else {
        3 * ((i - 8) / 5) + if (i - 8) % 5 < 3 {
            (i - 8) % 5
        } else {
            3
        }
    }
}

proof fn lemma_transition_open(inputs: Seq<u64>, n: nat, i: nat)
    requires
        8 + 5 * n <= usize::MAX,
        i <= 8 + 5 * n,
    ensures
        open_below(transition_gates(n), public_wires(inputs, 8 + 5 * n, 8), i) == transition_open(
            i as int,
        ),
    decreases i,
{
    if i > 0 {
        lemma_transition_open(inputs, n, (i - 1) as nat);
        lemma_transition_produced(n, i - 1);
    }
}

proof fn lemma_transition_start(
    old_root: Seq<u8>,
    new_root: Seq<u8>,
    updates: Seq<(u64, u64, u64)>,
)
    requires
        8 + 5 * updates.len() <= usize::MAX,
    ensures
        initial_wires(
            transition_gates(updates.len()),
            transition_public(),
            8 + 5 * updates.len(),
            transition_inputs(old_root, new_root, updates),
        ) == Ok::<Seq<Option<u64>>, CircuitError>(
            transition_wires(transition_inputs(old_root, new_root, updates), updates, 0),
        ),
{
    let n = updates.len();
    let gates = transition_gates(n);
    let inputs = transition_inputs(old_root, new_root, updates);
    let assigned = public_wires(inputs, 8 + 5 * n, 8);
    lemma_transition_public(inputs, n, 8);
    let start = private_assignment(gates, inputs, assigned, 8);
    let want = transition_wires(inputs, updates, 0);
    assert forall|i: int| 0 <= i < 8 + 5 * n implies #[trigger] start[i] == want[i] by {
        lemma_transition_open(inputs, n, i as nat);
        lemma_transition_produced(n, i);
        if i >= 8 && (i - 8) % 5 < 3 {
            let at = 8 + transition_open(i);
            assert((at - 8) / 3 == (i - 8) / 5 && (at - 8) % 3 == (i - 8) % 5);
            assert((i - 8) / 5 < n);
        }
    }
    assert(start =~= want);
}

#[verifier::spinoff_prover]
#[verifier::rlimit(60)]
proof fn lemma_transition_run(inputs: Seq<u64>, updates: Seq<(u64, u64, u64)>, u: nat)
    requires
        8 + 5 * updates.len() <= usize::MAX,
        u <= updates.len(),
    ensures
        match overflow_gate(updates, u) {
            None => gates_run(
                transition_wires(inputs, updates, 0),
                transition_gates(updates.len()),
                transition_public(),
                8 + 2 * u,
            ) == Ok::<Seq<Option<u64>>, CircuitError>(
                transition_wires(inputs, updates, u as int),
            ),
            Some(g) => gates_run(
                transition_wires(inputs, updates, 0),
                transition_gates(updates.len()),
                transition_public(),
                8 + 2 * u,
            ) == Err::<Seq<Option<u64>>, CircuitError>(
                CircuitError::ArithmeticOverflow(g as usize),
            ) && g < 8 + 2 * u,
        },
    decreases u,
{
    let n = updates.len();
    let gates = transition_gates(n);
    let public = transition_public();
    let start = transition_wires(inputs, updates, 0);
    if u == 0 {
        lemma_transition_head(inputs, updates, 8);
    } else {
        let v = u - 1;
        lemma_transition_run(inputs, updates, v as nat);
        let k = (8 + 2 * v) as nat;
        match overflow_gate(updates, v as nat) {
            Some(g) => {
                lemma_run_fails(
                    start,
                    gates,
                    public,
                    k,
                    8 + 2 * u,
                    CircuitError::ArithmeticOverflow(g as usize),
                );
            },
            None => {
                let before = transition_wires(inputs, updates, v);
                let (leaf, old_value, new_value) = updates[v];
                let base = 8 + 5 * v;
                assert(gates[k as int] == Gate::Mul(
                    base as usize,
                    (base + 1) as usize,
                    (base + 3) as usize,
                ));
                assert(gates[k as int + 1] == Gate::Add(
                    (base + 3) as usize,
                    (base + 2) as usize,
                    (base + 4) as usize,
                ));
                assert((base - 8) / 5 == v && (base - 8) % 5 == 0);
                assert((base + 1 - 8) / 5 == v && (base + 1 - 8) % 5 == 1);
                assert((base + 2 - 8) / 5 == v && (base + 2 - 8) % 5 == 2);
                assert(before[base] == Some(leaf));
                assert(before[base + 1] == Some(old_value));
                assert(before[base + 2] == Some(new_value));
                assert(gates_run(start, gates, public, k + 1) == gate_step(
                    before,
                    public,
                    gates[k as int],
                    k,
                ));
                if leaf * old_value > u64::MAX {
                    lemma_run_fails(
                        start,
                        gates,
                        public,
                        k + 1,
                        8 + 2 * u,
                        CircuitError::ArithmeticOverflow(k as usize),
                    );
                } else {
                    field::lemma_u64_product(leaf, old_value);
                    let product = (leaf * old_value) as u64;
                    let mid = before.update(base + 3, Some(product));
                    assert(gates_run(start, gates, public, k + 2) == gate_step(
                        mid,
                        public,
                        gates[k as int + 1],
                        k + 1,
                    ));
                    if leaf * old_value + new_value <= u64::MAX {
                        let after = mid.update(base + 4, Some((product + new_value) as u64));
                        let want = transition_wires(inputs, updates, u as int);
                        assert forall|i: int| 0 <= i < want.len() implies #[trigger] after[i]
                            == want[i] by {
                            if i != base + 3 && i != base + 4 && i >= 8 {
                                assert((i - 8) / 5 == v ==> (i - 8) % 5 < 3);
                            }
                        }
                        assert(after =~= want);
                    }
                }
            },
        }
    }
}

/// Public input gates leave the wires as they are.
proof fn lemma_transition_head(inputs: Seq<u64>, updates: Seq<(u64, u64, u64)>, k: nat)
    requires
        k <= 8,
    ensures
        gates_run(
            transition_wires(inputs, updates, 0),
            transition_gates(updates.len()),
            transition_public(),
            k,
        ) == Ok::<Seq<Option<u64>>, CircuitError>(transition_wires(inputs, updates, 0)),
    decreases k,
{
    if k > 0 {
        lemma_transition_head(inputs, updates, (k - 1) as nat);
        assert(transition_gates(updates.len())[k - 1] is PublicInput);
    }
}

/// Appends a 32-byte root as four little-endian limbs.
fn push_root_limbs(inputs: &mut Vec<u64>, root: &[u8; 32])
    ensures
        final(inputs)@ == old(inputs)@ + Seq::new(
            4,
            |i: int| encoding::le_value(root@.subrange(8 * i, 8 * i + 8)) as u64,
        ),
{
    let ghost before = inputs@;
    let bytes: &[u8] = root;
    let mut i: usize = 0;
    while i < 4
        invariant
            i <= 4,
            bytes@ == root@,
            bytes.len() == 32,
            inputs@ == before + Seq::new(
                i as nat,
                |i: int| encoding::le_value(root@.subrange(8 * i, 8 * i + 8)) as u64,
            ),
        decreases 4 - i,
    {
        inputs.push(read_u64(vstd::slice::slice_subrange(bytes, 8 * i, 8 * i + 8)));
        i = i + 1;
        assert(inputs@ =~= before + Seq::new(
            i as nat,
            |i: int| encoding::le_value(root@.subrange(8 * i, 8 * i + 8)) as u64,
        ));
    }
}

impl StateTransitionCircuit {
    /// Build a state transition verification circuit for `num_updates` leaf changes.
    pub fn build_state_transition_circuit(num_updates: usize) -> (c: Circuit)
        requires
            8 + 5 * num_updates <= usize::MAX,
        ensures
            c.gates@ == transition_gates(num_updates as nat),
            c.wires.len() == 8 + 5 * num_updates,
            c.public_inputs@ == transition_public(),
            c.name@ == "state-transition-verification"@,
            c.constraints == constraint_count(c.gates@),
            c.id@ == circuit_id(c.name@, c.gates@, c.wires.len() as nat),
            outputs_below(c.gates@, c.wires.len() as int),
            outputs_once(c.gates@, c.public_inputs@),
    {
        let mut builder: CircuitBuilder = CircuitBuilder::new("state-transition-verification");
        let mut i: usize = 0;
        while i < 8
            invariant
                i <= 8,
                builder.circuit_name() == "state-transition-verification"@,
                builder.wires_allocated() == i,
                builder.sound(),
                builder.gate_list() == Seq::new(i as nat, |k: int| Gate::PublicInput(k as usize)),
                builder.public_list() == Seq::new(i as nat, |k: int| k as usize),
            decreases 8 - i,
        {
            let _root_limb: usize = builder.add_public_input();
            i = i + 1;
            assert(builder.gate_list() =~= Seq::new(
                i as nat,
                |k: int| Gate::PublicInput(k as usize),
            ));
            assert(builder.public_list() =~= Seq::new(i as nat, |k: int| k as usize));
        }
        let mut u: usize = 0;
        assert(builder.gate_list() =~= transition_gates(0));
        assert(builder.public_list() =~= transition_public());
        while u < num_updates
            invariant
                u <= num_updates,
                8 + 5 * num_updates <= usize::MAX,
                builder.circuit_name() == "state-transition-verification"@,
                builder.wires_allocated() == 8 + 5 * u,
                builder.sound(),
                builder.gate_list() == transition_gates(u as nat),
                builder.public_list() == transition_public(),
            decreases num_updates - u,
        {
            let leaf_idx: usize = builder.add_private_input();
            let old_val: usize = builder.add_private_input();
            let new_val: usize = builder.add_private_input();
            let update_hash: usize = builder.mul(leaf_idx, old_val);
            let _chained: usize = builder.add(update_hash, new_val);
            u = u + 1;
            proof {
                let want = transition_gates(u as nat);
                let k = 8 + 2 * (u - 1);
                assert(want[k] == Gate::Mul(leaf_idx, old_val, update_hash));
                assert(want[k + 1] == Gate::Add(update_hash, new_val, _chained));
                assert(builder.gate_list() =~= want);
            }
        }
        builder.build()
    }

    /// Verify a state transition.
    ///
    /// `old_root` and `new_root` are state roots; `updates` are (leaf_index, old_value, new_value)
    /// tuples, none of which may overflow. Without an update the roots must be equal. How an update
    /// changes a root depends on the leaves that it leaves alone, which the circuit does not see.
    pub fn verify_transition(
        old_root: &[u8; 32],
        new_root: &[u8; 32],
        updates: &[(u64, u64, u64)],
    ) -> (r: Result<bool, CircuitError>)
        requires
            8 + 5 * updates.len() <= usize::MAX,
        ensures
            match overflow_gate(updates@, updates.len() as nat) {
                None => r == Ok::<bool, CircuitError>(updates.len() > 0 || old_root@ == new_root@),
                Some(g) => r == Err::<bool, CircuitError>(
                    CircuitError::ArithmeticOverflow(g as usize),
                ),
            },
    {
        let circuit: Circuit = Self::build_state_transition_circuit(updates.len());
        let mut inputs: Vec<u64> = Vec::new();
        push_root_limbs(&mut inputs, old_root);
        push_root_limbs(&mut inputs, new_root);
        let ghost want = transition_inputs(old_root@, new_root@, updates@);
        let mut u: usize = 0;
        assert(inputs@ =~= want.take(8));
        while u < updates.len()
            invariant
                u <= updates.len(),
                want == transition_inputs(old_root@, new_root@, updates@),
                inputs@ == want.take(8 + 3 * u),
            decreases updates.len() - u,
        {
            let (leaf_idx, old_val, new_val) = updates[u];
            inputs.push(leaf_idx);
            inputs.push(old_val);
            inputs.push(new_val);
            proof {
                let b = 3 * u;
                assert(b / 3 == u && b % 3 == 0);
                assert((b + 1) / 3 == u && (b + 1) % 3 == 1);
                assert((b + 2) / 3 == u && (b + 2) % 3 == 2);
                assert(want[8 + b] == leaf_idx);
                assert(want[8 + b + 1] == old_val);
                assert(want[8 + b + 2] == new_val);
                assert(inputs@ =~= want.take(8 + 3 * (u + 1)));
            }
            u = u + 1;
        }
        proof {
            assert(inputs@ =~= want);
            lemma_transition_start(old_root@, new_root@, updates@);
            lemma_transition_run(want, updates@, updates.len() as nat);
        }
        match CircuitEvaluator::evaluate(&circuit, &inputs) {
            Ok(witness) => {
                let holds: bool = CircuitEvaluator::verify_constraints(&circuit, &witness);
                Ok(holds && (updates.len() > 0 || bytes_eq(old_root, new_root)))
            },
            Err(e) => Err(e),
        }
    }
}

// ---------------------------------------------------------------------------
// What an identifier binds
// ---------------------------------------------------------------------------

proof fn lemma_three_words(
    a: usize,
    b: usize,
    c: usize,
    x: Seq<u8>,
    d: usize,
    e: usize,
    f: usize,
    y: Seq<u8>,
    tag: u8,
)
    requires
        seq![tag] + encoding::le_bytes(a as nat, 8) + encoding::le_bytes(b as nat, 8)
            + encoding::le_bytes(c as nat, 8) + x == seq![tag] + encoding::le_bytes(d as nat, 8)
            + encoding::le_bytes(e as nat, 8) + encoding::le_bytes(f as nat, 8) + y,
    ensures
        a == d,
        b == e,
        c == f,
        x == y,
{
    encoding::law_le_u64_injective(a as u64, d as u64);
    encoding::law_le_u64_injective(b as u64, e as u64);
    encoding::law_le_u64_injective(c as u64, f as u64);
    let la = seq![tag] + encoding::le_bytes(a as nat, 8);
    let ld = seq![tag] + encoding::le_bytes(d as nat, 8);
    let lb = encoding::le_bytes(b as nat, 8);
    let le = encoding::le_bytes(e as nat, 8);
    let lc = encoding::le_bytes(c as nat, 8);
    let lf = encoding::le_bytes(f as nat, 8);
    encoding::lemma_split(la + lb + lc, x, ld + le + lf, y);
    encoding::lemma_split(la + lb, lc, ld + le, lf);
    encoding::lemma_split(la, lb, ld, le);
    encoding::lemma_split(
        seq![tag],
        encoding::le_bytes(a as nat, 8),
        seq![tag],
        encoding::le_bytes(d as nat, 8),
    );
}

proof fn lemma_two_words(i: usize, v: u64, x: Seq<u8>, j: usize, w: u64, y: Seq<u8>, tag: u8)
    requires
        seq![tag] + encoding::le_bytes(i as nat, 8) + encoding::le_bytes(v as nat, 8) + x
            == seq![tag] + encoding::le_bytes(j as nat, 8) + encoding::le_bytes(w as nat, 8) + y,
    ensures
        i == j,
        v == w,
        x == y,
{
    encoding::law_le_u64_injective(i as u64, j as u64);
    encoding::law_le_u64_injective(v, w);
    let li = seq![tag] + encoding::le_bytes(i as nat, 8);
    let lj = seq![tag] + encoding::le_bytes(j as nat, 8);
    let lv = encoding::le_bytes(v as nat, 8);
    let lw = encoding::le_bytes(w as nat, 8);
    encoding::lemma_split(li + lv, x, lj + lw, y);
    encoding::lemma_split(li, lv, lj, lw);
    encoding::lemma_split(
        seq![tag],
        encoding::le_bytes(i as nat, 8),
        seq![tag],
        encoding::le_bytes(j as nat, 8),
    );
}

/// The bytes of a gate belong to that gate alone, whatever follows them.
pub proof fn law_gate_bytes_are_prefix_free(g: Gate, x: Seq<u8>, h: Gate, y: Seq<u8>)
    requires
        gate_bytes(g) + x == gate_bytes(h) + y,
    ensures
        g == h,
        x == y,
{
    assert(gate_bytes(g)[0] == (gate_bytes(g) + x)[0]);
    assert(gate_bytes(h)[0] == (gate_bytes(h) + y)[0]);
    match (g, h) {
        (Gate::Add(a, b, c), Gate::Add(d, e, f)) => {
            lemma_three_words(a, b, c, x, d, e, f, y, 0);
        },
        (Gate::Mul(a, b, c), Gate::Mul(d, e, f)) => {
            lemma_three_words(a, b, c, x, d, e, f, y, 1);
        },
        (Gate::Const(i, v), Gate::Const(j, w)) => {
            lemma_two_words(i, v, x, j, w, y, 2);
        },
        (Gate::Assert(i, v), Gate::Assert(j, w)) => {
            lemma_two_words(i, v, x, j, w, y, 4);
        },
        (Gate::PublicInput(i), Gate::PublicInput(j)) => {
            encoding::law_le_u64_injective(i as u64, j as u64);
            let li = encoding::le_bytes(i as nat, 8);
            let lj = encoding::le_bytes(j as nat, 8);
            encoding::lemma_split(seq![3u8] + li, x, seq![3u8] + lj, y);
            encoding::lemma_split(seq![3u8], li, seq![3u8], lj);
        },
        _ => {},
    }
}

proof fn lemma_gates_bytes_split(a: Seq<Gate>, x: Seq<u8>, b: Seq<Gate>, y: Seq<u8>, n: nat)
    requires
        n <= a.len(),
        n <= b.len(),
        gates_bytes(a, n) + x == gates_bytes(b, n) + y,
    ensures
        forall|i: int| 0 <= i < n ==> a[i] == b[i],
        x == y,
    decreases n,
{
    if n > 0 {
        let m = (n - 1) as nat;
        let number = encoding::le_bytes(m, 8);
        let xs = gate_bytes(a[m as int]) + x;
        let ys = gate_bytes(b[m as int]) + y;
        assert(gates_bytes(a, n) + x =~= gates_bytes(a, m) + (number + xs));
        assert(gates_bytes(b, n) + y =~= gates_bytes(b, m) + (number + ys));
        lemma_gates_bytes_split(a, number + xs, b, number + ys, m);
        encoding::lemma_split(number, xs, number, ys);
        law_gate_bytes_are_prefix_free(a[m as int], x, b[m as int], y);
    } else {
        assert(Seq::<u8>::empty() + x =~= x);
        assert(Seq::<u8>::empty() + y =~= y);
    }
}

/// The identifier of a circuit belongs to one number of wires and one list of gates, each with all
/// its wires and values, and, among names of one length, to one name, unless the digests of what is
/// hashed collide.
pub proof fn law_identifiers_bind_circuits(
    name_a: Seq<char>,
    gates_a: Seq<Gate>,
    wires_a: nat,
    name_b: Seq<char>,
    gates_b: Seq<Gate>,
    wires_b: nat,
)
    requires
        encoding::text_bytes(name_a).len() == encoding::text_bytes(name_b).len(),
        gates_a.len() <= u64::MAX,
        gates_b.len() <= u64::MAX,
        wires_a <= u64::MAX,
        wires_b <= u64::MAX,
        circuit_id(name_a, gates_a, wires_a) == circuit_id(name_b, gates_b, wires_b),
    ensures
        (name_a == name_b && gates_a == gates_b && wires_a == wires_b) || hash::collides(
            circuit_bytes(name_a, gates_a, wires_a),
            circuit_bytes(name_b, gates_b, wires_b),
        ),
{
    if circuit_bytes(name_a, gates_a, wires_a) == circuit_bytes(name_b, gates_b, wires_b) {
        encoding::law_le_u64_injective(gates_a.len() as u64, gates_b.len() as u64);
        encoding::law_le_u64_injective(wires_a as u64, wires_b as u64);
        let label = encoding::text_bytes("arc-circuit-id"@);
        let na = encoding::text_bytes(name_a);
        let nb = encoding::text_bytes(name_b);
        let ca = encoding::le_bytes(gates_a.len(), 8);
        let cb = encoding::le_bytes(gates_b.len(), 8);
        let wa = encoding::le_bytes(wires_a, 8);
        let wb = encoding::le_bytes(wires_b, 8);
        let ga = gates_bytes(gates_a, gates_a.len());
        let gb = gates_bytes(gates_b, gates_b.len());
        encoding::lemma_split(label + na + ca + wa, ga, label + nb + cb + wb, gb);
        encoding::lemma_split(label + na + ca, wa, label + nb + cb, wb);
        encoding::lemma_split(label + na, ca, label + nb, cb);
        encoding::lemma_split(label, na, label, nb);
        encoding::law_text_bytes_injective(name_a, name_b);
        lemma_gates_bytes_split(
            gates_a,
            Seq::empty(),
            gates_b,
            Seq::empty(),
            gates_a.len(),
        );
        assert(gates_a =~= gates_b);
    }
}

/// The constraints of two lists of gates add up: each multiplication and each assertion counts one.
pub proof fn law_constraints_add_up(a: Seq<Gate>, b: Seq<Gate>)
    ensures
        constraint_count(a + b) == constraint_count(a) + constraint_count(b),
        forall|g: Gate|
            #[trigger] constraint_count(seq![g]) == if g is Mul || g is Assert {
                1nat
            } else {
                0nat
            },
    decreases b.len(),
{
    if b.len() == 0 {
        assert(a + b =~= a);
    } else {
        law_constraints_add_up(a, b.drop_last());
        assert((a + b).drop_last() =~= a + b.drop_last());
    }
    assert forall|g: Gate| #[trigger] constraint_count(seq![g]) == if g is Mul || g is Assert {
        1nat
    } else {
        0nat
    } by {
        assert(seq![g].drop_last() =~= Seq::<Gate>::empty());
        assert(constraint_count(seq![g].drop_last()) == 0);
    }
}

/// A state transition overflows nowhere exactly where, for every update, the product of the leaf
/// index and the old value, and its sum with the new value, are 64-bit numbers.
pub proof fn law_transitions_overflow_where_an_update_does(
    updates: Seq<(u64, u64, u64)>,
    n: nat,
)
    requires
        n <= updates.len(),
    ensures
        overflow_gate(updates, n) is None <==> forall|u: int|
            0 <= u < n ==> #[trigger] updates[u].0 * updates[u].1 + updates[u].2 <= u64::MAX,
        overflow_gate(updates, n) matches Some(g) ==> exists|u: int|
            {
                &&& 0 <= u < n
                &&& g == 8 + 2 * u || g == 9 + 2 * u
                &&& #[trigger] updates[u].0 * updates[u].1 + updates[u].2 > u64::MAX
                &&& forall|v: int|
                    0 <= v < u ==> #[trigger] updates[v].0 * updates[v].1 + updates[v].2 <= u64::MAX
            },
    decreases n,
{
    if n > 0 {
        let m = (n - 1) as nat;
        law_transitions_overflow_where_an_update_does(updates, m);
        let (leaf, old_value, new_value) = updates[n - 1];
        assert(leaf * old_value >= 0) by (nonlinear_arith);
        match overflow_gate(updates, m) {
            Some(g) => {
                let u = choose|u: int|
                    {
                        &&& 0 <= u < m
                        &&& g == 8 + 2 * u || g == 9 + 2 * u
                        &&& #[trigger] updates[u].0 * updates[u].1 + updates[u].2 > u64::MAX
                        &&& forall|v: int|
                            0 <= v < u ==> #[trigger] updates[v].0 * updates[v].1 + updates[v].2
                                <= u64::MAX
                    };
                assert(updates[u].0 * updates[u].1 + updates[u].2 > u64::MAX);
            },
            None => {
                assert(updates[n - 1].0 * updates[n - 1].1 + updates[n - 1].2 == leaf * old_value
                    + new_value);
            },
        }
    }
}

// ---------------------------------------------------------------------------
// Where inputs go
// ---------------------------------------------------------------------------

proof fn lemma_step_keeps(
    values: Seq<Option<u64>>,
    public: Seq<usize>,
    g: Gate,
    index: nat,
    i: int,
)
    requires
        gate_step(values, public, g, index) is Ok,
        0 <= i < values.len(),
        output(g) == Some(i) ==> is_listed(public, i) && values[i] is Some,
    ensures
        gate_step(values, public, g, index)->Ok_0.len() == values.len(),
        gate_step(values, public, g, index)->Ok_0[i] == values[i],
{
}

proof fn lemma_run_keeps(
    values: Seq<Option<u64>>,
    gates: Seq<Gate>,
    public: Seq<usize>,
    k: nat,
    i: int,
)
    requires
        k <= gates.len(),
        gates_run(values, gates, public, k) is Ok,
        0 <= i < values.len(),
        !is_produced(gates, i) || (is_listed(public, i) && values[i] is Some),
    ensures
        gates_run(values, gates, public, k)->Ok_0.len() == values.len(),
        gates_run(values, gates, public, k)->Ok_0[i] == values[i],
    decreases k,
{
    if k > 0 {
        lemma_run_keeps(values, gates, public, (k - 1) as nat, i);
        let before = gates_run(values, gates, public, (k - 1) as nat)->Ok_0;
        let g = gates[k - 1];
        if output(g) == Some(i) {
            assert(is_produced(gates, i));
        }
        lemma_step_keeps(before, public, g, (k - 1) as nat, i);
    }
}

proof fn lemma_public_values(
    public: Seq<usize>,
    inputs: Seq<u64>,
    wire_count: nat,
    k: nat,
)
    requires
        k <= public.len(),
        public.no_duplicates(),
        public_assignment(public, inputs, wire_count, k) is Ok,
    ensures
        public_assignment(public, inputs, wire_count, k)->Ok_0.0.len() == wire_count,
        public_assignment(public, inputs, wire_count, k)->Ok_0.1 == k,
        k <= inputs.len(),
        forall|j: int|
            0 <= j < k ==> (#[trigger] public[j]) < wire_count && public_assignment(
                public,
                inputs,
                wire_count,
                k,
            )->Ok_0.0[public[j] as int] == Some(inputs[j]),
    decreases k,
{
    if k > 0 {
        lemma_public_values(public, inputs, wire_count, (k - 1) as nat);
        let after = public_assignment(public, inputs, wire_count, k)->Ok_0.0;
        assert forall|j: int| 0 <= j < k implies (#[trigger] public[j]) < wire_count
            && after[public[j] as int] == Some(inputs[j]) by {
            if j < k - 1 {
                assert(public[j] != public[k - 1]);
            }
        }
    }
}

/// Evaluation gives every input to its own wire: the first ones to the public inputs, in the order
/// of their list, and the next ones to the wires that are neither public nor computed, in the order
/// of the wires.
pub proof fn law_inputs_reach_their_wires(
    gates: Seq<Gate>,
    public: Seq<usize>,
    wire_count: nat,
    inputs: Seq<u64>,
    witness: Seq<u64>,
)
    requires
        public.no_duplicates(),
        evaluated(gates, public, wire_count, inputs) == Ok::<Seq<u64>, CircuitError>(witness),
    ensures
        witness.len() == wire_count,
        public.len() <= inputs.len(),
        forall|j: int|
            0 <= j < public.len() ==> (#[trigger] public[j]) < wire_count
                && witness[public[j] as int] == inputs[j],
        forall|i: int|
            0 <= i < wire_count && !is_listed(public, i) && !is_produced(gates, i)
                ==> #[trigger] witness[i] == {
                let at = public.len() + free_below(gates, public, i as nat);
                if at < inputs.len() {
                    inputs[at as int]
                } else {
                    0
                }
            },
{
    let (assigned, used) = public_assignment(public, inputs, wire_count, public.len())->Ok_0;
    let values = private_assignment(gates, inputs, assigned, used);
    let after = gates_run(values, gates, public, gates.len())->Ok_0;
    lemma_public_values(public, inputs, wire_count, public.len());
    lemma_public_waits(public, inputs, wire_count, public.len());
    lemma_run_len(values, gates, public, gates.len());
    assert forall|j: int| 0 <= j < public.len() implies (#[trigger] public[j]) < wire_count
        && witness[public[j] as int] == inputs[j] by {
        let i = public[j] as int;
        assert(assigned[i] == Some(inputs[j]));
        assert(is_listed(public, i));
        lemma_run_keeps(values, gates, public, gates.len(), i);
    }
    assert forall|i: int|
        0 <= i < wire_count && !is_listed(public, i) && !is_produced(
            gates,
            i,
        ) implies #[trigger] witness[i] == {
        let at = public.len() + free_below(gates, public, i as nat);
        if at < inputs.len() {
            inputs[at as int]
        } else {
            0
        }
    } by {
        lemma_run_keeps(values, gates, public, gates.len(), i);
        lemma_free_is_open(gates, public, assigned, i as nat);
        assert(assigned[i] is None);
    }
}

/// The number of wires below `i` that are neither public nor computed.
pub open spec fn free_below(gates: Seq<Gate>, public: Seq<usize>, i: nat) -> nat
    decreases i,
{
    if i == 0 {
        0
    } else {
        free_below(gates, public, (i - 1) as nat) + if !is_listed(public, i - 1) && !is_produced(
            gates,
            i - 1,
        ) {
            1nat
        } else {
            0nat
        }
    }
}

proof fn lemma_free_is_open(
    gates: Seq<Gate>,
    public: Seq<usize>,
    assigned: Seq<Option<u64>>,
    i: nat,
)
    requires
        i <= assigned.len(),
        forall|k: int| 0 <= k < public.len() ==> has_value(assigned, #[trigger] public[k]),
        forall|k: int|
            0 <= k < assigned.len() && !is_listed(public, k) ==> #[trigger] assigned[k] is None,
    ensures
        open_below(gates, assigned, i) == free_below(gates, public, i),
    decreases i,
{
    if i > 0 {
        lemma_free_is_open(gates, public, assigned, (i - 1) as nat);
        let w = i - 1;
        if is_listed(public, w) {
            let k = choose|k: int| 0 <= k < public.len() && #[trigger] public[k] == w;
            assert(has_value(assigned, public[k]));
        } else {
            assert(assigned[w] is None);
        }
    }
}

proof fn lemma_run_len(
    values: Seq<Option<u64>>,
    gates: Seq<Gate>,
    public: Seq<usize>,
    k: nat,
)
    requires
        k <= gates.len(),
        gates_run(values, gates, public, k) is Ok,
    ensures
        gates_run(values, gates, public, k)->Ok_0.len() == values.len(),
    decreases k,
{
    if k > 0 {
        lemma_run_len(values, gates, public, (k - 1) as nat);
    }
}

/// Whether a witness holds the right product and the right sum for an update.
pub open spec fn update_holds(w: Seq<u64>, u: int) -> bool {
    &&& w[8 + 5 * u] * w[9 + 5 * u] == w[11 + 5 * u]
    &&& w[11 + 5 * u] + w[10 + 5 * u] == w[12 + 5 * u]
}

proof fn lemma_transition_gates(n: nat, u: int)
    requires
        0 <= u < n,
    ensures
        transition_gates(n)[8 + 2 * u] == Gate::Mul(
            (8 + 5 * u) as usize,
            (9 + 5 * u) as usize,
            (11 + 5 * u) as usize,
        ),
        transition_gates(n)[9 + 2 * u] == Gate::Add(
            (11 + 5 * u) as usize,
            (10 + 5 * u) as usize,
            (12 + 5 * u) as usize,
        ),
{
    assert((8 + 2 * u - 8) / 2 == u && (8 + 2 * u) % 2 == 0);
    assert((9 + 2 * u - 9) / 2 == u && (9 + 2 * u) % 2 == 1);
}

/// The witnesses that meet the constraints of the state transition circuit are those in which, for
/// every update, the product of its first two wires and the sum with its third are right.
pub proof fn law_transition_constraints_bind_updates(n: nat, w: Seq<u64>)
    requires
        w.len() >= 8 + 5 * n,
        8 + 5 * n <= usize::MAX,
    ensures
        gates_hold(transition_gates(n), w, transition_gates(n).len() as int) <==> forall|u: int|
            0 <= u < n ==> #[trigger] update_holds(w, u),
{
    let gates = transition_gates(n);
    if gates_hold(gates, w, gates.len() as int) {
        assert forall|u: int| 0 <= u < n implies #[trigger] update_holds(w, u) by {
            lemma_transition_gates(n, u);
            assert(gate_holds(gates[8 + 2 * u], w));
            assert(gate_holds(gates[9 + 2 * u], w));
        }
    }
    if forall|u: int| 0 <= u < n ==> #[trigger] update_holds(w, u) {
        assert forall|j: int| 0 <= j < gates.len() implies gate_holds(#[trigger] gates[j], w) by {
            if j >= 8 {
                let u = (j - 8) / 2;
                lemma_transition_gates(n, u);
                assert(update_holds(w, u));
                if j % 2 == 0 {
                    assert(j == 8 + 2 * u);
                } else {
                    assert(j == 9 + 2 * u);
                }
            }
        }
    }
}

/// The inputs of a transition spell the old root in the first four numbers and the new root in the
/// next four, eight bytes each; then come the updates, three numbers each.
pub proof fn law_transition_inputs_spell_roots_and_updates(
    old_root: Seq<u8>,
    new_root: Seq<u8>,
    updates: Seq<(u64, u64, u64)>,
    i: int,
    u: int,
)
    requires
        old_root.len() == 32,
        new_root.len() == 32,
        0 <= i < 4,
        0 <= u < updates.len(),
    ensures
        ({
            let inputs = transition_inputs(old_root, new_root, updates);
            &&& inputs.len() == 8 + 3 * updates.len()
            &&& encoding::le_bytes(inputs[i] as nat, 8) == old_root.subrange(8 * i, 8 * i + 8)
            &&& encoding::le_bytes(inputs[4 + i] as nat, 8) == new_root.subrange(8 * i, 8 * i + 8)
            &&& (inputs[8 + 3 * u], inputs[9 + 3 * u], inputs[10 + 3 * u]) == updates[u]
        }),
{
    let a = old_root.subrange(8 * i, 8 * i + 8);
    let b = new_root.subrange(8 * i, 8 * i + 8);
    encoding::lemma_le_value(a);
    encoding::lemma_le_value_u64(a);
    encoding::lemma_le_value(b);
    encoding::lemma_le_value_u64(b);
    assert((8 + 3 * u - 8) / 3 == u && (9 + 3 * u - 8) / 3 == u && (10 + 3 * u - 8) / 3 == u);
}

/// Evaluation asks for every public input: where there are fewer inputs than public wires, it fails
/// and names the first wire that has none.
pub proof fn law_missing_public_inputs_are_reported(
    gates: Seq<Gate>,
    public: Seq<usize>,
    wire_count: nat,
    inputs: Seq<u64>,
)
    requires
        inputs.len() < public.len(),
        forall|i: int| 0 <= i < public.len() ==> (#[trigger] public[i]) < wire_count,
    ensures
        evaluated(gates, public, wire_count, inputs) == Err::<Seq<u64>, CircuitError>(
            CircuitError::MissingInput(public[inputs.len() as int]),
        ),
{
    let n = inputs.len();
    lemma_all_used(public, inputs, wire_count, n);
    assert(public_assignment(public, inputs, wire_count, n + 1) == Err::<
        (Seq<Option<u64>>, nat),
        CircuitError,
    >(CircuitError::MissingInput(public[n as int])));
    lemma_assignment_fails(
        public,
        inputs,
        wire_count,
        n + 1,
        public.len(),
        CircuitError::MissingInput(public[n as int]),
    );
}

proof fn lemma_all_used(public: Seq<usize>, inputs: Seq<u64>, wire_count: nat, k: nat)
    requires
        k <= inputs.len(),
        k <= public.len(),
        forall|i: int| 0 <= i < public.len() ==> (#[trigger] public[i]) < wire_count,
    ensures
        public_assignment(public, inputs, wire_count, k) is Ok,
        public_assignment(public, inputs, wire_count, k)->Ok_0.1 == k,
    decreases k,
{
    if k > 0 {
        lemma_all_used(public, inputs, wire_count, (k - 1) as nat);
    }
}

/// A gate is evaluated where its wires exist and what it reads is known: an addition gives the sum, a
/// multiplication the product, or an overflow at that gate.
pub proof fn law_gates_compute(
    values: Seq<Option<u64>>,
    public: Seq<usize>,
    a: usize,
    b: usize,
    out: usize,
    index: nat,
)
    requires
        a < values.len(),
        b < values.len(),
        out < values.len(),
        index <= usize::MAX,
        values[a as int] is Some,
        values[b as int] is Some,
        !is_listed(public, out as int),
    ensures
        ({
            let x = values[a as int]->0;
            let y = values[b as int]->0;
            let sum = gate_step(values, public, Gate::Add(a, b, out), index);
            let product = gate_step(values, public, Gate::Mul(a, b, out), index);
            &&& sum == if x + y <= u64::MAX {
                Ok(values.update(out as int, Some((x + y) as u64)))
            } else {
                Err(CircuitError::ArithmeticOverflow(index as usize))
            }
            &&& product == if x * y <= u64::MAX {
                Ok(values.update(out as int, Some((x * y) as u64)))
            } else {
                Err(CircuitError::ArithmeticOverflow(index as usize))
            }
        }),
{
}

/// A wire with another value than it must have is reported, with the index, the expected value and the
/// one found: under an assertion, and where a result meets a public wire.
pub proof fn law_violations_are_reported(
    values: Seq<Option<u64>>,
    public: Seq<usize>,
    i: usize,
    want: u64,
    index: nat,
)
    requires
        i < values.len(),
        index <= usize::MAX,
        values[i as int] is Some,
    ensures
        ({
            let got = values[i as int]->0;
            let violation = CircuitError::ConstraintViolation {
                index: index as usize,
                expected: want,
                got,
            };
            let asserted = gate_step(values, public, Gate::Assert(i, want), index);
            let stored = gate_step(values, public, Gate::Const(i, want), index);
            &&& asserted == if got == want {
                Ok(values)
            } else {
                Err(violation)
            }
            &&& stored == if is_listed(public, i as int) && got != want {
                Err(violation)
            } else {
                Ok(values.update(i as int, Some(want)))
            }
        }),
{
}

/// A witness meets the gates exactly where every sum, product, constant and assertion among them is
/// right; each gate is read only where its wires are there.
pub proof fn law_met_gates(gates: Seq<Gate>, w: Seq<u64>)
    ensures
        gates_hold(gates, w, gates.len() as int) <==> forall|k: int|
            0 <= k < gates.len() ==> match #[trigger] gates[k] {
                Gate::PublicInput(_) => true,
                Gate::Const(i, v) => w[i as int] == v,
                Gate::Assert(i, v) => w[i as int] == v,
                Gate::Add(a, b, c) => w[c as int] - w[b as int] == w[a as int],
                Gate::Mul(a, b, c) => w[c as int] == w[b as int] * w[a as int],
            },
        forall|i: usize, v: u64|
            #[trigger] gate_readable(Gate::Const(i, v), w) <==> i < w.len(),
        forall|i: usize, v: u64|
            #[trigger] gate_readable(Gate::Assert(i, v), w) <==> i < w.len(),
        forall|a: usize, b: usize, c: usize|
            #[trigger] gate_readable(Gate::Add(a, b, c), w) ==> a < w.len() && b < w.len(),
        forall|a: usize, b: usize, c: usize|
            #[trigger] gate_readable(Gate::Mul(a, b, c), w) ==> a < w.len() && b < w.len(),
        forall|a: usize, b: usize, c: usize|
            a < w.len() && b < w.len() && c < w.len() ==> #[trigger] gate_readable(
                Gate::Add(a, b, c),
                w,
            ) && gate_readable(Gate::Mul(a, b, c), w),
{
    assert forall|k: int| 0 <= k < gates.len() implies (gate_holds(#[trigger] gates[k], w) <==> match gates[k] {
        Gate::PublicInput(_) => true,
        Gate::Const(i, v) => w[i as int] == v,
        Gate::Assert(i, v) => w[i as int] == v,
        Gate::Add(a, b, c) => w[c as int] - w[b as int] == w[a as int],
        Gate::Mul(a, b, c) => w[c as int] == w[b as int] * w[a as int],
    }) by {
        if let Gate::Mul(a, b, c) = gates[k] {
            let x = w[a as int] as int;
            let y = w[b as int] as int;
            assert(x * y == y * x) by (nonlinear_arith);
        }
    }
}

/// A wire that is not there is named with the number of wires, and so is one without a value: the two
/// that are read first, in their order.
pub proof fn law_missing_wires_are_named(
    values: Seq<Option<u64>>,
    public: Seq<usize>,
    a: usize,
    b: usize,
    out: usize,
    index: nat,
)
    requires
        values.len() <= usize::MAX,
    ensures
        ({
            let n = values.len();
            let sum = gate_step(values, public, Gate::Add(a, b, out), index);
            let product = gate_step(values, public, Gate::Mul(a, b, out), index);
            let missing = if a >= n {
                Some(CircuitError::InvalidWire(a, n as usize))
            } else if b >= n {
                Some(CircuitError::InvalidWire(b, n as usize))
            } else if out >= n {
                Some(CircuitError::InvalidWire(out, n as usize))
            } else if values[a as int] is None {
                Some(CircuitError::MissingInput(a))
            } else if values[b as int] is None {
                Some(CircuitError::MissingInput(b))
            } else {
                None
            };
            &&& missing is Some ==> sum == Err::<Seq<Option<u64>>, CircuitError>(missing->0)
            &&& missing is Some ==> product == Err::<Seq<Option<u64>>, CircuitError>(missing->0)
            &&& a >= n ==> gate_step(values, public, Gate::PublicInput(a), index) == Err::<
                Seq<Option<u64>>,
                CircuitError,
            >(CircuitError::InvalidWire(a, n as usize))
            &&& a >= n ==> gate_step(values, public, Gate::Const(a, 0), index) == Err::<
                Seq<Option<u64>>,
                CircuitError,
            >(CircuitError::InvalidWire(a, n as usize))
            &&& a >= n ==> gate_step(values, public, Gate::Assert(a, 0), index) == Err::<
                Seq<Option<u64>>,
                CircuitError,
            >(CircuitError::InvalidWire(a, n as usize))
            &&& a < n && values[a as int] is None ==> gate_step(
                values,
                public,
                Gate::Assert(a, 0),
                index,
            ) == Err::<Seq<Option<u64>>, CircuitError>(CircuitError::MissingInput(a))
            &&& a < n ==> gate_step(values, public, Gate::PublicInput(a), index) == Ok::<
                Seq<Option<u64>>,
                CircuitError,
            >(values)
        }),
{
}

} // verus!
