use vstd::prelude::*;
use vstd::std_specs::bits::u64_trailing_zeros;
use crate::field::{fadd, fmul, values, Scalar};

verus! {

/// The operation of a gate.
#[derive(Clone, Copy, PartialEq, Eq, Structural, Debug)]
pub enum GateType {
    Add,
    Mul,
}

/// A gate: its operation and the labels of its two inputs in the layer below.
#[derive(Clone, Copy, PartialEq, Debug)]
pub struct Gate {
    pub g_type: GateType,
    pub inputs: [usize; 2],
}

impl Gate {
    pub fn new(g_type: GateType, inputs: [usize; 2]) -> (r: Self)
        ensures
            r.g_type == g_type,
            r.inputs@ == inputs@,
    {
        Gate { g_type, inputs }
    }
}

/// A layer of gates in the circuit.
#[derive(Clone, Debug)]
pub struct CircuitLayer {
    pub layer: Vec<Gate>,
}

impl CircuitLayer {
    /// Create a new `CircuitLayer`.
    pub fn new(layer: Vec<Gate>) -> (r: Self)
        ensures
            r.layer@ == layer@,
    {
        Self { layer }
    }

    /// The number of gates in the layer.
    pub fn len(&self) -> (r: usize)
        ensures
            r == self.layer@.len(),
    {
        self.layer.len()
    }

    pub fn is_empty(&self) -> (r: bool)
        ensures
            r == (self.layer@.len() == 0),
    {
        self.layer.len() == 0
    }
}

/// The values of every layer of a circuit on one input.
#[derive(Debug)]
pub struct CircuitEvaluation<F> {
    /// Evaluations on per-layer basis, output layer first, input last.
    pub layers: Vec<Vec<F>>,
}

impl<F: Copy> CircuitEvaluation<F> {
    /// The value of gate `label` at layer `layer`.
    pub fn w(&self, layer: usize, label: usize) -> (r: F)
        requires
            layer < self.layers@.len(),
            label < self.layers@[layer as int]@.len(),
        ensures
            r == self.layers@[layer as int]@[label as int],
    {
        self.layers[layer][label]
    }
}

/// The value of gate `g` on the values `below` of the layer beneath it.
pub open spec fn gate_value(g: Gate, below: Seq<int>) -> int {
    match g.g_type {
        GateType::Add => fadd(below[g.inputs@[0] as int], below[g.inputs@[1] as int]),
        GateType::Mul => fmul(below[g.inputs@[0] as int], below[g.inputs@[1] as int]),
    }
}

/// The values of a layer of gates on the values of the layer beneath it.
pub open spec fn layer_values(gates: Seq<Gate>, below: Seq<int>) -> Seq<int> {
    Seq::new(gates.len(), |g: int| gate_value(gates[g], below))
}

/// The values of layer `layers.len() - k` of the circuit: the input for `k == 0`,
/// otherwise the `k`-th layer counted from the input.
pub open spec fn values_from_input(layers: Seq<CircuitLayer>, input: Seq<int>, k: nat) -> Seq<int>
    decreases k,
{
    if k == 0 || k > layers.len() {
        input
    } else {
        layer_values(
            layers[layers.len() - k].layer@,
            values_from_input(layers, input, (k - 1) as nat),
        )
    }
}

/// The number of values of layer `l`: its gates, or the inputs below the last layer.
pub open spec fn layer_width(c: Circuit, l: int) -> int {
    if l < c.layers@.len() {
        c.layers@[l].layer@.len() as int
    } else {
        c.num_inputs as int
    }
}

/// The circuit in layered form.
#[derive(Clone, Debug)]
pub struct Circuit {
    /// First layer being the output layer, last layer being
    /// the input layer.
    pub layers: Vec<CircuitLayer>,
    /// Number of inputs
    pub num_inputs: usize,
}

impl Circuit {
    /// Every gate reads labels that exist in the layer beneath it.
    pub open spec fn wired(&self) -> bool {
        forall|l: int, g: int|
            0 <= l < self.layers@.len() && 0 <= g < self.layers@[l].layer@.len() ==> {
                let gate = #[trigger] self.layers@[l].layer@[g];
                &&& gate.inputs@[0] < layer_width(*self, l + 1)
                &&& gate.inputs@[1] < layer_width(*self, l + 1)
            }
    }

    pub fn new(layers: Vec<CircuitLayer>, num_inputs: usize) -> (r: Self)
        ensures
            r.layers@ == layers@,
            r.num_inputs == num_inputs,
    {
        Self { layers, num_inputs }
    }

    /// The number of variables that label the values of layer `layer` (the inputs
    /// beneath the last layer): the trailing zeros of its width, which for a width that
    /// is a power of two is its logarithm. `None` past the inputs.
    pub fn num_vars_at(&self, layer: usize) -> (r: Option<usize>)
        ensures
            layer > self.layers@.len() ==> r is None,
            layer <= self.layers@.len() ==> r == Some(
                u64_trailing_zeros(layer_width(*self, layer as int) as u64) as usize,
            ),
    {
        let num_gates = if layer < self.layers.len() {
            self.layers[layer].len()
        } else if layer == self.layers.len() {
            self.num_inputs
        } else {
            return None;
        };
        Some((num_gates as u64).trailing_zeros() as usize)
    }

    /// Evaluates the circuit on `input`, from the input layer up; the result lists the
    /// output layer first and the input last.
    pub fn evaluate(&self, input: &[Scalar]) -> (r: CircuitEvaluation<Scalar>)
        requires
            self.wired(),
            input@.len() == self.num_inputs,
        ensures
            r.layers@.len() == self.layers@.len() + 1,
            forall|l: int|
                0 <= l <= self.layers@.len() ==> values(#[trigger] r.layers@[l]@) == values_from_input(
                    self.layers@,
                    values(input@),
                    (self.layers@.len() - l) as nat,
                ),
    {
        let ghost inp = values(input@);
        let n = self.layers.len();
        let mut current: Vec<Scalar> = Vec::new();
        let mut t: usize = 0;
        while t < input.len()
            invariant
                t <= input@.len(),
                current@ == input@.take(t as int),
            decreases input@.len() - t,
        {
            current.push(input[t]);
            proof {
                assert(current@ =~= input@.take(t + 1));
            }
            t = t + 1;
        }
        proof {
            assert(input@.take(t as int) =~= input@);
        }
        // bottom-up: from_input[k] holds the values k layers above the input
        let mut from_input: Vec<Vec<Scalar>> = Vec::new();
        let mut k: usize = 0;
        while k < n
            invariant
                self.wired(),
                n == self.layers@.len(),
                input@.len() == self.num_inputs,
                inp == values(input@),
                k <= n,
                from_input@.len() == k,
                values(current@) == values_from_input(self.layers@, inp, k as nat),
                current@.len() == layer_width(*self, n - k),
                forall|q: int|
                    0 <= q < k ==> values(#[trigger] from_input@[q]@) == values_from_input(
                        self.layers@,
                        inp,
                        q as nat,
                    ),
            decreases n - k,
        {
            let layer = &self.layers[n - 1 - k];
            let mut next: Vec<Scalar> = Vec::with_capacity(layer.layer.len());
            let mut g: usize = 0;
            while g < layer.layer.len()
                invariant
                    self.wired(),
                    n == self.layers@.len(),
                    k < n,
                    *layer == self.layers@[n - 1 - k],
                    current@.len() == layer_width(*self, n - k),
                    g <= layer.layer@.len(),
                    next@.len() == g,
                    forall|q: int|
                        0 <= q < g ==> (#[trigger] next@[q])@ == gate_value(
                            layer.layer@[q],
                            values(current@),
                        ),
                decreases layer.layer@.len() - g,
            {
                let gate = layer.layer[g];
                proof {
                    assert(self.layers@[n - 1 - k].layer@[g as int] == gate);
                }
                let a = current[gate.inputs[0]];
                let b = current[gate.inputs[1]];
                let v = match gate.g_type {
                    GateType::Add => a.add(&b),
                    GateType::Mul => a.mul(&b),
                };
                next.push(v);
                g = g + 1;
            }
            proof {
                assert(values(next@) =~= layer_values(layer.layer@, values(current@)));
            }
            from_input.push(current);
            current = next;
            k = k + 1;
        }
        from_input.push(current);
        // reverse into output-first order
        let mut layers: Vec<Vec<Scalar>> = Vec::new();
        while from_input.len() > 0
            invariant
                from_input@.len() + layers@.len() == n + 1,
                forall|q: int|
                    0 <= q < from_input@.len() ==> values(#[trigger] from_input@[q]@) == values_from_input(
                        self.layers@,
                        inp,
                        q as nat,
                    ),
                forall|l: int|
                    0 <= l < layers@.len() ==> values(#[trigger] layers@[l]@) == values_from_input(
                        self.layers@,
                        inp,
                        (n - l) as nat,
                    ),
            decreases from_input@.len(),
        {
            let top = from_input.pop().unwrap();
            layers.push(top);
        }
        CircuitEvaluation { layers }
    }

    /// The add-wiring predicate of layer `i`: gate `a` adds the values `b` and `c`.
    pub fn add_i(&self, i: usize, a: usize, b: usize, c: usize) -> (r: bool)
        requires
            i < self.layers@.len(),
            a < self.layers@[i as int].layer@.len(),
        ensures
            r == ({
                let gate = self.layers@[i as int].layer@[a as int];
                gate.g_type == GateType::Add && gate.inputs@[0] == b && gate.inputs@[1] == c
            }),
    {
        let gate = &self.layers[i].layer[a];
        gate.g_type == GateType::Add && gate.inputs[0] == b && gate.inputs[1] == c
    }

    /// The mul-wiring predicate of layer `i`: gate `a` multiplies the values `b` and `c`.
    pub fn mul_i(&self, i: usize, a: usize, b: usize, c: usize) -> (r: bool)
        requires
            i < self.layers@.len(),
            a < self.layers@[i as int].layer@.len(),
        ensures
            r == ({
                let gate = self.layers@[i as int].layer@[a as int];
                gate.g_type == GateType::Mul && gate.inputs@[0] == b && gate.inputs@[1] == c
            }),
    {
        let gate = &self.layers[i].layer[a];
        gate.g_type == GateType::Mul && gate.inputs[0] == b && gate.inputs[1] == c
    }

    pub fn layers(&self) -> (r: &[CircuitLayer])
        ensures
            r@ == self.layers@,
    {
        self.layers.as_slice()
    }

    /// The number of output gates.
    pub fn num_outputs(&self) -> (r: usize)
        requires
            self.layers@.len() > 0,
        ensures
            r == self.layers@[0].layer@.len(),
    {
        self.layers[0].layer.len()
    }

    pub fn num_inputs(&self) -> (r: usize)
        ensures
            r == self.num_inputs,
    {
        self.num_inputs
    }
}

} // verus!
