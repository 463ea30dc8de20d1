use vstd::prelude::*;

verus! {

use crate::error::Error;
use crate::party::Party;
use crate::gadgets::prepare::generic_parse;
use crate::word::{bytes_to_words, rotl_val, rotr_val, shl_val, shr_val, xor_words_val,
    rotate_left, rotate_right, shift_left, shift_right};

// ---------------------------------------------------------------------------
// Circuits.
//
// A circuit is a straight-line program over 32-bit word wires.  Wires
// `0 .. num_input_words` hold the input; every gate appends one wire.  AND is
// the only non-linear gate: it is the one that consumes tape words and writes
// view messages in the (2,3)-decomposition.
// ---------------------------------------------------------------------------

#[derive(Clone, Copy, Debug, PartialEq, Eq, Structural)]
pub enum Gate {
    Xor(usize, usize),
    And(usize, usize),
    XorConst(usize, u32),
    RotL(usize, u32),
    RotR(usize, u32),
    Shl(usize, u32),
    Shr(usize, u32),
}

#[derive(Debug)]
pub struct Circuit {
    pub num_input_words: usize,
    pub gates: Vec<Gate>,
    pub output_wires: Vec<usize>,
}

pub open spec fn gate_wf(g: Gate, wires: int) -> bool {
    match g {
        Gate::Xor(a, b) => a < wires && b < wires,
        Gate::And(a, b) => a < wires && b < wires,
        Gate::XorConst(a, _k) => a < wires,
        Gate::RotL(a, n) => a < wires && n < 32,
        Gate::RotR(a, n) => a < wires && n < 32,
        Gate::Shl(a, n) => a < wires && n < 32,
        Gate::Shr(a, n) => a < wires && n < 32,
    }
}

pub open spec fn is_and(g: Gate) -> bool {
    match g {
        Gate::And(_a, _b) => true,
        _ => false,
    }
}

/// What one gate makes of the current wires in a plain, unshared evaluation.
pub open spec fn plain_gate_val(g: Gate, w: Seq<u32>) -> u32 {
    match g {
        Gate::Xor(a, b) => w[a as int] ^ w[b as int],
        Gate::And(a, b) => w[a as int] & w[b as int],
        Gate::XorConst(a, k) => w[a as int] ^ k,
        Gate::RotL(a, n) => rotl_val(w[a as int], n),
        Gate::RotR(a, n) => rotr_val(w[a as int], n),
        Gate::Shl(a, n) => shl_val(w[a as int], n),
        Gate::Shr(a, n) => shr_val(w[a as int], n),
    }
}

impl Circuit {
    /// Every gate reads only wires that exist before it, rotation and shift
    /// amounts are in range, and every output wire exists.
    pub open spec fn wf(self) -> bool {
        &&& forall|i: int|
            0 <= i < self.gates@.len() ==> gate_wf(
                #[trigger] self.gates@[i],
                self.num_input_words + i,
            )
        &&& forall|o: int|
            0 <= o < self.output_wires@.len() ==> (#[trigger] self.output_wires@[o])
                < self.num_input_words + self.gates@.len()
    }

    /// How many of the first `n` gates are AND gates.
    pub open spec fn mul_gates_upto(self, n: int) -> int
        decreases n,
    {
        if n <= 0 {
            0
        } else {
            self.mul_gates_upto(n - 1) + if is_and(self.gates@[n - 1]) {
                1int
            } else {
                0int
            }
        }
    }

    pub open spec fn spec_num_mul_gates(self) -> int {
        self.mul_gates_upto(self.gates@.len() as int)
    }

    pub open spec fn spec_party_output_len(self) -> int {
        self.output_wires@.len() as int
    }

    /// The words each party contributes at the end: its wire share at each
    /// output wire.
    pub open spec fn party_output(self, wires: Seq<u32>) -> Seq<u32> {
        Seq::new(self.output_wires@.len(), |o: int| wires[self.output_wires@[o] as int])
    }

    /// The exact count of AND (multiplication) gates; it fixes the tape
    /// length and the view length.
    pub fn num_of_mul_gates(&self) -> (r: usize)
        ensures
            r == self.spec_num_mul_gates(),
            r <= self.gates@.len(),
    {
        proof {
            self.lemma_mul_upto_bounds(self.gates@.len() as int);
        }
        let mut count: usize = 0;
        let mut i: usize = 0;
        let n = self.gates.len();
        while i < n
            invariant
                i <= n,
                n == self.gates@.len(),
                count == self.mul_gates_upto(i as int),
                count <= i,
            decreases n - i,
        {
            match self.gates[i] {
                Gate::And(_a, _b) => {
                    count = count + 1;
                }
                _ => {}
            }
            i = i + 1;
        }
        count
    }

    /// The number of words of each party's output share.
    pub fn party_output_len(&self) -> (r: usize)
        ensures
            r == self.spec_party_output_len(),
    {
        self.output_wires.len()
    }

    pub proof fn lemma_mul_upto_bounds(self, n: int)
        ensures
            0 <= self.mul_gates_upto(n),
            self.mul_gates_upto(n) <= n || n < 0,
        decreases n,
    {
        if n > 0 {
            self.lemma_mul_upto_bounds(n - 1);
        }
    }

    pub proof fn lemma_mul_upto_mono(self, n1: int, n2: int)
        requires
            n1 <= n2,
        ensures
            self.mul_gates_upto(n1) <= self.mul_gates_upto(n2),
        decreases n2 - n1,
    {
        if n1 < n2 {
            self.lemma_mul_upto_mono(n1, n2 - 1);
        }
    }

    /// Plain evaluation: the circuit on unshared input words.
    pub fn evaluate(&self, input: &Vec<u32>) -> (r: Vec<u32>)
        requires
            self.wf(),
            input@.len() == self.num_input_words,
        ensures
            r@ == eval_circuit(*self, input@),
    {
        let mut wires: Vec<u32> = crate::word::copy_words(input);
        let n = self.gates.len();
        let mut g: usize = 0;
        while g < n
            invariant
                g <= n,
                n == self.gates@.len(),
                self.wf(),
                input@.len() == self.num_input_words,
                wires@ == plain_wires(*self, input@, g as int),
                wires@.len() == self.num_input_words + g,
            decreases n - g,
        {
            proof {
                assert(gate_wf(self.gates@[g as int], self.num_input_words + g));
            }
            let gate = self.gates[g];
            let v: u32 = match gate {
                Gate::Xor(a, b) => wires[a] ^ wires[b],
                Gate::And(a, b) => wires[a] & wires[b],
                Gate::XorConst(a, k) => wires[a] ^ k,
                Gate::RotL(a, nn) => rotate_left(wires[a], nn),
                Gate::RotR(a, nn) => rotate_right(wires[a], nn),
                Gate::Shl(a, nn) => shift_left(wires[a], nn),
                Gate::Shr(a, nn) => shift_right(wires[a], nn),
            };
            wires.push(v);
            g = g + 1;
        }
        let mut out: Vec<u32> = Vec::new();
        let mut o: usize = 0;
        let olen = self.output_wires.len();
        while o < olen
            invariant
                o <= olen,
                olen == self.output_wires@.len(),
                self.wf(),
                wires@ == plain_wires(*self, input@, self.gates@.len() as int),
                wires@.len() == self.num_input_words + self.gates@.len(),
                out@ =~= eval_circuit(*self, input@).take(o as int),
            decreases olen - o,
        {
            let wi = self.output_wires[o];
            out.push(wires[wi]);
            o = o + 1;
        }
        proof {
            assert(out@ =~= eval_circuit(*self, input@));
        }
        out
    }
}

/// The input share of a party, read as words.
pub open spec fn party_share_words(p: Party) -> Seq<u32> {
    bytes_to_words(p.view.input@)
}

/// The honest messages of party `i` over a whole run, from the three parties
/// as they stood before it.
pub open spec fn honest_msgs_of(c: Circuit, p1: Party, p2: Party, p3: Party, i: int) -> Seq<u32> {
    honest_msgs(
        c,
        party_share_words(p1),
        party_share_words(p2),
        party_share_words(p3),
        p1.tape.words@,
        p2.tape.words@,
        p3.tape.words@,
        i,
        c.gates@.len() as int,
    )
}

/// A party's output share, replayed from its input share bytes and a
/// message log.
pub open spec fn replay_out_of(c: Circuit, share_bytes: Seq<u8>, msgs: Seq<u32>) -> Seq<u32> {
    c.party_output(replay_wires(c, bytes_to_words(share_bytes), msgs, c.gates@.len() as int))
}

/// The shape demands the verifier's re-simulation makes of the opened data.
pub open spec fn sim2_shapes_ok(c: Circuit, p: Party, q: Party) -> bool {
    &&& p.view.input@.len() == c.num_input_words * 4
    &&& q.view.input@.len() == c.num_input_words * 4
    &&& q.view.messages@.len() == c.spec_num_mul_gates()
}

/// The wires of a plain evaluation after the first `n` gates.
pub open spec fn plain_wires(c: Circuit, input: Seq<u32>, n: int) -> Seq<u32>
    decreases n,
{
    if n <= 0 {
        input
    } else {
        let prev = plain_wires(c, input, n - 1);
        prev.push(plain_gate_val(c.gates@[n - 1], prev))
    }
}

/// The circuit's output on unshared input words.
pub open spec fn eval_circuit(c: Circuit, input: Seq<u32>) -> Seq<u32> {
    c.party_output(plain_wires(c, input, c.gates@.len() as int))
}

// ---------------------------------------------------------------------------
// The (2,3)-decomposition model.
//
// A party's wire state is a function of its own input share and its own view
// messages: linear gates act locally, and at an AND gate the party's new wire
// is exactly the message it logged.  The honest messages are defined by
// mutual recursion over the three parties, and the verifier's two-party
// re-simulation is a function of the opened data alone.
// ---------------------------------------------------------------------------

/// The AND-gate contribution of party `i`:
/// `a_i b_i + a_{i+1} b_i + a_i b_{i+1} + r_i + r_{i+1}` over GF(2).
pub open spec fn and_msg(a_i: u32, b_i: u32, a_j: u32, b_j: u32, r_i: u32, r_j: u32) -> u32 {
    (a_i & b_i) ^ (a_j & b_i) ^ (a_i & b_j) ^ r_i ^ r_j
}

/// A party's wires after the first `n` gates, replayed from its share and its
/// logged messages.
pub open spec fn replay_wires(c: Circuit, share: Seq<u32>, msgs: Seq<u32>, n: int) -> Seq<u32>
    decreases n,
{
    if n <= 0 {
        share
    } else {
        let prev = replay_wires(c, share, msgs, n - 1);
        let v = if is_and(c.gates@[n - 1]) {
            msgs[c.mul_gates_upto(n - 1)]
        } else {
            plain_gate_val(c.gates@[n - 1], prev)
        };
        prev.push(v)
    }
}

/// The party after `i`, cyclically.
pub open spec fn next3(i: int) -> int {
    if i == 2 {
        0
    } else {
        i + 1
    }
}

/// One of the three parties' values, by index.
pub open spec fn pick3(x1: Seq<u32>, x2: Seq<u32>, x3: Seq<u32>, i: int) -> Seq<u32> {
    if i == 0 {
        x1
    } else if i == 1 {
        x2
    } else {
        x3
    }
}

/// The messages party `i` logs during an honest three-party run of the first
/// `n` gates, from shares `s1..s3` and tapes `t1..t3`.
pub open spec fn honest_msgs(
    c: Circuit,
    s1: Seq<u32>,
    s2: Seq<u32>,
    s3: Seq<u32>,
    t1: Seq<u32>,
    t2: Seq<u32>,
    t3: Seq<u32>,
    i: int,
    n: int,
) -> Seq<u32>
    decreases n,
{
    if n <= 0 {
        Seq::empty()
    } else {
        let prev = honest_msgs(c, s1, s2, s3, t1, t2, t3, i, n - 1);
        if is_and(c.gates@[n - 1]) {
            let wi = replay_wires(c, pick3(s1, s2, s3, i), prev, n - 1);
            let wj = replay_wires(
                c,
                pick3(s1, s2, s3, next3(i)),
                honest_msgs(c, s1, s2, s3, t1, t2, t3, next3(i), n - 1),
                n - 1,
            );
            let k = c.mul_gates_upto(n - 1);
            let (a, b) = gate_args(c.gates@[n - 1]);
            prev.push(
                and_msg(
                    wi[a],
                    wi[b],
                    wj[a],
                    wj[b],
                    pick3(t1, t2, t3, i)[k],
                    pick3(t1, t2, t3, next3(i))[k],
                ),
            )
        } else {
            prev
        }
    }
}

/// The wire operands a gate reads; a unary gate repeats its one operand.
pub open spec fn gate_args(g: Gate) -> (int, int) {
    match g {
        Gate::Xor(a, b) => (a as int, b as int),
        Gate::And(a, b) => (a as int, b as int),
        Gate::XorConst(a, _k) => (a as int, a as int),
        Gate::RotL(a, _n) => (a as int, a as int),
        Gate::RotR(a, _n) => (a as int, a as int),
        Gate::Shl(a, _n) => (a as int, a as int),
        Gate::Shr(a, _n) => (a as int, a as int),
    }
}

/// The messages the opened party recomputes during the verifier's two-party
/// re-simulation: its own share and tape, plus the next party's share, tape
/// and replayed messages.
pub open spec fn resim_msgs(
    c: Circuit,
    sa: Seq<u32>,
    ta: Seq<u32>,
    sb: Seq<u32>,
    tb: Seq<u32>,
    mb: Seq<u32>,
    n: int,
) -> Seq<u32>
    decreases n,
{
    if n <= 0 {
        Seq::empty()
    } else {
        let prev = resim_msgs(c, sa, ta, sb, tb, mb, n - 1);
        if is_and(c.gates@[n - 1]) {
            let wa = replay_wires(c, sa, prev, n - 1);
            let wb = replay_wires(c, sb, mb, n - 1);
            let k = c.mul_gates_upto(n - 1);
            let (a, b) = gate_args(c.gates@[n - 1]);
            prev.push(and_msg(wa[a], wa[b], wb[a], wb[b], ta[k], tb[k]))
        } else {
            prev
        }
    }
}

// ---------------------------------------------------------------------------
// Structural lemmas.
// ---------------------------------------------------------------------------

pub proof fn lemma_replay_len(c: Circuit, share: Seq<u32>, msgs: Seq<u32>, n: int)
    requires
        n >= 0,
    ensures
        replay_wires(c, share, msgs, n).len() == share.len() + n,
    decreases n,
{
    if n > 0 {
        lemma_replay_len(c, share, msgs, n - 1);
    }
}

/// Replay reads only messages below the AND count, so two message logs that
/// agree there replay to the same wires.
pub proof fn lemma_replay_agree(c: Circuit, share: Seq<u32>, m1: Seq<u32>, m2: Seq<u32>, n: int)
    requires
        forall|j: int| 0 <= j < c.mul_gates_upto(n) ==> m1[j] == m2[j],
    ensures
        replay_wires(c, share, m1, n) == replay_wires(c, share, m2, n),
    decreases n,
{
    if n > 0 {
        c.lemma_mul_upto_mono(n - 1, n);
        c.lemma_mul_upto_bounds(n - 1);
        lemma_replay_agree(c, share, m1, m2, n - 1);
        if is_and(c.gates@[n - 1]) {
            assert(0 <= c.mul_gates_upto(n - 1) < c.mul_gates_upto(n));
            assert(m1[c.mul_gates_upto(n - 1)] == m2[c.mul_gates_upto(n - 1)]);
        }
    }
}

pub proof fn lemma_honest_len(
    c: Circuit,
    s1: Seq<u32>,
    s2: Seq<u32>,
    s3: Seq<u32>,
    t1: Seq<u32>,
    t2: Seq<u32>,
    t3: Seq<u32>,
    i: int,
    n: int,
)
    ensures
        honest_msgs(c, s1, s2, s3, t1, t2, t3, i, n).len() == if n >= 0 {
            c.mul_gates_upto(n)
        } else {
            0
        },
    decreases n,
{
    if n > 0 {
        lemma_honest_len(c, s1, s2, s3, t1, t2, t3, i, n - 1);
    }
}

pub proof fn lemma_resim_len(
    c: Circuit,
    sa: Seq<u32>,
    ta: Seq<u32>,
    sb: Seq<u32>,
    tb: Seq<u32>,
    mb: Seq<u32>,
    n: int,
)
    ensures
        resim_msgs(c, sa, ta, sb, tb, mb, n).len() == if n >= 0 {
            c.mul_gates_upto(n)
        } else {
            0
        },
    decreases n,
{
    if n > 0 {
        lemma_resim_len(c, sa, ta, sb, tb, mb, n - 1);
    }
}

/// Running the honest simulation further never rewrites an earlier message.
pub proof fn lemma_honest_prefix(
    c: Circuit,
    s1: Seq<u32>,
    s2: Seq<u32>,
    s3: Seq<u32>,
    t1: Seq<u32>,
    t2: Seq<u32>,
    t3: Seq<u32>,
    i: int,
    n1: int,
    n2: int,
)
    requires
        0 <= n1 <= n2,
    ensures
        forall|j: int|
            0 <= j < c.mul_gates_upto(n1) ==> honest_msgs(c, s1, s2, s3, t1, t2, t3, i, n2)[j]
                == honest_msgs(c, s1, s2, s3, t1, t2, t3, i, n1)[j],
    decreases n2,
{
    if n1 < n2 {
        lemma_honest_prefix(c, s1, s2, s3, t1, t2, t3, i, n1, n2 - 1);
        lemma_honest_len(c, s1, s2, s3, t1, t2, t3, i, n2 - 1);
        c.lemma_mul_upto_mono(n1, n2 - 1);
        c.lemma_mul_upto_bounds(n1);
    }
}

/// Two-party re-simulation agrees with the honest three-party run: fed the
/// honest messages of party `i+1`, the opened party `i` recomputes exactly
/// its own honest messages.
pub proof fn lemma_resim_agrees(
    c: Circuit,
    s1: Seq<u32>,
    s2: Seq<u32>,
    s3: Seq<u32>,
    t1: Seq<u32>,
    t2: Seq<u32>,
    t3: Seq<u32>,
    i: int,
    n: int,
    big: int,
)
    requires
        0 <= i < 3,
        0 <= n <= big,
    ensures
        resim_msgs(
            c,
            pick3(s1, s2, s3, i),
            pick3(t1, t2, t3, i),
            pick3(s1, s2, s3, next3(i)),
            pick3(t1, t2, t3, next3(i)),
            honest_msgs(c, s1, s2, s3, t1, t2, t3, next3(i), big),
            n,
        ) == honest_msgs(c, s1, s2, s3, t1, t2, t3, i, n),
    decreases n,
{
    if n > 0 {
        lemma_resim_agrees(c, s1, s2, s3, t1, t2, t3, i, n - 1, big);
        if is_and(c.gates@[n - 1]) {
            let j = next3(i);
            let mbig = honest_msgs(c, s1, s2, s3, t1, t2, t3, j, big);
            let mn = honest_msgs(c, s1, s2, s3, t1, t2, t3, j, n - 1);
            lemma_honest_prefix(c, s1, s2, s3, t1, t2, t3, j, n - 1, big);
            lemma_replay_agree(c, pick3(s1, s2, s3, j), mbig, mn, n - 1);
        }
    }
}

// ---------------------------------------------------------------------------
// XOR-reconstruction lemmas.
// ---------------------------------------------------------------------------

proof fn lemma_and_gate_reconstruct(
    a1: u32,
    b1: u32,
    a2: u32,
    b2: u32,
    a3: u32,
    b3: u32,
    r1: u32,
    r2: u32,
    r3: u32,
)
    by (bit_vector)
    ensures
        and_msg(a1, b1, a2, b2, r1, r2) ^ and_msg(a2, b2, a3, b3, r2, r3) ^ and_msg(
            a3,
            b3,
            a1,
            b1,
            r3,
            r1,
        ) == (a1 ^ a2 ^ a3) & (b1 ^ b2 ^ b3),
{
}

proof fn lemma_linear_gate_reconstruct(g: Gate, w1: Seq<u32>, w2: Seq<u32>, w3: Seq<u32>)
    requires
        !is_and(g),
        gate_wf(g, w1.len() as int),
        w1.len() == w2.len() && w2.len() == w3.len(),
    ensures
        plain_gate_val(g, w1) ^ plain_gate_val(g, w2) ^ plain_gate_val(g, w3) == plain_gate_val(
            g,
            xor_words_val(xor_words_val(w1, w2), w3),
        ),
{
    let w = xor_words_val(xor_words_val(w1, w2), w3);
    match g {
        Gate::Xor(ai, bi) => {
            let a = ai as int;
            let b = bi as int;
            let x1 = w1[a];
            let x2 = w2[a];
            let x3 = w3[a];
            let y1 = w1[b];
            let y2 = w2[b];
            let y3 = w3[b];
            assert((x1 ^ y1) ^ (x2 ^ y2) ^ (x3 ^ y3) == (x1 ^ x2 ^ x3) ^ (y1 ^ y2 ^ y3))
                by (bit_vector);
        }
        Gate::And(_a, _b) => {}
        Gate::XorConst(ai, k) => {
            let a = ai as int;
            let x1 = w1[a];
            let x2 = w2[a];
            let x3 = w3[a];
            assert((x1 ^ k) ^ (x2 ^ k) ^ (x3 ^ k) == (x1 ^ x2 ^ x3) ^ k) by (bit_vector);
        }
        Gate::RotL(ai, n) => {
            let a = ai as int;
            let x1 = w1[a];
            let x2 = w2[a];
            let x3 = w3[a];
            assert(rotl_val(x1, n) ^ rotl_val(x2, n) ^ rotl_val(x3, n) == rotl_val(
                x1 ^ x2 ^ x3,
                n,
            )) by (bit_vector)
                requires
                    n < 32,
            ;
        }
        Gate::RotR(ai, n) => {
            let a = ai as int;
            let x1 = w1[a];
            let x2 = w2[a];
            let x3 = w3[a];
            assert(rotr_val(x1, n) ^ rotr_val(x2, n) ^ rotr_val(x3, n) == rotr_val(
                x1 ^ x2 ^ x3,
                n,
            )) by (bit_vector)
                requires
                    n < 32,
            ;
        }
        Gate::Shl(ai, n) => {
            let a = ai as int;
            let x1 = w1[a];
            let x2 = w2[a];
            let x3 = w3[a];
            assert(shl_val(x1, n) ^ shl_val(x2, n) ^ shl_val(x3, n) == shl_val(x1 ^ x2 ^ x3, n))
                by (bit_vector);
        }
        Gate::Shr(ai, n) => {
            let a = ai as int;
            let x1 = w1[a];
            let x2 = w2[a];
            let x3 = w3[a];
            assert(shr_val(x1, n) ^ shr_val(x2, n) ^ shr_val(x3, n) == shr_val(x1 ^ x2 ^ x3, n))
                by (bit_vector);
        }
    }
}

/// The XOR of the three parties' wire states is the plain evaluation on the
/// XOR of their shares: the heart of the (2,3)-decomposition.
pub proof fn lemma_wires_reconstruct(
    c: Circuit,
    s1: Seq<u32>,
    s2: Seq<u32>,
    s3: Seq<u32>,
    t1: Seq<u32>,
    t2: Seq<u32>,
    t3: Seq<u32>,
    n: int,
)
    requires
        c.wf(),
        s1.len() == c.num_input_words,
        s2.len() == c.num_input_words,
        s3.len() == c.num_input_words,
        0 <= n <= c.gates@.len(),
    ensures
        xor_words_val(
            xor_words_val(
                replay_wires(c, s1, honest_msgs(c, s1, s2, s3, t1, t2, t3, 0, n), n),
                replay_wires(c, s2, honest_msgs(c, s1, s2, s3, t1, t2, t3, 1, n), n),
            ),
            replay_wires(c, s3, honest_msgs(c, s1, s2, s3, t1, t2, t3, 2, n), n),
        ) == plain_wires(c, xor_words_val(xor_words_val(s1, s2), s3), n),
    decreases n,
{
    lemma_replay_len(c, s1, honest_msgs(c, s1, s2, s3, t1, t2, t3, 0, n), n);
    lemma_replay_len(c, s2, honest_msgs(c, s1, s2, s3, t1, t2, t3, 1, n), n);
    lemma_replay_len(c, s3, honest_msgs(c, s1, s2, s3, t1, t2, t3, 2, n), n);
    if n == 0 {
        assert(xor_words_val(xor_words_val(s1, s2), s3) =~= plain_wires(
            c,
            xor_words_val(xor_words_val(s1, s2), s3),
            0,
        ));
    } else {
        lemma_wires_reconstruct(c, s1, s2, s3, t1, t2, t3, n - 1);
        let m1p = honest_msgs(c, s1, s2, s3, t1, t2, t3, 0, n - 1);
        let m2p = honest_msgs(c, s1, s2, s3, t1, t2, t3, 1, n - 1);
        let m3p = honest_msgs(c, s1, s2, s3, t1, t2, t3, 2, n - 1);
        let m1 = honest_msgs(c, s1, s2, s3, t1, t2, t3, 0, n);
        let m2 = honest_msgs(c, s1, s2, s3, t1, t2, t3, 1, n);
        let m3 = honest_msgs(c, s1, s2, s3, t1, t2, t3, 2, n);
        lemma_honest_len(c, s1, s2, s3, t1, t2, t3, 0, n - 1);
        lemma_honest_len(c, s1, s2, s3, t1, t2, t3, 1, n - 1);
        lemma_honest_len(c, s1, s2, s3, t1, t2, t3, 2, n - 1);
        lemma_honest_prefix(c, s1, s2, s3, t1, t2, t3, 0, n - 1, n);
        lemma_honest_prefix(c, s1, s2, s3, t1, t2, t3, 1, n - 1, n);
        lemma_honest_prefix(c, s1, s2, s3, t1, t2, t3, 2, n - 1, n);
        lemma_replay_agree(c, s1, m1, m1p, n - 1);
        lemma_replay_agree(c, s2, m2, m2p, n - 1);
        lemma_replay_agree(c, s3, m3, m3p, n - 1);
        let w1 = replay_wires(c, s1, m1p, n - 1);
        let w2 = replay_wires(c, s2, m2p, n - 1);
        let w3 = replay_wires(c, s3, m3p, n - 1);
        lemma_replay_len(c, s1, m1p, n - 1);
        lemma_replay_len(c, s2, m2p, n - 1);
        lemma_replay_len(c, s3, m3p, n - 1);
        let g = c.gates@[n - 1];
        assert(gate_wf(g, c.num_input_words + n - 1));
        let pw = plain_wires(c, xor_words_val(xor_words_val(s1, s2), s3), n - 1);
        if is_and(g) {
            let (a, b) = gate_args(g);
            let k = c.mul_gates_upto(n - 1);
            let z1 = and_msg(w1[a], w1[b], w2[a], w2[b], t1[k], t2[k]);
            let z2 = and_msg(w2[a], w2[b], w3[a], w3[b], t2[k], t3[k]);
            let z3 = and_msg(w3[a], w3[b], w1[a], w1[b], t3[k], t1[k]);
            lemma_and_gate_reconstruct(
                w1[a],
                w1[b],
                w2[a],
                w2[b],
                w3[a],
                w3[b],
                t1[k],
                t2[k],
                t3[k],
            );
            assert(pw[a] == w1[a] ^ w2[a] ^ w3[a]);
            assert(pw[b] == w1[b] ^ w2[b] ^ w3[b]);
            assert(m1 == m1p.push(z1));
            assert(m2 == m2p.push(z2));
            assert(m3 == m3p.push(z3));
            assert(replay_wires(c, s1, m1, n) == w1.push(z1));
            assert(replay_wires(c, s2, m2, n) == w2.push(z2));
            assert(replay_wires(c, s3, m3, n) == w3.push(z3));
            assert(xor_words_val(xor_words_val(w1.push(z1), w2.push(z2)), w3.push(z3)) =~= pw.push(
                (z1 ^ z2 ^ z3),
            ));
        } else {
            let v1 = plain_gate_val(g, w1);
            let v2 = plain_gate_val(g, w2);
            let v3 = plain_gate_val(g, w3);
            lemma_linear_gate_reconstruct(g, w1, w2, w3);
            assert(replay_wires(c, s1, m1, n) == w1.push(v1));
            assert(replay_wires(c, s2, m2, n) == w2.push(v2));
            assert(replay_wires(c, s3, m3, n) == w3.push(v3));
            assert(xor_words_val(xor_words_val(w1.push(v1), w2.push(v2)), w3.push(v3)) =~= pw.push(
                (v1 ^ v2 ^ v3),
            ));
        }
    }
}

/// The XOR of the three party output shares is the circuit's plain output.
pub proof fn lemma_outputs_reconstruct(
    c: Circuit,
    s1: Seq<u32>,
    s2: Seq<u32>,
    s3: Seq<u32>,
    t1: Seq<u32>,
    t2: Seq<u32>,
    t3: Seq<u32>,
)
    requires
        c.wf(),
        s1.len() == c.num_input_words,
        s2.len() == c.num_input_words,
        s3.len() == c.num_input_words,
    ensures
        ({
            let n = c.gates@.len() as int;
            xor_words_val(
                xor_words_val(
                    c.party_output(
                        replay_wires(c, s1, honest_msgs(c, s1, s2, s3, t1, t2, t3, 0, n), n),
                    ),
                    c.party_output(
                        replay_wires(c, s2, honest_msgs(c, s1, s2, s3, t1, t2, t3, 1, n), n),
                    ),
                ),
                c.party_output(
                    replay_wires(c, s3, honest_msgs(c, s1, s2, s3, t1, t2, t3, 2, n), n),
                ),
            ) == eval_circuit(c, xor_words_val(xor_words_val(s1, s2), s3))
        }),
{
    let n = c.gates@.len() as int;
    lemma_wires_reconstruct(c, s1, s2, s3, t1, t2, t3, n);
    let w1 = replay_wires(c, s1, honest_msgs(c, s1, s2, s3, t1, t2, t3, 0, n), n);
    let w2 = replay_wires(c, s2, honest_msgs(c, s1, s2, s3, t1, t2, t3, 1, n), n);
    let w3 = replay_wires(c, s3, honest_msgs(c, s1, s2, s3, t1, t2, t3, 2, n), n);
    lemma_replay_len(c, s1, honest_msgs(c, s1, s2, s3, t1, t2, t3, 0, n), n);
    lemma_replay_len(c, s2, honest_msgs(c, s1, s2, s3, t1, t2, t3, 1, n), n);
    lemma_replay_len(c, s3, honest_msgs(c, s1, s2, s3, t1, t2, t3, 2, n), n);
    assert(xor_words_val(
        xor_words_val(c.party_output(w1), c.party_output(w2)),
        c.party_output(w3),
    ) =~= c.party_output(xor_words_val(xor_words_val(w1, w2), w3)));
}

impl Circuit {
    /// The output share a wire state yields: one word per output wire.
    fn collect_output(&self, wires: &Vec<u32>) -> (r: Vec<u32>)
        requires
            self.wf(),
            wires@.len() == self.num_input_words + self.gates@.len(),
        ensures
            r@ == self.party_output(wires@),
    {
        let mut out: Vec<u32> = Vec::new();
        let mut o: usize = 0;
        let olen = self.output_wires.len();
        while o < olen
            invariant
                o <= olen,
                olen == self.output_wires@.len(),
                self.wf(),
                wires@.len() == self.num_input_words + self.gates@.len(),
                out@ =~= self.party_output(wires@).take(o as int),
            decreases olen - o,
        {
            let wi = self.output_wires[o];
            out.push(wires[wi]);
            o = o + 1;
        }
        proof {
            assert(out@ =~= self.party_output(wires@));
        }
        out
    }

    /// The prover-side full three-party simulation.  Every AND gate consumes
    /// one tape word per party and writes one message per party, in the same
    /// positional order for all three, so message indices align.
    pub fn compute_23_decomposition(&self, p1: &mut Party, p2: &mut Party, p3: &mut Party) -> (r:
        (Vec<u32>, Vec<u32>, Vec<u32>))
        requires
            self.wf(),
            old(p1).view.input@.len() == self.num_input_words * 4,
            old(p2).view.input@.len() == self.num_input_words * 4,
            old(p3).view.input@.len() == self.num_input_words * 4,
            old(p1).view.messages@.len() == 0,
            old(p2).view.messages@.len() == 0,
            old(p3).view.messages@.len() == 0,
            old(p1).tape.words@.len() == self.spec_num_mul_gates(),
            old(p2).tape.words@.len() == self.spec_num_mul_gates(),
            old(p3).tape.words@.len() == self.spec_num_mul_gates(),
            old(p1).tape.cursor == 0,
            old(p2).tape.cursor == 0,
            old(p3).tape.cursor == 0,
        ensures
            final(p1).view.input@ == old(p1).view.input@,
            final(p2).view.input@ == old(p2).view.input@,
            final(p3).view.input@ == old(p3).view.input@,
            final(p1).view.cursor == old(p1).view.cursor,
            final(p2).view.cursor == old(p2).view.cursor,
            final(p3).view.cursor == old(p3).view.cursor,
            final(p1).tape.words@ == old(p1).tape.words@,
            final(p2).tape.words@ == old(p2).tape.words@,
            final(p3).tape.words@ == old(p3).tape.words@,
            final(p1).view.messages@ == honest_msgs_of(*self, *old(p1), *old(p2), *old(p3), 0),
            final(p2).view.messages@ == honest_msgs_of(*self, *old(p1), *old(p2), *old(p3), 1),
            final(p3).view.messages@ == honest_msgs_of(*self, *old(p1), *old(p2), *old(p3), 2),
            r.0@ == replay_out_of(*self, old(p1).view.input@, final(p1).view.messages@),
            r.1@ == replay_out_of(*self, old(p2).view.input@, final(p2).view.messages@),
            r.2@ == replay_out_of(*self, old(p3).view.input@, final(p3).view.messages@),
    {
        let ghost c = *self;
        let ghost s1 = party_share_words(*old(p1));
        let ghost s2 = party_share_words(*old(p2));
        let ghost s3 = party_share_words(*old(p3));
        let ghost t1 = old(p1).tape.words@;
        let ghost t2 = old(p2).tape.words@;
        let ghost t3 = old(p3).tape.words@;
        let n_in = self.num_input_words;
        let mut wires1 = generic_parse(&p1.view.input, n_in);
        let mut wires2 = generic_parse(&p2.view.input, n_in);
        let mut wires3 = generic_parse(&p3.view.input, n_in);
        let num_gates = self.gates.len();
        let mut g: usize = 0;
        while g < num_gates
            invariant
                c == *self,
                self.wf(),
                g <= num_gates,
                num_gates == self.gates@.len(),
                n_in == self.num_input_words,
                p1.view.input@ == old(p1).view.input@,
                p2.view.input@ == old(p2).view.input@,
                p3.view.input@ == old(p3).view.input@,
                p1.view.input@.len() == n_in * 4,
                p1.view.cursor == old(p1).view.cursor,
                p2.view.cursor == old(p2).view.cursor,
                p3.view.cursor == old(p3).view.cursor,
                p1.tape.words@ == t1,
                p2.tape.words@ == t2,
                p3.tape.words@ == t3,
                t1.len() == self.spec_num_mul_gates(),
                t2.len() == self.spec_num_mul_gates(),
                t3.len() == self.spec_num_mul_gates(),
                p1.tape.cursor == self.mul_gates_upto(g as int),
                p2.tape.cursor == self.mul_gates_upto(g as int),
                p3.tape.cursor == self.mul_gates_upto(g as int),
                p1.view.messages@ == honest_msgs(c, s1, s2, s3, t1, t2, t3, 0, g as int),
                p2.view.messages@ == honest_msgs(c, s1, s2, s3, t1, t2, t3, 1, g as int),
                p3.view.messages@ == honest_msgs(c, s1, s2, s3, t1, t2, t3, 2, g as int),
                wires1@ == replay_wires(c, s1, p1.view.messages@, g as int),
                wires2@ == replay_wires(c, s2, p2.view.messages@, g as int),
                wires3@ == replay_wires(c, s3, p3.view.messages@, g as int),
                wires1@.len() == n_in + g,
                wires2@.len() == n_in + g,
                wires3@.len() == n_in + g,
            decreases num_gates - g,
        {
            let ghost gi = g as int;
            proof {
                assert(gate_wf(self.gates@[gi], self.num_input_words + gi));
                self.lemma_mul_upto_bounds(gi);
            }
            let gate = self.gates[g];
            match gate {
                Gate::And(a, b) => {
                    proof {
                        self.lemma_mul_upto_mono(gi + 1, num_gates as int);
                        assert(self.mul_gates_upto(gi + 1) == self.mul_gates_upto(gi) + 1);
                    }
                    let w1a = wires1[a];
                    let w1b = wires1[b];
                    let w2a = wires2[a];
                    let w2b = wires2[b];
                    let w3a = wires3[a];
                    let w3b = wires3[b];
                    let r1 = p1.tape.next_word();
                    let r2 = p2.tape.next_word();
                    let r3 = p3.tape.next_word();
                    let z1 = (w1a & w1b) ^ (w2a & w1b) ^ (w1a & w2b) ^ r1 ^ r2;
                    let z2 = (w2a & w2b) ^ (w3a & w2b) ^ (w2a & w3b) ^ r2 ^ r3;
                    let z3 = (w3a & w3b) ^ (w1a & w3b) ^ (w3a & w1b) ^ r3 ^ r1;
                    let ghost mold1 = p1.view.messages@;
                    let ghost mold2 = p2.view.messages@;
                    let ghost mold3 = p3.view.messages@;
                    let ghost wold1 = wires1@;
                    let ghost wold2 = wires2@;
                    let ghost wold3 = wires3@;
                    p1.view.send_msg(z1);
                    p2.view.send_msg(z2);
                    p3.view.send_msg(z3);
                    wires1.push(z1);
                    wires2.push(z2);
                    wires3.push(z3);
                    proof {
                        let k = c.mul_gates_upto(gi);
                        assert(honest_msgs(c, s1, s2, s3, t1, t2, t3, 0, gi + 1) == mold1.push(z1));
                        assert(honest_msgs(c, s1, s2, s3, t1, t2, t3, 1, gi + 1) == mold2.push(z2));
                        assert(honest_msgs(c, s1, s2, s3, t1, t2, t3, 2, gi + 1) == mold3.push(z3));
                        lemma_honest_len(c, s1, s2, s3, t1, t2, t3, 0, gi);
                        lemma_honest_len(c, s1, s2, s3, t1, t2, t3, 1, gi);
                        lemma_honest_len(c, s1, s2, s3, t1, t2, t3, 2, gi);
                        lemma_replay_agree(c, s1, mold1.push(z1), mold1, gi);
                        lemma_replay_agree(c, s2, mold2.push(z2), mold2, gi);
                        lemma_replay_agree(c, s3, mold3.push(z3), mold3, gi);
                        assert(wires1@ == replay_wires(c, s1, p1.view.messages@, gi + 1));
                        assert(wires2@ == replay_wires(c, s2, p2.view.messages@, gi + 1));
                        assert(wires3@ == replay_wires(c, s3, p3.view.messages@, gi + 1));
                    }
                }
                Gate::Xor(a, b) => {
                    let v1 = wires1[a] ^ wires1[b];
                    let v2 = wires2[a] ^ wires2[b];
                    let v3 = wires3[a] ^ wires3[b];
                    wires1.push(v1);
                    wires2.push(v2);
                    wires3.push(v3);
                }
                Gate::XorConst(a, k) => {
                    let v1 = wires1[a] ^ k;
                    let v2 = wires2[a] ^ k;
                    let v3 = wires3[a] ^ k;
                    wires1.push(v1);
                    wires2.push(v2);
                    wires3.push(v3);
                }
                Gate::RotL(a, nn) => {
                    let v1 = rotate_left(wires1[a], nn);
                    let v2 = rotate_left(wires2[a], nn);
                    let v3 = rotate_left(wires3[a], nn);
                    wires1.push(v1);
                    wires2.push(v2);
                    wires3.push(v3);
                }
                Gate::RotR(a, nn) => {
                    let v1 = rotate_right(wires1[a], nn);
                    let v2 = rotate_right(wires2[a], nn);
                    let v3 = rotate_right(wires3[a], nn);
                    wires1.push(v1);
                    wires2.push(v2);
                    wires3.push(v3);
                }
                Gate::Shl(a, nn) => {
                    let v1 = shift_left(wires1[a], nn);
                    let v2 = shift_left(wires2[a], nn);
                    let v3 = shift_left(wires3[a], nn);
                    wires1.push(v1);
                    wires2.push(v2);
                    wires3.push(v3);
                }
                Gate::Shr(a, nn) => {
                    let v1 = shift_right(wires1[a], nn);
                    let v2 = shift_right(wires2[a], nn);
                    let v3 = shift_right(wires3[a], nn);
                    wires1.push(v1);
                    wires2.push(v2);
                    wires3.push(v3);
                }
            }
            g = g + 1;
        }
        let o1 = self.collect_output(&wires1);
        let o2 = self.collect_output(&wires2);
        let o3 = self.collect_output(&wires3);
        (o1, o2, o3)
    }

    /// The verifier-side two-party re-simulation: the opened party computes
    /// each AND message fresh while the next party's message is read back
    /// from its replayed view.  An opened record of the wrong shape fails
    /// with a reconstruction error.
    pub fn simulate_two_parties(&self, p: &mut Party, p_next: &mut Party) -> (r: Result<
        (Vec<u32>, Vec<u32>),
        Error,
    >)
        requires
            self.wf(),
            old(p).view.messages@.len() == 0,
            old(p).tape.words@.len() == self.spec_num_mul_gates(),
            old(p).tape.cursor == 0,
            old(p_next).view.cursor == 0,
            old(p_next).tape.words@.len() == self.spec_num_mul_gates(),
            old(p_next).tape.cursor == 0,
        ensures
            r is Ok <==> sim2_shapes_ok(*self, *old(p), *old(p_next)),
            r is Err ==> r == Err::<(Vec<u32>, Vec<u32>), Error>(Error::OutputReconstructionError)
                && *final(p) == *old(p) && *final(p_next) == *old(p_next),
            final(p).view.input@ == old(p).view.input@,
            final(p_next).view.input@ == old(p_next).view.input@,
            final(p_next).view.messages@ == old(p_next).view.messages@,
            r is Ok ==> final(p).view.messages@ == resim_msgs(
                *self,
                party_share_words(*old(p)),
                old(p).tape.words@,
                party_share_words(*old(p_next)),
                old(p_next).tape.words@,
                old(p_next).view.messages@,
                self.gates@.len() as int,
            ),
            r matches Ok(out) ==> out.0@ == replay_out_of(
                *self,
                old(p).view.input@,
                final(p).view.messages@,
            ) && out.1@ == replay_out_of(
                *self,
                old(p_next).view.input@,
                old(p_next).view.messages@,
            ),
    {
        let n_in = self.num_input_words;
        let m = self.num_of_mul_gates();
        let in_a = p.view.input.len();
        let in_b = p_next.view.input.len();
        let mlen = p_next.view.messages.len();
        if n_in > usize::MAX / 4 {
            proof {
                assert(n_in * 4 > usize::MAX);
            }
            return Err(Error::OutputReconstructionError);
        }
        let expected_input = n_in * 4;
        if in_a != expected_input || in_b != expected_input || mlen != m {
            return Err(Error::OutputReconstructionError);
        }
        let ghost c = *self;
        let ghost sa = party_share_words(*old(p));
        let ghost sb = party_share_words(*old(p_next));
        let ghost ta = old(p).tape.words@;
        let ghost tb = old(p_next).tape.words@;
        let ghost mb = old(p_next).view.messages@;
        let mut wires_a = generic_parse(&p.view.input, n_in);
        let mut wires_b = generic_parse(&p_next.view.input, n_in);
        let num_gates = self.gates.len();
        let mut g: usize = 0;
        while g < num_gates
            invariant
                c == *self,
                self.wf(),
                g <= num_gates,
                num_gates == self.gates@.len(),
                n_in == self.num_input_words,
                p.view.input@ == old(p).view.input@,
                p.view.input@.len() == n_in * 4,
                p.view.cursor == old(p).view.cursor,
                p_next.view.input@ == old(p_next).view.input@,
                p_next.view.messages@ == mb,
                mb.len() == self.spec_num_mul_gates(),
                p.tape.words@ == ta,
                p_next.tape.words@ == tb,
                ta.len() == self.spec_num_mul_gates(),
                tb.len() == self.spec_num_mul_gates(),
                p.tape.cursor == self.mul_gates_upto(g as int),
                p_next.tape.cursor == self.mul_gates_upto(g as int),
                p_next.view.cursor == self.mul_gates_upto(g as int),
                p.view.messages@ == resim_msgs(c, sa, ta, sb, tb, mb, g as int),
                wires_a@ == replay_wires(c, sa, p.view.messages@, g as int),
                wires_b@ == replay_wires(c, sb, mb, g as int),
                wires_a@.len() == n_in + g,
                wires_b@.len() == n_in + g,
            decreases num_gates - g,
        {
            let ghost gi = g as int;
            proof {
                assert(gate_wf(self.gates@[gi], self.num_input_words + gi));
                self.lemma_mul_upto_bounds(gi);
            }
            let gate = self.gates[g];
            match gate {
                Gate::And(a, b) => {
                    proof {
                        self.lemma_mul_upto_mono(gi + 1, num_gates as int);
                        assert(self.mul_gates_upto(gi + 1) == self.mul_gates_upto(gi) + 1);
                    }
                    let waa = wires_a[a];
                    let wab = wires_a[b];
                    let wba = wires_b[a];
                    let wbb = wires_b[b];
                    let ra = p.tape.next_word();
                    let rb = p_next.tape.next_word();
                    let za = (waa & wab) ^ (wba & wab) ^ (waa & wbb) ^ ra ^ rb;
                    let zb = p_next.view.read_next();
                    let ghost mold = p.view.messages@;
                    let ghost wolda = wires_a@;
                    p.view.send_msg(za);
                    wires_a.push(za);
                    wires_b.push(zb);
                    proof {
                        let k = c.mul_gates_upto(gi);
                        assert(resim_msgs(c, sa, ta, sb, tb, mb, gi + 1) == mold.push(za));
                        lemma_resim_len(c, sa, ta, sb, tb, mb, gi);
                        lemma_replay_agree(c, sa, mold.push(za), mold, gi);
                        assert(wires_a@ == replay_wires(c, sa, p.view.messages@, gi + 1));
                        assert(wires_b@ == replay_wires(c, sb, mb, gi + 1));
                    }
                }
                Gate::Xor(a, b) => {
                    let va = wires_a[a] ^ wires_a[b];
                    let vb = wires_b[a] ^ wires_b[b];
                    wires_a.push(va);
                    wires_b.push(vb);
                }
                Gate::XorConst(a, k) => {
                    let va = wires_a[a] ^ k;
                    let vb = wires_b[a] ^ k;
                    wires_a.push(va);
                    wires_b.push(vb);
                }
                Gate::RotL(a, nn) => {
                    let va = rotate_left(wires_a[a], nn);
                    let vb = rotate_left(wires_b[a], nn);
                    wires_a.push(va);
                    wires_b.push(vb);
                }
                Gate::RotR(a, nn) => {
                    let va = rotate_right(wires_a[a], nn);
                    let vb = rotate_right(wires_b[a], nn);
                    wires_a.push(va);
                    wires_b.push(vb);
                }
                Gate::Shl(a, nn) => {
                    let va = shift_left(wires_a[a], nn);
                    let vb = shift_left(wires_b[a], nn);
                    wires_a.push(va);
                    wires_b.push(vb);
                }
                Gate::Shr(a, nn) => {
                    let va = shift_right(wires_a[a], nn);
                    let vb = shift_right(wires_b[a], nn);
                    wires_a.push(va);
                    wires_b.push(vb);
                }
            }
            g = g + 1;
        }
        let oa = self.collect_output(&wires_a);
        let ob = self.collect_output(&wires_b);
        Ok((oa, ob))
    }
}

} // verus!
