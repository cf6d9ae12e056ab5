//! Chromosome codec: random bit-string generation and decoding of a
//! bit-string into an instruction sequence of operand/operator tokens.
//!
//! Tokens are integers: `0..=9` are operand digits, `10..=13` are the
//! operators add, subtract, multiply, divide; `14` and `15` are invalid
//! genes and never survive decoding.

use vstd::prelude::*;
use crate::CHROMO_LENGTH;
use crate::GENE_COUNT;
use crate::GENE_LENGTH;
use crate::rng::rng_below;

verus! {

/// Token code of the add operator.
pub const OP_ADD: u32 = 10;

/// Token code of the subtract operator.
pub const OP_SUB: u32 = 11;

/// Token code of the multiply operator.
pub const OP_MUL: u32 = 12;

/// Token code of the divide operator.
pub const OP_DIV: u32 = 13;

/// Numeric value of one bit.
pub open spec fn bit_val(b: bool) -> int {
    if b {
        1
    } else {
        0
    }
}

/// Value of a 4-bit gene read most-significant bit first.
pub open spec fn nibble_val(s: Seq<bool>) -> int
    recommends
        s.len() == 4,
{
    8 * bit_val(s[0]) + 4 * bit_val(s[1]) + 2 * bit_val(s[2]) + bit_val(s[3])
}

/// Value of the `i`-th 4-bit gene of a chromosome.
pub open spec fn gene_at(bits: Seq<bool>, i: int) -> int {
    nibble_val(bits.subrange(4 * i, 4 * i + 4))
}

/// A token denoting an operand digit.
pub open spec fn is_operand(t: u32) -> bool {
    t <= 9
}

/// A token denoting an operator.
pub open spec fn is_op(t: u32) -> bool {
    10 <= t <= 13
}

/// The raw scan of genes `i..GENE_COUNT`: genes valued 14 or 15 are
/// dropped, and a gene is kept only when its role (operand or operator)
/// matches the scan state, which then flips.
pub open spec fn scan_genes(bits: Seq<bool>, i: int, expect_op: bool) -> Seq<u32>
    decreases GENE_COUNT - i,
{
    if i < 0 || i >= GENE_COUNT {
        Seq::empty()
    } else {
        let g = gene_at(bits, i);
        if !expect_op && 0 <= g < 10 {
            seq![g as u32] + scan_genes(bits, i + 1, true)
        } else if expect_op && 10 <= g < 14 {
            seq![g as u32] + scan_genes(bits, i + 1, false)
        } else {
            scan_genes(bits, i + 1, expect_op)
        }
    }
}

/// The divide-by-zero guard: every divide operator immediately followed
/// by a zero operand is rewritten to add.
pub open spec fn guard_genes(s: Seq<u32>) -> Seq<u32> {
    Seq::new(
        s.len(),
        |i: int|
            if s[i] == OP_DIV && i + 1 < s.len() && s[i + 1] == 0 {
                OP_ADD
            } else {
                s[i]
            },
    )
}

/// Drops a trailing operator so a non-empty sequence ends on an operand.
pub open spec fn trim_genes(s: Seq<u32>) -> Seq<u32> {
    if s.len() > 0 && is_op(s[s.len() - 1]) {
        s.drop_last()
    } else {
        s
    }
}

/// The instruction sequence decoded from a chromosome: scan, then the
/// divide-by-zero guard, then the trailing-operator trim.
pub open spec fn decode_spec(bits: Seq<bool>) -> Seq<u32> {
    trim_genes(guard_genes(scan_genes(bits, 0, false)))
}

/// Operands sit at even positions and operators at odd positions when
/// `first_operand` holds, and the other way round otherwise.
pub open spec fn alternates_from(s: Seq<u32>, first_operand: bool) -> bool {
    forall|k: int|
        0 <= k < s.len() ==> if (k % 2 == 0) == first_operand {
            is_operand(#[trigger] s[k])
        } else {
            is_op(s[k])
        }
}

/// A well-formed instruction sequence: operands and operators alternate,
/// starting with an operand, and the sequence never ends on an operator.
pub open spec fn wf_tokens(s: Seq<u32>) -> bool {
    &&& alternates_from(s, true)
    &&& s.len() > 0 ==> is_operand(s[s.len() - 1])
}

/// No divide operator is immediately followed by a zero operand.
pub open spec fn no_div_by_zero(s: Seq<u32>) -> bool {
    forall|k: int| 0 <= k < s.len() - 1 ==> !(#[trigger] s[k] == OP_DIV && s[k + 1] == 0)
}

proof fn lemma_scan_alternates(bits: Seq<bool>, i: int, expect_op: bool)
    ensures
        alternates_from(scan_genes(bits, i, expect_op), !expect_op),
    decreases GENE_COUNT - i,
{
    if i < 0 || i >= GENE_COUNT {
    } else {
        let g = gene_at(bits, i);
        if !expect_op && 0 <= g < 10 {
            lemma_scan_alternates(bits, i + 1, true);
            let rest = scan_genes(bits, i + 1, true);
            let s = seq![g as u32] + rest;
            assert forall|k: int| 0 <= k < s.len() implies if (k % 2 == 0) {
                is_operand(#[trigger] s[k])
            } else {
                is_op(s[k])
            } by {
                if k > 0 {
                    assert(s[k] == rest[k - 1]);
                }
            }
        } else if expect_op && 10 <= g < 14 {
            lemma_scan_alternates(bits, i + 1, false);
            let rest = scan_genes(bits, i + 1, false);
            let s = seq![g as u32] + rest;
            assert forall|k: int| 0 <= k < s.len() implies if (k % 2 == 0) {
                is_op(#[trigger] s[k])
            } else {
                is_operand(s[k])
            } by {
                if k > 0 {
                    assert(s[k] == rest[k - 1]);
                }
            }
        } else {
            lemma_scan_alternates(bits, i + 1, expect_op);
        }
    }
}

proof fn lemma_guard_alternates(s: Seq<u32>)
    requires
        alternates_from(s, true),
    ensures
        alternates_from(guard_genes(s), true),
        no_div_by_zero(guard_genes(s)),
{
    let g = guard_genes(s);
    assert forall|k: int| 0 <= k < g.len() implies if (k % 2 == 0) {
        is_operand(#[trigger] g[k])
    } else {
        is_op(g[k])
    } by {
        assert(g[k] == OP_ADD || g[k] == s[k]);
    }
    assert forall|k: int| 0 <= k < g.len() - 1 implies !(#[trigger] g[k] == OP_DIV && g[k + 1]
        == 0) by {
        if g[k] == OP_DIV {
            assert(s[k] == OP_DIV && !(s[k + 1] == 0));
            assert(g[k + 1] == OP_ADD || g[k + 1] == s[k + 1]);
        }
    }
}

/// The decoded instruction sequence is well formed: operands at even
/// positions, operators at odd positions, never ending on an operator,
/// and with no divide followed by a zero operand.
pub proof fn lemma_decode_wf(bits: Seq<bool>)
    ensures
        wf_tokens(decode_spec(bits)),
        no_div_by_zero(decode_spec(bits)),
{
    lemma_scan_alternates(bits, 0, false);
    let raw = scan_genes(bits, 0, false);
    lemma_guard_alternates(raw);
    let g = guard_genes(raw);
    let t = trim_genes(g);
    if g.len() > 0 && is_op(g[g.len() - 1]) {
        assert(t == g.drop_last());
        assert forall|k: int| 0 <= k < t.len() implies t[k] == g[k] by {}
        if t.len() > 0 {
            assert((g.len() - 1) % 2 == 1);
            assert((t.len() - 1) % 2 == 0);
        }
    }
}

proof fn lemma_scan_len(bits: Seq<bool>, i: int, expect_op: bool)
    requires
        0 <= i <= GENE_COUNT,
    ensures
        scan_genes(bits, i, expect_op).len() <= GENE_COUNT - i,
    decreases GENE_COUNT - i,
{
    if i < GENE_COUNT {
        lemma_scan_len(bits, i + 1, true);
        lemma_scan_len(bits, i + 1, false);
    }
}

/// A chromosome of `GENE_COUNT` genes decodes to at most `GENE_COUNT`
/// tokens.
pub proof fn lemma_decode_len(bits: Seq<bool>)
    ensures
        decode_spec(bits).len() <= GENE_COUNT,
{
    lemma_scan_len(bits, 0, false);
}

/// The character a token is printed as.
pub open spec fn token_char(t: u32) -> char {
    if t == 0 {
        '0'
    } else if t == 1 {
        '1'
    } else if t == 2 {
        '2'
    } else if t == 3 {
        '3'
    } else if t == 4 {
        '4'
    } else if t == 5 {
        '5'
    } else if t == 6 {
        '6'
    } else if t == 7 {
        '7'
    } else if t == 8 {
        '8'
    } else if t == 9 {
        '9'
    } else if t == OP_ADD {
        '+'
    } else if t == OP_SUB {
        '-'
    } else if t == OP_MUL {
        '*'
    } else {
        '/'
    }
}

/// The characters one token contributes to the printed expression: its
/// symbol and a trailing space; a token outside the grammar contributes
/// nothing.
pub open spec fn token_chars(t: u32) -> Seq<char> {
    if t <= 13 {
        seq![token_char(t), ' ']
    } else {
        Seq::empty()
    }
}

/// The printed form of an instruction sequence: each token's symbol
/// followed by a space.
pub open spec fn render_tokens(s: Seq<u32>) -> Seq<char>
    decreases s.len(),
{
    if s.len() == 0 {
        Seq::empty()
    } else {
        render_tokens(s.drop_last()) + token_chars(s.last())
    }
}

/// Renders an instruction sequence as the space-separated expression it
/// denotes: digits literally, operators as their arithmetic signs.
pub fn render_expression(genes: &Vec<u32>) -> (out: Vec<char>)
    ensures
        out@ == render_tokens(genes@),
{
    let mut out: Vec<char> = Vec::new();
    let mut i: usize = 0;
    while i < genes.len()
        invariant
            i <= genes@.len(),
            out@ == render_tokens(genes@.subrange(0, i as int)),
        decreases genes@.len() - i,
    {
        let t = genes[i];
        if t <= 13 {
            let c: char = if t == 0 {
                '0'
            } else if t == 1 {
                '1'
            } else if t == 2 {
                '2'
            } else if t == 3 {
                '3'
            } else if t == 4 {
                '4'
            } else if t == 5 {
                '5'
            } else if t == 6 {
                '6'
            } else if t == 7 {
                '7'
            } else if t == 8 {
                '8'
            } else if t == 9 {
                '9'
            } else if t == OP_ADD {
                '+'
            } else if t == OP_SUB {
                '-'
            } else if t == OP_MUL {
                '*'
            } else {
                '/'
            };
            out.push(c);
            out.push(' ');
        }
        proof {
            let pre = genes@.subrange(0, i as int);
            let cur = genes@.subrange(0, i + 1);
            assert(cur.drop_last() =~= pre);
            assert(cur.last() == genes@[i as int]);
            assert(out@ =~= render_tokens(pre) + token_chars(genes@[i as int]));
        }
        i = i + 1;
    }
    proof {
        assert(genes@.subrange(0, genes@.len() as int) =~= genes@);
    }
    out
}

/// Decoding is a pure function of the bit-string: any two instruction
/// sequences decoded from the same bits are identical.
pub proof fn lemma_decode_deterministic(a: Seq<u32>, b: Seq<u32>, bits: Seq<bool>)
    requires
        a == decode_spec(bits),
        b == decode_spec(bits),
    ensures
        a == b,
{
}

/// Decodes the 4 bits starting at `offset` as a binary number,
/// most-significant bit first.
pub fn bin_to_dec(bits: &Vec<bool>, offset: usize) -> (r: u32)
    requires
        offset + 4 <= bits.len(),
    ensures
        r == nibble_val(bits@.subrange(offset as int, offset + 4)),
        r < 16,
{
    let mut result: u32 = 0;
    if bits[offset] {
        result = result + 8;
    }
    if bits[offset + 1] {
        result = result + 4;
    }
    if bits[offset + 2] {
        result = result + 2;
    }
    if bits[offset + 3] {
        result = result + 1;
    }
    proof {
        let g = bits@.subrange(offset as int, offset + 4);
        assert(g[0] == bits@[offset as int]);
        assert(g[1] == bits@[offset + 1]);
        assert(g[2] == bits@[offset + 2]);
        assert(g[3] == bits@[offset + 3]);
    }
    result
}

/// Produces a fresh chromosome of `CHROMO_LENGTH` independent fair bits.
pub fn generate(rng: &mut rand::rngs::StdRng) -> (bits: Vec<bool>)
    ensures
        bits@.len() == CHROMO_LENGTH,
{
    let mut bits: Vec<bool> = Vec::new();
    let mut i: usize = 0;
    while i < CHROMO_LENGTH
        invariant
            i <= CHROMO_LENGTH,
            bits@.len() == i,
        decreases CHROMO_LENGTH - i,
    {
        let b = rng_below(rng, 2);
        bits.push(b == 1);
        i = i + 1;
    }
    bits
}

/// Decodes a chromosome into its instruction sequence: the scan with
/// alternating operand/operator roles, the divide-by-zero guard, and the
/// trailing-operator trim.
pub fn decode(bits: &Vec<bool>) -> (genes: Vec<u32>)
    requires
        bits@.len() == CHROMO_LENGTH,
    ensures
        genes@ == decode_spec(bits@),
        wf_tokens(genes@),
        no_div_by_zero(genes@),
        genes@.len() <= GENE_COUNT,
{
    let mut out: Vec<u32> = Vec::new();
    let mut expect_op = false;
    let mut i: usize = 0;
    while i < GENE_COUNT
        invariant
            i <= GENE_COUNT,
            bits@.len() == CHROMO_LENGTH,
            scan_genes(bits@, 0, false) == out@ + scan_genes(bits@, i as int, expect_op),
        decreases GENE_COUNT - i,
    {
        let g = bin_to_dec(bits, GENE_LENGTH * i);
        proof {
            assert(g == gene_at(bits@, i as int));
        }
        let ghost prev = out@;
        let ghost prev_state = expect_op;
        if g < 14 {
            if !expect_op {
                if g < 10 {
                    out.push(g);
                    expect_op = true;
                }
            } else {
                if g > 9 {
                    out.push(g);
                    expect_op = false;
                }
            }
        }
        proof {
            let tail = scan_genes(bits@, i + 1, expect_op);
            if out@ != prev {
                assert(scan_genes(bits@, i as int, prev_state) == seq![g] + tail);
                assert(prev + (seq![g] + tail) =~= (prev + seq![g]) + tail);
                assert(prev + seq![g] =~= prev.push(g));
            } else {
                assert(scan_genes(bits@, i as int, prev_state) == tail);
            }
        }
        i = i + 1;
    }
    proof {
        assert(out@ + scan_genes(bits@, GENE_COUNT as int, expect_op) =~= out@);
    }
    let ghost raw = out@;

    // divide-by-zero guard: rewrite each (divide, zero) pair to (add, zero)
    if out.len() >= 2 {
        let mut j: usize = 0;
        while j < out.len() - 1
            invariant
                out@.len() == raw.len(),
                raw.len() >= 2,
                j <= raw.len() - 1,
                forall|k: int| j <= k < raw.len() ==> out@[k] == raw[k],
                forall|k: int| 0 <= k < j ==> out@[k] == guard_genes(raw)[k],
            decreases out@.len() - j,
        {
            if out[j] == OP_DIV && out[j + 1] == 0 {
                out.set(j, OP_ADD);
            }
            j = j + 1;
        }
        proof {
            assert(out@[raw.len() - 1] == guard_genes(raw)[raw.len() - 1]);
            assert(out@ =~= guard_genes(raw));
        }
    } else {
        proof {
            assert(out@ =~= guard_genes(raw));
        }
    }

    // trailing-operator trim: never end on an operator
    if out.len() > 0 {
        let last = out[out.len() - 1];
        if last >= 10 && last <= 13 {
            out.pop();
            proof {
                assert(out@ =~= trim_genes(guard_genes(raw)));
            }
        }
    }
    proof {
        assert(out@ =~= decode_spec(bits@));
        lemma_decode_wf(bits@);
        lemma_decode_len(bits@);
    }
    out
}

} // verus!
