use crate::vars::{BoolVariable, ByteVariable, CircuitVariable, EvmVariable, Variable};
use vstd::prelude::*;

verus! {

/// Byte `i` (0 = most significant) of the big-endian encoding of `v`.
pub open spec fn be_byte(v: u32, i: int) -> u8 {
    ((v >> ((24 - 8 * i) as u32)) & 0xff) as u8
}

/// The four bytes of `v`, most significant first.
pub open spec fn be_bytes(v: u32) -> Seq<u8> {
    seq![be_byte(v, 0), be_byte(v, 1), be_byte(v, 2), be_byte(v, 3)]
}

/// The number whose big-endian base-256 digits are the four bytes of `b`.
pub open spec fn be_value(b: Seq<u8>) -> int {
    b[0] * 0x100_0000 + b[1] * 0x1_0000 + b[2] * 0x100 + b[3]
}

/// How the encoding lays out the 32 bits of a little-endian decomposition
/// (`bits[k]` weighs `2^k`) in four bytes: most significant byte first, and
/// within each byte most significant bit first, so that position `j` of byte
/// `i` holds bit `31 - 8 * i - j`.
pub open spec fn byte_layout(bits: Seq<BoolVariable>, bytes: Seq<ByteVariable>) -> bool {
    &&& bits.len() == 32
    &&& bytes.len() == 4
    &&& forall|i: int, j: int|
        0 <= i < 4 && 0 <= j < 8 ==> #[trigger] bytes[i].0@[j] == bits[31 - 8 * i - j]
}

/// A circuit variable for a 32-bit unsigned integer, backed by a single
/// field element.
#[derive(Debug, Clone, Copy, PartialEq, Eq, Structural)]
pub struct U32Variable(pub Variable);

impl CircuitVariable for U32Variable {
    type ValueType = u32;

    open spec fn arity() -> nat {
        1
    }

    open spec fn spec_variables(&self) -> Seq<Variable> {
        seq![self.0]
    }

    /// A 32-bit value is its own canonical representative.
    open spec fn spec_elements(value: u32) -> Seq<u64> {
        seq![value as u64]
    }

    fn variables(&self) -> (r: Vec<Variable>) {
        vec![self.0]
    }

    fn from_variables(variables: &[Variable]) -> (r: Self) {
        U32Variable(variables[0])
    }

    fn elements(value: u32) -> (r: Vec<u64>) {
        vec![value as u64]
    }

    fn from_elements(elements: &[u64]) -> (r: u32) {
        elements[0] as u32
    }
}


impl U32Variable {
    /// Groups the 32 bits of a little-endian decomposition of the variable
    /// into its four bytes, as `byte_layout` describes.
    pub fn encode_bits(bits: &[BoolVariable]) -> (r: Vec<ByteVariable>)
        requires
            bits@.len() == 32,
        ensures
            byte_layout(bits@, r@),
    {
        let mut bytes: Vec<ByteVariable> = Vec::new();
        let mut i: usize = 0;
        while i < 4
            invariant
                i <= 4,
                bits@.len() == 32,
                bytes@.len() == i,
                forall|a: int, j: int|
                    0 <= a < i && 0 <= j < 8 ==> #[trigger] bytes@[a].0@[j] == bits@[31 - 8 * a - j],
            decreases 4 - i,
        {
            let top: usize = 31 - 8 * i;
            let arr: [BoolVariable; 8] = [
                bits[top],
                bits[top - 1],
                bits[top - 2],
                bits[top - 3],
                bits[top - 4],
                bits[top - 5],
                bits[top - 6],
                bits[top - 7],
            ];
            bytes.push(ByteVariable(arr));
            i = i + 1;
        }
        bytes
    }

    /// The bits of four encoded bytes, put back in little-endian order (the
    /// bit at index `k` weighs `2^k`); `None` when `bytes` does not hold
    /// exactly four bytes.
    pub fn decode_bits(bytes: &[ByteVariable]) -> (r: Option<Vec<BoolVariable>>)
        ensures
            r.is_none() <==> bytes@.len() != 4,
            r matches Some(bits) ==> byte_layout(bits@, bytes@),
    {
        if bytes.len() != 4 {
            return None;
        }
        let mut flat: Vec<BoolVariable> = Vec::new();
        let mut i: usize = 0;
        while i < 4
            invariant
                i <= 4,
                bytes@.len() == 4,
                flat@.len() == 8 * i,
                forall|a: int, j: int|
                    0 <= a < i && 0 <= j < 8 ==> flat@[8 * a + j] == #[trigger] bytes@[a].0@[j],
            decreases 4 - i,
        {
            let byte = bytes[i];
            let mut j: usize = 0;
            while j < 8
                invariant
                    i < 4,
                    j <= 8,
                    bytes@.len() == 4,
                    byte == bytes@[i as int],
                    flat@.len() == 8 * i + j,
                    forall|a: int, c: int|
                        0 <= a < i && 0 <= c < 8 ==> flat@[8 * a + c] == #[trigger] bytes@[a].0@[c],
                    forall|c: int| 0 <= c < j ==> flat@[8 * i + c] == #[trigger] byte.0@[c],
                decreases 8 - j,
            {
                flat.push(byte.0[j]);
                j = j + 1;
            }
            i = i + 1;
        }
        let mut bits: Vec<BoolVariable> = Vec::new();
        let mut k: usize = 0;
        while k < 32
            invariant
                k <= 32,
                flat@.len() == 32,
                bits@.len() == k,
                forall|m: int| 0 <= m < k ==> #[trigger] bits@[m] == flat@[31 - m],
            decreases 32 - k,
        {
            bits.push(flat[31 - k]);
            k = k + 1;
        }
        proof {
            assert forall|a: int, j: int| 0 <= a < 4 && 0 <= j < 8 implies #[trigger] bytes@[a].0@[j]
                == bits@[31 - 8 * a - j] by {
                assert(bits@[31 - 8 * a - j] == flat@[8 * a + j]);
            }
        }
        Some(bits)
    }
}

impl EvmVariable for U32Variable {
    type ValueType = u32;

    open spec fn byte_len() -> nat {
        4
    }

    /// Big-endian: most significant byte first.
    open spec fn spec_encode(value: u32) -> Seq<u8> {
        be_bytes(value)
    }

    /// The big-endian bytes of `value`, most significant first.
    fn encode_value(value: u32) -> (r: Vec<u8>) {
        let mut bytes: Vec<u8> = Vec::new();
        let mut i: u32 = 0;
        while i < 4
            invariant
                i <= 4,
                bytes@.len() == i,
                forall|k: int| 0 <= k < i ==> bytes@[k] == be_byte(value, k),
            decreases 4 - i,
        {
            let shift: u32 = (4 - i - 1) * 8;
            bytes.push(((value >> shift) & 0xff) as u8);
            i = i + 1;
        }
        proof {
            assert(bytes@ =~= be_bytes(value));
        }
        bytes
    }

    /// The number whose big-endian bytes are `bytes`.
    fn decode_value(bytes: &[u8]) -> (r: u32) {
        let b0 = bytes[0];
        let b1 = bytes[1];
        let b2 = bytes[2];
        let b3 = bytes[3];
        let value: u32 = ((b0 as u32) << 24) | ((b1 as u32) << 16) | ((b2 as u32) << 8) | (b3 as u32);
        proof {
            lemma_or_of_shifted_bytes(b0, b1, b2, b3);
            assert(be_bytes(value) =~= bytes@);
        }
        value
    }
}

/// Decoding the plain encoding of a value gives the value back: the
/// big-endian bytes of `v`, read as base-256 digits, make `v`.
pub proof fn lemma_value_round_trip(v: u32)
    ensures
        be_value(be_bytes(v)) == v as int,
{
    assert(((v >> 24u32) & 0xff) * 0x100_0000 + ((v >> 16u32) & 0xff) * 0x1_0000
        + ((v >> 8u32) & 0xff) * 0x100 + ((v >> 0u32) & 0xff) == v) by (bit_vector);
    assert(((v >> 24u32) & 0xff) < 0x100 && ((v >> 16u32) & 0xff) < 0x100
        && ((v >> 8u32) & 0xff) < 0x100 && ((v >> 0u32) & 0xff) < 0x100) by (bit_vector);
}

proof fn lemma_or_of_shifted_bytes(b0: u8, b1: u8, b2: u8, b3: u8)
    ensures
        ({
            let v = ((b0 as u32) << 24) | ((b1 as u32) << 16) | ((b2 as u32) << 8) | (b3 as u32);
            &&& be_byte(v, 0) == b0
            &&& be_byte(v, 1) == b1
            &&& be_byte(v, 2) == b2
            &&& be_byte(v, 3) == b3
        }),
{
    let v = ((b0 as u32) << 24) | ((b1 as u32) << 16) | ((b2 as u32) << 8) | (b3 as u32);
    assert(((v >> 24u32) & 0xff) as u8 == b0 && ((v >> 16u32) & 0xff) as u8 == b1
        && ((v >> 8u32) & 0xff) as u8 == b2 && ((v >> 0u32) & 0xff) as u8 == b3) by (bit_vector)
        requires
            v == ((b0 as u32) << 24) | ((b1 as u32) << 16) | ((b2 as u32) << 8) | (b3 as u32),
    ;
}

/// The number that a byte of bit variables spells under `value`, the witness
/// value of each bit variable, reading the most significant bit first.
pub open spec fn byte_value(byte: ByteVariable, value: spec_fn(BoolVariable) -> u32) -> int {
    value(byte.0@[0]) * 128 + value(byte.0@[1]) * 64 + value(byte.0@[2]) * 32 + value(byte.0@[3]) * 16
        + value(byte.0@[4]) * 8 + value(byte.0@[5]) * 4 + value(byte.0@[6]) * 2 + value(byte.0@[7])
}

/// Decoding the bytes of an encoding gives back the bit variables that were
/// encoded, in their order: two bit sequences laid out as the same bytes are
/// the same sequence.
pub proof fn lemma_decode_inverts_encode(
    bits: Seq<BoolVariable>,
    bytes: Seq<ByteVariable>,
    decoded: Seq<BoolVariable>,
)
    requires
        byte_layout(bits, bytes),
        byte_layout(decoded, bytes),
    ensures
        decoded == bits,
{
    assert forall|k: int| 0 <= k < 32 implies decoded[k] == bits[k] by {
        let i = (31 - k) / 8;
        let j = (31 - k) % 8;
        assert(bytes[i].0@[j] == bits[31 - 8 * i - j]);
    }
    assert(decoded =~= bits);
}

/// Where the bits carry the little-endian binary digits of `v` (as the
/// 32-bit range decomposition constrains them), byte `i` of the encoding
/// spells byte `i` of the plain encoding of `v`.
pub proof fn lemma_encoding_agrees_with_plain(
    bits: Seq<BoolVariable>,
    bytes: Seq<ByteVariable>,
    value: spec_fn(BoolVariable) -> u32,
    v: u32,
)
    requires
        byte_layout(bits, bytes),
        forall|k: int| 0 <= k < 32 ==> value(#[trigger] bits[k]) == (v >> (k as u32)) & 1,
    ensures
        forall|i: int| 0 <= i < 4 ==> byte_value(#[trigger] bytes[i], value) == be_bytes(v)[i] as int,
{
    assert forall|i: int| 0 <= i < 4 implies byte_value(#[trigger] bytes[i], value) == be_bytes(v)[i] as int by {
        let s = (24 - 8 * i) as u32;
        lemma_byte_from_bits(v, s);
        assert forall|j: int| 0 <= j < 8 implies value(#[trigger] bytes[i].0@[j]) == (v >> ((s + 7 - j) as u32)) & 1 by {
            assert(bytes[i].0@[j] == bits[31 - 8 * i - j]);
        }
        assert(value(bytes[i].0@[0]) == (v >> ((s + 7) as u32)) & 1);
        assert(value(bytes[i].0@[1]) == (v >> ((s + 6) as u32)) & 1);
        assert(value(bytes[i].0@[2]) == (v >> ((s + 5) as u32)) & 1);
        assert(value(bytes[i].0@[3]) == (v >> ((s + 4) as u32)) & 1);
        assert(value(bytes[i].0@[4]) == (v >> ((s + 3) as u32)) & 1);
        assert(value(bytes[i].0@[5]) == (v >> ((s + 2) as u32)) & 1);
        assert(value(bytes[i].0@[6]) == (v >> ((s + 1) as u32)) & 1);
        assert(value(bytes[i].0@[7]) == (v >> s) & 1);
    }
}

proof fn lemma_byte_from_bits(v: u32, s: u32)
    requires
        s <= 24,
    ensures
        ((v >> s) & 0xff) < 0x100,
        ((v >> s) & 0xff) as int == ((v >> ((s + 7) as u32)) & 1) * 128 + ((v >> ((s + 6) as u32)) & 1) * 64
            + ((v >> ((s + 5) as u32)) & 1) * 32 + ((v >> ((s + 4) as u32)) & 1) * 16
            + ((v >> ((s + 3) as u32)) & 1) * 8 + ((v >> ((s + 2) as u32)) & 1) * 4
            + ((v >> ((s + 1) as u32)) & 1) * 2 + ((v >> s) & 1),
{
    assert(((v >> s) & 0xff) < 0x100) by (bit_vector);
    assert(((v >> s) & 0xff) == ((v >> ((s + 7) as u32)) & 1) * 128 + ((v >> ((s + 6) as u32)) & 1) * 64
        + ((v >> ((s + 5) as u32)) & 1) * 32 + ((v >> ((s + 4) as u32)) & 1) * 16 + ((v >> ((s + 3) as u32)) & 1) * 8
        + ((v >> ((s + 2) as u32)) & 1) * 4 + ((v >> ((s + 1) as u32)) & 1) * 2 + ((v >> s) & 1)) by (bit_vector)
        requires
            s <= 24,
    ;
}

/// The number that bit variables spell under `value`, the witness value of
/// each bit variable, the bit at index `k` weighing `2^k`.
pub open spec fn le_value(bits: Seq<BoolVariable>, value: spec_fn(BoolVariable) -> u32) -> int
    decreases bits.len(),
{
    if bits.len() == 0 {
        0
    } else {
        value(bits[0]) + 2 * le_value(bits.drop_first(), value)
    }
}

/// Encoding and then decoding gives back the same number: where the bits
/// carry the little-endian binary digits of `v`, the bits that decoding
/// recovers from the encoded bytes, summed with their weights, make `v`.
pub proof fn lemma_symbolic_round_trip(
    bits: Seq<BoolVariable>,
    bytes: Seq<ByteVariable>,
    decoded: Seq<BoolVariable>,
    value: spec_fn(BoolVariable) -> u32,
    v: u32,
)
    requires
        byte_layout(bits, bytes),
        byte_layout(decoded, bytes),
        forall|k: int| 0 <= k < 32 ==> value(#[trigger] bits[k]) == (v >> (k as u32)) & 1,
    ensures
        le_value(decoded, value) == v as int,
{
    lemma_decode_inverts_encode(bits, bytes, decoded);
    lemma_le_value_of_digits(bits, value, v, 0);
    assert(bits.subrange(0, 32) =~= bits);
    assert(v >> 0u32 == v) by (bit_vector);
}

proof fn lemma_le_value_of_digits(
    bits: Seq<BoolVariable>,
    value: spec_fn(BoolVariable) -> u32,
    v: u32,
    k: int,
)
    requires
        0 <= k < 32,
        bits.len() == 32,
        forall|m: int| 0 <= m < 32 ==> value(#[trigger] bits[m]) == (v >> (m as u32)) & 1,
    ensures
        le_value(bits.subrange(k, 32), value) == (v >> (k as u32)) as int,
    decreases 32 - k,
{
    let rest = bits.subrange(k, 32);
    let s = k as u32;
    assert(value(bits[k]) == (v >> s) & 1);
    assert(rest[0] == bits[k]);
    assert(le_value(rest, value) == value(rest[0]) + 2 * le_value(rest.drop_first(), value));
    if k == 31 {
        assert(rest.drop_first() =~= Seq::<BoolVariable>::empty());
        assert(le_value(rest.drop_first(), value) == 0);
        assert(((v >> s) & 1) == v >> s) by (bit_vector)
            requires
                s == 31,
        ;
    } else {
        lemma_le_value_of_digits(bits, value, v, k + 1);
        assert(rest.drop_first() =~= bits.subrange(k + 1, 32));
        assert((k + 1) as u32 == (s + 1) as u32);
        assert((v >> s) == ((v >> s) & 1) + 2 * (v >> ((s + 1) as u32))) by (bit_vector)
            requires
                s < 31,
        ;
    }
}

} // verus!
