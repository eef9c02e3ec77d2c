use plonky2x_u32::uint32::U32Variable;
use plonky2x_u32::vars::{BoolVariable, ByteVariable, CircuitVariable, EvmVariable, Variable};

fn bit_vars(first_index: usize) -> Vec<BoolVariable> {
    (0..32).map(|k| BoolVariable(Variable(first_index + k))).collect()
}

fn byte_spelled(byte: &ByteVariable, value_of: &dyn Fn(usize) -> u32) -> u32 {
    byte.0.iter().fold(0, |acc, bit| acc * 2 + value_of((bit.0).0))
}

#[test]
fn test_u32_evm() {
    let val = 0x12345678_u32;
    let var = U32Variable(Variable(0));
    // bit variable k (index k + 1) carries bit k of the value
    let bits = bit_vars(1);
    let value_of = |index: usize| (val >> (index - 1)) & 1;

    let encoded = U32Variable::encode_bits(&bits);
    assert_eq!(encoded.len(), 4);
    let bytes = [0x12, 0x34, 0x56, 0x78];
    for (i, byte) in encoded.iter().enumerate() {
        assert_eq!(byte_spelled(byte, &value_of), bytes[i]);
    }

    let decoded = U32Variable::decode_bits(&encoded[0..4]).unwrap();
    assert_eq!(decoded, bits);
    let sum: u64 = decoded
        .iter()
        .enumerate()
        .map(|(k, bit)| (value_of((bit.0).0) as u64) << k)
        .sum();
    assert_eq!(sum, val as u64);
    assert_eq!(var.variables(), vec![Variable(0)]);
}

#[test]
fn test_u32_evm_value() {
    let val = 0x12345678_u32;
    let encoded = U32Variable::encode_value(val);
    let decoded = U32Variable::decode_value(&encoded);
    assert_eq!(encoded[0], 0x12);
    assert_eq!(encoded[1], 0x34);
    assert_eq!(encoded[2], 0x56);
    assert_eq!(encoded[3], 0x78);
    assert_eq!(decoded, 0x12345678);
}

#[test]
fn encode_value_of_zero_and_max() {
    assert_eq!(U32Variable::encode_value(0), vec![0, 0, 0, 0]);
    assert_eq!(U32Variable::decode_value(&[0, 0, 0, 0]), 0);
    assert_eq!(U32Variable::encode_value(0xFFFF_FFFF), vec![0xFF, 0xFF, 0xFF, 0xFF]);
    assert_eq!(U32Variable::decode_value(&[0xFF, 0xFF, 0xFF, 0xFF]), 0xFFFF_FFFF);
}

#[test]
fn encode_value_is_big_endian() {
    for v in [1_u32, 0x100, 0xdead_beef, 0x8000_0000, 0x00ff_00ff] {
        assert_eq!(U32Variable::encode_value(v), v.to_be_bytes().to_vec());
    }
    assert_eq!(U32Variable::encode_value(1), vec![0, 0, 0, 1]);
}

#[test]
fn decode_value_reads_big_endian() {
    assert_eq!(U32Variable::decode_value(&[0xde, 0xad, 0xbe, 0xef]), 0xdead_beef);
    assert_eq!(U32Variable::decode_value(&[0, 0, 1, 0]), 0x100);
}

#[test]
fn plain_round_trip() {
    for v in [0_u32, 1, 255, 256, 0x1234_5678, 0x7fff_ffff, 0x8000_0000, u32::MAX] {
        assert_eq!(U32Variable::decode_value(&U32Variable::encode_value(v)), v);
    }
}

#[test]
fn encode_bits_layout() {
    let bits = bit_vars(100);
    let bytes = U32Variable::encode_bits(&bits);
    // first byte, first position: the most significant bit
    assert_eq!(bytes[0].0[0], BoolVariable(Variable(131)));
    assert_eq!(bytes[0].0[7], BoolVariable(Variable(124)));
    assert_eq!(bytes[3].0[0], BoolVariable(Variable(107)));
    assert_eq!(bytes[3].0[7], BoolVariable(Variable(100)));
}

#[test]
fn symbolic_round_trip() {
    let bits = bit_vars(7);
    let bytes = U32Variable::encode_bits(&bits);
    assert_eq!(U32Variable::decode_bits(&bytes), Some(bits));
}

#[test]
fn symbolic_bytes_match_plain_bytes() {
    for v in [0_u32, 0xFFFF_FFFF, 0xa1b2_c3d4] {
        let bits = bit_vars(0);
        let value_of = |index: usize| (v >> index) & 1;
        let bytes = U32Variable::encode_bits(&bits);
        let plain = U32Variable::encode_value(v);
        for i in 0..4 {
            assert_eq!(byte_spelled(&bytes[i], &value_of), plain[i] as u32);
        }
    }
}

#[test]
fn decode_bits_rejects_wrong_arity() {
    let bytes = U32Variable::encode_bits(&bit_vars(0));
    assert_eq!(U32Variable::decode_bits(&bytes[0..3]), None);
    assert_eq!(U32Variable::decode_bits(&[]), None);
    let mut five = bytes.clone();
    five.push(bytes[0]);
    assert_eq!(U32Variable::decode_bits(&five), None);
}

#[test]
fn variables_and_elements() {
    let var = U32Variable::from_variables(&[Variable(42)]);
    assert_eq!(var, U32Variable(Variable(42)));
    assert_eq!(var.variables(), vec![Variable(42)]);
    assert_eq!(U32Variable::elements(0x1234_5678), vec![0x1234_5678_u64]);
    assert_eq!(U32Variable::from_elements(&[0x1234_5678]), 0x1234_5678);
    assert_eq!(U32Variable::from_elements(&U32Variable::elements(u32::MAX)), u32::MAX);
}
