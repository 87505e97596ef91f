use openshmem::error::Error;
use openshmem::pod::{decode_values, encode_values, ByteOrder, DoubleBits, SingleBits};
use openshmem::rma::Pod;

fn roundtrip<T: Pod + PartialEq + std::fmt::Debug>(value: T) {
    let mut bytes = Vec::new();
    value.encode(&mut bytes);
    assert_eq!(T::decode(&bytes).unwrap(), value);
    assert_eq!(bytes.len(), T::SIZE);
}

#[test]
fn pod_covers_all_supported_scalar_types() {
    roundtrip(1_u8);
    roundtrip(-1_i8);
    roundtrip(2_u16);
    roundtrip(-2_i16);
    roundtrip(3_u32);
    roundtrip(-3_i32);
    roundtrip(4_u64);
    roundtrip(-4_i64);
    roundtrip(SingleBits(1.5_f32.to_bits()));
    roundtrip(DoubleBits((-2.5_f64).to_bits()));
}

#[test]
fn values_stand_in_native_order() {
    let mut bytes = vec![0xff];
    0x0102_u16.encode(&mut bytes);
    (-2_i32).encode(&mut bytes);
    0x0102_0304_0506_0708_u64.encode(&mut bytes);
    SingleBits(1.5_f32.to_bits()).encode(&mut bytes);
    DoubleBits((-2.5_f64).to_bits()).encode(&mut bytes);
    let mut expected = vec![0xff];
    expected.extend_from_slice(&0x0102_u16.to_ne_bytes());
    expected.extend_from_slice(&(-2_i32).to_ne_bytes());
    expected.extend_from_slice(&0x0102_0304_0506_0708_u64.to_ne_bytes());
    expected.extend_from_slice(&1.5_f32.to_ne_bytes());
    expected.extend_from_slice(&(-2.5_f64).to_ne_bytes());
    assert_eq!(bytes, expected);
    assert_eq!(i64::decode(&(-9_i64).to_ne_bytes()), Ok(-9));
    assert_eq!(SingleBits::decode(&0.25_f32.to_ne_bytes()), Ok(SingleBits(0.25_f32.to_bits())));
}

#[test]
fn wrong_byte_counts_are_refused() {
    let refused = Error::Internal("invalid typed RMA byte count");
    assert_eq!(u8::decode(&[]), Err(refused));
    assert_eq!(u32::decode(&[1, 2, 3]), Err(refused));
    assert_eq!(i64::decode(&[0; 9]), Err(refused));
    assert_eq!(DoubleBits::decode(&[0; 4]), Err(refused));
}

#[test]
fn orders_mirror_each_other() {
    assert_eq!(encode_values(ByteOrder::Little, &[0x0102_0304_u32]), [4, 3, 2, 1]);
    assert_eq!(encode_values(ByteOrder::Big, &[0x0102_0304_u32]), [1, 2, 3, 4]);
    assert_eq!(encode_values(ByteOrder::Little, &[-2_i16, 1]), [0xfe, 0xff, 1, 0]);
    assert_eq!(encode_values(ByteOrder::Big, &[-2_i16, 1]), [0xff, 0xfe, 0, 1]);
    assert_eq!(encode_values::<u64>(ByteOrder::Big, &[]), []);
    assert_eq!(ByteOrder::of_one([1, 0]), ByteOrder::Little);
    assert_eq!(ByteOrder::of_one([0, 1]), ByteOrder::Big);
}

#[test]
fn decoding_undoes_encoding_in_either_order() {
    let values = [i64::MIN, -1, 0, 1, i64::MAX];
    for order in [ByteOrder::Little, ByteOrder::Big] {
        assert_eq!(decode_values::<i64>(order, &encode_values(order, &values)), values);
        assert_eq!(decode_values::<i8>(order, &encode_values(order, &[i8::MIN, -1, 0])), [i8::MIN, -1, 0]);
        assert_eq!(
            decode_values::<u16>(order, &encode_values(order, &[0_u16, 255, 256, u16::MAX])),
            [0, 255, 256, u16::MAX]
        );
    }
}

#[test]
fn encoding_undoes_decoding_of_whole_chunks() {
    let bytes = [0xff, 0, 1, 0x80, 7, 9, 0xfe, 3];
    for order in [ByteOrder::Little, ByteOrder::Big] {
        assert_eq!(encode_values(order, &decode_values::<i16>(order, &bytes)), bytes);
        assert_eq!(encode_values(order, &decode_values::<u64>(order, &bytes)), bytes);
        assert_eq!(encode_values(order, &decode_values::<DoubleBits>(order, &bytes)), bytes);
    }
}

#[test]
fn encoding_distributes_over_concatenation() {
    for order in [ByteOrder::Little, ByteOrder::Big] {
        let mut parts = encode_values(order, &[1_i32, -2]);
        parts.extend(encode_values(order, &[3_i32]));
        assert_eq!(encode_values(order, &[1_i32, -2, 3]), parts);
    }
}

#[test]
fn different_values_have_different_bytes() {
    for order in [ByteOrder::Little, ByteOrder::Big] {
        assert_ne!(encode_values(order, &[1_u16, 0]), encode_values(order, &[0_u16, 1]));
        assert_ne!(encode_values(order, &[-1_i32]), encode_values(order, &[1_i32]));
    }
}

#[test]
fn an_incomplete_last_chunk_is_left_out() {
    assert_eq!(decode_values::<u16>(ByteOrder::Little, &[1, 0, 2, 0, 3]), [1, 2]);
    assert_eq!(decode_values::<u32>(ByteOrder::Big, &[0, 0, 0]), []);
}
