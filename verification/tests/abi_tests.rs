use wasm_bridge::layout::SizeDescription;
use wasm_bridge::lift::{from_js_ptr_return, read_vec_from, u8_to_bool, AbiError, Lift};
use wasm_bridge::js::JsValue;
use wasm_bridge::lower::{store_value, to_js_ptr_return, write_vec_data, Lower};
use wasm_bridge::memory::{ByteBuffer, LinearMemory, MemoryError, ReadableMemory, WriteableMemory};

fn memory_with(bytes: Vec<u8>) -> LinearMemory {
    LinearMemory::from_bytes(bytes).unwrap()
}

#[test]
fn byte_buffer_writes_and_skips() {
    let mut buffer = ByteBuffer::new(16, 8);
    assert_eq!(buffer.address(), 16);
    assert!(buffer.data().is_empty());
    buffer.write_bytes(&[1, 2, 3]);
    buffer.skip(2);
    buffer.write_bytes(&[9]);
    assert_eq!(buffer.data(), &[1, 2, 3, 0, 0, 9]);
    assert_eq!(buffer.address(), 16);
}

#[test]
fn allocation_is_aligned_and_fresh() {
    let mut memory = LinearMemory::new();
    let first = memory.allocate(1, 3).unwrap();
    assert_eq!(first.address(), 0);
    let second = memory.allocate(4, 4).unwrap();
    assert_eq!(second.address(), 4);
    assert_eq!(memory.byte_len(), 8);
    let third = memory.allocate(8, 1).unwrap();
    assert_eq!(third.address(), 8);
    assert_eq!(memory.byte_len(), 9);
}

#[test]
fn allocation_beyond_32_bits_fails() {
    let mut memory = LinearMemory::new();
    assert_eq!(memory.allocate(1, usize::MAX).err(), Some(MemoryError::OutOfMemory));
    assert_eq!(memory.allocate(1, 0x1_0000_0001).err(), Some(MemoryError::OutOfMemory));
    let _ = memory.allocate(1, 5).unwrap();
    assert_eq!(memory.allocate(8, 0xffff_fff9).err(), Some(MemoryError::OutOfMemory));
    assert_eq!(memory.byte_len(), 5);
}

#[test]
fn allocation_with_alignment_above_8_fails() {
    let mut memory = LinearMemory::new();
    assert_eq!(memory.allocate(16, 1).err(), Some(MemoryError::AlignTooLarge(16)));
    assert_eq!(memory.byte_len(), 0);
    assert_eq!(memory.allocate(8, 1).unwrap().address(), 0);
}

#[test]
fn flush_writes_at_address() {
    let mut memory = LinearMemory::new();
    let _ = memory.allocate(1, 2).unwrap();
    let mut buffer = memory.allocate(2, 4).unwrap();
    buffer.write_bytes(&[7, 8, 9, 10]);
    let addr = memory.flush(buffer);
    assert_eq!(addr, 2);
    assert_eq!(memory.bytes(), &[0, 0, 7, 8, 9, 10]);
    assert_eq!(memory.read_to_vec(3, 2), vec![8, 9]);
}

#[test]
fn lift_primitives_little_endian() {
    let memory = LinearMemory::new();
    assert_eq!(u32::read_from(&[1, 2, 0, 0], &memory), Ok(0x0201));
    assert_eq!(i16::read_from(&[0xfe, 0xff], &memory), Ok(-2));
    assert_eq!(u64::read_from(&[1, 0, 0, 0, 0, 0, 0, 0x80], &memory), Ok(0x8000_0000_0000_0001));
    assert_eq!(i8::read_from(&[0x80], &memory), Ok(-128));
    assert_eq!(i64::read_from(&[0xff; 8], &memory), Ok(-1));
    assert_eq!(u8::read_from(&[200], &memory), Ok(200));
}

#[test]
fn lift_primitive_from_wrong_length_fails() {
    let memory = LinearMemory::new();
    assert_eq!(u32::read_from(&[1, 2, 3, 4, 5], &memory), Err(AbiError::WrongLength));
    assert_eq!(u16::read_from(&[1, 2, 3], &memory), Err(AbiError::WrongLength));
    assert_eq!(u32::read_from(&[1, 2], &memory), Err(AbiError::WrongLength));
    assert_eq!(u64::read_from(&[], &memory), Err(AbiError::WrongLength));
}

#[test]
fn lift_list_header_of_wrong_length_fails() {
    let memory = LinearMemory::new();
    assert_eq!(Vec::<u32>::read_from(&[0, 0, 0], &memory), Err(AbiError::BadListHeader));
    assert_eq!(Vec::<u8>::read_from(&[0; 9], &memory), Err(AbiError::BadListHeader));
    assert_eq!(String::read_from(&[], &memory), Err(AbiError::BadListHeader));
    assert_eq!(Vec::<u8>::read_from(&[0; 8], &memory), Ok(vec![]));
}

#[test]
fn lift_padded_result() {
    let memory = LinearMemory::new();
    let ok: Result<Result<u16, (u8, u8, u8)>, AbiError> =
        Result::<u16, (u8, u8, u8)>::read_from(&[0, 0, 3, 1, 0xee, 0xee], &memory);
    assert_eq!(ok, Ok(Ok(0x103)));
    let err: Result<Result<u16, (u8, u8, u8)>, AbiError> =
        Result::<u16, (u8, u8, u8)>::read_from(&[1, 0, 4, 5, 6, 0xee], &memory);
    assert_eq!(err, Ok(Err((4, 5, 6))));
}

#[test]
fn lift_bool() {
    let memory = LinearMemory::new();
    assert_eq!(u8_to_bool(0), Ok(false));
    assert_eq!(u8_to_bool(1), Ok(true));
    assert_eq!(u8_to_bool(2), Err(AbiError::InvalidBool(2)));
    assert_eq!(bool::read_from(&[1], &memory), Ok(true));
    assert_eq!(bool::read_from(&[7], &memory), Err(AbiError::InvalidBool(7)));
}

#[test]
fn lift_char() {
    let memory = LinearMemory::new();
    assert_eq!(char::read_from(&[0x41, 0, 0, 0], &memory), Ok('A'));
    assert_eq!(char::read_from(&[0x00, 0xd8, 0, 0], &memory), Err(AbiError::InvalidChar(0xd800)));
    assert_eq!(
        char::read_from(&[0x00, 0x00, 0x11, 0], &memory),
        Err(AbiError::InvalidChar(0x11_0000))
    );
}

#[test]
fn lift_option() {
    let memory = LinearMemory::new();
    assert_eq!(Option::<u32>::read_from(&[0, 0, 0, 0, 9, 9, 9, 9], &memory), Ok(None));
    assert_eq!(Option::<u32>::read_from(&[1, 0, 0, 0, 5, 0, 0, 0], &memory), Ok(Some(5)));
    assert_eq!(
        Option::<u32>::read_from(&[2, 0, 0, 0, 5, 0, 0, 0], &memory),
        Err(AbiError::InvalidTag(2))
    );
    assert_eq!(Option::<u8>::read_from(&[1, 3], &memory), Ok(Some(3)));
}

#[test]
fn lift_result() {
    let memory = LinearMemory::new();
    let ok: Result<Result<u8, u32>, AbiError> =
        Result::<u8, u32>::read_from(&[0, 0, 0, 0, 7, 0, 0, 0], &memory);
    assert_eq!(ok, Ok(Ok(7)));
    let err: Result<Result<u8, u32>, AbiError> =
        Result::<u8, u32>::read_from(&[1, 0, 0, 0, 7, 1, 0, 0], &memory);
    assert_eq!(err, Ok(Err(0x107)));
    let bad: Result<Result<u8, u32>, AbiError> =
        Result::<u8, u32>::read_from(&[3, 0, 0, 0, 7, 1, 0, 0], &memory);
    assert_eq!(bad, Err(AbiError::InvalidTag(3)));
}

#[test]
fn lift_tuples() {
    let memory = LinearMemory::new();
    assert_eq!(<(u8, u32)>::read_from(&[9, 0xaa, 0xaa, 0xaa, 1, 0, 0, 0], &memory), Ok((9, 1)));
    assert_eq!(
        <(u8, u16, u8)>::read_from(&[1, 0, 2, 0, 3, 0], &memory),
        Ok((1, 2, 3))
    );
    assert_eq!(<(u8,)>::read_from(&[4], &memory), Ok((4,)));
    assert_eq!(<()>::read_from(&[], &memory), Ok(()));
}

#[test]
fn lift_list_and_string_from_memory() {
    // "hi" at address 4, then [0x10, 0x20] as u16 at address 8
    let memory = memory_with(vec![0, 0, 0, 0, b'h', b'i', 0, 0, 0x10, 0, 0x20, 0]);
    assert_eq!(String::read_from(&[4, 0, 0, 0, 2, 0, 0, 0], &memory), Ok("hi".to_string()));
    assert_eq!(Vec::<u16>::read_from(&[8, 0, 0, 0, 2, 0, 0, 0], &memory), Ok(vec![0x10, 0x20]));
    assert_eq!(read_vec_from::<u8, _>(4, 2, &memory), Ok(vec![b'h', b'i']));
}

#[test]
fn lift_list_errors() {
    let memory = memory_with(vec![0xff, 0xfe, 0, 0]);
    assert_eq!(Vec::<u8>::read_from(&[0, 0, 0, 0, 2, 0, 0, 0, 0], &memory), Err(AbiError::BadListHeader));
    assert_eq!(Vec::<u8>::read_from(&[2, 0, 0, 0, 5, 0, 0, 0], &memory), Err(AbiError::OutOfBounds));
    assert_eq!(String::read_from(&[0, 0, 0, 0, 2, 0, 0, 0], &memory), Err(AbiError::InvalidUtf8));
    assert_eq!(Vec::<bool>::read_from(&[0, 0, 0, 0, 1, 0, 0, 0], &memory), Err(AbiError::InvalidBool(0xff)));
}

#[test]
fn lift_from_pointer() {
    let memory = memory_with(vec![0, 0, 0, 0, 1, 0, 0, 0, 2, 0, 0, 0]);
    assert_eq!(from_js_ptr_return::<(u32, u32), _>(&JsValue::from_int(4), &memory), Ok((1, 2)));
    assert_eq!(
        from_js_ptr_return::<(u32, u32), _>(&JsValue::from_int(8), &memory),
        Err(AbiError::OutOfBounds)
    );
    assert_eq!(
        from_js_ptr_return::<(u32, u32), _>(&JsValue::Null, &memory),
        Err(AbiError::UnexpectedJsValue)
    );
}

#[test]
fn lower_primitives() {
    let mut memory = LinearMemory::new();
    let mut buffer = ByteBuffer::new(0, 8);
    0x0403_0201u32.write_to(&mut buffer, &mut memory).unwrap();
    (-2i32).write_to(&mut buffer, &mut memory).unwrap();
    assert_eq!(buffer.data(), &[1, 2, 3, 4, 0xfe, 0xff, 0xff, 0xff]);
    assert_eq!(memory.byte_len(), 0);
}

#[test]
fn lower_pair_writes_its_byte_size() {
    let mut memory = LinearMemory::new();
    let mut buffer = ByteBuffer::new(0, 8);
    (5u32, 6i32).write_to(&mut buffer, &mut memory).unwrap();
    assert_eq!(buffer.data().len(), <(u32, i32) as SizeDescription>::flat_byte_size());
    assert_eq!(buffer.data(), &[5, 0, 0, 0, 6, 0, 0, 0]);
    let mut buffer = ByteBuffer::new(0, 12);
    (1u32, 2u32, 3u32).write_to(&mut buffer, &mut memory).unwrap();
    assert_eq!(buffer.data().len(), 12);
    buffer.write(&(), &mut memory).unwrap();
    assert_eq!(buffer.data().len(), 12);
}

#[test]
fn lower_list_writes_elements_to_memory() {
    let mut memory = LinearMemory::new();
    let mut buffer = ByteBuffer::new(0, 8);
    vec![7u32, 8u32].write_to(&mut buffer, &mut memory).unwrap();
    assert_eq!(buffer.data(), &[0, 0, 0, 0, 2, 0, 0, 0]);
    assert_eq!(memory.bytes(), &[7, 0, 0, 0, 8, 0, 0, 0]);
    let addr = write_vec_data(&[1i32, 2i32], &mut memory).unwrap();
    assert_eq!(addr, 8);
    assert_eq!(memory.read_to_vec(8, 8), vec![1, 0, 0, 0, 2, 0, 0, 0]);
}

fn round_trip<T: Lift + Lower + PartialEq + std::fmt::Debug>(value: T) {
    let mut memory = LinearMemory::new();
    // Something before, so that addresses are not all zero.
    let _ = memory.allocate(1, 3).unwrap();
    let pointer = to_js_ptr_return(&value, &mut memory).unwrap();
    let back: T = from_js_ptr_return(&pointer, &memory).unwrap();
    assert_eq!(back, value);
}

#[test]
fn what_is_lowered_lifts_back() {
    round_trip(42u32);
    round_trip(-7i32);
    round_trip(());
    round_trip((3u32,));
    round_trip((1u32, -1i32));
    round_trip((1u32, vec![2u32, 3u32], -4i32));
    round_trip(vec![vec![1i32, 2i32], vec![], vec![3i32]]);
    round_trip(Vec::<u32>::new());
    round_trip(vec![(), (), ()]);
    round_trip((vec![(1u32, 2i32)], ()));
}

#[test]
fn lift_tuple_reports_first_failing_field() {
    let memory = LinearMemory::new();
    assert_eq!(<(bool, bool)>::read_from(&[5, 6], &memory), Err(AbiError::InvalidBool(5)));
    assert_eq!(<(bool, bool)>::read_from(&[1, 6], &memory), Err(AbiError::InvalidBool(6)));
    assert_eq!(
        <(bool, u8, bool)>::read_from(&[0, 1, 9], &memory),
        Err(AbiError::InvalidBool(9))
    );
}

#[test]
fn later_lowering_keeps_earlier_value() {
    let mut memory = LinearMemory::new();
    let first = store_value(&vec![1u32, 2u32], &mut memory).unwrap();
    let second = store_value(&(vec![9i32], 3u32), &mut memory).unwrap();
    assert_ne!(first, second);
    let back: Vec<u32> = from_js_ptr_return(&JsValue::from_int(first as i64), &memory).unwrap();
    assert_eq!(back, vec![1, 2]);
    let back2: (Vec<i32>, u32) =
        from_js_ptr_return(&JsValue::from_int(second as i64), &memory).unwrap();
    assert_eq!(back2, (vec![9], 3));
}

#[test]
fn lowered_slice_lifts_as_vec() {
    let mut memory = LinearMemory::new();
    let elems: &[i32] = &[5, -6, 7];
    let pointer = to_js_ptr_return(&elems, &mut memory).unwrap();
    let back: Vec<i32> = from_js_ptr_return(&pointer, &memory).unwrap();
    assert_eq!(back, vec![5, -6, 7]);
    let mut buffer = ByteBuffer::new(0, 8);
    let empty: &[u32] = &[];
    empty.write_to(&mut buffer, &mut memory).unwrap();
    assert_eq!(&buffer.data()[4..8], &[0, 0, 0, 0]);
}

#[test]
fn list_data_is_placed_at_an_aligned_address() {
    let mut memory = memory_with(vec![0xee; 3]);
    let addr = write_vec_data(&[1u32], &mut memory).unwrap();
    assert_eq!(addr, 4);
    assert_eq!(memory.read_to_vec(0, 8), vec![0xee, 0xee, 0xee, 0, 1, 0, 0, 0]);
    let empty = write_vec_data::<u32, _>(&[], &mut memory).unwrap();
    assert_eq!(empty, 8);
}
