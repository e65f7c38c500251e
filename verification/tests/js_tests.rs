use wasm_bridge::js::{FromJsValue, JsValue, ToJsValue};
use wasm_bridge::layout::SizeDescription;
use wasm_bridge::lower::Lower;
use wasm_bridge::lift::{AbiError, JsArgsReader, Lift};
use wasm_bridge::memory::LinearMemory;
use wasm_bridge::val::{f64_bits_of_int, f64_is_negative};

fn number(x: f64) -> JsValue {
    JsValue::Number(x.to_bits())
}

fn memory_with(bytes: Vec<u8>) -> LinearMemory {
    LinearMemory::from_bytes(bytes).unwrap()
}

#[test]
fn signed_numbers_convert() {
    for num in [i8::MIN + 2, 2, i8::MAX / 2 - 2, i8::MAX / 2 + 2, i8::MAX - 2] {
        assert_eq!(i8::from_js_value(&number(num as f64)), Ok(num));
    }
    for num in [i16::MIN + 2, 2, i16::MAX / 2 - 2, i16::MAX / 2 + 2, i16::MAX - 2] {
        assert_eq!(i16::from_js_value(&number(num as f64)), Ok(num));
    }
    for num in [i32::MIN + 2, 2, i32::MAX / 2 - 2, i32::MAX / 2 + 2, i32::MAX - 2] {
        assert_eq!(i32::from_js_value(&number(num as f64)), Ok(num));
    }
}

#[test]
fn unsigned_numbers_convert() {
    for num in [u8::MIN + 2, 2, u8::MAX / 2 - 2, u8::MAX / 2 + 2, u8::MAX - 2] {
        assert_eq!(u8::from_js_value(&number(num as f64)), Ok(num));
    }
    for num in [u16::MIN + 2, 2, u16::MAX / 2 - 2, u16::MAX / 2 + 2, u16::MAX - 2] {
        assert_eq!(u16::from_js_value(&number(num as f64)), Ok(num));
    }
    for num in [u32::MIN + 2, 2, u32::MAX / 2 - 2, u32::MAX / 2 + 2, u32::MAX - 2] {
        assert_eq!(u32::from_js_value(&number(num as f64)), Ok(num));
    }
}

#[test]
fn negative_numbers_give_unsigned_bits() {
    let num = u8::MAX - 2;
    assert_eq!(u8::from_js_value(&number(num as f64 - u8::MAX as f64 - 1f64)), Ok(num));
    let num = u16::MAX - 2;
    assert_eq!(u16::from_js_value(&number(num as f64 - u16::MAX as f64 - 1f64)), Ok(num));
    let num = u32::MAX - 2;
    assert_eq!(u32::from_js_value(&number(num as f64 - u32::MAX as f64 - 1f64)), Ok(num));
}

#[test]
fn number_conversion_matches_the_cast() {
    let values = [
        0.0f64, -0.0, 0.5, -0.5, 1.9, -1.9, 127.0, 128.0, -128.0, -129.0, 255.0, 256.0, 65535.5,
        -65536.0, 4294967295.0, 4294967296.0, -2147483648.0, -2147483649.0, 1e300, -1e300,
        f64::NAN, f64::INFINITY, f64::NEG_INFINITY, 5e-324,
    ];
    for x in values {
        let v = number(x);
        assert_eq!(i8::from_js_value(&v), Ok(x as i8), "{x}");
        assert_eq!(i16::from_js_value(&v), Ok(x as i16), "{x}");
        assert_eq!(i32::from_js_value(&v), Ok(x as i32), "{x}");
        let as_u8 = if x < 0.0 { x as i8 as u8 } else { x as u8 };
        let as_u16 = if x < 0.0 { x as i16 as u16 } else { x as u16 };
        let as_u32 = if x < 0.0 { x as i32 as u32 } else { x as u32 };
        assert_eq!(u8::from_js_value(&v), Ok(as_u8), "{x}");
        assert_eq!(u16::from_js_value(&v), Ok(as_u16), "{x}");
        assert_eq!(u32::from_js_value(&v), Ok(as_u32), "{x}");
        assert_eq!(f64_is_negative(x.to_bits()), x < 0.0, "{x}");
    }
}

#[test]
fn big_integers_convert() {
    for num in [i64::MIN + 2, 2, i64::MAX / 2 - 2, i64::MAX / 2 + 2, i64::MAX - 2] {
        assert_eq!(i64::from_js_value(&JsValue::BigInt(num as i128)), Ok(num));
        assert_eq!(u64::from_js_value(&JsValue::BigInt(num as i128)), Ok(num as u64));
    }
    for num in [2, u64::MAX / 2 - 2, u64::MAX / 2 + 2, u64::MAX - 2] {
        assert_eq!(u64::from_js_value(&JsValue::BigInt(num as i128)), Ok(num));
    }
    assert_eq!(i64::from_js_value(&JsValue::BigInt(1i128 << 63)), Err(AbiError::UnexpectedJsValue));
    assert_eq!(u64::from_js_value(&JsValue::BigInt(1i128 << 64)), Err(AbiError::UnexpectedJsValue));
    assert_eq!(i64::from_js_value(&number(3.0)), Err(AbiError::UnexpectedJsValue));
}

#[test]
fn other_values_convert() {
    assert_eq!(bool::from_js_value(&JsValue::Bool(true)), Ok(true));
    assert_eq!(bool::from_js_value(&number(1.0)), Err(AbiError::UnexpectedJsValue));
    assert_eq!(<()>::from_js_value(&JsValue::Undefined), Ok(()));
    assert_eq!(<()>::from_js_value(&JsValue::Null), Ok(()));
    assert_eq!(<()>::from_js_value(&number(0.0)), Err(AbiError::UnexpectedJsValue));
    assert_eq!(Option::<u8>::from_js_value(&JsValue::Null), Ok(None));
    assert_eq!(Option::<u8>::from_js_value(&number(7.0)), Ok(Some(7)));
    assert_eq!(u32::from_js_value(&JsValue::Bool(false)), Err(AbiError::UnexpectedJsValue));
}

#[test]
fn integers_become_exact_numbers() {
    for x in [0i64, 1, -1, 2, 3, 255, -256, 65537, i32::MAX as i64, i32::MIN as i64, u32::MAX as i64] {
        assert_eq!(f64_bits_of_int(x), (x as f64).to_bits(), "{x}");
        assert_eq!(JsValue::from_int(x), number(x as f64));
    }
    assert_eq!(7u32.to_js_value(), number(7.0));
    assert_eq!((-7i32).to_js_value(), number(-7.0));
    assert_eq!(u32::from_js_value(&u32::MAX.to_js_value()), Ok(u32::MAX));
    assert_eq!(i32::from_js_value(&i32::MIN.to_js_value()), Ok(i32::MIN));
    assert_eq!(true.to_js_value(), JsValue::Bool(true));
    assert_eq!(().to_js_value(), JsValue::Undefined);
}

#[test]
fn args_reader_reads_in_order() {
    let mut args = JsArgsReader::new(vec![number(1.0), JsValue::Null]);
    assert_eq!(args.next(), Some(number(1.0)));
    assert_eq!(args.next(), Some(JsValue::Null));
    assert_eq!(args.next(), None);
}

#[test]
fn primitives_from_args_and_returns() {
    let memory = LinearMemory::new();
    let mut args = JsArgsReader::new(vec![number(5.0), number(-1.0), number(1.0), number(65.0)]);
    assert_eq!(u32::from_js_args(&mut args, &memory), Ok(5));
    assert_eq!(i8::from_js_args(&mut args, &memory), Ok(-1));
    assert_eq!(bool::from_js_args(&mut args, &memory), Ok(true));
    assert_eq!(char::from_js_args(&mut args, &memory), Ok('A'));
    assert_eq!(u32::from_js_args(&mut args, &memory), Err(AbiError::MissingArgument));
    assert_eq!(u16::from_js_return(&number(300.0), &memory), Ok(300));
    assert_eq!(bool::from_js_return(&number(2.0), &memory), Err(AbiError::InvalidBool(2)));
    assert_eq!(char::from_js_return(&number(55296.0), &memory), Err(AbiError::InvalidChar(0xd800)));
    assert_eq!(<()>::from_js_return(&number(9.0), &memory), Ok(()));
    assert_eq!(u64::from_js_return(&JsValue::BigInt(12), &memory), Ok(12));
}

#[test]
fn lists_and_strings_from_args() {
    // "hi" at address 4, [0x10, 0x20] as u16 at address 8, bytes that are not UTF-8 at 12
    let memory = memory_with(vec![0, 0, 0, 0, b'h', b'i', 0, 0, 0x10, 0, 0x20, 0, 0xff, 0xfe]);
    let mut args = JsArgsReader::new(vec![number(4.0), number(2.0), number(8.0), number(2.0)]);
    assert_eq!(String::from_js_args(&mut args, &memory), Ok("hi".to_string()));
    assert_eq!(Vec::<u16>::from_js_args(&mut args, &memory), Ok(vec![0x10, 0x20]));
    let mut short = JsArgsReader::new(vec![number(4.0)]);
    assert_eq!(Vec::<u8>::from_js_args(&mut short, &memory), Err(AbiError::MissingArgument));
    let mut bad = JsArgsReader::new(vec![number(12.0), number(2.0)]);
    assert_eq!(String::from_js_args(&mut bad, &memory), Err(AbiError::InvalidUtf8));
}

#[test]
fn lists_and_strings_from_returns() {
    // header of "hi" at address 0: address 8, length 2
    let memory = memory_with(vec![8, 0, 0, 0, 2, 0, 0, 0, b'h', b'i']);
    assert_eq!(String::from_js_return(&number(0.0), &memory), Ok("hi".to_string()));
    assert_eq!(Vec::<u8>::from_js_return(&number(0.0), &memory), Ok(vec![b'h', b'i']));
    assert_eq!(Vec::<u8>::from_js_return(&number(4.0), &memory), Err(AbiError::OutOfBounds));
}

#[test]
fn options_from_args_skip_unused() {
    let memory = LinearMemory::new();
    let mut args = JsArgsReader::new(vec![
        number(0.0),
        number(99.0),
        number(99.0),
        number(1.0),
        number(7.0),
        number(8.0),
        number(3.0),
    ]);
    assert_eq!(Option::<(u32, u32)>::from_js_args(&mut args, &memory), Ok(None));
    assert_eq!(Option::<(u32, u32)>::from_js_args(&mut args, &memory), Ok(Some((7, 8))));
    assert_eq!(Option::<u8>::from_js_args(&mut args, &memory), Err(AbiError::InvalidTag(3)));
    let mut short = JsArgsReader::new(vec![number(0.0)]);
    assert_eq!(Option::<u32>::from_js_args(&mut short, &memory), Err(AbiError::MissingArgument));
}

#[test]
fn results_from_args_skip_to_the_widest_case() {
    let memory = LinearMemory::new();
    // Ok(5) of Result<u32, (u32, u32)>: tag, payload, one unused slot; then a trailing u8.
    let mut args = JsArgsReader::new(vec![
        number(0.0),
        number(5.0),
        number(0.0),
        number(1.0),
        number(6.0),
        number(7.0),
        number(42.0),
    ]);
    assert_eq!(Result::<u32, (u32, u32)>::from_js_args(&mut args, &memory), Ok(Ok(5)));
    assert_eq!(Result::<u32, (u32, u32)>::from_js_args(&mut args, &memory), Ok(Err((6, 7))));
    assert_eq!(u8::from_js_args(&mut args, &memory), Ok(42));
    let mut short = JsArgsReader::new(vec![number(0.0), number(5.0)]);
    assert_eq!(
        Result::<u32, (u32, u32)>::from_js_args(&mut short, &memory),
        Err(AbiError::MissingArgument)
    );
}

#[test]
fn result_of_units_comes_from_the_tag() {
    let memory = LinearMemory::new();
    assert_eq!(Result::<(), ()>::from_js_return(&number(0.0), &memory), Ok(Ok(())));
    assert_eq!(Result::<(), ()>::from_js_return(&number(1.0), &memory), Ok(Err(())));
    assert_eq!(Result::<(), ()>::from_js_return(&number(2.0), &memory), Err(AbiError::InvalidTag(2)));
}

#[test]
fn tuples_from_args() {
    let memory = LinearMemory::new();
    let mut args = JsArgsReader::new(vec![number(1.0), number(-2.0), number(3.0), number(4.0)]);
    assert_eq!(<(u8, i32, u16)>::from_js_args(&mut args, &memory), Ok((1, -2, 3)));
    assert_eq!(<(u32,)>::from_js_args(&mut args, &memory), Ok((4,)));
    assert_eq!(<()>::from_js_args(&mut args, &memory), Ok(()));
    assert_eq!(<(u8, u8)>::from_js_args(&mut args, &memory), Err(AbiError::MissingArgument));
}

fn args_round_trip<T: Lift + Lower + PartialEq + std::fmt::Debug>(value: T) {
    let mut memory = LinearMemory::new();
    let _ = wasm_bridge::memory::WriteableMemory::allocate(&mut memory, 1, 5).unwrap();
    let mut args = vec![JsValue::Null];
    value.to_js_args(&mut args, &mut memory).unwrap();
    assert_eq!(args.len(), 1 + T::num_args());
    let mut reader = JsArgsReader::new(args);
    assert_eq!(reader.next(), Some(JsValue::Null));
    let back = T::from_js_args(&mut reader, &memory).unwrap();
    assert_eq!(back, value);
    assert_eq!(reader.next(), None);
}

#[test]
fn arguments_lowered_lift_back() {
    args_round_trip(7u32);
    args_round_trip(-7i32);
    args_round_trip(());
    args_round_trip((u32::MAX,));
    args_round_trip((1u32, -2i32));
    args_round_trip((vec![1u32, 2u32], 3i32, vec![vec![-4i32], vec![]]));
    args_round_trip(Vec::<u32>::new());
    args_round_trip(vec![(1u32, ()), (2u32, ())]);
}

#[test]
fn lowered_arguments_are_numbers() {
    let mut memory = LinearMemory::new();
    let mut args = Vec::new();
    (5u32, vec![9u32]).to_js_args(&mut args, &mut memory).unwrap();
    assert_eq!(args, vec![number(5.0), number(0.0), number(1.0)]);
    assert_eq!(memory.bytes(), &[9, 0, 0, 0]);
}

#[test]
fn few_params_pass_flat_many_pass_a_pointer() {
    let mut memory = LinearMemory::new();
    let few = wasm_bridge::lower::lower_params(&(1u32, 2i32), &mut memory).unwrap();
    assert_eq!(few, vec![number(1.0), number(2.0)]);
    let many = (
        (1u32, 2u32, 3u32),
        (4u32, 5u32, 6u32),
        ((7u32, 8u32, 9u32), (10u32, 11u32, 12u32), (13u32, 14u32, 15u32)),
    );
    let flat = wasm_bridge::lower::lower_params(&many, &mut memory).unwrap();
    assert_eq!(flat.len(), 15);
    let more = (many, (16u32, 17u32));
    let pointer = wasm_bridge::lower::lower_params(&more, &mut memory).unwrap();
    assert_eq!(pointer.len(), 1);
    let back: (
        ((u32, u32, u32), (u32, u32, u32), ((u32, u32, u32), (u32, u32, u32), (u32, u32, u32))),
        (u32, u32),
    ) = wasm_bridge::lift::from_js_ptr_return(&pointer[0], &memory).unwrap();
    assert_eq!(back, more);
}

#[test]
fn import_result_of_one_value_is_returned_directly() {
    let mut memory = memory_with(vec![0; 4]);
    let mut rest = JsArgsReader::new(vec![number(12.0)]);
    let back = wasm_bridge::lower::lower_import_result(&7u32, &mut rest, &mut memory);
    assert_eq!(back, Ok(number(7.0)));
    assert_eq!(rest.next(), Some(number(12.0)));
    let none = wasm_bridge::lower::lower_import_result(&(), &mut rest, &mut memory);
    assert_eq!(none, Ok(JsValue::Undefined));
}

#[test]
fn import_result_of_several_values_is_written_at_the_given_address() {
    let mut memory = memory_with(vec![0xee; 16]);
    let mut rest = JsArgsReader::new(vec![number(8.0)]);
    let back = wasm_bridge::lower::lower_import_result(&(1u32, 2i32), &mut rest, &mut memory);
    assert_eq!(back, Ok(JsValue::Undefined));
    assert_eq!(rest.next(), None);
    let bytes = wasm_bridge::memory::ReadableMemory::read_to_vec(&memory, 0, 16);
    assert_eq!(bytes, vec![0xee, 0xee, 0xee, 0xee, 0xee, 0xee, 0xee, 0xee, 1, 0, 0, 0, 2, 0, 0, 0]);
}

#[test]
fn import_result_without_an_address_fails() {
    let mut memory = memory_with(vec![0; 16]);
    let mut empty = JsArgsReader::new(vec![]);
    let missing = wasm_bridge::lower::lower_import_result(&(1u32, 2u32), &mut empty, &mut memory);
    assert_eq!(missing, Err(AbiError::MissingArgument));
    let mut bad = JsArgsReader::new(vec![JsValue::Null]);
    let wrong = wasm_bridge::lower::lower_import_result(&(1u32, 2u32), &mut bad, &mut memory);
    assert_eq!(wrong, Err(AbiError::UnexpectedJsValue));
}

#[test]
fn lowered_params_are_exactly_the_numbers_of_the_values() {
    let mut memory = LinearMemory::new();
    let args = wasm_bridge::lower::lower_params(&(-2i32, (), (7u32,)), &mut memory).unwrap();
    assert_eq!(args, vec![number(-2.0), number(7.0)]);
    assert!(memory.bytes().is_empty());
}

#[test]
fn import_args_are_lifted_flat() {
    let memory = LinearMemory::new();
    let mut args = JsArgsReader::new(vec![number(1.0), number(-2.0), number(7.0)]);
    let params: (u32, i32) = wasm_bridge::lift::lift_import_args(&mut args, &memory).unwrap();
    assert_eq!(params, (1, -2));
    assert_eq!(args.next(), Some(number(7.0)));
}

#[test]
fn many_import_args_are_lifted_through_a_pointer() {
    type Many = (
        ((u32, u32, u32), (u32, u32, u32), ((u32, u32, u32), (u32, u32, u32), (u32, u32, u32))),
        (u32, u32),
    );
    let value: Many = (((1, 2, 3), (4, 5, 6), ((7, 8, 9), (10, 11, 12), (13, 14, 15))), (16, 17));
    let mut memory = LinearMemory::new();
    let pointer = wasm_bridge::lower::to_js_ptr_return(&value, &mut memory).unwrap();
    let mut args = JsArgsReader::new(vec![pointer, number(3.0)]);
    let back: Many = wasm_bridge::lift::lift_import_args(&mut args, &memory).unwrap();
    assert_eq!(back, value);
    assert_eq!(args.next(), Some(number(3.0)));
    let mut empty = JsArgsReader::new(vec![]);
    let missing: Result<Many, AbiError> = wasm_bridge::lift::lift_import_args(&mut empty, &memory);
    assert_eq!(missing, Err(AbiError::MissingArgument));
}
