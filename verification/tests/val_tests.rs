use wasm_bridge::component::{Caller, ComponentType, Config, Resource};
use wasm_bridge::val::{f32_bits_to_i32, f64_bits_to_i32, Val};

#[test]
fn val_i32_from_integers() {
    assert_eq!(Val::I32(-5).i32(), Some(-5));
    assert_eq!(Val::I64(0x1_0000_0007).i32(), Some(7));
    assert_eq!(Val::I64(-1).i32(), Some(-1));
    assert_eq!(Val::from(12).i32(), Some(12));
}

#[test]
fn val_i32_from_floats_rounds_toward_zero() {
    assert_eq!(Val::F32(2.9f32.to_bits()).i32(), Some(2));
    assert_eq!(Val::F32((-2.9f32).to_bits()).i32(), Some(-2));
    assert_eq!(Val::F64(1e100f64.to_bits()).i32(), Some(i32::MAX));
    assert_eq!(Val::F64((-1e100f64).to_bits()).i32(), Some(i32::MIN));
    assert_eq!(Val::F32(f32::NAN.to_bits()).i32(), Some(0));
}

#[test]
fn float_bits_match_the_cast() {
    let f32s = [
        0.0f32, -0.0, 0.5, -0.5, 1.0, 1.5, -1.5, 123456.78, -123456.78, 2147483520.0,
        2147483648.0, -2147483648.0, -2147483904.0, 3e9, -3e9, 1e-45, f32::MIN_POSITIVE,
        f32::MAX, f32::MIN, f32::INFINITY, f32::NEG_INFINITY, f32::NAN, 16777217.0,
    ];
    for x in f32s {
        assert_eq!(f32_bits_to_i32(x.to_bits()), x as i32, "{x}");
    }
    let f64s = [
        0.0f64, -0.0, 0.999, -0.999, 2147483647.0, 2147483647.9, 2147483648.0, -2147483648.0,
        -2147483648.9, -2147483649.0, 1e300, -1e300, 5e-324, f64::MAX, f64::MIN,
        f64::INFINITY, f64::NEG_INFINITY, f64::NAN, 4503599627370497.0, 12345.678,
    ];
    for x in f64s {
        assert_eq!(f64_bits_to_i32(x.to_bits()), x as i32, "{x}");
    }
}

#[test]
fn config_accepts_settings() {
    let mut config = Config::new();
    config.wasm_component_model(true).async_support(false);
}

#[test]
fn resource_keeps_its_rep() {
    let r: Resource<String> = Resource::new_own(17);
    assert_eq!(r.rep(), 17);
}

#[test]
fn component_type_strides() {
    assert_eq!(<u32 as ComponentType>::stride(), 4);
    assert_eq!(<[u32] as ComponentType>::stride(), 4);
    assert_eq!(<(u32, (u32,)) as ComponentType>::stride(), 8);
}

#[test]
fn caller_data_reads_what_data_mut_wrote() {
    let mut caller = Caller::new(vec![1u32]);
    assert_eq!(caller.data(), &vec![1u32]);
    caller.data_mut().push(2);
    *caller.data_mut() = vec![5, 6, 7];
    assert_eq!(caller.data(), &vec![5u32, 6, 7]);
}
