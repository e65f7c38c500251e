use wasm_bridge::layout::{next_multiple_of, simple_layout, usize_max, SizeDescription};

#[test]
fn test_next_multiple_of() {
    assert_eq!(next_multiple_of(5, 8), 8);
    assert_eq!(next_multiple_of(12, 8), 16);
    assert_eq!(next_multiple_of(12, 4), 12);
    assert_eq!(next_multiple_of(8, 8), 8);
}

#[test]
fn next_multiple_of_zero_and_one() {
    assert_eq!(next_multiple_of(0, 4), 0);
    assert_eq!(next_multiple_of(7, 1), 7);
    assert_eq!(next_multiple_of(1, 3), 3);
}

#[test]
fn next_multiple_of_at_the_top_of_usize() {
    assert_eq!(next_multiple_of(usize::MAX, 1), usize::MAX);
    assert_eq!(next_multiple_of(usize::MAX - 1, 2), usize::MAX - 1);
}

#[test]
fn next_multiple_of_is_idempotent() {
    for m in 1..10usize {
        for n in 0..40usize {
            let once = next_multiple_of(n, m);
            assert_eq!(next_multiple_of(once, m), once);
            assert_eq!(once % m, 0);
            assert!(n <= once && once < n + m);
        }
    }
}

#[test]
fn usize_max_picks_larger() {
    assert_eq!(usize_max(3, 9), 9);
    assert_eq!(usize_max(9, 3), 9);
    assert_eq!(usize_max(4, 4), 4);
}

#[test]
fn simple_layout_is_one_field() {
    assert_eq!(simple_layout(8), [0, 8, 8]);
}

#[test]
fn primitive_sizes() {
    assert_eq!(<u8 as SizeDescription>::alignment(), 1);
    assert_eq!(<u16 as SizeDescription>::flat_byte_size(), 2);
    assert_eq!(<u64 as SizeDescription>::alignment(), 8);
    assert_eq!(<i32 as SizeDescription>::num_args(), 1);
    assert_eq!(<bool as SizeDescription>::flat_byte_size(), 1);
    assert_eq!(<char as SizeDescription>::flat_byte_size(), 4);
    assert_eq!(<char as SizeDescription>::layout(), [0, 4, 4]);
}

#[test]
fn list_and_string_sizes() {
    assert_eq!(<Vec<u8> as SizeDescription>::alignment(), 4);
    assert_eq!(<Vec<u64> as SizeDescription>::flat_byte_size(), 8);
    assert_eq!(<Vec<u8> as SizeDescription>::num_args(), 2);
    assert_eq!(<String as SizeDescription>::flat_byte_size(), 8);
}

#[test]
fn option_and_result_sizes() {
    assert_eq!(<Option<u32> as SizeDescription>::alignment(), 4);
    assert_eq!(<Option<u32> as SizeDescription>::flat_byte_size(), 8);
    assert_eq!(<Option<u32> as SizeDescription>::num_args(), 2);
    assert_eq!(<Option<u8> as SizeDescription>::flat_byte_size(), 2);
    assert_eq!(<Result<u8, u32> as SizeDescription>::alignment(), 4);
    assert_eq!(<Result<u8, u32> as SizeDescription>::flat_byte_size(), 8);
    assert_eq!(<Result<u8, Vec<u8>> as SizeDescription>::num_args(), 3);
    assert_eq!(<Result<(), ()> as SizeDescription>::num_args(), 1);
}

#[test]
fn unit_and_single_sizes() {
    assert_eq!(<() as SizeDescription>::alignment(), 1);
    assert_eq!(<() as SizeDescription>::flat_byte_size(), 0);
    assert_eq!(<() as SizeDescription>::num_args(), 0);
    assert_eq!(<() as SizeDescription>::layout(), [0]);
    assert_eq!(<(u16,) as SizeDescription>::layout(), [0, 2, 2]);
}

#[test]
fn pair_layout_pads_fields() {
    assert_eq!(<(u8, u32) as SizeDescription>::layout(), [0, 1, 4, 8, 8]);
    assert_eq!(<(u8, u32) as SizeDescription>::flat_byte_size(), 8);
    assert_eq!(<(u32, u8) as SizeDescription>::layout(), [0, 4, 4, 5, 8]);
    assert_eq!(<(u32, u8) as SizeDescription>::flat_byte_size(), 8);
    assert_eq!(<(u32, u8) as SizeDescription>::alignment(), 4);
    assert_eq!(<(u8, Vec<u8>) as SizeDescription>::num_args(), 3);
}

#[test]
fn triple_layout_pads_fields() {
    assert_eq!(<(u8, u16, u8) as SizeDescription>::layout(), [0, 1, 2, 4, 4, 5, 6]);
    assert_eq!(<(u8, u16, u8) as SizeDescription>::flat_byte_size(), 6);
    assert_eq!(<(u8, u64, u16) as SizeDescription>::layout(), [0, 1, 8, 16, 16, 18, 24]);
    assert_eq!(<(u8, u64, u16) as SizeDescription>::alignment(), 8);
    assert_eq!(<(u8, u64, u16) as SizeDescription>::num_args(), 3);
}

#[test]
fn result_size_is_padded_to_its_alignment() {
    assert_eq!(<Result<u16, (u8, u8, u8)> as SizeDescription>::alignment(), 2);
    assert_eq!(<Result<u16, (u8, u8, u8)> as SizeDescription>::flat_byte_size(), 6);
    assert_eq!(<Result<u16, (u8, u8, u8)> as SizeDescription>::layout(), [0, 6, 6]);
    assert_eq!(<Result<u8, u32> as SizeDescription>::flat_byte_size(), 8);
}
