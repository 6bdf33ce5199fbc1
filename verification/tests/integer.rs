use minimize::integer::{int_from_bits, Int, IntType, Signedness, Size};

fn ity(signed: Signedness, bytes: u64) -> IntType {
    IntType { signed, size: Size { bytes } }
}

fn unsigned(bytes: u64) -> IntType {
    ity(Signedness::Unsigned, bytes)
}

fn signed(bytes: u64) -> IntType {
    ity(Signedness::Signed, bytes)
}

#[test]
fn int_from_bits_truncates_unsigned() {
    assert_eq!(int_from_bits(0x1ff, unsigned(1)), Int::from(0xffu8));
    assert_eq!(int_from_bits(0x1_0000, unsigned(2)), Int::from(0u8));
    assert_eq!(int_from_bits(0xffff_ffff_ffff, unsigned(4)), Int::from(0xffff_ffffu32));
    assert_eq!(int_from_bits(u128::MAX, unsigned(8)), Int::from(u64::MAX));
    assert_eq!(int_from_bits(u128::MAX, unsigned(16)), Int::from(u128::MAX));
    assert_eq!(int_from_bits(0x12_3456, unsigned(3)), Int::from(0x12_3456u32));
}

#[test]
fn int_from_bits_sign_extends_signed() {
    assert_eq!(int_from_bits(0xff, signed(1)), Int::from(-1));
    assert_eq!(int_from_bits(0x80, signed(1)), Int::from(-128));
    assert_eq!(int_from_bits(0x7f, signed(1)), Int::from(127));
    assert_eq!(int_from_bits(0x17f, signed(1)), Int::from(127));
    assert_eq!(int_from_bits(0x8000, signed(2)), Int::from(i16::MIN));
    assert_eq!(int_from_bits(0xffff_fffe, signed(4)), Int::from(-2));
    assert_eq!(int_from_bits(1 << 63, signed(8)), Int::from(i64::MIN));
    assert_eq!(int_from_bits(u128::MAX, signed(16)), Int::from(-1));
    assert_eq!(int_from_bits(1 << 127, signed(16)), Int::from(i128::MIN));
    assert_eq!(int_from_bits((1 << 127) - 1, signed(16)), Int::from(i128::MAX));
}

#[test]
fn int_from_bits_inverts_the_bit_pattern() {
    // Every value of the one-byte types, from its pattern at that width and
    // from its pattern sign-extended to 128 bits.
    for v in i8::MIN..=i8::MAX {
        assert_eq!(int_from_bits(v as u8 as u128, signed(1)), Int::from(v));
        assert_eq!(int_from_bits(v as i128 as u128, signed(1)), Int::from(v));
    }
    for v in u8::MIN..=u8::MAX {
        assert_eq!(int_from_bits(v as u128, unsigned(1)), Int::from(v));
    }
    // The ends of the domains of the other widths.
    for v in [i16::MIN, -1, 0, 1, i16::MAX] {
        assert_eq!(int_from_bits(v as u16 as u128, signed(2)), Int::from(v));
    }
    for v in [i32::MIN, -1, 0, 1, i32::MAX] {
        assert_eq!(int_from_bits(v as u32 as u128, signed(4)), Int::from(v));
    }
    for v in [i64::MIN, -1, 0, 1, i64::MAX] {
        assert_eq!(int_from_bits(v as u64 as u128, signed(8)), Int::from(v));
    }
    for v in [i128::MIN, -1, 0, 1, i128::MAX] {
        assert_eq!(int_from_bits(v as u128, signed(16)), Int::from(v));
    }
    for v in [0, 1, u16::MAX] {
        assert_eq!(int_from_bits(v as u128, unsigned(2)), Int::from(v));
    }
    for v in [0, 1, u32::MAX] {
        assert_eq!(int_from_bits(v as u128, unsigned(4)), Int::from(v));
    }
    for v in [0, 1, u64::MAX] {
        assert_eq!(int_from_bits(v as u128, unsigned(8)), Int::from(v));
    }
    for v in [0, 1, u128::MAX] {
        assert_eq!(int_from_bits(v, unsigned(16)), Int::from(v));
    }
}

#[test]
fn the_bit_pattern_of_an_int_is_read_back() {
    for v in [-128i128, -1, 0, 5, 127] {
        assert_eq!(int_from_bits(Int::from(v).to_bits(), signed(1)), Int::from(v));
    }
    assert_eq!(Int::from(-1).to_bits(), u128::MAX);
    assert_eq!(Int::from(-2).to_bits(), u128::MAX - 1);
    assert_eq!(Int::from(7u8).to_bits(), 7);
}

#[test]
fn modulo_wraps_into_the_domain() {
    let one_byte = Size { bytes: 1 };
    assert_eq!(Int::from(256u32).modulo(Signedness::Unsigned, one_byte), Int::from(0u8));
    assert_eq!(Int::from(257u32).modulo(Signedness::Unsigned, one_byte), Int::from(1u8));
    assert_eq!(Int::from(-1).modulo(Signedness::Unsigned, one_byte), Int::from(255u8));
    assert_eq!(Int::from(128).modulo(Signedness::Signed, one_byte), Int::from(-128));
    assert_eq!(Int::from(127).modulo(Signedness::Signed, one_byte), Int::from(127));
    assert_eq!(Int::from(-129).modulo(Signedness::Signed, one_byte), Int::from(127));
    assert_eq!(Int::from(-128).modulo(Signedness::Signed, one_byte), Int::from(-128));
    assert_eq!(
        Int::from(u128::MAX).modulo(Signedness::Signed, Size { bytes: 16 }),
        Int::from(-1)
    );
    assert_eq!(
        Int::from(i128::MIN).modulo(Signedness::Unsigned, Size { bytes: 16 }),
        Int::from(1u128 << 127)
    );
    assert_eq!(Int::from(0x1_2345u32).modulo(Signedness::Unsigned, Size { bytes: 2 }), Int::from(0x2345u16));
}

#[test]
fn domains_have_their_ends() {
    assert_eq!(unsigned(1).domain_min(), Int::from(0u8));
    assert_eq!(unsigned(1).domain_max(), Int::from(255u8));
    assert_eq!(signed(1).domain_min(), Int::from(-128));
    assert_eq!(signed(1).domain_max(), Int::from(127));
    assert_eq!(unsigned(2).domain_max(), Int::from(u16::MAX));
    assert_eq!(signed(4).domain_min(), Int::from(i32::MIN));
    assert_eq!(signed(8).domain_max(), Int::from(i64::MAX));
    assert_eq!(unsigned(16).domain_max(), Int::from(u128::MAX));
    assert_eq!(signed(16).domain_min(), Int::from(i128::MIN));
    assert_eq!(signed(16).domain_max(), Int::from(i128::MAX));
    assert_eq!(unsigned(3).domain_max(), Int::from(0xff_ffffu32));
    assert!(signed(1).can_represent(&Int::from(-128)));
    assert!(!signed(1).can_represent(&Int::from(-129)));
    assert!(!signed(1).can_represent(&Int::from(128)));
    assert!(unsigned(1).can_represent(&Int::from(255u8)));
    assert!(!unsigned(1).can_represent(&Int::from(-1)));
    assert!(unsigned(1).is_wf());
    assert!(unsigned(16).is_wf());
    assert!(!unsigned(0).is_wf());
    assert!(!unsigned(17).is_wf());
}

#[test]
fn ints_are_ordered_by_their_value() {
    let values = [
        Int::from(i128::MIN),
        Int::from(-2),
        Int::from(-1),
        Int::from(0u8),
        Int::from(1u8),
        Int::from(i128::MAX),
        Int::from(u128::MAX),
    ];
    for (i, a) in values.iter().enumerate() {
        for (j, b) in values.iter().enumerate() {
            assert_eq!(a.lt(b), i < j);
            assert_eq!(a.le(b), i <= j);
            assert_eq!(a == b, i == j);
        }
    }
    assert_eq!(Int::zero(), Int::from(0u8));
    assert_eq!(Int::one(), Int::from(1u8));
}

#[test]
fn ints_convert_back() {
    assert_eq!(Int::from(5u8).to_u128(), Some(5));
    assert_eq!(Int::from(-5).to_u128(), None);
    assert_eq!(Int::from(u128::MAX).to_u128(), Some(u128::MAX));
    assert_eq!(Int::from(-5).to_i128(), Some(-5));
    assert_eq!(Int::from(i128::MIN).to_i128(), Some(i128::MIN));
    assert_eq!(Int::from(i128::MAX).to_i128(), Some(i128::MAX));
    assert_eq!(Int::from(u128::MAX).to_i128(), None);
    assert_eq!(Int::from(1u128 << 127).to_i128(), None);
    assert_eq!(Int::from_u128(9), Int::from(9u64));
    assert_eq!(Int::from_i128(-9), Int::from(-9i64));
    assert_eq!(Int::from(3usize), Int::from(3i8));
    assert_eq!(Int::from(3u16), Int::from(3i16));
    assert_eq!(Int::from(3isize), Int::from(3u32));
}

#[test]
fn checked_arithmetic_is_exact_or_nothing() {
    assert_eq!(Int::from(2).checked_add(&Int::from(3)), Some(Int::from(5)));
    assert_eq!(Int::from(-2).checked_add(&Int::from(-3)), Some(Int::from(-5)));
    assert_eq!(Int::from(2).checked_add(&Int::from(-3)), Some(Int::from(-1)));
    assert_eq!(Int::from(-2).checked_add(&Int::from(3)), Some(Int::from(1)));
    assert_eq!(Int::from(-3).checked_add(&Int::from(3)), Some(Int::from(0)));
    assert_eq!(Int::from(u128::MAX).checked_add(&Int::from(1)), None);
    assert_eq!(Int::from(u128::MAX).checked_add(&Int::from(-1)), Some(Int::from(u128::MAX - 1)));
    assert_eq!(Int::from(2).checked_sub(&Int::from(3)), Some(Int::from(-1)));
    assert_eq!(Int::from(2).checked_sub(&Int::from(-3)), Some(Int::from(5)));
    assert_eq!(Int::from(-2).checked_sub(&Int::from(-3)), Some(Int::from(1)));
    assert_eq!(Int::from(2).checked_sub(&Int::from(0)), Some(Int::from(2)));
    assert_eq!(Int::from(u128::MAX).checked_sub(&Int::from(-1)), None);
    // The least value is -2^128.
    let least = Int::from(-1).checked_sub(&Int::from(u128::MAX)).unwrap();
    assert_eq!(Int::from(0).checked_sub(&least), None);
    assert_eq!(least.checked_add(&Int::from(-1)), None);
    assert_eq!(least.checked_add(&Int::from(u128::MAX)), Some(Int::from(-1)));
    assert_eq!(least.to_bits(), 0);
}
