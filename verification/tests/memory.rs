use minimize::decide::{find_child_index, Decision};
use minimize::integer::{Int, IntType, Signedness, Size};
use minimize::memory::{encode, read_bits, read_int, write_int, Endianness};
use minimize::types::{Child, Discriminator};
use std::rc::Rc;

fn ity(signed: Signedness, bytes: u64) -> IntType {
    IntType { signed, size: Size { bytes } }
}

fn at(bytes: u64) -> Size {
    Size { bytes }
}

#[test]
fn bytes_stand_for_numbers_in_both_orders() {
    let buf = [0x12, 0x34, 0x56, 0x78, 0x9a];
    assert_eq!(read_bits(&buf, 1, 3, Endianness::Little), 0x78_5634);
    assert_eq!(read_bits(&buf, 1, 3, Endianness::Big), 0x34_5678);
    assert_eq!(read_bits(&buf, 0, 0, Endianness::Big), 0);
    assert_eq!(read_bits(&buf, 5, 0, Endianness::Little), 0);
    let wide: Vec<u8> = (1..=16).collect();
    assert_eq!(
        read_bits(&wide, 0, 16, Endianness::Big),
        0x0102_0304_0506_0708_090a_0b0c_0d0e_0f10
    );
    assert_eq!(
        read_bits(&wide, 0, 16, Endianness::Little),
        0x100f_0e0d_0c0b_0a09_0807_0605_0403_0201
    );
}

#[test]
fn integers_are_read_at_their_type() {
    let buf = [0xff, 0xfe, 0x01];
    let u16_ty = ity(Signedness::Unsigned, 2);
    let i16_ty = ity(Signedness::Signed, 2);
    assert_eq!(read_int(&buf, at(0), u16_ty, Endianness::Little), Some(Int::from(0xfeffu16)));
    assert_eq!(read_int(&buf, at(0), u16_ty, Endianness::Big), Some(Int::from(0xfffeu16)));
    assert_eq!(read_int(&buf, at(0), i16_ty, Endianness::Little), Some(Int::from(-257)));
    assert_eq!(read_int(&buf, at(0), i16_ty, Endianness::Big), Some(Int::from(-2)));
    assert_eq!(read_int(&buf, at(1), i16_ty, Endianness::Little), Some(Int::from(0x01fe)));
    // What does not lie within the buffer is not read.
    assert_eq!(read_int(&buf, at(2), u16_ty, Endianness::Little), None);
    assert_eq!(read_int(&buf, at(u64::MAX), u16_ty, Endianness::Little), None);
    assert_eq!(read_int(&buf, at(0), ity(Signedness::Unsigned, 0), Endianness::Little), None);
    assert_eq!(read_int(&buf, at(0), ity(Signedness::Unsigned, 17), Endianness::Little), None);
}

#[test]
fn integers_are_written_as_their_low_bytes() {
    let i32_ty = ity(Signedness::Signed, 4);
    assert_eq!(encode(&Int::from(-2), i32_ty, Endianness::Little), vec![0xfe, 0xff, 0xff, 0xff]);
    assert_eq!(encode(&Int::from(-2), i32_ty, Endianness::Big), vec![0xff, 0xff, 0xff, 0xfe]);
    assert_eq!(
        encode(&Int::from(0x0102_0304), i32_ty, Endianness::Little),
        vec![0x04, 0x03, 0x02, 0x01]
    );
    assert_eq!(
        encode(&Int::from(0x0102_0304), i32_ty, Endianness::Big),
        vec![0x01, 0x02, 0x03, 0x04]
    );
    assert_eq!(
        encode(&Int::from(0x1ff), ity(Signedness::Unsigned, 1), Endianness::Big),
        vec![0xff]
    );
}

#[test]
fn writing_replaces_the_bytes_of_the_integer_only() {
    for endian in [Endianness::Little, Endianness::Big] {
        let mut buf = vec![1, 2, 3, 4, 5];
        assert!(write_int(&mut buf, at(1), ity(Signedness::Unsigned, 2), &Int::from(0xaabb), endian));
        match endian {
            Endianness::Little => assert_eq!(buf, vec![1, 0xbb, 0xaa, 4, 5]),
            Endianness::Big => assert_eq!(buf, vec![1, 0xaa, 0xbb, 4, 5]),
        }
        assert!(!write_int(&mut buf, at(4), ity(Signedness::Unsigned, 2), &Int::from(0), endian));
        assert!(!write_int(&mut buf, at(0), ity(Signedness::Unsigned, 0), &Int::from(0), endian));
        assert_eq!(buf.len(), 5);
    }
}

#[test]
fn what_is_written_is_read_back() {
    let types = [
        ity(Signedness::Signed, 1),
        ity(Signedness::Signed, 2),
        ity(Signedness::Signed, 4),
        ity(Signedness::Signed, 8),
        ity(Signedness::Signed, 16),
        ity(Signedness::Unsigned, 1),
        ity(Signedness::Unsigned, 2),
        ity(Signedness::Unsigned, 4),
        ity(Signedness::Unsigned, 8),
        ity(Signedness::Unsigned, 16),
        ity(Signedness::Unsigned, 3),
    ];
    for ty in types {
        for endian in [Endianness::Little, Endianness::Big] {
            for value in [ty.domain_min(), Int::from(0), Int::from(1), Int::from(100), ty.domain_max()] {
                let mut buf = vec![0x55; 20];
                assert!(write_int(&mut buf, at(3), ty, &value, endian));
                assert_eq!(read_int(&buf, at(3), ty, endian), Some(value));
                assert_eq!(buf[2], 0x55);
                assert_eq!(buf[3 + ty.size.bytes as usize], 0x55);
            }
        }
    }
}

fn child(lo: i128, hi: i128, target: Discriminator) -> Child {
    Child { lo: Int::from(lo), hi: Int::from(hi), target }
}

#[test]
fn the_first_child_that_holds_the_value_is_found() {
    let children = vec![
        child(10, 20, Discriminator::Invalid),
        child(-5, -1, Discriminator::Invalid),
        child(15, 30, Discriminator::Invalid),
    ];
    assert_eq!(find_child_index(&children, &Int::from(10)), Some(0));
    assert_eq!(find_child_index(&children, &Int::from(20)), Some(0));
    assert_eq!(find_child_index(&children, &Int::from(21)), Some(2));
    assert_eq!(find_child_index(&children, &Int::from(-5)), Some(1));
    assert_eq!(find_child_index(&children, &Int::from(0)), None);
    assert_eq!(find_child_index(&children, &Int::from(31)), None);
    assert_eq!(find_child_index(&vec![], &Int::from(31)), None);
}

#[test]
fn nested_branches_are_followed() {
    let byte = ity(Signedness::Unsigned, 1);
    let inner = Discriminator::Branch {
        offset: at(1),
        value_type: byte,
        fallback: Rc::new(Discriminator::Known(Int::from(7))),
        children: vec![child(0, 0, Discriminator::Known(Int::from(8)))],
    };
    let outer = Discriminator::Branch {
        offset: at(0),
        value_type: byte,
        fallback: Rc::new(Discriminator::Invalid),
        children: vec![child(1, 1, inner), child(2, 9, Discriminator::Known(Int::from(3)))],
    };
    assert_eq!(outer.evaluate(&[1, 0], Endianness::Little), Decision::Known(Int::from(8)));
    assert_eq!(outer.evaluate(&[1, 5], Endianness::Little), Decision::Known(Int::from(7)));
    assert_eq!(outer.evaluate(&[4, 5], Endianness::Little), Decision::Known(Int::from(3)));
    assert_eq!(outer.evaluate(&[0, 5], Endianness::Little), Decision::Invalid);
    assert_eq!(outer.evaluate(&[1], Endianness::Little), Decision::Unreadable);
    assert_eq!(outer.evaluate(&[2], Endianness::Little), Decision::Known(Int::from(3)));
    assert_eq!(outer.evaluate(&[], Endianness::Little), Decision::Unreadable);
}
