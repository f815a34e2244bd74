use nanobv::{min, BvError, NanoBV};

#[test]
fn test_nanobv_zeros_u8() {
    let width = u8::BITS as usize;
    let bv = NanoBV::<u8>::zeros(width).unwrap();
    assert_eq!(bv.value(), u8::MIN);
    assert_eq!(bv.len(), width);
}

#[test]
fn test_nanobv_ones_u8() {
    let width = u8::BITS as usize;
    let bv = NanoBV::<u8>::ones(width).unwrap();
    assert_eq!(bv.value(), u8::MAX);
    assert_eq!(bv.len(), width);
}

#[test]
fn test_nanobv_default_u8() {
    let width = u8::BITS as usize;
    assert_eq!(NanoBV::<u8>::default(), NanoBV::<u8>::zeros(width).unwrap());
}

#[test]
fn test_nanobv_get_bit_u8() {
    let width = u8::BITS as usize;
    let bv = NanoBV::<u8>::new(u8::MAX, width).unwrap();
    for offset in 0..u8::BITS as u8 {
        assert_eq!(bv.get_bit(offset), Ok(1));
    }
}

#[test]
fn test_nanobv_set_bit_u8() {
    let width = u8::BITS as usize;
    for offset in 0..u8::BITS as u8 {
        let bv = NanoBV::<u8>::new(u8::MIN, width).unwrap().set_bit(offset).unwrap();
        assert_eq!(bv.get_bit(offset), Ok(1));
        assert_eq!(bv.value(), (1 as u8) << offset);
    }
}

#[test]
fn test_nanobv_clear_bit_u8() {
    let width = u8::BITS as usize;
    for offset in 0..u8::BITS as u8 {
        let bv = NanoBV::<u8>::new(u8::MAX, width).unwrap().clear_bit(offset).unwrap();
        assert_eq!(bv.get_bit(offset), Ok(0));
        assert_eq!(bv.value(), !((1 as u8) << offset));
    }
}

#[test]
fn test_nanobv_assign_bit_u8() {
    let width = u8::BITS as usize;
    for offset in 0..u8::BITS as u8 {
        for value in 0..2 as u8 {
            let bv = NanoBV::<u8>::new(u8::MAX, width).unwrap().assign_bit(value, offset).unwrap();
            assert_eq!(bv.get_bit(offset), Ok(value));
        }
    }
}

#[test]
fn test_nanobv_reverse_u8() {
    let width = u8::BITS as usize;
    let data = 0x0123_4567_89ab_cdefu64 as u8;
    let bv = NanoBV::<u8>::new(data, width).unwrap();
    assert_eq!(bv.reverse().value(), data.reverse_bits());
    assert_eq!(bv.reverse().reverse(), bv);
}

#[test]
fn full_width_ones_is_max_u8() {
    let width = u8::BITS as usize;
    assert_eq!(NanoBV::<u8>::ones(width).unwrap().value(), u8::MAX);
    assert_eq!(NanoBV::<u8>::upper_bound(width), u8::MAX);
}

#[test]
fn test_nanobv_zeros_u16() {
    let width = u16::BITS as usize;
    let bv = NanoBV::<u16>::zeros(width).unwrap();
    assert_eq!(bv.value(), u16::MIN);
    assert_eq!(bv.len(), width);
}

#[test]
fn test_nanobv_ones_u16() {
    let width = u16::BITS as usize;
    let bv = NanoBV::<u16>::ones(width).unwrap();
    assert_eq!(bv.value(), u16::MAX);
    assert_eq!(bv.len(), width);
}

#[test]
fn test_nanobv_default_u16() {
    let width = u16::BITS as usize;
    assert_eq!(NanoBV::<u16>::default(), NanoBV::<u16>::zeros(width).unwrap());
}

#[test]
fn test_nanobv_get_bit_u16() {
    let width = u16::BITS as usize;
    let bv = NanoBV::<u16>::new(u16::MAX, width).unwrap();
    for offset in 0..u16::BITS as u16 {
        assert_eq!(bv.get_bit(offset), Ok(1));
    }
}

#[test]
fn test_nanobv_set_bit_u16() {
    let width = u16::BITS as usize;
    for offset in 0..u16::BITS as u16 {
        let bv = NanoBV::<u16>::new(u16::MIN, width).unwrap().set_bit(offset).unwrap();
        assert_eq!(bv.get_bit(offset), Ok(1));
        assert_eq!(bv.value(), (1 as u16) << offset);
    }
}

#[test]
fn test_nanobv_clear_bit_u16() {
    let width = u16::BITS as usize;
    for offset in 0..u16::BITS as u16 {
        let bv = NanoBV::<u16>::new(u16::MAX, width).unwrap().clear_bit(offset).unwrap();
        assert_eq!(bv.get_bit(offset), Ok(0));
        assert_eq!(bv.value(), !((1 as u16) << offset));
    }
}

#[test]
fn test_nanobv_assign_bit_u16() {
    let width = u16::BITS as usize;
    for offset in 0..u16::BITS as u16 {
        for value in 0..2 as u16 {
            let bv = NanoBV::<u16>::new(u16::MAX, width).unwrap().assign_bit(value, offset).unwrap();
            assert_eq!(bv.get_bit(offset), Ok(value));
        }
    }
}

#[test]
fn test_nanobv_reverse_u16() {
    let width = u16::BITS as usize;
    let data = 0x0123_4567_89ab_cdefu64 as u16;
    let bv = NanoBV::<u16>::new(data, width).unwrap();
    assert_eq!(bv.reverse().value(), data.reverse_bits());
    assert_eq!(bv.reverse().reverse(), bv);
}

#[test]
fn full_width_ones_is_max_u16() {
    let width = u16::BITS as usize;
    assert_eq!(NanoBV::<u16>::ones(width).unwrap().value(), u16::MAX);
    assert_eq!(NanoBV::<u16>::upper_bound(width), u16::MAX);
}

#[test]
fn test_nanobv_zeros_u32() {
    let width = u32::BITS as usize;
    let bv = NanoBV::<u32>::zeros(width).unwrap();
    assert_eq!(bv.value(), u32::MIN);
    assert_eq!(bv.len(), width);
}

#[test]
fn test_nanobv_ones_u32() {
    let width = u32::BITS as usize;
    let bv = NanoBV::<u32>::ones(width).unwrap();
    assert_eq!(bv.value(), u32::MAX);
    assert_eq!(bv.len(), width);
}

#[test]
fn test_nanobv_default_u32() {
    let width = u32::BITS as usize;
    assert_eq!(NanoBV::<u32>::default(), NanoBV::<u32>::zeros(width).unwrap());
}

#[test]
fn test_nanobv_get_bit_u32() {
    let width = u32::BITS as usize;
    let bv = NanoBV::<u32>::new(u32::MAX, width).unwrap();
    for offset in 0..u32::BITS as u32 {
        assert_eq!(bv.get_bit(offset), Ok(1));
    }
}

#[test]
fn test_nanobv_set_bit_u32() {
    let width = u32::BITS as usize;
    for offset in 0..u32::BITS as u32 {
        let bv = NanoBV::<u32>::new(u32::MIN, width).unwrap().set_bit(offset).unwrap();
        assert_eq!(bv.get_bit(offset), Ok(1));
        assert_eq!(bv.value(), (1 as u32) << offset);
    }
}

#[test]
fn test_nanobv_clear_bit_u32() {
    let width = u32::BITS as usize;
    for offset in 0..u32::BITS as u32 {
        let bv = NanoBV::<u32>::new(u32::MAX, width).unwrap().clear_bit(offset).unwrap();
        assert_eq!(bv.get_bit(offset), Ok(0));
        assert_eq!(bv.value(), !((1 as u32) << offset));
    }
}

#[test]
fn test_nanobv_assign_bit_u32() {
    let width = u32::BITS as usize;
    for offset in 0..u32::BITS as u32 {
        for value in 0..2 as u32 {
            let bv = NanoBV::<u32>::new(u32::MAX, width).unwrap().assign_bit(value, offset).unwrap();
            assert_eq!(bv.get_bit(offset), Ok(value));
        }
    }
}

#[test]
fn test_nanobv_reverse_u32() {
    let width = u32::BITS as usize;
    let data = 0x0123_4567_89ab_cdefu64 as u32;
    let bv = NanoBV::<u32>::new(data, width).unwrap();
    assert_eq!(bv.reverse().value(), data.reverse_bits());
    assert_eq!(bv.reverse().reverse(), bv);
}

#[test]
fn full_width_ones_is_max_u32() {
    let width = u32::BITS as usize;
    assert_eq!(NanoBV::<u32>::ones(width).unwrap().value(), u32::MAX);
    assert_eq!(NanoBV::<u32>::upper_bound(width), u32::MAX);
}

#[test]
fn test_nanobv_zeros_u64() {
    let width = u64::BITS as usize;
    let bv = NanoBV::<u64>::zeros(width).unwrap();
    assert_eq!(bv.value(), u64::MIN);
    assert_eq!(bv.len(), width);
}

#[test]
fn test_nanobv_ones_u64() {
    let width = u64::BITS as usize;
    let bv = NanoBV::<u64>::ones(width).unwrap();
    assert_eq!(bv.value(), u64::MAX);
    assert_eq!(bv.len(), width);
}

#[test]
fn test_nanobv_default_u64() {
    let width = u64::BITS as usize;
    assert_eq!(NanoBV::<u64>::default(), NanoBV::<u64>::zeros(width).unwrap());
}

#[test]
fn test_nanobv_get_bit_u64() {
    let width = u64::BITS as usize;
    let bv = NanoBV::<u64>::new(u64::MAX, width).unwrap();
    for offset in 0..u64::BITS as u64 {
        assert_eq!(bv.get_bit(offset), Ok(1));
    }
}

#[test]
fn test_nanobv_set_bit_u64() {
    let width = u64::BITS as usize;
    for offset in 0..u64::BITS as u64 {
        let bv = NanoBV::<u64>::new(u64::MIN, width).unwrap().set_bit(offset).unwrap();
        assert_eq!(bv.get_bit(offset), Ok(1));
        assert_eq!(bv.value(), (1 as u64) << offset);
    }
}

#[test]
fn test_nanobv_clear_bit_u64() {
    let width = u64::BITS as usize;
    for offset in 0..u64::BITS as u64 {
        let bv = NanoBV::<u64>::new(u64::MAX, width).unwrap().clear_bit(offset).unwrap();
        assert_eq!(bv.get_bit(offset), Ok(0));
        assert_eq!(bv.value(), !((1 as u64) << offset));
    }
}

#[test]
fn test_nanobv_assign_bit_u64() {
    let width = u64::BITS as usize;
    for offset in 0..u64::BITS as u64 {
        for value in 0..2 as u64 {
            let bv = NanoBV::<u64>::new(u64::MAX, width).unwrap().assign_bit(value, offset).unwrap();
            assert_eq!(bv.get_bit(offset), Ok(value));
        }
    }
}

#[test]
fn test_nanobv_reverse_u64() {
    let width = u64::BITS as usize;
    let data = 0x0123_4567_89ab_cdefu64 as u64;
    let bv = NanoBV::<u64>::new(data, width).unwrap();
    assert_eq!(bv.reverse().value(), data.reverse_bits());
    assert_eq!(bv.reverse().reverse(), bv);
}

#[test]
fn full_width_ones_is_max_u64() {
    let width = u64::BITS as usize;
    assert_eq!(NanoBV::<u64>::ones(width).unwrap().value(), u64::MAX);
    assert_eq!(NanoBV::<u64>::upper_bound(width), u64::MAX);
}

#[test]
fn zeros_and_ones_every_length() {
    for length in 1..=16usize {
        let z = NanoBV::<u16>::zeros(length).unwrap();
        let o = NanoBV::<u16>::ones(length).unwrap();
        assert_eq!(z.value(), 0);
        assert_eq!(o.value(), NanoBV::<u16>::upper_bound(length));
        assert_eq!(z.len(), length);
        assert_eq!(o.len(), length);
        assert!(!o.is_empty());
    }
    assert_eq!(NanoBV::<u8>::ones(3).unwrap().value(), 0b111);
    assert_eq!(NanoBV::<u32>::upper_bound(31), 0x7fff_ffff);
}

#[test]
fn invalid_length_is_refused() {
    assert_eq!(NanoBV::<u8>::new(1, 0), Err(BvError::InvalidLength));
    assert_eq!(NanoBV::<u8>::new(1, 9), Err(BvError::InvalidLength));
    assert_eq!(NanoBV::<u64>::zeros(65), Err(BvError::InvalidLength));
    assert_eq!(NanoBV::<u16>::ones(0), Err(BvError::InvalidLength));
    assert_eq!(NanoBV::<u16>::zeros(0), Err(BvError::InvalidLength));
}

#[test]
fn new_masks_high_bits() {
    let bv = NanoBV::<u8>::new(0xff, 4).unwrap();
    assert_eq!(bv.value(), 0x0f);
    assert_eq!(bv.len(), 4);
    let bv = NanoBV::<u64>::new(u64::MAX, 63).unwrap();
    assert_eq!(bv.value(), u64::MAX >> 1);
}

#[test]
fn set_value_clear_and_set() {
    let bv = NanoBV::<u16>::new(0, 10).unwrap();
    let v = bv.set_value(0xffff);
    assert_eq!(v.value(), 0x3ff);
    assert_eq!(v.len(), 10);
    assert_eq!(v.clear().value(), 0);
    assert_eq!(v.clear().len(), 10);
    assert_eq!(bv.set().value(), 0x3ff);
}

#[test]
fn set_and_clear_bit_idempotent() {
    let bv = NanoBV::<u32>::new(0b1010, 12).unwrap();
    for offset in 0..12u32 {
        let once = bv.set_bit(offset).unwrap();
        assert_eq!(once.set_bit(offset).unwrap(), once);
        let once = bv.clear_bit(offset).unwrap();
        assert_eq!(once.clear_bit(offset).unwrap(), once);
    }
    assert_eq!(bv.set_bit(0).unwrap().value(), 0b1011);
    assert_eq!(bv.clear_bit(1).unwrap().value(), 0b1000);
}

#[test]
fn bit_round_trip() {
    for offset in 0..7u8 {
        let z = NanoBV::<u8>::zeros(7).unwrap();
        assert_eq!(z.set_bit(offset).unwrap().get_bit(offset), Ok(1));
        let o = NanoBV::<u8>::ones(7).unwrap();
        assert_eq!(o.clear_bit(offset).unwrap().get_bit(offset), Ok(0));
    }
}

#[test]
fn reverse_seven_of_eight_bits() {
    let bv = NanoBV::<u8>::new(0x1D, 7).unwrap();
    assert_eq!(bv.reverse(), NanoBV::<u8>::new(0x5C, 7).unwrap());
}

#[test]
fn reverse_thirteen_of_sixteen_bits() {
    let bv = NanoBV::<u16>::new(0x071F, 13).unwrap();
    assert_eq!(bv.reverse(), NanoBV::<u16>::new(0x1F1C, 13).unwrap());
}

#[test]
fn reverse_involution_full_width() {
    let bv = NanoBV::<u32>::new(0xdead_beef, 32).unwrap();
    assert_eq!(bv.reverse().reverse(), bv);
    assert_eq!(bv.reverse().value(), 0xdead_beefu32.reverse_bits());
}

#[test]
fn and_takes_shorter_length() {
    let a = NanoBV::<u8>::new(0xFF, 8).unwrap();
    let b = NanoBV::<u8>::new(0x0F, 4).unwrap();
    assert_eq!((a & b).len(), 4);
    assert_eq!((a & b).value(), 0x0F);
    assert_eq!(a.bvand(b), a & b);
}

#[test]
fn division_by_zero_is_a_fault() {
    let a = NanoBV::<u16>::new(100, 16).unwrap();
    let z = NanoBV::<u16>::zeros(16).unwrap();
    assert_eq!(a.bvdiv(z), Err(BvError::DivisionFault));
    assert_eq!(a.bvrem(z), Err(BvError::DivisionFault));
    assert_eq!(a / z, Err(BvError::DivisionFault));
    assert_eq!(a % z, Err(BvError::DivisionFault));
}

#[test]
fn offset_out_of_range() {
    let bv = NanoBV::<u8>::new(0xff, 5).unwrap();
    assert_eq!(bv.get_bit(5), Err(BvError::OutOfRange));
    assert_eq!(bv.get_bit(200), Err(BvError::OutOfRange));
    assert_eq!(bv.set_bit(5), Err(BvError::OutOfRange));
    assert_eq!(bv.clear_bit(7), Err(BvError::OutOfRange));
    assert_eq!(bv.assign_bit(1, 5), Err(BvError::OutOfRange));
    assert_eq!(bv.get_bit(4), Ok(1));
}

#[test]
fn arithmetic_wraps_to_shorter_length() {
    let a = NanoBV::<u8>::new(0xF0, 8).unwrap();
    let b = NanoBV::<u8>::new(0x25, 6).unwrap();
    assert_eq!((a + b).value(), 21);
    assert_eq!((a + b).len(), 6);
    assert_eq!((b - a).value(), 53);
    assert_eq!((NanoBV::<u8>::new(1, 8).unwrap() - a).value(), 0x11);
    assert_eq!((a * b).value(), ((0xF0u32 * 0x25) % 64) as u8);
    assert_eq!((a / b).unwrap().value(), (0xF0 / 0x25) % 64);
    assert_eq!((a % b).unwrap().value(), 0xF0 % 0x25);
    assert_eq!((a | b).value(), (0xF0 | 0x25) & 0x3F);
    assert_eq!((a ^ b).value(), (0xF0 ^ 0x25) & 0x3F);
}

#[test]
fn wide_arithmetic_does_not_overflow() {
    let a = NanoBV::<u64>::new(u64::MAX, 64).unwrap();
    assert_eq!((a + a).value(), u64::MAX - 1);
    assert_eq!((a * a).value(), 1);
    let z = NanoBV::<u64>::zeros(64).unwrap();
    assert_eq!((z - a).value(), 1);
}

#[test]
fn shifts_by_value_of_rhs() {
    let a = NanoBV::<u16>::new(0x00F3, 16).unwrap();
    let two = NanoBV::<u16>::new(2, 16).unwrap();
    assert_eq!((a << two).value(), 0x03CC);
    assert_eq!((a >> two).value(), 0x003C);
    let big = NanoBV::<u16>::new(40, 16).unwrap();
    assert_eq!((a << big).value(), 0);
    assert_eq!((a >> big).value(), 0);
    let short = NanoBV::<u16>::new(0x00F3, 8).unwrap();
    let six = NanoBV::<u16>::new(6, 16).unwrap();
    assert_eq!((short << six).value(), 0xC0);
    assert_eq!((short << six).len(), 8);
    assert_eq!(a.bvshl(two), a << two);
    assert_eq!(a.bvshr(two), a >> two);
}

#[test]
fn min_picks_smaller() {
    assert_eq!(min(3, 9), 3);
    assert_eq!(min(9, 3), 3);
    assert_eq!(min(4, 4), 4);
}
