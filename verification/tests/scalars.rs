//! The bit-level scalar operations, held against the machine's own
//! floating-point arithmetic.
use create_lang::instructions::{BinaryKind, BinaryOp, Instruction, Request, UnaryKind, UnaryOp};
use create_lang::scalar::{
    and, equal, from_bool, from_count, greater, less, not, not_a_number, or, to_count, to_index, truthy, ONE,
    PI, ZERO,
};

fn samples() -> Vec<f32> {
    vec![
        0.0,
        -0.0,
        1.0,
        -1.0,
        0.5,
        -0.5,
        0.999_999_9,
        1.5,
        2.0,
        2.5,
        -2.5,
        3.0,
        7.0,
        100.25,
        -100.75,
        16_777_215.0,
        16_777_216.0,
        16_777_218.0,
        2_147_483_520.0,
        2_147_483_648.0,
        -2_147_483_648.0,
        4_294_967_296.0,
        -4_294_967_296.0,
        1.0e10,
        1.0e19,
        1.0e20,
        3.0e38,
        -3.0e38,
        1.0e-10,
        1.0e-40,
        f32::MIN_POSITIVE,
        f32::MAX,
        f32::MIN,
        f32::INFINITY,
        f32::NEG_INFINITY,
        f32::NAN,
        -f32::NAN,
        f32::from_bits(0x7f80_0001),
        f32::from_bits(0xffc0_0000),
    ]
}

fn truth(b: bool) -> u32 {
    if b {
        1.0f32.to_bits()
    } else {
        0.0f32.to_bits()
    }
}

#[test]
fn constants_are_the_encodings() {
    assert_eq!(ZERO, 0.0f32.to_bits());
    assert_eq!(ONE, 1.0f32.to_bits());
    assert_eq!(PI, std::f32::consts::PI.to_bits());
    assert_eq!(from_bool(true), ONE);
    assert_eq!(from_bool(false), ZERO);
}

#[test]
fn comparisons_agree_with_floats() {
    for a in samples() {
        for b in samples() {
            let (l, r) = (a.to_bits(), b.to_bits());
            assert_eq!(equal(l, r), truth(a == b), "{} == {}", a, b);
            assert_eq!(less(l, r), truth(a < b), "{} < {}", a, b);
            assert_eq!(greater(l, r), truth(a > b), "{} > {}", a, b);
            assert_eq!(or(l, r), truth(a == 1.0 || b == 1.0), "{} || {}", a, b);
            assert_eq!(and(l, r), truth(a == 1.0 && b == 1.0), "{} && {}", a, b);
        }
    }
}

#[test]
fn truth_tests_agree_with_floats() {
    for a in samples() {
        assert_eq!(truthy(a.to_bits()), a != 0.0, "{}", a);
        assert_eq!(not(a.to_bits()), truth(!(a != 0.0)), "{}", a);
        assert_eq!(not_a_number(a.to_bits()), a.is_nan(), "{}", a);
    }
}

#[test]
fn not_is_an_involution_on_truth_values() {
    assert_eq!(not(not(ZERO)), ZERO);
    assert_eq!(not(not(ONE)), ONE);
    assert_eq!(not(ZERO), ONE);
    assert_eq!(not(ONE), ZERO);
    assert_eq!(not(2.0f32.to_bits()), ZERO);
}

#[test]
fn equal_is_bit_equality_on_plain_numbers() {
    assert_eq!(equal(0x4049_0fdb, 0x4049_0fdb), ONE);
    assert_eq!(equal(0x4049_0fdb, 0x4049_0fdc), ZERO);
    assert_eq!(equal(0x7fc0_0000, 0x7fc0_0000), ZERO);
    assert_eq!(equal(0x0000_0000, 0x8000_0000), ONE);
}

#[test]
fn counts_agree_with_casts() {
    for a in samples() {
        assert_eq!(to_count(a.to_bits()), a.trunc() as i32, "{}", a);
    }
    assert_eq!(to_count(5.9f32.to_bits()), 5);
    assert_eq!(to_count((-5.9f32).to_bits()), -5);
    assert_eq!(to_count(f32::NAN.to_bits()), 0);
    assert_eq!(to_count(1.0e10f32.to_bits()), i32::MAX);
    assert_eq!(to_count((-1.0e10f32).to_bits()), i32::MIN);
}

#[test]
fn indices_agree_with_casts() {
    for a in samples() {
        for len in [0usize, 1, 2, 3, 8, 1000, usize::MAX] {
            let wanted = a as usize;
            let expected = if wanted < len { Some(wanted) } else { None };
            assert_eq!(to_index(a.to_bits(), len), expected, "{} in {}", a, len);
        }
    }
    assert_eq!(to_index(1.7f32.to_bits(), 3), Some(1));
    assert_eq!(to_index(3.0f32.to_bits(), 3), None);
    assert_eq!(to_index((-1.0f32).to_bits(), 3), Some(0));
}

#[test]
fn whole_numbers_agree_with_casts() {
    let mut values: Vec<u32> = vec![
        0,
        1,
        2,
        3,
        4,
        5,
        7,
        8,
        255,
        256,
        65_535,
        0x10_ffff,
        16_777_215,
        16_777_216,
        16_777_217,
        16_777_218,
        16_777_219,
        33_554_431,
        33_554_433,
        2_147_483_647,
        2_147_483_648,
        4_294_967_167,
        4_294_967_168,
        4_294_967_295,
    ];
    let mut v: u32 = 1;
    for _ in 0..200 {
        v = v.wrapping_mul(1_664_525).wrapping_add(1_013_904_223);
        values.push(v);
        values.push(v >> 7);
    }
    for v in values {
        assert_eq!(from_count(v), (v as f32).to_bits(), "{}", v);
    }
}

#[test]
fn logical_requests_are_decided_here() {
    let three = 3.0f32.to_bits();
    let two = 2.0f32.to_bits();
    assert_eq!(Request::Binary(BinaryKind::Greater, three, two).decide(), Some(ONE));
    assert_eq!(Request::Binary(BinaryKind::Less, three, two).decide(), Some(ZERO));
    assert_eq!(Request::Binary(BinaryKind::Equal, two, two).decide(), Some(ONE));
    assert_eq!(Request::Binary(BinaryKind::Or, ONE, ZERO).decide(), Some(ONE));
    assert_eq!(Request::Binary(BinaryKind::And, ONE, ZERO).decide(), Some(ZERO));
    assert_eq!(Request::Unary(UnaryKind::Not, ZERO).decide(), Some(ONE));
    assert_eq!(Request::Binary(BinaryKind::Add, three, two).decide(), None);
    assert_eq!(Request::Binary(BinaryKind::Pow, three, two).decide(), None);
    assert_eq!(Request::Unary(UnaryKind::Sin, two).decide(), None);
    assert_eq!(Request::Unary(UnaryKind::PrintNumber, two).decide(), None);
}

#[test]
fn instruction_slots_fill_front_to_back() {
    let mut op = BinaryOp::new(BinaryKind::Sub);
    assert_eq!(op.capacity(), 2);
    assert!(!op.is_full());
    assert_eq!(op.evaluate().err().map(|e| e.code), Some(5));
    assert!(!op.write_buffer(7).is_err());
    assert!(!op.is_full());
    assert!(!op.write_buffer(9).is_err());
    assert!(op.is_full());
    assert_eq!(op.left, Some(7));
    assert_eq!(op.right, Some(9));
    match op.evaluate() {
        Ok(Request::Binary(BinaryKind::Sub, 7, 9)) => {}
        other => panic!("unexpected {:?}", other.map_err(|e| e.code)),
    }
    assert!(op.write_buffer(1).is_err());
    assert_eq!(op.left, Some(7));
    assert_eq!(op.right, Some(9));
}

#[test]
fn unary_instruction_takes_one_operand() {
    let mut op = UnaryOp::new(UnaryKind::Sqrt);
    assert_eq!(op.capacity(), 1);
    assert_eq!(op.evaluate().err().map(|e| e.code), Some(5));
    assert!(!op.write_buffer(4).is_err());
    assert!(op.is_full());
    match op.evaluate() {
        Ok(Request::Unary(UnaryKind::Sqrt, 4)) => {}
        other => panic!("unexpected {:?}", other.map_err(|e| e.code)),
    }
    let mut full = Instruction::Unary(op);
    match full.write_buffer(5) {
        create_lang::errors::CreateResult::Failure(e) => assert_eq!(e.code, 3),
        create_lang::errors::CreateResult::Success() => panic!("a full frame took an operand"),
    }
    assert_eq!(full.capacity(), 1);
}
