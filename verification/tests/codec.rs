use go_stub::number::{
    number_from_u64, number_is_nan, number_is_zero, number_to_u64, CANONICAL_NAN, MINUS_ONE_BITS,
    ONE_BITS, TWO_BITS,
};
use go_stub::value::{
    interpret_value, read_value_slice, GoValue, InterpValue, DYNAMIC_OBJECT_ID_BASE, FS_ID, GO_ID,
    NULL_ID, ZERO_ID,
};

fn sample_words() -> Vec<u64> {
    let mut words: Vec<u64> = vec![
        0,
        1,
        2,
        3,
        255,
        256,
        1 << 31,
        (1 << 32) - 1,
        1 << 52,
        (1 << 53) - 1,
        1 << 53,
        (1 << 53) + 1,
        (1 << 53) + 2,
        (1 << 53) + 3,
        (1 << 54) + 2,
        (1 << 54) + 6,
        (1 << 63) + (1 << 10),
        (1 << 63) + (1 << 10) + 1,
        (1 << 63) + 3 * (1 << 10),
        u64::MAX - 1024,
        u64::MAX - 1023,
        u64::MAX,
    ];
    let mut state: u64 = 0x9e37_79b9_7f4a_7c15;
    for shift in 0..64u32 {
        for _ in 0..50 {
            state = state.wrapping_mul(6364136223846793005).wrapping_add(1442695040888963407);
            words.push(state >> shift);
        }
    }
    words
}

#[test]
fn zero_word_is_undefined() {
    assert_eq!(interpret_value(0), InterpValue::Undefined);
    assert_eq!(GoValue::Undefined.encode(), 0);
}

#[test]
fn numbers_round_trip() {
    let numbers: Vec<f64> = vec![
        1.0,
        -1.0,
        1.5,
        -2.25,
        1e300,
        -1e-300,
        f64::MIN_POSITIVE,
        f64::MAX,
        f64::INFINITY,
        f64::NEG_INFINITY,
        5e-324,
        4.0,
    ];
    for x in numbers {
        let word: u64 = GoValue::Number(x.to_bits()).encode();
        assert_eq!(word, x.to_bits());
        assert_eq!(interpret_value(word), InterpValue::Number(x.to_bits()));
    }
}

#[test]
fn zeros_travel_as_the_zero_reference() {
    let word: u64 = GoValue::Number(0f64.to_bits()).encode();
    assert_eq!(word, 0x7ff8_0000_0000_0001);
    assert_eq!(word, CANONICAL_NAN | u64::from(ZERO_ID));
    assert_eq!(interpret_value(word), InterpValue::Number(0));
    let negative: u64 = GoValue::Number((-0f64).to_bits()).encode();
    assert_eq!(negative, word);
    assert_eq!(interpret_value(negative), InterpValue::Number(0f64.to_bits()));
}

#[test]
fn nans_are_made_canonical() {
    assert_eq!(GoValue::Number(f64::NAN.to_bits()).encode(), 0x7ff8_0000_0000_0000);
    assert_eq!(GoValue::Number(0x7ff0_0000_0000_0005).encode(), CANONICAL_NAN);
    assert_eq!(GoValue::Number(0xfff8_0000_0000_0002).encode(), CANONICAL_NAN);
}

#[test]
fn references_are_packed_with_their_kind() {
    assert_eq!(GoValue::Null.encode(), 0x7ff8_0000_0000_0002);
    assert_eq!(GoValue::Object(5).encode(), 0x7ff8_0001_0000_0005);
    assert_eq!(GoValue::String(7).encode(), 0x7ff8_0002_0000_0007);
    assert_eq!(GoValue::Symbol(9).encode(), 0x7ff8_0003_0000_0009);
    assert_eq!(GoValue::Function(10000).encode(), 0x7ff8_0004_0000_2710);
    assert_eq!(GoValue::Object(u32::MAX).encode(), 0x7ff8_0001_ffff_ffff);
}

#[test]
fn references_round_trip() {
    let ids: Vec<u32> = vec![0, NULL_ID, GO_ID, FS_ID, DYNAMIC_OBJECT_ID_BASE, 123_456, u32::MAX];
    for id in ids {
        assert_eq!(interpret_value(GoValue::Object(id).encode()), InterpValue::Ref(id));
        assert_eq!(interpret_value(GoValue::String(id).encode()), InterpValue::Ref(id));
        assert_eq!(interpret_value(GoValue::Symbol(id).encode()), InterpValue::Ref(id));
        assert_eq!(interpret_value(GoValue::Function(id).encode()), InterpValue::Ref(id));
    }
    assert_eq!(interpret_value(GoValue::Null.encode()), InterpValue::Ref(NULL_ID));
}

#[test]
fn the_zero_identifier_reads_as_the_number_zero() {
    assert_eq!(interpret_value(GoValue::Object(ZERO_ID).encode()), InterpValue::Number(0));
    assert_eq!(interpret_value(0xfff0_0000_0000_0001), InterpValue::Number(0));
}

#[test]
fn any_other_nan_reads_as_a_reference() {
    assert_eq!(interpret_value(0x7ff8_0000_0000_0000), InterpValue::Ref(0));
    assert_eq!(interpret_value(0x7ff0_0000_0000_0007), InterpValue::Ref(7));
    assert_eq!(interpret_value(0xffff_ffff_ffff_ffff), InterpValue::Ref(u32::MAX));
    assert_eq!(interpret_value(0x7ff0_0000_0000_0000), InterpValue::Number(0x7ff0_0000_0000_0000));
}

#[test]
fn a_run_of_words_is_read_in_order() {
    let words: Vec<u64> = vec![0, 1.5f64.to_bits(), 0x7ff8_0001_0000_0067, 0x7ff8_0000_0000_0001];
    assert_eq!(
        read_value_slice(&words),
        vec![
            InterpValue::Undefined,
            InterpValue::Number(1.5f64.to_bits()),
            InterpValue::Ref(103),
            InterpValue::Number(0),
        ]
    );
    assert_eq!(read_value_slice(&[]), Vec::<InterpValue>::new());
}

#[test]
fn values_go_back_as_numbers_or_objects() {
    assert_eq!(InterpValue::Undefined.assume_num_or_object(), GoValue::Undefined);
    assert_eq!(InterpValue::Number(ONE_BITS).assume_num_or_object(), GoValue::Number(ONE_BITS));
    assert_eq!(InterpValue::Ref(77).assume_num_or_object(), GoValue::Object(77));
}

#[test]
fn number_constants_are_the_words_of_their_numbers() {
    assert_eq!(ONE_BITS, 1f64.to_bits());
    assert_eq!(TWO_BITS, 2f64.to_bits());
    assert_eq!(MINUS_ONE_BITS, (-1f64).to_bits());
    assert_eq!(CANONICAL_NAN, f64::NAN.to_bits());
}

#[test]
fn integers_become_the_nearest_double() {
    for n in sample_words() {
        assert_eq!(number_from_u64(n), (n as f64).to_bits(), "for {}", n);
    }
    assert_eq!(number_from_u64(4), 0x4010_0000_0000_0000);
    assert_eq!(number_from_u64((1 << 53) + 1), 0x4340_0000_0000_0000);
    assert_eq!(number_from_u64((1 << 53) + 3), 0x4340_0000_0000_0002);
    assert_eq!(number_from_u64(u64::MAX), 0x43f0_0000_0000_0000);
}

#[test]
fn doubles_are_cut_to_integers() {
    let numbers: Vec<f64> = vec![
        0.0,
        -0.0,
        0.5,
        0.999_999,
        1.0,
        1.999,
        2.0,
        4.7,
        -1.0,
        -1e30,
        255.0,
        1e10,
        9007199254740991.0,
        9007199254740992.0,
        1e19,
        18446744073709549568.0,
        18446744073709551616.0,
        1e20,
        1e300,
        f64::INFINITY,
        f64::NEG_INFINITY,
        f64::NAN,
        5e-324,
        f64::MIN_POSITIVE,
    ];
    for x in numbers {
        assert_eq!(number_to_u64(x.to_bits()), x as u64, "for {}", x);
    }
    for word in sample_words() {
        assert_eq!(number_to_u64(word), f64::from_bits(word) as u64, "for {:#x}", word);
    }
    assert_eq!(number_to_u64(4.7f64.to_bits()), 4);
    assert_eq!(number_to_u64(1e20f64.to_bits()), u64::MAX);
}

#[test]
fn small_integers_survive_both_conversions() {
    let mut n: u64 = 0;
    while n < 5000 {
        assert_eq!(number_to_u64(number_from_u64(n)), n);
        n += 1;
    }
    assert_eq!(number_to_u64(number_from_u64((1 << 53) - 1)), (1 << 53) - 1);
}

#[test]
fn nan_and_zero_are_told_apart() {
    for word in sample_words() {
        assert_eq!(number_is_nan(word), f64::from_bits(word).is_nan());
        assert_eq!(number_is_zero(word), f64::from_bits(word) == 0.0);
    }
    assert!(number_is_nan(0x7ff0_0000_0000_0001));
    assert!(!number_is_nan(0x7ff0_0000_0000_0000));
    assert!(number_is_zero(0x8000_0000_0000_0000));
}
