use go_stub::clock::{Clock, TIME_INTERVAL};
use go_stub::host::{
    go__runtime_getRandomData, go__runtime_nanotime1, go__runtime_walltime, go__runtime_walltime1,
    go__runtime_wasmWrite, GoStub, OutputStream,
};
use go_stub::rng::{put_word, Rng, RNG_STATE, RNG_STREAM};
use rand::RngCore;
use rand_pcg::Pcg32;

#[test]
fn readings_step_by_ten_milliseconds() {
    let mut clock = Clock::new();
    assert_eq!(clock.peek(), 0);
    assert_eq!(clock.now(), 10_000_000);
    assert_eq!(clock.now(), 20_000_000);
    assert_eq!(clock.now(), 30_000_000);
    assert_eq!(clock.peek(), 30_000_000);
    assert_eq!(TIME_INTERVAL, 10_000_000);
}

#[test]
fn split_readings_add_up() {
    let mut clock = Clock::starting_at(2_999_999_999);
    let (seconds, nanos): (u64, u32) = clock.now_split();
    assert_eq!((seconds, nanos), (3, 9_999_999));
    assert_eq!(seconds * 1_000_000_000 + u64::from(nanos), clock.peek());
    let (seconds, nanos): (u64, u64) = clock.now_split_wide();
    assert_eq!((seconds, nanos), (3, 19_999_999));
    assert_eq!(seconds * 1_000_000_000 + nanos, clock.peek());
}

#[test]
fn the_clock_moves_forward_only() {
    let mut clock = Clock::starting_at(500);
    clock.advance_to(400);
    assert_eq!(clock.peek(), 500);
    clock.advance_to(500);
    assert_eq!(clock.peek(), 500);
    clock.advance_to(501);
    assert_eq!(clock.peek(), 501);
}

#[test]
fn the_clock_knows_when_it_is_exhausted() {
    let mut clock = Clock::starting_at(u64::MAX - TIME_INTERVAL);
    assert!(clock.has_time_left());
    assert_eq!(clock.now(), u64::MAX);
    assert!(!clock.has_time_left());
    assert!(!Clock::starting_at(u64::MAX - TIME_INTERVAL + 1).has_time_left());
}

#[test]
fn runtime_clock_calls_share_one_clock() {
    let mut stub = GoStub::new();
    assert_eq!(go__runtime_nanotime1(&mut stub), 10_000_000);
    assert_eq!(go__runtime_walltime(&mut stub), (0, 20_000_000));
    assert_eq!(go__runtime_walltime1(&mut stub), (0, 30_000_000));
    let mut i: u32 = 0;
    while i < 97 {
        go__runtime_nanotime1(&mut stub);
        i += 1;
    }
    assert_eq!(go__runtime_walltime(&mut stub), (1, 10_000_000));
    assert_eq!(go__runtime_walltime1(&mut stub), (1, 20_000_000));
}

#[test]
fn raw_writes_go_to_the_error_stream_only_for_descriptor_two() {
    assert_eq!(go__runtime_wasmWrite(2), OutputStream::Stderr);
    assert_eq!(go__runtime_wasmWrite(1), OutputStream::Stdout);
    assert_eq!(go__runtime_wasmWrite(0), OutputStream::Stdout);
    assert_eq!(go__runtime_wasmWrite(77), OutputStream::Stdout);
}

#[test]
fn words_are_those_of_the_seeded_generator() {
    let mut reference = Pcg32::new(0xcafef00dd15ea5e5, 0xa02bdbf7bb3c0a7);
    let mut rng = Rng::new();
    let mut i: u32 = 0;
    while i < 100 {
        assert_eq!(rng.next_u32(), reference.next_u32());
        i += 1;
    }
    assert_eq!(RNG_STATE, 0xcafef00dd15ea5e5);
    assert_eq!(RNG_STREAM, 0xa02bdbf7bb3c0a7);
}

#[test]
fn successive_words_differ() {
    let mut rng = Rng::new();
    let first: u32 = rng.next_u32();
    let second: u32 = rng.next_u32();
    let third: u32 = rng.next_u32();
    assert!(first != second || second != third);
}

#[test]
fn filling_matches_the_generator_for_every_remainder() {
    let mut len: usize = 0;
    while len <= 21 {
        let mut reference = Pcg32::new(RNG_STATE, RNG_STREAM);
        let mut expected: Vec<u8> = vec![0; len];
        reference.fill_bytes(&mut expected);
        let mut rng = Rng::new();
        let mut bytes: Vec<u8> = vec![0xaa; len];
        rng.fill(&mut bytes);
        assert_eq!(bytes, expected, "for length {}", len);
        len += 1;
    }
}

#[test]
fn a_remainder_uses_up_a_whole_word() {
    let mut reference = Pcg32::new(RNG_STATE, RNG_STREAM);
    let first: u32 = reference.next_u32();
    let second: u32 = reference.next_u32();
    let third: u32 = reference.next_u32();
    let mut rng = Rng::new();
    let mut bytes: Vec<u8> = vec![0; 6];
    rng.fill(&mut bytes);
    let mut expected: Vec<u8> = first.to_le_bytes().to_vec();
    expected.extend_from_slice(&second.to_le_bytes()[..2]);
    assert_eq!(bytes, expected);
    assert_eq!(rng.next_u32(), third);
}

#[test]
fn two_streams_driven_alike_agree() {
    let mut first = GoStub::new();
    let mut second = GoStub::new();
    let lengths: Vec<usize> = vec![0, 1, 4, 7, 16, 3, 1000];
    for len in lengths {
        let a: Vec<u8> = go__runtime_getRandomData(&mut first, len);
        let b: Vec<u8> = go__runtime_getRandomData(&mut second, len);
        assert_eq!(a.len(), len);
        assert_eq!(a, b);
    }
    assert_eq!(first.rng.next_u32(), second.rng.next_u32());
}

#[test]
fn random_data_is_the_stream_in_little_endian_words() {
    let mut reference = Pcg32::new(RNG_STATE, RNG_STREAM);
    let mut stub = GoStub::new();
    let bytes: Vec<u8> = go__runtime_getRandomData(&mut stub, 9);
    let mut expected: Vec<u8> = Vec::new();
    expected.extend_from_slice(&reference.next_u32().to_le_bytes());
    expected.extend_from_slice(&reference.next_u32().to_le_bytes());
    expected.push(reference.next_u32().to_le_bytes()[0]);
    assert_eq!(bytes, expected);
    let more: Vec<u8> = go__runtime_getRandomData(&mut stub, 4);
    assert_eq!(more, reference.next_u32().to_le_bytes().to_vec());
}

#[test]
fn two_words_give_six_bytes() {
    let mut bytes: Vec<u8> = vec![0xaa; 6];
    put_word(&mut bytes, 0, 0x0403_0201, 4);
    put_word(&mut bytes, 4, 0x0807_0605, 2);
    assert_eq!(bytes, vec![1, 2, 3, 4, 5, 6]);
}

#[test]
fn a_word_is_written_where_it_is_put_and_nowhere_else() {
    let mut bytes: Vec<u8> = vec![9; 7];
    put_word(&mut bytes, 2, 0xdead_beef, 3);
    assert_eq!(bytes, vec![9, 9, 0xef, 0xbe, 0xad, 9, 9]);
    put_word(&mut bytes, 3, 0x1234_5678, 4);
    assert_eq!(bytes, vec![9, 9, 0xef, 0x78, 0x56, 0x34, 0x12]);
    put_word(&mut bytes, 7, 0xffff_ffff, 0);
    put_word(&mut bytes, 0, 0xffff_ffff, 0);
    assert_eq!(bytes, vec![9, 9, 0xef, 0x78, 0x56, 0x34, 0x12]);
    put_word(&mut bytes, 6, 0x0000_0100, 1);
    assert_eq!(bytes[6], 0);
}
