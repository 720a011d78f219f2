use rng_traits::{impl_fill_from_u64, impl_next_u64_from_fill, CounterRng, FixedRng, Rng};

fn counter_bytes(start: u64, len: usize) -> Vec<u8> {
    let mut out = Vec::new();
    let mut w: u64 = start;
    while out.len() < len {
        out.extend_from_slice(&w.to_le_bytes());
        w = w.wrapping_add(1);
    }
    out.truncate(len);
    out
}

fn check_fill_len(len: usize) {
    let mut g = CounterRng(100);
    let mut buf = vec![0xAAu8; len];
    g.fill(&mut buf);
    assert_eq!(buf.len(), len);
    assert_eq!(buf, counter_bytes(100, len));
    let draws: u64 = ((len + 7) / 8) as u64;
    assert_eq!(g.next_u64(), 100 + draws);
}

#[test]
fn fixed_word_fills_sixteen_bytes_with_two_copies() {
    let mut t = FixedRng(0x20216F6C6C6548);
    let mut buf = [0u8; 16];
    t.fill(&mut buf);
    assert_eq!(&buf[0..8], b"Hello! \0");
    assert_eq!(&buf[8..16], b"Hello! \0");
    assert_eq!(&buf[0..8], &0x20216F6C6C6548u64.to_le_bytes());
}

#[test]
fn fill_empty_makes_no_draw() {
    let mut g = CounterRng(5);
    let mut buf: [u8; 0] = [];
    g.fill(&mut buf);
    assert_eq!(g.next_u64(), 5);
}

#[test]
fn fill_one_byte_takes_low_byte_of_one_draw() {
    let mut g = CounterRng(0x0102030405060708);
    let mut buf = [0u8; 1];
    g.fill(&mut buf);
    assert_eq!(buf, [0x08]);
    assert_eq!(g.next_u64(), 0x0102030405060709);
}

#[test]
fn fill_lengths_around_the_word_size() {
    for len in [0usize, 1, 7, 8, 9, 16, 23, 100] {
        check_fill_len(len);
    }
}

#[test]
fn fill_partial_word_copies_leading_bytes() {
    let mut g = FixedRng(0x8877665544332211);
    let mut buf = [0u8; 11];
    g.fill(&mut buf);
    assert_eq!(buf, [0x11, 0x22, 0x33, 0x44, 0x55, 0x66, 0x77, 0x88, 0x11, 0x22, 0x33]);
}

#[test]
fn fill_into_unaligned_subslice() {
    let mut g = CounterRng(1);
    let mut buf = [0xEEu8; 20];
    g.fill(&mut buf[3..13]);
    assert_eq!(&buf[0..3], &[0xEE, 0xEE, 0xEE]);
    assert_eq!(&buf[3..13], &counter_bytes(1, 10)[..]);
    assert_eq!(&buf[13..20], &[0xEE; 7]);
}

#[test]
fn counter_wraps_at_the_top() {
    let mut g = CounterRng(u64::MAX);
    assert_eq!(g.next_u64(), u64::MAX);
    assert_eq!(g.next_u64(), 0);
    assert_eq!(g.next_u64(), 1);
}

#[test]
fn impl_fill_matches_provided_fill() {
    for len in [0usize, 3, 8, 13, 32] {
        let mut a = CounterRng(42);
        let mut b = CounterRng(42);
        let mut x = vec![0u8; len];
        let mut y = vec![0u8; len];
        a.fill(&mut x);
        impl_fill_from_u64(&mut b, &mut y);
        assert_eq!(x, y);
        assert_eq!(a.next_u64(), b.next_u64());
    }
}

#[test]
fn next_u64_from_fill_reads_one_draw() {
    let mut g = CounterRng(0xDEADBEEF00000007);
    assert_eq!(impl_next_u64_from_fill(&mut g), 0xDEADBEEF00000007);
    assert_eq!(impl_next_u64_from_fill(&mut g), 0xDEADBEEF00000008);
    assert_eq!(g.next_u64(), 0xDEADBEEF00000009);
}

#[test]
fn next_u32_keeps_low_half_of_one_draw() {
    let mut g = FixedRng(0x1122334455667788);
    assert_eq!(g.next_u32(), 0x55667788);
    let mut c = CounterRng(0x1_0000_0005);
    assert_eq!(c.next_u32(), 5);
    assert_eq!(c.next_u64(), 0x1_0000_0006);
}

#[test]
fn fill_equals_successive_draws() {
    let mut a = CounterRng(9);
    let mut b = CounterRng(9);
    let mut buf = [0u8; 21];
    a.fill(&mut buf);
    let mut expected = Vec::new();
    for _ in 0..3 {
        expected.extend_from_slice(&b.next_u64().to_le_bytes());
    }
    expected.truncate(21);
    assert_eq!(&buf[..], &expected[..]);
    assert_eq!(a.next_u64(), b.next_u64());
}
