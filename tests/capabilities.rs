use rng_traits::{
    as_crng, as_crng_ref, as_rng, as_rng_ref, CounterRng, CryptoRng, DualRng, Error,
    FailingCryptoRng, FixedCryptoRng, FixedRng, LimitedCryptoRng, Rng,
};

#[test]
fn secure_draw_reports_failure() {
    let mut f = FailingCryptoRng;
    assert_eq!(f.try_next_u64(), Err(Error));
    assert_eq!(f.try_next_u32(), Err(Error));
    let mut buf = [7u8; 4];
    assert_eq!(f.try_fill(&mut buf), Err(Error));
    assert_eq!(buf, [7u8; 4]);
}

#[test]
fn secure_counter_runs_out() {
    let mut c = LimitedCryptoRng { next: 10, remaining: 2 };
    assert_eq!(c.try_next_u64(), Ok(10));
    assert_eq!(c.try_next_u32(), Ok(11));
    assert_eq!(c.try_next_u64(), Err(Error));
    assert_eq!(c.try_next_u64(), Err(Error));
}

#[test]
fn try_fill_succeeds_when_every_draw_does() {
    let mut c = LimitedCryptoRng { next: 1, remaining: 2 };
    let mut buf = [0u8; 12];
    assert_eq!(c.try_fill(&mut buf), Ok(()));
    assert_eq!(buf, [1, 0, 0, 0, 0, 0, 0, 0, 2, 0, 0, 0]);
    assert_eq!(c.try_next_u64(), Err(Error));
}

#[test]
fn try_fill_stops_at_first_failure() {
    let mut c = LimitedCryptoRng { next: 0x0807060504030201, remaining: 1 };
    let mut buf = [0xAAu8; 20];
    assert_eq!(c.try_fill(&mut buf), Err(Error));
    assert_eq!(&buf[0..8], &[1, 2, 3, 4, 5, 6, 7, 8]);
    assert_eq!(&buf[8..20], &[0xAA; 12]);
}

#[test]
fn try_fill_empty_succeeds_without_drawing() {
    let mut f = FailingCryptoRng;
    let mut buf: [u8; 0] = [];
    assert_eq!(f.try_fill(&mut buf), Ok(()));
    let mut c = LimitedCryptoRng { next: 3, remaining: 1 };
    assert_eq!(c.try_fill(&mut buf), Ok(()));
    assert_eq!(c.try_next_u64(), Ok(3));
}

#[test]
fn as_crng_always_succeeds_with_the_basic_word() {
    let mut reference = CounterRng(50);
    let mut s = as_crng(CounterRng(50));
    for _ in 0..4 {
        let expected: u64 = reference.next_u64();
        assert_eq!(s.try_next_u64(), Ok(expected));
    }
    assert_eq!(s.try_next_u32(), Ok(54));
    let mut buf = [0u8; 10];
    assert_eq!(s.try_fill(&mut buf), Ok(()));
    assert_eq!(&buf[0..8], &55u64.to_le_bytes());
    assert_eq!(&buf[8..10], &[56, 0]);
    assert_eq!(s.rng.next_u64(), 57);
}

#[test]
fn as_crng_ref_leaves_the_generator_usable() {
    let mut t = CounterRng(7);
    {
        let mut s = as_crng_ref(&mut t);
        assert_eq!(s.try_next_u64(), Ok(7));
        assert_eq!(s.try_next_u64(), Ok(8));
    }
    assert_eq!(t.next_u64(), 9);
}

#[test]
fn as_rng_passes_secure_words_through() {
    let mut b = as_rng(LimitedCryptoRng { next: 20, remaining: 3 });
    assert_eq!(b.next_u64(), 20);
    assert_eq!(b.next_u32(), 21);
    let mut buf = [0u8; 5];
    b.fill(&mut buf);
    assert_eq!(buf, [22, 0, 0, 0, 0]);
    assert_eq!(b.rng.try_next_u64(), Err(Error));
}

#[test]
fn as_rng_ref_leaves_the_generator_usable() {
    let mut c = LimitedCryptoRng { next: 1, remaining: 3 };
    {
        let mut b = as_rng_ref(&mut c);
        assert_eq!(b.next_u64(), 1);
    }
    assert_eq!(c.try_next_u64(), Ok(2));
    let mut f = FixedCryptoRng(0x20216F6C6C6548);
    let mut buf = [0u8; 16];
    as_rng_ref(&mut f).fill(&mut buf);
    assert_eq!(&buf[0..8], &buf[8..16]);
    assert_eq!(&buf[0..8], b"Hello! \0");
}

#[test]
fn dynamic_dispatch_matches_static_dispatch() {
    let mut t_static = CounterRng(13);
    let mut t_dynamic = CounterRng(13);
    let mut c_static = LimitedCryptoRng { next: 42, remaining: 2 };
    let mut c_dynamic = LimitedCryptoRng { next: 42, remaining: 2 };
    {
        let tr: &mut dyn Rng = &mut t_dynamic;
        assert_eq!(tr.next_u64(), t_static.next_u64());
        assert_eq!(tr.next_u32(), t_static.next_u32());
        let mut x = [0u8; 9];
        let mut y = [0u8; 9];
        tr.fill(&mut x);
        t_static.fill(&mut y);
        assert_eq!(x, y);
    }
    {
        let cr: &mut dyn CryptoRng = &mut c_dynamic;
        assert_eq!(cr.try_next_u64(), c_static.try_next_u64());
        assert_eq!(cr.try_next_u64(), c_static.try_next_u64());
        assert_eq!(cr.try_next_u64(), c_static.try_next_u64());
    }
    assert_eq!(t_dynamic.next_u64(), t_static.next_u64());
}

#[test]
fn bridges_over_abstract_references() {
    let mut t = CounterRng(13);
    let mut c = FixedCryptoRng(42);
    {
        let mut s = as_crng_ref(&mut t as &mut dyn Rng);
        assert_eq!(s.try_next_u64(), Ok(13));
        let sr: &mut dyn CryptoRng = &mut s;
        assert_eq!(sr.try_next_u64(), Ok(14));
    }
    {
        let mut b = as_rng_ref(&mut c as &mut dyn CryptoRng);
        assert_eq!(b.next_u64(), 42);
        let br: &mut dyn Rng = &mut b;
        assert_eq!(br.next_u64(), 42);
    }
    assert_eq!(t.next_u64(), 15);
}

#[test]
fn dual_generator_uses_its_own_implementations() {
    let mut d = DualRng(3651);
    assert_eq!(d.next_u64(), 3651);
    assert_eq!(d.try_next_u64(), Ok(3651));
    assert_eq!(Rng::next_u32(&mut d), 3651);
    assert_eq!(CryptoRng::try_next_u32(&mut d), Ok(3651));
    {
        let r: &mut dyn Rng = &mut d;
        assert_eq!(r.next_u64(), 3651);
    }
    {
        let c: &mut dyn CryptoRng = &mut d;
        assert_eq!(c.try_next_u64(), Ok(3651));
    }
}

#[test]
fn fixed_generators_repeat_their_word() {
    let mut t = FixedRng(13);
    let mut c = FixedCryptoRng(42);
    for _ in 0..3 {
        assert_eq!(t.next_u64(), 13);
        assert_eq!(c.try_next_u64(), Ok(42));
    }
}
