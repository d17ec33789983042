use ray_tracing::rand::Xorshift;

#[test]
fn gen_u32_known_sequence_for_seed_zero() {
    let mut g = Xorshift::new(0);
    assert_eq!(g.gen_u32(), 3656013424);
    assert_eq!(g.gen_u32(), 504890837);
    assert_eq!(g.gen_u32(), 2421774896);
    assert_eq!(g.gen_u32(), 2421770299);
}

#[test]
fn gen_u32_depends_on_seed() {
    let mut g = Xorshift::new(42);
    assert_eq!(g.gen_u32(), 3656013402);
    assert_eq!(g.gen_u32(), 504890879);
}

#[test]
fn same_seed_gives_same_sequence() {
    let mut a = Xorshift::new(0);
    let mut b = Xorshift::new(0);
    for _ in 0..1000 {
        assert_eq!(a.gen_u32(), b.gen_u32());
    }
    let mut c = Xorshift::new(7);
    let mut d = Xorshift::new(7);
    for _ in 0..100 {
        assert_eq!(c.gen_f64_bits(), d.gen_f64_bits());
    }
}

#[test]
fn gen_u64_puts_first_draw_low() {
    let mut g = Xorshift::new(0);
    assert_eq!(g.gen_u64(), 0x1e18_05d5_d9ea_5670);
    assert_eq!(g.gen_u32(), 2421774896);
}

#[test]
fn gen_f64_bits_known_value_for_seed_zero() {
    let mut g = Xorshift::new(0);
    let bits = g.gen_f64_bits();
    assert_eq!(bits, 0x3ff1_e180_5d5d_9ea5);
    let x = f64::from_bits(bits) - 1.0;
    assert_eq!(x, 0.11755405875184377);
}

#[test]
fn gen_f64_bits_stay_in_unit_interval() {
    for seed in [0u32, 1, 42, 0xffff_ffff] {
        let mut g = Xorshift::new(seed);
        for _ in 0..10_000 {
            let bits = g.gen_f64_bits();
            assert!(bits >= 0x3ff0_0000_0000_0000 && bits < 0x4000_0000_0000_0000);
            let x = f64::from_bits(bits) - 1.0;
            assert!(x >= 0.0 && x < 1.0);
        }
    }
}

#[test]
fn zero_seed_never_reaches_zero_state() {
    let mut g = Xorshift::new(0);
    let mut zeros: u32 = 0;
    for _ in 0..4 {
        if g.gen_u32() == 0 {
            zeros += 1;
        }
    }
    assert!(zeros < 4);
}
