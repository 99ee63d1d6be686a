use dungeon_builder::random::{Lcg, RandomSource, Scripted, LCG_INCREMENT, LCG_MULTIPLIER};

#[test]
fn lcg_starts_from_its_seed() {
    assert_eq!(Lcg::new(17).state, 17);
}

#[test]
fn lcg_first_draws_from_seed_zero() {
    let mut rng = Lcg::new(0);
    let draws: Vec<i32> = (0..5).map(|_| rng.range(0, 100)).collect();
    assert_eq!(draws, vec![14, 49, 74, 73, 50]);
    assert_eq!(rng.state, 7076646890315895283);
}

#[test]
fn lcg_step_multiplies_and_adds_modulo_two_to_the_64() {
    let mut rng = Lcg::new(0);
    rng.range(0, 2);
    assert_eq!(rng.state, LCG_INCREMENT);
    let mut rng = Lcg::new(1);
    rng.range(0, 2);
    assert_eq!(rng.state, LCG_MULTIPLIER.wrapping_add(LCG_INCREMENT));
    let mut rng = Lcg::new(u64::MAX);
    rng.range(0, 2);
    assert_eq!(rng.state, LCG_INCREMENT.wrapping_sub(LCG_MULTIPLIER));
}

#[test]
fn lcg_draw_is_low_plus_upper_bits_modulo_span() {
    let mut rng = Lcg::new(42);
    assert_eq!(rng.range(1, 72), 29);
    assert_eq!(rng.range(1, 45), 26);
    assert_eq!(rng.range(2, 10), 7);
    assert_eq!(rng.range(2, 10), 9);
    assert_eq!(rng.state, 11628791489956661374);
}

#[test]
fn lcg_handles_the_widest_and_the_narrowest_range() {
    let mut rng = Lcg::new(2024);
    assert_eq!(rng.range(i32::MIN, i32::MAX), -604503644);
    assert_eq!(rng.range(-5, -4), -5);
    assert_eq!(rng.range(0, 2), 0);
    assert_eq!(rng.range(0, 2), 1);
    assert_eq!(rng.range(0, 2), 1);
}

#[test]
fn lcg_draws_lie_in_the_half_open_range() {
    let mut rng = Lcg::new(99);
    for i in 0..2000 {
        let low = (i % 37) - 18;
        let high = low + 1 + (i % 11);
        let value = rng.range(low, high);
        assert!(low <= value && value < high);
    }
}

#[test]
fn lcg_with_the_same_seed_gives_the_same_stream() {
    let mut a = Lcg::new(123456789);
    let mut b = Lcg::new(123456789);
    for _ in 0..100 {
        assert_eq!(a.range(-50, 50), b.range(-50, 50));
    }
    assert_eq!(a.state, b.state);
}

#[test]
fn scripted_replays_its_list_in_a_cycle() {
    let mut rng = Scripted::new(vec![3, 1, 4]);
    let draws: Vec<i32> = (0..7).map(|_| rng.range(0, 10)).collect();
    assert_eq!(draws, vec![3, 1, 4, 3, 1, 4, 3]);
}

#[test]
fn scripted_moves_a_draw_to_the_nearest_value_in_range() {
    let mut rng = Scripted::new(vec![5, -7, 1, 2]);
    assert_eq!(rng.range(0, 2), 1);
    assert_eq!(rng.range(0, 2), 0);
    assert_eq!(rng.range(0, 2), 1);
    assert_eq!(rng.range(0, 2), 1);
    assert_eq!(rng.range(6, 9), 6);
    assert_eq!(rng.range(-9, -7), -8);
}

#[test]
fn scripted_with_an_empty_list_yields_the_low_end() {
    let mut rng = Scripted::new(Vec::new());
    assert_eq!(rng.range(0, 2), 0);
    assert_eq!(rng.range(-4, 9), -4);
    assert_eq!(rng.range(i32::MIN, i32::MAX), i32::MIN);
    assert_eq!(rng.next, 0);
}

#[test]
fn scripted_keeps_its_cursor_inside_the_list() {
    let mut rng = Scripted::new(vec![1, 2]);
    rng.next = usize::MAX;
    let at = usize::MAX % 2;
    let expected = [1, 2][at];
    assert_eq!(rng.range(0, 10), expected);
    assert_eq!(rng.next, at + 1);
}
