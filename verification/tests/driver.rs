use puyo_core::driver::{fall_interval_ms, key_repeat, level_for, soft_drop_tick};

#[test]
fn level_rises_every_fifteen_seconds() {
    assert_eq!(level_for(0), 1);
    assert_eq!(level_for(14), 1);
    assert_eq!(level_for(15), 2);
    assert_eq!(level_for(44), 3);
    assert_eq!(level_for(45), 4);
    assert_eq!(level_for(u64::MAX), 1 + u64::MAX / 15);
}

#[test]
fn fall_interval_shortens_down_to_its_floor() {
    assert_eq!(fall_interval_ms(1), 800);
    assert_eq!(fall_interval_ms(2), 750);
    assert_eq!(fall_interval_ms(14), 150);
    assert_eq!(fall_interval_ms(15), 100);
    assert_eq!(fall_interval_ms(16), 100);
    assert_eq!(fall_interval_ms(u64::MAX), 100);
    assert_eq!(fall_interval_ms(0), 800);
}

#[test]
fn released_key_resets_its_timer() {
    assert_eq!(key_repeat(0, false, 16), (0, 0));
    assert_eq!(key_repeat(230, false, 16), (0, 0));
}

#[test]
fn new_key_press_acts_once() {
    assert_eq!(key_repeat(0, true, 16), (1, 1));
    assert_eq!(key_repeat(0, true, 5000), (1, 1));
}

#[test]
fn held_key_waits_for_the_delay() {
    assert_eq!(key_repeat(1, true, 16), (17, 0));
    assert_eq!(key_repeat(100, true, 100), (200, 0));
    assert_eq!(key_repeat(200, true, 50), (250, 0));
}

#[test]
fn held_key_repeats_past_the_delay() {
    assert_eq!(key_repeat(200, true, 51), (201, 1));
    assert_eq!(key_repeat(240, true, 16), (206, 1));
    assert_eq!(key_repeat(250, true, 50), (250, 1));
    assert_eq!(key_repeat(250, true, 51), (201, 2));
    assert_eq!(key_repeat(1, true, 1000), (201, 16));
}

#[test]
fn held_key_with_the_longest_frame_does_not_overflow() {
    let (timer, count) = key_repeat(u64::MAX, true, u64::MAX);
    assert!(timer > 200 && timer <= 250);
    assert_eq!(count as u128, (2 * (u64::MAX as u128) - 201) / 50);
}

#[test]
fn soft_drop_fires_past_its_interval() {
    assert_eq!(soft_drop_tick(0, false, 100), (0, false));
    assert_eq!(soft_drop_tick(40, false, 100), (0, false));
    assert_eq!(soft_drop_tick(0, true, 16), (16, false));
    assert_eq!(soft_drop_tick(34, true, 16), (50, false));
    assert_eq!(soft_drop_tick(35, true, 16), (0, true));
    assert_eq!(soft_drop_tick(u64::MAX, true, u64::MAX), (0, true));
}
