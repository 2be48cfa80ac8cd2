use andy_clicker_core::input::{BakedInputs, KeyCode, KeyLatch, RawInputData};
use std::collections::HashSet;

const A: KeyCode = 10;
const B: KeyCode = 11;
const ENTER: KeyCode = 40;

fn keys(list: &[KeyCode]) -> HashSet<KeyCode> {
    list.iter().copied().collect()
}

#[test]
fn a_new_baker_holds_nothing() {
    let baker = BakedInputs::default();
    assert!(baker.cur_temp_input.pressing.is_empty());
    assert!(baker.cur_frame_input.pressing.is_empty());
    assert!(baker.last_frame_input.pressing.is_empty());
    assert!(baker.cur_temp_game_input.pressing.is_empty());
    assert!(baker.last_temp_game_input.pressing.is_empty());
    assert!(!baker.pressed_any_cur_frame);
    assert!(!baker.is_pressed(&[A]));
}

#[test]
fn empty_raw_input_is_at_the_origin() {
    let raw = RawInputData::empty();
    assert_eq!((raw.x, raw.y), (0, 0));
    assert!(raw.pressing.is_empty());
    let copy = raw.clone();
    assert_eq!((copy.x, copy.y), (0, 0));
    assert!(copy.pressing.is_empty());
}

#[test]
fn clone_copies_position_and_keys() {
    let raw = RawInputData { x: -3, y: 8, pressing: keys(&[A, B]) };
    let copy = raw.clone();
    assert_eq!((copy.x, copy.y), (-3, 8));
    assert_eq!(copy.pressing, keys(&[A, B]));
}

#[test]
fn process_fills_the_accumulator_only() {
    let mut baker = BakedInputs::default();
    baker.process(&keys(&[A, B]), &keys(&[]));
    assert_eq!(baker.cur_temp_input.pressing, keys(&[A, B]));
    assert_eq!(baker.cur_temp_game_input.pressing, keys(&[A, B]));
    assert!(baker.cur_frame_input.pressing.is_empty());
    assert!(baker.last_frame_input.pressing.is_empty());
    assert!(!baker.pressed_any_cur_frame);
}

#[test]
fn swap_frame_promotes_the_accumulator_and_keeps_it() {
    let mut baker = BakedInputs::default();
    baker.process(&keys(&[A]), &keys(&[]));
    baker.swap_frame();
    assert_eq!(baker.cur_frame_input.pressing, keys(&[A]));
    assert!(baker.last_frame_input.pressing.is_empty());
    assert_eq!(baker.cur_temp_input.pressing, keys(&[A]));
    assert!(baker.pressed_any_cur_frame);
    baker.swap_frame();
    assert_eq!(baker.cur_frame_input.pressing, keys(&[A]));
    assert_eq!(baker.last_frame_input.pressing, keys(&[A]));
    assert!(!baker.pressed_any_cur_frame);
}

#[test]
fn press_and_release_in_one_batch_still_registers() {
    let mut baker = BakedInputs::default();
    baker.process(&keys(&[A]), &keys(&[A]));
    baker.swap_frame();
    assert!(baker.pressed_any_cur_frame);
    assert!(baker.cur_frame_input.pressing.contains(&A));
    assert!(baker.is_pressed(&[A]));
}

#[test]
fn press_and_release_of_a_held_key_in_one_batch_releases_it() {
    let mut baker = BakedInputs::default();
    baker.process(&keys(&[A]), &keys(&[]));
    baker.swap_frame();
    baker.process(&keys(&[A]), &keys(&[A]));
    assert!(!baker.cur_temp_input.pressing.contains(&A));
    baker.swap_frame();
    assert!(!baker.cur_frame_input.pressing.contains(&A));
    assert!(baker.last_frame_input.pressing.contains(&A));
    assert!(!baker.pressed_any_cur_frame);
}

#[test]
fn a_later_release_removes_a_key_that_was_seen() {
    let mut baker = BakedInputs::default();
    baker.process(&keys(&[A]), &keys(&[A]));
    baker.swap_frame();
    baker.process(&keys(&[]), &keys(&[A]));
    baker.swap_frame();
    assert!(!baker.cur_frame_input.pressing.contains(&A));
    assert!(!baker.pressed_any_cur_frame);
}

#[test]
fn release_of_a_key_that_no_frame_saw_is_ignored() {
    let mut baker = BakedInputs::default();
    baker.process(&keys(&[A]), &keys(&[]));
    baker.process(&keys(&[]), &keys(&[A]));
    assert!(baker.cur_temp_input.pressing.contains(&A));
}

#[test]
fn is_pressed_is_true_on_the_rising_edge_only() {
    let mut baker = BakedInputs::default();
    baker.process(&keys(&[ENTER]), &keys(&[]));
    baker.swap_frame();
    assert!(baker.is_pressed(&[ENTER]));
    baker.swap_frame();
    assert!(!baker.is_pressed(&[ENTER]));
    baker.swap_frame();
    assert!(!baker.is_pressed(&[ENTER]));
    baker.process(&keys(&[]), &keys(&[ENTER]));
    baker.swap_frame();
    assert!(!baker.is_pressed(&[ENTER]));
    baker.process(&keys(&[ENTER]), &keys(&[]));
    baker.swap_frame();
    assert!(baker.is_pressed(&[ENTER]));
}

#[test]
fn is_pressed_of_a_set_needs_all_held_and_one_new() {
    let mut baker = BakedInputs::default();
    baker.process(&keys(&[A]), &keys(&[]));
    baker.swap_frame();
    assert!(!baker.is_pressed(&[A, B]));
    baker.process(&keys(&[B]), &keys(&[]));
    baker.swap_frame();
    assert!(baker.is_pressed(&[A, B]));
    assert!(baker.is_pressed(&[B]));
    assert!(!baker.is_pressed(&[A]));
    baker.swap_frame();
    assert!(!baker.is_pressed(&[A, B]));
}

#[test]
fn is_pressed_of_no_keys_is_false() {
    let mut baker = BakedInputs::default();
    baker.process(&keys(&[A]), &keys(&[]));
    baker.swap_frame();
    assert!(!baker.is_pressed(&[]));
}

#[test]
fn game_accumulator_releases_against_its_own_snapshot() {
    let mut baker = BakedInputs::default();
    baker.process(&keys(&[A, B]), &keys(&[]));
    baker.last_temp_game_input.pressing.insert(A);
    baker.process(&keys(&[]), &keys(&[A, B]));
    assert_eq!(baker.cur_temp_game_input.pressing, keys(&[B]));
    assert_eq!(baker.cur_temp_input.pressing, keys(&[A, B]));
}

#[test]
fn move_pointer_reaches_the_next_frame() {
    let mut baker = BakedInputs::default();
    baker.move_pointer(120, -4);
    assert_eq!((baker.cur_temp_input.x, baker.cur_temp_input.y), (120, -4));
    assert_eq!((baker.cur_temp_game_input.x, baker.cur_temp_game_input.y), (120, -4));
    assert_eq!((baker.cur_frame_input.x, baker.cur_frame_input.y), (0, 0));
    baker.swap_frame();
    assert_eq!((baker.cur_frame_input.x, baker.cur_frame_input.y), (120, -4));
    assert_eq!((baker.last_frame_input.x, baker.last_frame_input.y), (0, 0));
}

#[test]
fn press_and_release_of_a_held_key_beside_a_new_key() {
    let mut baker = BakedInputs::default();
    baker.process(&keys(&[A]), &keys(&[]));
    baker.swap_frame();
    baker.process(&keys(&[A, B]), &keys(&[A]));
    baker.swap_frame();
    assert!(baker.pressed_any_cur_frame);
    assert!(!baker.cur_frame_input.pressing.contains(&A));
    assert!(baker.cur_frame_input.pressing.contains(&B));
}

#[test]
fn latch_clicks_on_the_press_and_not_on_the_repeats() {
    let mut latch = KeyLatch::default();
    assert!(!latch.held);
    assert!(!latch.feed(false));
    assert!(latch.feed(true));
    assert!(latch.held);
    assert!(!latch.feed(true));
    assert!(!latch.feed(true));
    assert!(!latch.feed(false));
    assert!(!latch.held);
    assert!(latch.feed(true));
}

#[test]
fn is_holding_reads_the_current_frame() {
    let mut baker = BakedInputs::default();
    baker.process(&keys(&[A]), &keys(&[]));
    assert!(!baker.is_holding(A));
    baker.swap_frame();
    assert!(baker.is_holding(A));
    assert!(!baker.is_holding(B));
    baker.swap_frame();
    assert!(baker.is_holding(A));
    baker.process(&keys(&[]), &keys(&[A]));
    baker.swap_frame();
    assert!(!baker.is_holding(A));
}
