use andy_clicker_core::loop_state::{LoopState, WaitPolicy};

fn state(control_flow: WaitPolicy, render: bool) -> LoopState {
    LoopState { control_flow, render }
}

fn merged(a: LoopState, b: LoopState) -> LoopState {
    let mut a = a;
    a |= b;
    a
}

fn policies() -> Vec<WaitPolicy> {
    vec![
        WaitPolicy::Wait,
        WaitPolicy::WaitUntil(0),
        WaitPolicy::WaitUntil(7),
        WaitPolicy::WaitUntil(1_000_000_007),
        WaitPolicy::WaitUntil(u64::MAX),
        WaitPolicy::Poll,
    ]
}

fn samples() -> Vec<LoopState> {
    let mut all = Vec::new();
    for p in policies() {
        all.push(state(p, false));
        all.push(state(p, true));
    }
    all
}

#[test]
fn named_states_have_their_fields() {
    assert_eq!(LoopState::wait_all(), state(WaitPolicy::Wait, false));
    assert_eq!(LoopState::wait(), state(WaitPolicy::Wait, true));
    assert_eq!(LoopState::poll(), state(WaitPolicy::Poll, true));
    assert_eq!(LoopState::poll_without_render(), state(WaitPolicy::Poll, false));
}

#[test]
fn wait_until_adds_the_duration_to_the_clock() {
    assert_eq!(
        LoopState::wait_until(1_000, 16_000_000, true),
        state(WaitPolicy::WaitUntil(16_001_000), true)
    );
    assert_eq!(LoopState::wait_until(0, 0, false), state(WaitPolicy::WaitUntil(0), false));
    assert_eq!(
        LoopState::wait_until(u64::MAX - 5, 5, false),
        state(WaitPolicy::WaitUntil(u64::MAX), false)
    );
}

#[test]
fn merge_table_row_wait() {
    assert_eq!(WaitPolicy::Wait.most_eager(WaitPolicy::Wait), WaitPolicy::Wait);
    assert_eq!(WaitPolicy::Wait.most_eager(WaitPolicy::WaitUntil(9)), WaitPolicy::WaitUntil(9));
    assert_eq!(WaitPolicy::Wait.most_eager(WaitPolicy::Poll), WaitPolicy::Poll);
}

#[test]
fn merge_table_row_wait_until() {
    assert_eq!(WaitPolicy::WaitUntil(5).most_eager(WaitPolicy::Wait), WaitPolicy::WaitUntil(5));
    assert_eq!(
        WaitPolicy::WaitUntil(5).most_eager(WaitPolicy::WaitUntil(9)),
        WaitPolicy::WaitUntil(5)
    );
    assert_eq!(
        WaitPolicy::WaitUntil(9).most_eager(WaitPolicy::WaitUntil(5)),
        WaitPolicy::WaitUntil(5)
    );
    assert_eq!(
        WaitPolicy::WaitUntil(5).most_eager(WaitPolicy::WaitUntil(5)),
        WaitPolicy::WaitUntil(5)
    );
    assert_eq!(WaitPolicy::WaitUntil(5).most_eager(WaitPolicy::Poll), WaitPolicy::Poll);
}

#[test]
fn merge_table_row_poll() {
    assert_eq!(WaitPolicy::Poll.most_eager(WaitPolicy::Wait), WaitPolicy::Poll);
    assert_eq!(WaitPolicy::Poll.most_eager(WaitPolicy::WaitUntil(3)), WaitPolicy::Poll);
    assert_eq!(WaitPolicy::Poll.most_eager(WaitPolicy::Poll), WaitPolicy::Poll);
}

#[test]
fn merge_ors_the_render_flag() {
    let quiet = state(WaitPolicy::Wait, false);
    let drawing = state(WaitPolicy::Wait, true);
    assert!(!merged(quiet, quiet).render);
    assert!(merged(quiet, drawing).render);
    assert!(merged(drawing, quiet).render);
    assert!(merged(drawing, drawing).render);
}

#[test]
fn merge_of_poll_and_wait_is_poll_either_way() {
    let wait = LoopState::wait_all();
    let poll = LoopState::poll_without_render();
    assert_eq!(merged(wait, poll), poll);
    assert_eq!(merged(poll, wait), poll);
}

#[test]
fn merge_is_commutative_on_samples() {
    for a in samples() {
        for b in samples() {
            assert_eq!(merged(a, b), merged(b, a));
        }
    }
}

#[test]
fn merge_is_associative_on_samples() {
    for a in samples() {
        for b in samples() {
            for c in samples() {
                assert_eq!(merged(merged(a, b), c), merged(a, merged(b, c)));
            }
        }
    }
}

#[test]
fn wait_all_is_neutral_and_merge_is_idempotent() {
    for a in samples() {
        assert_eq!(merged(LoopState::wait_all(), a), a);
        assert_eq!(merged(a, LoopState::wait_all()), a);
        assert_eq!(merged(a, a), a);
    }
}

#[test]
fn folds_agree_from_left_from_right_and_in_groups() {
    let contributions = vec![
        state(WaitPolicy::Wait, false),
        state(WaitPolicy::WaitUntil(40), false),
        state(WaitPolicy::Wait, true),
        state(WaitPolicy::WaitUntil(25), false),
        state(WaitPolicy::WaitUntil(90), true),
    ];
    let mut left = LoopState::wait_all();
    for c in contributions.iter() {
        left |= *c;
    }
    let mut right = LoopState::wait_all();
    for c in contributions.iter().rev() {
        right = merged(*c, right);
    }
    let mut front = LoopState::wait_all();
    for c in &contributions[..2] {
        front |= *c;
    }
    let mut back = LoopState::wait_all();
    for c in &contributions[2..] {
        back |= *c;
    }
    let expected = state(WaitPolicy::WaitUntil(25), true);
    assert_eq!(left, expected);
    assert_eq!(right, expected);
    assert_eq!(merged(front, back), expected);
}

#[test]
fn bitor_assign_by_name_merges_in_place() {
    let mut a = state(WaitPolicy::WaitUntil(12), false);
    LoopState::bitor_assign(&mut a, state(WaitPolicy::WaitUntil(11), true));
    assert_eq!(a, state(WaitPolicy::WaitUntil(11), true));
}

#[test]
fn fold_of_a_reversed_sequence_is_the_same() {
    let contributions = vec![
        state(WaitPolicy::WaitUntil(40), false),
        state(WaitPolicy::Wait, true),
        state(WaitPolicy::WaitUntil(25), false),
    ];
    let mut forward = LoopState::wait_all();
    for c in contributions.iter() {
        forward |= *c;
    }
    let mut backward = LoopState::wait_all();
    for c in contributions.iter().rev() {
        backward |= *c;
    }
    assert_eq!(forward, state(WaitPolicy::WaitUntil(25), true));
    assert_eq!(backward, forward);
}
