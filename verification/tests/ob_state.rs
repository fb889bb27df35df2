use tinyboot::ob_state::{
    app_is_blank, boot_requested, decode_state, increment_trial, lifecycle_plan, ob_words_with,
    read_byte, transition, trials_remaining, BootState, LifecyclePlan, ObWrite,
};

#[test]
fn decode_canonical_and_partial_states() {
    assert_eq!(decode_state(0xFF), BootState::Idle);
    assert_eq!(decode_state(0xBF), BootState::Updating);
    assert_eq!(decode_state(0x9F), BootState::Validating);
    assert_eq!(decode_state(0x8F), BootState::Confirmed);
    assert_eq!(decode_state(0xEF), BootState::Updating);
    assert_eq!(decode_state(0xAF), BootState::Validating);
}

#[test]
fn transitions_cycle() {
    assert_eq!(transition(0xFF), (BootState::Updating, ObWrite::Program(0xBF)));
    assert_eq!(transition(0xBF), (BootState::Validating, ObWrite::Program(0x9F)));
    assert_eq!(transition(0x9F), (BootState::Confirmed, ObWrite::Program(0x8F)));
    assert_eq!(transition(0x8F), (BootState::Idle, ObWrite::EraseAndProgram(0xFF)));
}

#[test]
fn transitions_from_partial_patterns() {
    assert_eq!(transition(0xCF), (BootState::Validating, ObWrite::EraseAndProgram(0x9F)));
    assert_eq!(transition(0xEF), (BootState::Validating, ObWrite::Program(0xAF)));
    assert_eq!(transition(0xDF), (BootState::Validating, ObWrite::Program(0x9F)));
    assert_eq!(transition(0xAF), (BootState::Confirmed, ObWrite::Program(0x8F)));
    assert_eq!(transition(0x3C), (BootState::Validating, ObWrite::Program(0x1C)));
}

#[test]
fn trial_clears_highest_set_bit() {
    assert_eq!(increment_trial(0xFC), Some(0xF4));
    assert_eq!(trials_remaining(0xF4), 1);
    assert_eq!(increment_trial(0xF4), Some(0xF0));
    assert_eq!(increment_trial(0x7A), Some(0x72));
}

#[test]
fn trials_count_down() {
    assert_eq!(trials_remaining(0xFF), 4);
    assert_eq!(increment_trial(0xFF), Some(0xF7));
    assert_eq!(trials_remaining(0xF7), 3);
    assert_eq!(increment_trial(0xF7), Some(0xF3));
    assert_eq!(increment_trial(0xF3), Some(0xF1));
    assert_eq!(increment_trial(0xF1), Some(0xF0));
    assert_eq!(trials_remaining(0xF0), 0);
    assert_eq!(increment_trial(0xF0), None);
}

#[test]
fn boot_request_bit() {
    assert!(!boot_requested(0xFF));
    assert!(boot_requested(0x7F));
}

#[test]
fn option_halfword_round_trip() {
    let words = [0x1111_2222, 0x3333_4444, 0x5555_6666, 0x7777_8888];
    let out = ob_words_with(words, 0x5A);
    assert_eq!(out, [0x1111_2222, 0x3333_A55A, 0x5555_6666, 0x7777_8888]);
    assert_eq!(read_byte((out[1] & 0xFFFF) as u16), 0x5A);
    assert_eq!(read_byte(0xFFFF), 0xFF);
    assert_eq!(read_byte(0x1234), 0xFF);
}

#[test]
fn blank_app_detection() {
    assert!(app_is_blank(None));
    assert!(app_is_blank(Some([0xFF; 4])));
    assert!(!app_is_blank(Some([0xFF, 0xFF, 0xFF, 0x00])));
}

#[test]
fn startup_paths() {
    let boot = LifecyclePlan { transition: false, increment_trial: false, boot_app: true };
    let stay = LifecyclePlan { transition: false, increment_trial: false, boot_app: false };
    assert_eq!(lifecycle_plan(Some(BootState::Idle), Some(false), None, false), boot);
    assert_eq!(lifecycle_plan(None, None, None, false), boot);
    assert_eq!(
        lifecycle_plan(Some(BootState::Idle), Some(true), None, false),
        LifecyclePlan { transition: true, increment_trial: false, boot_app: false }
    );
    assert_eq!(lifecycle_plan(Some(BootState::Idle), Some(false), None, true), stay);
    assert_eq!(lifecycle_plan(Some(BootState::Updating), None, None, false), stay);
    assert_eq!(lifecycle_plan(Some(BootState::Validating), None, Some(0), false), stay);
    assert_eq!(
        lifecycle_plan(Some(BootState::Validating), None, Some(2), false),
        LifecyclePlan { transition: false, increment_trial: true, boot_app: true }
    );
    assert_eq!(
        lifecycle_plan(Some(BootState::Confirmed), None, None, false),
        LifecyclePlan { transition: true, increment_trial: false, boot_app: true }
    );
}
