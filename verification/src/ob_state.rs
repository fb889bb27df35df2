//! Single-byte boot state kept in option byte DATA0 (with its complement in
//! nDATA0).
//!
//! Bit layout of the boot state byte:
//! - bit 7: boot request (0 = requested, 1 = idle)
//! - bits 6-4: state (111 Idle, 011 Updating, 001 Validating, 000 Confirmed)
//! - bits 3-0: trial counter (each 0 bit = one trial consumed)
//!
//! Without an erase, flash bits only go from 1 to 0, so every step but the
//! return to Idle clears bits.

use vstd::prelude::*;

verus! {

/// Boot request bit.
pub const BR_BIT: u8 = 0x80;

/// State bits.
pub const STATE_MASK: u8 = 0x70;

/// Trial counter bits.
pub const TRIAL_MASK: u8 = 0x0F;

/// Current stage in the firmware update lifecycle.
#[derive(Debug, Clone, Copy, PartialEq, Eq, Structural)]
pub enum BootState {
    /// No update in progress. Normal app boot.
    Idle,
    /// Firmware transfer in progress.
    Updating,
    /// New firmware written, trial booting the app.
    Validating,
    /// App confirmed successful boot.
    Confirmed,
}

/// How the option byte is rewritten.
#[derive(Debug, Clone, Copy, PartialEq, Eq, Structural)]
pub enum ObWrite {
    /// Program the byte in place (1→0 only, no erase).
    Program(u8),
    /// Erase all option bytes and reprogram them with this byte.
    EraseAndProgram(u8),
}

/// The state bits of a byte decoded; partially cleared patterns count as
/// the next valid state.
pub open spec fn spec_decode_state(byte: u8) -> BootState {
    let s = (byte & STATE_MASK) >> 4u8;
    if s == 7 {
        BootState::Idle
    } else if s == 3 || s == 6 || s == 5 || s == 4 {
        BootState::Updating
    } else if s == 1 || s == 2 {
        BootState::Validating
    } else {
        BootState::Confirmed
    }
}

/// Decode the state bits of a boot state byte.
pub fn decode_state(byte: u8) -> (r: BootState)
    ensures
        r == spec_decode_state(byte),
{
    let s: u8 = (byte & STATE_MASK) >> 4u8;
    assert(s < 8) by (bit_vector)
        requires
            s == (byte & 0x70u8) >> 4u8,
    ;
    match s {
        7 => BootState::Idle,
        3 | 6 | 5 | 4 => BootState::Updating,
        1 | 2 => BootState::Validating,
        _ => BootState::Confirmed,
    }
}

/// The option-byte halfword holding `value` and its complement.
pub open spec fn spec_ob_half(value: u8) -> u16 {
    (((!value) as u16) << 8u16) | (value as u16)
}

/// The value of an option-byte halfword: its low byte when the high byte is
/// its complement, else 0xFF (treated as erased).
pub open spec fn spec_read_byte(raw: u16) -> u8 {
    if raw as u8 == !((raw >> 8u16) as u8) {
        raw as u8
    } else {
        0xFF
    }
}

/// Decode the boot state byte from the DATA0/nDATA0 halfword.
pub fn read_byte(raw: u16) -> (r: u8)
    ensures
        r == spec_read_byte(raw),
{
    let data: u8 = raw as u8;
    let inv: u8 = (raw >> 8u16) as u8;
    if data == !inv {
        data
    } else {
        0xFF
    }
}

/// The four option-byte words with DATA0/nDATA0 replaced by `value` and its
/// complement; the other bytes are kept.
pub fn ob_words_with(words: [u32; 4], value: u8) -> (r: [u32; 4])
    ensures
        r@[0] == words@[0],
        r@[2] == words@[2],
        r@[3] == words@[3],
        r@[1] & 0xFFFF_0000 == words@[1] & 0xFFFF_0000,
        (r@[1] & 0xFFFF) as u16 == spec_ob_half(value),
        spec_read_byte((r@[1] & 0xFFFF) as u16) == value,
{
    let half: u16 = (((!value) as u16) << 8u16) | (value as u16);
    let w1: u32 = (words[1] & 0xFFFF_0000) | (half as u32);
    let old1: u32 = words[1];
    assert((w1 & 0xFFFF_0000) == (old1 & 0xFFFF_0000) && ((w1 & 0xFFFF) as u16) == half)
        by (bit_vector)
        requires
            w1 == (old1 & 0xFFFF_0000) | (half as u32),
    ;
    assert(spec_read_byte(half) == value) by (bit_vector)
        requires
            half == (((!value) as u16) << 8u16) | (value as u16),
    ;
    [words[0], w1, words[2], words[3]]
}

/// Whether the app has requested to enter the bootloader.
pub fn boot_requested(byte: u8) -> (r: bool)
    ensures
        r == (byte & BR_BIT == 0),
{
    byte & BR_BIT == 0
}

/// Number of set bits among the low four bits.
pub open spec fn popcount4(v: u8) -> u8 {
    ((v & 1) + ((v >> 1u8) & 1) + ((v >> 2u8) & 1) + ((v >> 3u8) & 1)) as u8
}

/// Number of trial boots remaining: the set bits of the trial counter.
pub fn trials_remaining(byte: u8) -> (r: u8)
    ensures
        r == popcount4(byte & TRIAL_MASK),
{
    let t: u8 = byte & TRIAL_MASK;
    let a: u8 = t & 1;
    let b: u8 = (t >> 1u8) & 1;
    let c: u8 = (t >> 2u8) & 1;
    let d: u8 = (t >> 3u8) & 1;
    assert(a <= 1 && b <= 1 && c <= 1 && d <= 1) by (bit_vector)
        requires
            a == t & 1,
            b == (t >> 1u8) & 1,
            c == (t >> 2u8) & 1,
            d == (t >> 3u8) & 1,
    ;
    a + b + c + d
}

/// Highest set bit of a non-zero trial counter (low four bits).
pub open spec fn spec_highest_trial_bit(t: u8) -> u8 {
    if t & 8u8 != 0 {
        8u8
    } else if t & 4u8 != 0 {
        4u8
    } else if t & 2u8 != 0 {
        2u8
    } else {
        1u8
    }
}

/// The byte after consuming one trial: the highest set bit of the trial
/// counter is cleared. `None` when no trial is left.
pub fn increment_trial(byte: u8) -> (r: Option<u8>)
    ensures
        byte & TRIAL_MASK == 0 ==> r is None,
        byte & TRIAL_MASK != 0 ==> r == Some(
            (byte & !spec_highest_trial_bit(byte & TRIAL_MASK)) as u8,
        ),
        r matches Some(b) ==> popcount4(b & TRIAL_MASK) == popcount4(byte & TRIAL_MASK) - 1,
{
    proof {
        if byte & TRIAL_MASK != 0 {
            lemma_trial_consumed(byte);
        }
    }
    let trials: u8 = byte & TRIAL_MASK;
    if trials == 0 {
        return None;
    }
    let highest_bit: u8 = if trials & 8 != 0 {
        8
    } else if trials & 4 != 0 {
        4
    } else if trials & 2 != 0 {
        2
    } else {
        1
    };
    Some(byte & !highest_bit)
}

/// The next stage of the lifecycle.
pub open spec fn spec_next_state(s: BootState) -> BootState {
    match s {
        BootState::Idle => BootState::Updating,
        BootState::Updating => BootState::Validating,
        BootState::Validating => BootState::Confirmed,
        BootState::Confirmed => BootState::Idle,
    }
}

/// State bits of the next stage, chosen among the bits already set where
/// possible: 111→011, 011→001, 110→010, 101→001, 100→001, 001→000, 010→000.
pub open spec fn spec_next_bits(s: u8) -> u8 {
    if s == 7 {
        3
    } else if s == 3 || s == 5 || s == 4 {
        1
    } else if s == 6 {
        2
    } else {
        0
    }
}

/// `byte` with its state bits replaced by `bits`.
pub open spec fn spec_with_state(byte: u8, bits: u8) -> u8 {
    (byte & !STATE_MASK) | (bits << 4u8)
}

/// The state after the next lifecycle transition, and how the byte is
/// written: Confirmed erases back to 0xFF; 100 (Updating) has no Validating
/// pattern among its set bits and is erased and reprogrammed; every other
/// state is programmed in place.
pub open spec fn spec_transition(byte: u8) -> (BootState, ObWrite) {
    let s = (byte & STATE_MASK) >> 4u8;
    let nb = spec_with_state(byte, spec_next_bits(s));
    if s == 0 {
        (BootState::Idle, ObWrite::EraseAndProgram(0xFF))
    } else if s == 4 {
        (spec_decode_state(nb), ObWrite::EraseAndProgram(nb))
    } else {
        (spec_decode_state(nb), ObWrite::Program(nb))
    }
}

/// Advance to the next state: Idle → Updating → Validating → Confirmed by
/// clearing state bits, Confirmed → Idle by erasing.
pub fn transition(byte: u8) -> (r: (BootState, ObWrite))
    ensures
        r == spec_transition(byte),
        r.0 == spec_next_state(spec_decode_state(byte)),
{
    proof {
        lemma_transition_cycle(byte);
    }
    let s: u8 = (byte & STATE_MASK) >> 4u8;
    if s == 0 {
        return (BootState::Idle, ObWrite::EraseAndProgram(0xFF));
    }
    let bits: u8 = if s == 7 {
        3
    } else if s == 3 || s == 5 || s == 4 {
        1
    } else if s == 6 {
        2
    } else {
        0
    };
    let nb: u8 = (byte & !STATE_MASK) | (bits << 4u8);
    if s == 4 {
        (decode_state(nb), ObWrite::EraseAndProgram(nb))
    } else {
        (decode_state(nb), ObWrite::Program(nb))
    }
}

/// What the bootloader does at start-up with the single-byte boot state.
#[derive(Debug, Clone, Copy, PartialEq, Eq, Structural)]
pub struct LifecyclePlan {
    /// Advance the boot state first.
    pub transition: bool,
    /// Consume one trial boot first.
    pub increment_trial: bool,
    /// Jump to the application; otherwise stay in the bootloader.
    pub boot_app: bool,
}

/// Whether the app region is blank: the first word could not be read, or
/// reads as erased flash.
pub fn app_is_blank(first_word: Option<[u8; 4]>) -> (r: bool)
    ensures
        r == match first_word {
            None => true,
            Some(w) => w@ == seq![0xFFu8, 0xFFu8, 0xFFu8, 0xFFu8],
        },
{
    match first_word {
        None => true,
        Some(w) => {
            let blank = w[0] == 0xFF && w[1] == 0xFF && w[2] == 0xFF && w[3] == 0xFF;
            assert(blank ==> w@ =~= seq![0xFFu8, 0xFFu8, 0xFFu8, 0xFFu8]);
            blank
        },
    }
}

/// Decide the start-up path from the stored state (`None` when it could not
/// be read: Idle), the boot request (`None`: not requested), the remaining
/// trials (`None`: none) and whether the app region is blank.
///
/// - Idle: enter the bootloader, advancing to Updating, when the app asked
///   for it; otherwise boot the app.
/// - Updating: stay in the bootloader.
/// - Validating: stay in the bootloader once the trials are exhausted;
///   otherwise consume one and boot the app.
/// - Confirmed: advance back to Idle and boot the app.
///
/// Booting the app falls back to the bootloader when the app region is blank.
pub fn lifecycle_plan(
    state: Option<BootState>,
    boot_requested: Option<bool>,
    trials_remaining: Option<u8>,
    app_blank: bool,
) -> (r: LifecyclePlan)
    ensures
        ({
            let s = match state {
                Some(s) => s,
                None => BootState::Idle,
            };
            let requested = boot_requested == Some(true);
            let trials = match trials_remaining {
                Some(t) => t,
                None => 0,
            };
            &&& s == BootState::Idle && requested ==> r == (LifecyclePlan {
                transition: true,
                increment_trial: false,
                boot_app: false,
            })
            &&& s == BootState::Idle && !requested ==> r == (LifecyclePlan {
                transition: false,
                increment_trial: false,
                boot_app: !app_blank,
            })
            &&& s == BootState::Updating ==> r == (LifecyclePlan {
                transition: false,
                increment_trial: false,
                boot_app: false,
            })
            &&& s == BootState::Validating && trials == 0 ==> r == (LifecyclePlan {
                transition: false,
                increment_trial: false,
                boot_app: false,
            })
            &&& s == BootState::Validating && trials != 0 ==> r == (LifecyclePlan {
                transition: false,
                increment_trial: true,
                boot_app: !app_blank,
            })
            &&& s == BootState::Confirmed ==> r == (LifecyclePlan {
                transition: true,
                increment_trial: false,
                boot_app: !app_blank,
            })
        }),
{
    let s = match state {
        Some(s) => s,
        None => BootState::Idle,
    };
    match s {
        BootState::Idle => {
            let requested = match boot_requested {
                Some(b) => b,
                None => false,
            };
            if requested {
                LifecyclePlan { transition: true, increment_trial: false, boot_app: false }
            } else {
                LifecyclePlan { transition: false, increment_trial: false, boot_app: !app_blank }
            }
        },
        BootState::Updating => LifecyclePlan {
            transition: false,
            increment_trial: false,
            boot_app: false,
        },
        BootState::Validating => {
            let remaining: u8 = match trials_remaining {
                Some(t) => t,
                None => 0,
            };
            if remaining == 0 {
                LifecyclePlan { transition: false, increment_trial: false, boot_app: false }
            } else {
                LifecyclePlan { transition: false, increment_trial: true, boot_app: !app_blank }
            }
        },
        BootState::Confirmed => LifecyclePlan {
            transition: true,
            increment_trial: false,
            boot_app: !app_blank,
        },
    }
}

/// The lifecycle cycles Idle → Updating → Validating → Confirmed → Idle, from
/// any byte: the written byte decodes to the next stage of the decoded one.
/// Writes in place only clear bits; every write but the return to Idle keeps
/// the boot request and trial bits; the return to Idle writes the erased byte.
pub proof fn lemma_transition_cycle(byte: u8)
    ensures
        ({
            let (next, w) = spec_transition(byte);
            &&& next == spec_next_state(spec_decode_state(byte))
            &&& w matches ObWrite::Program(b) ==> {
                &&& spec_decode_state(b) == next
                &&& b & byte == b
                &&& b & !STATE_MASK == byte & !STATE_MASK
            }
            &&& w matches ObWrite::EraseAndProgram(b) ==> {
                &&& spec_decode_state(b) == next
                &&& spec_decode_state(byte) == BootState::Confirmed ==> b == 0xFF
                &&& spec_decode_state(byte) != BootState::Confirmed ==> b & !STATE_MASK == byte
                    & !STATE_MASK
            }
        }),
{
    let s = (byte & 0x70u8) >> 4u8;
    assert({
        &&& s < 8
        &&& ((0xFFu8 & 0x70u8) >> 4u8) == 7
        &&& s == 7 ==> (((spec_with_state(byte, 3) & 0x70u8) >> 4u8) == 3 && spec_with_state(
            byte,
            3,
        ) & byte == spec_with_state(byte, 3))
        &&& s == 3 ==> (((spec_with_state(byte, 1) & 0x70u8) >> 4u8) == 1 && spec_with_state(
            byte,
            1,
        ) & byte == spec_with_state(byte, 1))
        &&& s == 5 ==> (((spec_with_state(byte, 1) & 0x70u8) >> 4u8) == 1 && spec_with_state(
            byte,
            1,
        ) & byte == spec_with_state(byte, 1))
        &&& s == 4 ==> ((spec_with_state(byte, 1) & 0x70u8) >> 4u8) == 1
        &&& s == 6 ==> (((spec_with_state(byte, 2) & 0x70u8) >> 4u8) == 2 && spec_with_state(
            byte,
            2,
        ) & byte == spec_with_state(byte, 2))
        &&& (s == 1 || s == 2) ==> (((spec_with_state(byte, 0) & 0x70u8) >> 4u8) == 0
            && spec_with_state(byte, 0) & byte == spec_with_state(byte, 0))
        &&& spec_with_state(byte, 0) & !0x70u8 == byte & !0x70u8
        &&& spec_with_state(byte, 1) & !0x70u8 == byte & !0x70u8
        &&& spec_with_state(byte, 2) & !0x70u8 == byte & !0x70u8
        &&& spec_with_state(byte, 3) & !0x70u8 == byte & !0x70u8
    }) by (bit_vector)
        requires
            s == (byte & 0x70u8) >> 4u8,
    ;
}

/// Consuming a trial clears exactly one trial bit: one fewer trial remains,
/// and the boot request and state bits are kept.
pub proof fn lemma_trial_consumed(byte: u8)
    requires
        byte & TRIAL_MASK != 0,
    ensures
        ({
            let b = (byte & !spec_highest_trial_bit(byte & TRIAL_MASK)) as u8;
            &&& popcount4(b & TRIAL_MASK) == popcount4(byte & TRIAL_MASK) - 1
            &&& b & byte == b
            &&& b & !TRIAL_MASK == byte & !TRIAL_MASK
        }),
{
    assert({
        let b = (byte & !spec_highest_trial_bit(byte & 0x0Fu8)) as u8;
        &&& popcount4(b & 0x0Fu8) == popcount4(byte & 0x0Fu8) - 1
        &&& b & byte == b
        &&& b & !0x0Fu8 == byte & !0x0Fu8
    }) by (bit_vector)
        requires
            byte & 0x0Fu8 != 0,
    ;
}

} // verus!
