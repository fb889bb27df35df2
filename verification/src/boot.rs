//! Boot lifecycle values and the boot decision made after reset.

use vstd::prelude::*;
use crate::crc::{crc16, crc16_spec, CRC_INIT};
use crate::traits::BootMetaStore;

verus! {

/// Tinyboot's post-reset action.
#[derive(Debug, Clone, Copy, PartialEq, Eq, Structural)]
pub enum RunMode {
    /// Boot the application.
    HandOff,
    /// Stay in the bootloader, service protocol commands.
    Service,
}

/// Boot target after a system reset.
#[derive(Debug, Clone, Copy, PartialEq, Eq, Structural)]
pub enum BootMode {
    /// Boot the application.
    App,
    /// Enter the bootloader.
    Bootloader,
}

/// Firmware-update lifecycle stage. Encoded as contiguous 1-bit runs so
/// advancing is a 1→0 bit-clear: `next = state & (state >> 1)`.
///
/// `0xFF` Idle → `0x7F` Updating → `0x3F` Validating.
#[derive(Debug, Clone, Copy, PartialEq, Eq, Structural)]
pub enum BootState {
    /// No update in progress (erased flash default).
    Idle,
    /// Firmware transfer in progress.
    Updating,
    /// New firmware written, trial booting.
    Validating,
}

/// The byte that encodes a state.
pub open spec fn spec_state_code(s: BootState) -> u8 {
    match s {
        BootState::Idle => 0xFF,
        BootState::Updating => 0x7F,
        BootState::Validating => 0x3F,
    }
}

/// The state a raw byte decodes to; unrecognised values decay to Idle.
pub open spec fn spec_state_from_u8(v: u8) -> BootState {
    if v == 0x7F {
        BootState::Updating
    } else if v == 0x3F {
        BootState::Validating
    } else {
        BootState::Idle
    }
}

/// One 1→0 bit-clear step of a state byte.
pub open spec fn spec_bit_clear(v: u8) -> u8 {
    v & (v >> 1u8)
}

impl BootState {
    /// Parse a raw byte. Unrecognised values decay to [`Idle`](BootState::Idle).
    pub fn from_u8(v: u8) -> (r: Self)
        ensures
            r == spec_state_from_u8(v),
    {
        match v {
            0x7F => BootState::Updating,
            0x3F => BootState::Validating,
            _ => BootState::Idle,
        }
    }

    /// The byte that encodes this state.
    pub fn code(self) -> (r: u8)
        ensures
            r == spec_state_code(self),
    {
        match self {
            BootState::Idle => 0xFF,
            BootState::Updating => 0x7F,
            BootState::Validating => 0x3F,
        }
    }
}

/// Decoding the byte of a state gives the state back.
pub proof fn lemma_state_code_round_trip(s: BootState)
    ensures
        spec_state_from_u8(spec_state_code(s)) == s,
{
}

/// Advancing is a bit-clear: Idle → Updating → Validating, each step only
/// clearing bits of the byte.
pub proof fn lemma_state_advance()
    ensures
        spec_bit_clear(spec_state_code(BootState::Idle)) == spec_state_code(BootState::Updating),
        spec_bit_clear(spec_state_code(BootState::Updating)) == spec_state_code(
            BootState::Validating,
        ),
        forall|v: u8| #[trigger] spec_bit_clear(v) & v == spec_bit_clear(v),
        spec_state_from_u8(spec_bit_clear(spec_state_code(BootState::Idle)))
            == BootState::Updating,
        spec_state_from_u8(spec_bit_clear(spec_state_code(BootState::Updating)))
            == BootState::Validating,
{
    assert(spec_bit_clear(0xFF) == 0x7F) by (bit_vector);
    assert(spec_bit_clear(0x7F) == 0x3F) by (bit_vector);
    assert forall|v: u8| #[trigger] spec_bit_clear(v) & v == spec_bit_clear(v) by {
        assert((v & (v >> 1u8)) & v == v & (v >> 1u8)) by (bit_vector);
    }
}

/// Whether the app image is considered present and intact: with a stored
/// checksum, the CRC of the first `app_size` bytes must match it; without one
/// (`0xFFFF`, virgin or debugger-flashed), the first word must not be erased.
pub open spec fn spec_app_valid(checksum: u16, app_size: u32, image: Seq<u8>) -> bool {
    if checksum != 0xFFFF {
        &&& app_size <= image.len()
        &&& crc16_spec(CRC_INIT, image.take(app_size as int)) == checksum
    } else {
        &&& image.len() >= 4
        &&& !(image[0] == 0xFF && image[1] == 0xFF && image[2] == 0xFF && image[3] == 0xFF)
    }
}

/// Check the app image. The CRC covers `app_size` bytes only, not the full
/// region.
pub fn validate_app(checksum: u16, app_size: u32, image: &[u8]) -> (r: bool)
    ensures
        r == spec_app_valid(checksum, app_size, image@),
        r == image_boots(checksum, app_size, image@),
{
    proof {
        lemma_app_valid_is_image_boots(checksum, app_size, image@);
    }
    if checksum != 0xFFFF {
        if (app_size as u64) > (image.len() as u64) {
            return false;
        }
        let sz: usize = app_size as usize;
        return crc16(CRC_INIT, &image[0..sz]) == checksum;
    }
    image.len() >= 4 && !(image[0] == 0xFF && image[1] == 0xFF && image[2] == 0xFF && image[3]
        == 0xFF)
}

/// The image a boot may hand off to, stated from the raw bytes: with a
/// stored checksum, the CRC16-CCITT of its first `app_size` bytes equals that
/// checksum; without one (`0xFFFF`), its first word is not erased flash.
pub open spec fn image_boots(checksum: u16, app_size: u32, image: Seq<u8>) -> bool {
    if checksum == 0xFFFF {
        image.len() >= 4 && image.take(4) != seq![0xFFu8, 0xFFu8, 0xFFu8, 0xFFu8]
    } else {
        app_size <= image.len() && crc16_spec(0xFFFF, image.subrange(0, app_size as int))
            == checksum
    }
}

/// The run mode chosen after reset, when no metadata update fails.
pub open spec fn spec_boot_mode<M: BootMetaStore>(run_mode: RunMode, meta: M, image: Seq<u8>) -> RunMode {
    if run_mode == RunMode::Service {
        RunMode::Service
    } else if meta.meta_state() == BootState::Updating {
        RunMode::Service
    } else if meta.meta_state() == BootState::Validating && meta.meta_trials() == 0 {
        RunMode::Service
    } else if spec_app_valid(meta.meta_checksum(), meta.meta_app_size(), image) {
        RunMode::HandOff
    } else {
        RunMode::Service
    }
}

/// Decide, after reset, whether to hand off to the app or stay in the
/// bootloader. A trial boot (Validating with trials left) consumes one trial
/// first; the error of that step is returned.
pub fn check_boot_state<M: BootMetaStore>(run_mode: RunMode, meta: &mut M, image: &[u8]) -> (r:
    Result<RunMode, M::Error>)
    ensures
        ({
            let trial = run_mode == RunMode::HandOff && old(meta).meta_state()
                == BootState::Validating && old(meta).meta_trials() > 0;
            &&& !trial ==> *final(meta) == *old(meta) && r == Ok::<RunMode, M::Error>(
                spec_boot_mode(run_mode, *old(meta), image@),
            )
            &&& run_mode == RunMode::HandOff && old(meta).meta_state() == BootState::Idle ==> (r
                == Ok::<RunMode, M::Error>(RunMode::HandOff) <==> image_boots(
                old(meta).meta_checksum(),
                old(meta).meta_app_size(),
                image@,
            ))
            &&& trial ==> {
                &&& final(meta).meta_state() == old(meta).meta_state()
                &&& final(meta).meta_checksum() == old(meta).meta_checksum()
                &&& final(meta).meta_app_size() == old(meta).meta_app_size()
                &&& r is Ok ==> {
                    &&& r == Ok::<RunMode, M::Error>(spec_boot_mode(run_mode, *old(meta), image@))
                    &&& final(meta).meta_trials() == old(meta).meta_trials() - 1
                }
                &&& r matches Err(e) ==> {
                    &&& e == old(meta).trial_error()
                    &&& final(meta).meta_trials() == old(meta).meta_trials()
                }
            }
        }),
{
    proof {
        lemma_app_valid_is_image_boots(meta.meta_checksum(), meta.meta_app_size(), image@);
    }
    if run_mode == RunMode::Service {
        return Ok(RunMode::Service);
    }
    match meta.boot_state() {
        BootState::Idle => {},
        BootState::Updating => {
            return Ok(RunMode::Service);
        },
        BootState::Validating => {
            if !meta.has_trials() {
                return Ok(RunMode::Service);
            }
            match meta.consume_trial() {
                Ok(()) => {},
                Err(e) => {
                    return Err(e);
                },
            }
        },
    }
    if !validate_app(meta.app_checksum(), meta.app_size(), image) {
        return Ok(RunMode::Service);
    }
    Ok(RunMode::HandOff)
}

/// The mode the bootloader runs in after the boot check: any failure of
/// the check keeps it in the bootloader.
pub fn run_mode_after<E>(checked: Result<RunMode, E>) -> (r: RunMode)
    ensures
        r == match checked {
            Ok(m) => m,
            Err(_) => RunMode::Service,
        },
{
    match checked {
        Ok(m) => m,
        Err(_) => RunMode::Service,
    }
}

/// The boot decision: a requested service stay always stays; an update in
/// progress always stays; otherwise the app is handed off to exactly when
/// its image is intact, except that a trial boot with no trials left stays.
/// In particular an Idle device asked to hand off boots its app exactly when
/// the stored checksum matches the CRC of the stored size (or, with no
/// checksum, when the first word is programmed).
pub proof fn lemma_boot_decision<M: BootMetaStore>(run_mode: RunMode, meta: M, image: Seq<u8>)
    ensures
        run_mode == RunMode::Service ==> spec_boot_mode(run_mode, meta, image)
            == RunMode::Service,
        meta.meta_state() == BootState::Updating ==> spec_boot_mode(run_mode, meta, image)
            == RunMode::Service,
        spec_boot_mode(run_mode, meta, image) == RunMode::HandOff ==> image_boots(
            meta.meta_checksum(),
            meta.meta_app_size(),
            image,
        ),
        run_mode == RunMode::HandOff && meta.meta_state() == BootState::Idle ==> (spec_boot_mode(
            run_mode,
            meta,
            image,
        ) == RunMode::HandOff <==> image_boots(meta.meta_checksum(), meta.meta_app_size(), image)),
        run_mode == RunMode::HandOff && meta.meta_state() == BootState::Validating
            && meta.meta_trials() > 0 ==> (spec_boot_mode(run_mode, meta, image) == RunMode::HandOff
            <==> image_boots(meta.meta_checksum(), meta.meta_app_size(), image)),
{
    lemma_app_valid_is_image_boots(meta.meta_checksum(), meta.meta_app_size(), image);
}

proof fn lemma_app_valid_is_image_boots(checksum: u16, app_size: u32, image: Seq<u8>)
    ensures
        spec_app_valid(checksum, app_size, image) == image_boots(checksum, app_size, image),
{
    if image.len() >= 4 {
        let w = image.take(4);
        let e = seq![0xFFu8, 0xFFu8, 0xFFu8, 0xFFu8];
        if image[0] == 0xFF && image[1] == 0xFF && image[2] == 0xFF && image[3] == 0xFF {
            assert(w =~= e);
        } else {
            assert(w[0] == image[0] && w[1] == image[1] && w[2] == image[2] && w[3] == image[3]);
            assert(w != e) by {
                if w == e {
                    assert(w[0] == e[0] && w[1] == e[1] && w[2] == e[2] && w[3] == e[3]);
                }
            }
        }
    }
    if app_size <= image.len() {
        assert(image.take(app_size as int) =~= image.subrange(0, app_size as int));
    }
}

} // verus!
