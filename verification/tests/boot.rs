use tinyboot::boot::{check_boot_state, run_mode_after, validate_app, BootMode, BootState, RunMode};
use tinyboot::crc::{crc16, CRC_INIT};
use tinyboot::meta::{BootMetaError, BootMetaStore, OptionBytes};
use tinyboot::traits::BootMetaStore as _;


#[derive(Default)]
struct MockOb {
    programmed: Vec<(u32, u16)>,
    rewritten: Vec<[u8; 16]>,
}

impl OptionBytes for MockOb {
    fn read_byte(&self, addr: u32) -> u8 {
        (addr & 0xFF) as u8
    }

    fn program(&mut self, addr: u32, value: u16) {
        self.programmed.push((addr, value));
    }

    fn rewrite(&mut self, bytes: [u8; 16]) {
        self.rewritten.push(bytes);
    }
}

fn meta(state: u8, trials: u8, checksum: u16, app_size: u32) -> BootMetaStore<MockOb> {
    let c = checksum.to_le_bytes();
    let s = app_size.to_le_bytes();
    BootMetaStore::from_ob_bytes(MockOb::default(), [state, trials, c[0], c[1], s[0], s[1], s[2], s[3]])
}

#[test]
fn state_bytes_round_trip() {
    for s in [BootState::Idle, BootState::Updating, BootState::Validating] {
        assert_eq!(BootState::from_u8(s.code()), s);
    }
    assert_eq!(BootState::Idle.code(), 0xFF);
    assert_eq!(BootState::Updating.code(), 0x7F);
    assert_eq!(BootState::Validating.code(), 0x3F);
    assert_eq!(BootState::from_u8(0x00), BootState::Idle);
    assert_eq!(BootState::from_u8(0x1F), BootState::Idle);
}

#[test]
fn advancing_is_a_bit_clear() {
    let idle = BootState::Idle.code();
    assert_eq!(idle & (idle >> 1), BootState::Updating.code());
    let upd = BootState::Updating.code();
    assert_eq!(upd & (upd >> 1), BootState::Validating.code());
}

#[test]
fn validate_with_checksum() {
    let mut image = vec![0xFF; 64];
    image[..9].copy_from_slice(b"123456789");
    assert!(validate_app(0x29B1, 9, &image));
    assert!(!validate_app(0x29B0, 9, &image));
    assert!(!validate_app(0x29B1, 65, &image));
    assert_eq!(crc16(CRC_INIT, &image[..9]), 0x29B1);
}

#[test]
fn validate_without_checksum_looks_at_first_word() {
    let mut image = vec![0xFF; 64];
    assert!(!validate_app(0xFFFF, 0xFFFF_FFFF, &image));
    image[2] = 0x12;
    assert!(validate_app(0xFFFF, 0xFFFF_FFFF, &image));
    assert!(!validate_app(0xFFFF, 0, &[0x00, 0x01, 0x02]));
}

#[test]
fn service_request_wins() {
    let mut m = meta(0xFF, 0xFF, 0xFFFF, 0xFFFF_FFFF);
    let image = vec![0x00; 16];
    assert_eq!(check_boot_state(RunMode::Service, &mut m, &image), Ok(RunMode::Service));
}

#[test]
fn idle_boots_a_present_app() {
    let mut m = meta(0xFF, 0xFF, 0xFFFF, 0xFFFF_FFFF);
    assert_eq!(check_boot_state(RunMode::HandOff, &mut m, &[0u8; 16]), Ok(RunMode::HandOff));
    assert_eq!(check_boot_state(RunMode::HandOff, &mut m, &[0xFFu8; 16]), Ok(RunMode::Service));
}

#[test]
fn updating_stays_in_bootloader() {
    let mut m = meta(0x7F, 0xFF, 0xFFFF, 0xFFFF_FFFF);
    assert_eq!(check_boot_state(RunMode::HandOff, &mut m, &[0u8; 16]), Ok(RunMode::Service));
}

#[test]
fn validating_consumes_trials_until_exhausted() {
    let mut image = vec![0xFF; 32];
    image[..9].copy_from_slice(b"123456789");
    let mut m = meta(0x3F, 0x03, 0x29B1, 9);
    assert_eq!(check_boot_state(RunMode::HandOff, &mut m, &image), Ok(RunMode::HandOff));
    assert!(m.has_trials());
    assert_eq!(check_boot_state(RunMode::HandOff, &mut m, &image), Ok(RunMode::HandOff));
    assert!(!m.has_trials());
    assert_eq!(check_boot_state(RunMode::HandOff, &mut m, &image), Ok(RunMode::Service));
}

#[test]
fn failed_check_stays_in_bootloader() {
    assert_eq!(run_mode_after::<BootMetaError>(Err(BootMetaError::TrialsExhausted)), RunMode::Service);
    assert_eq!(run_mode_after::<BootMetaError>(Ok(RunMode::HandOff)), RunMode::HandOff);
}

#[test]
fn boot_modes_differ() {
    assert_ne!(BootMode::App, BootMode::Bootloader);
}
