use tinyboot::boot::BootState;
use tinyboot::meta::{BootMetaError, BootMetaStore, OptionBytes, META_OB_BASE, OB_BASE};

#[derive(Default)]
struct MockOb {
    programmed: Vec<(u32, u16)>,
    rewritten: Vec<[u8; 16]>,
}

impl OptionBytes for MockOb {
    fn read_byte(&self, addr: u32) -> u8 {
        (addr & 0xFF) as u8
    }

    fn program(&mut self, addr: u32, value: u16) {
        self.programmed.push((addr, value));
    }

    fn rewrite(&mut self, bytes: [u8; 16]) {
        self.rewritten.push(bytes);
    }
}

use tinyboot::traits::BootMetaStore as _;

#[test]
fn ob_bytes_round_trip() {
    let bytes = [0x7F, 0x0F, 0x34, 0x12, 0x78, 0x56, 0x34, 0x12];
    let m = BootMetaStore::from_ob_bytes(MockOb::default(), bytes);
    assert_eq!(m.boot_state(), BootState::Updating);
    assert_eq!(m.app_checksum(), 0x1234);
    assert_eq!(m.app_size(), 0x1234_5678);
    assert!(m.has_trials());
    assert_eq!(m.to_ob_bytes(), bytes);
}

#[test]
fn ob_image_keeps_chip_bytes() {
    let m = BootMetaStore::from_ob_bytes(MockOb::default(), [0xFF, 0xFF, 0xAA, 0xBB, 1, 2, 3, 4]);
    let img = m.ob_image([10, 11, 12, 13, 14, 15, 16, 17]);
    assert_eq!(img, [10, 11, 12, 13, 14, 15, 16, 17, 0xFF, 0xFF, 0xAA, 0xBB, 1, 2, 3, 4]);
    assert_eq!(META_OB_BASE, OB_BASE + 16);
}

#[test]
fn advance_walks_the_lifecycle() {
    let mut m = BootMetaStore::from_ob_bytes(MockOb::default(), [0xFF; 8]);
    assert_eq!(m.advance(), Ok(BootState::Updating));
    assert_eq!(m.to_ob_bytes()[0], 0x7F);
    assert_eq!(m.advance(), Ok(BootState::Validating));
    assert_eq!(m.to_ob_bytes()[0], 0x3F);
    assert_eq!(m.advance(), Err(BootMetaError::InvalidTransition));
    assert_eq!(m.boot_state(), BootState::Validating);
}

#[test]
fn eight_trials_from_erased() {
    let mut m = BootMetaStore::from_ob_bytes(MockOb::default(), [0x3F, 0xFF, 0, 0, 0, 0, 0, 0]);
    for _ in 0..8 {
        assert!(m.has_trials());
        assert_eq!(m.consume_trial(), Ok(()));
    }
    assert!(!m.has_trials());
    assert_eq!(m.consume_trial(), Err(BootMetaError::TrialsExhausted));
}

#[test]
fn refresh_rewrites_everything() {
    let mut m = BootMetaStore::from_ob_bytes(MockOb::default(), [0x3F, 0x00, 0, 0, 0, 0, 0, 0]);
    assert_eq!(m.refresh(0xBEEF, BootState::Idle, 4096), Ok(()));
    assert_eq!(m.to_ob_bytes(), [0xFF, 0xFF, 0xEF, 0xBE, 0x00, 0x10, 0x00, 0x00]);
}

#[test]
fn steps_then_refresh() {
    let mut m = BootMetaStore::from_ob_bytes(MockOb::default(), [0xFF, 0xFF, 0, 0, 0, 0, 0, 0]);
    m.advance().unwrap();
    m.consume_trial().unwrap();
    m.refresh(0x1234, BootState::Validating, 64).unwrap();
    let img = m.ob_image([0x00, 0x02, 0x04, 0x06, 0x08, 0x0A, 0x0C, 0x0E]);
    assert_eq!(img[8..], [0x3F, 0xFF, 0x34, 0x12, 64, 0, 0, 0]);
    assert_eq!(m.to_ob_bytes(), [0x3F, 0xFF, 0x34, 0x12, 64, 0, 0, 0]);
}

#[test]
fn changes_are_written_through_to_the_option_bytes() {
    let mut m = BootMetaStore::from_ob_bytes(MockOb::default(), [0xFF, 0xFF, 0, 0, 0, 0, 0, 0]);
    m.advance().unwrap();
    m.consume_trial().unwrap();
    assert_eq!(m.advance(), Ok(BootState::Validating));
    assert_eq!(
        m.option_bytes().programmed,
        vec![(META_OB_BASE, 0x7F), (META_OB_BASE + 2, 0x7F), (META_OB_BASE, 0x3F)]
    );
    assert_eq!(m.advance(), Err(BootMetaError::InvalidTransition));
    assert_eq!(m.option_bytes().programmed.len(), 3);
    assert!(m.option_bytes().rewritten.is_empty());
    m.refresh(0xBEEF, BootState::Idle, 4096).unwrap();
    assert_eq!(
        m.option_bytes().rewritten,
        vec![[0x00, 0x02, 0x04, 0x06, 0x08, 0x0A, 0x0C, 0x0E, 0xFF, 0xFF, 0xEF, 0xBE, 0x00, 0x10, 0x00, 0x00]]
    );
}
