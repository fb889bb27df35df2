use tinyboot::app::{confirm, AppConfig, AppReply};
use tinyboot::boot::BootState;
use tinyboot::dispatcher::{Data, InfoData, Response};
use tinyboot::meta::{BootMetaStore, OptionBytes};

#[derive(Default)]
struct MockOb {
    programmed: Vec<(u32, u16)>,
    rewritten: Vec<[u8; 16]>,
}

impl OptionBytes for MockOb {
    fn read_byte(&self, addr: u32) -> u8 {
        (addr & 0xFF) as u8
    }

    fn program(&mut self, addr: u32, value: u16) {
        self.programmed.push((addr, value));
    }

    fn rewrite(&mut self, bytes: [u8; 16]) {
        self.rewritten.push(bytes);
    }
}

use tinyboot::protocol::{Cmd, Status};
use tinyboot::traits::BootMetaStore as _;

fn config() -> AppConfig {
    AppConfig { capacity: 16320, erase_size: 64, boot_version: 0x0800, app_version: 0x0843 }
}

#[test]
fn app_answers_info_in_app_mode() {
    let r = config().reply(Status::Success, Cmd::Info, 0);
    assert_eq!(
        r,
        AppReply {
            response: Response {
                status: Status::Success,
                len: 12,
                data: Data::Info(InfoData {
                    capacity: 16320,
                    erase_size: 64,
                    boot_version: 0x0800,
                    app_version: 0x0843,
                    mode: 1,
                }),
            },
            send: true,
            reset: false,
            enter_bootloader: false,
        }
    );
}

#[test]
fn app_reset_to_bootloader() {
    let r = config().reply(Status::Success, Cmd::Reset, 1);
    assert!(r.reset && r.enter_bootloader && !r.send);
    let r = config().reply(Status::Success, Cmd::Reset, 0);
    assert!(r.reset && !r.enter_bootloader);
}

#[test]
fn app_refuses_update_commands() {
    let r = config().reply(Status::Success, Cmd::Write, 0);
    assert_eq!(r.response, Response { status: Status::Unsupported, len: 0, data: Data::Empty });
    assert!(r.send);
}

#[test]
fn app_reports_bad_frames() {
    let r = config().reply(Status::CrcMismatch, Cmd::Info, 0);
    assert_eq!(r.response, Response { status: Status::CrcMismatch, len: 0, data: Data::Empty });
    assert!(r.send);
    let r = config().reply(Status::CrcMismatch, Cmd::Reset, 0);
    assert!(!r.send && !r.reset);
}

#[test]
fn confirm_validating_boot() {
    let mut m = BootMetaStore::from_ob_bytes(MockOb::default(), [0x3F, 0x01, 0xB1, 0x29, 9, 0, 0, 0]);
    assert_eq!(confirm(&mut m), Some(Ok(())));
    assert_eq!(m.boot_state(), BootState::Idle);
    assert_eq!(m.to_ob_bytes(), [0xFF, 0xFF, 0xB1, 0x29, 9, 0, 0, 0]);
    assert_eq!(confirm(&mut m), None);
}

#[test]
fn boot_version_is_last_halfword_of_bootloader() {
    assert_eq!(tinyboot::app::boot_version_addr(0x1FFF_F000, 1920), 0x1FFF_F77E);
}
