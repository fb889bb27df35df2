use tinyboot::boot::{BootState, RunMode};
use tinyboot::crc::{crc16, CRC_INIT};
use tinyboot::dispatcher::{
    Context, Data, Dispatcher, EraseData, InfoData, Op, OpRunner, Plan, Request, Response,
    VerifyData,
};
use tinyboot::protocol::{Cmd, Status};

fn ctx(state: BootState) -> Context {
    Context {
        capacity: 256,
        erase_size: 64,
        write_size: 64,
        state,
        app_size: 0xFFFF_FFFF,
        boot_version: 0x0840,
    }
}

fn req(cmd: Cmd, addr: u32, payload: Vec<u8>) -> Request {
    Request { status: Status::Success, cmd, addr, payload, erase: EraseData { byte_count: 0 } }
}

fn erase(addr: u32, byte_count: u16) -> Request {
    Request {
        status: Status::Success,
        cmd: Cmd::Erase,
        addr,
        payload: Vec::new(),
        erase: EraseData { byte_count },
    }
}

fn bare(status: Status) -> Response {
    Response { status, len: 0, data: Data::Empty }
}

fn writes(plan: &Plan) -> Vec<(u32, Vec<u8>)> {
    plan.ops
        .iter()
        .filter_map(|op| match op {
            Op::Write { offset, data } => Some((*offset, data.clone())),
            _ => None,
        })
        .collect()
}

#[test]
fn bad_frame_is_answered_with_its_status() {
    let mut d = Dispatcher::<128>::new();
    let image = vec![0xFF; 256];
    let mut r = req(Cmd::Write, 0, vec![1, 2, 3]);
    r.status = Status::CrcMismatch;
    let plan = d.dispatch(&r, &ctx(BootState::Updating), &image);
    assert_eq!(plan.response, bare(Status::CrcMismatch));
    assert!(plan.ops.is_empty());
    assert!(plan.reset.is_none());
}

#[test]
fn info_reports_device() {
    let mut d = Dispatcher::<128>::new();
    let mut image = vec![0xFF; 256];
    image[98] = 0x43;
    image[99] = 0x08;
    let mut c = ctx(BootState::Idle);
    c.app_size = 100;
    let plan = d.dispatch(&req(Cmd::Info, 0, Vec::new()), &c, &image);
    assert_eq!(
        plan.response,
        Response {
            status: Status::Success,
            len: 12,
            data: Data::Info(InfoData {
                capacity: 256,
                erase_size: 64,
                boot_version: 0x0840,
                app_version: 0x0843,
                mode: 0,
            }),
        }
    );
    assert!(plan.ops.is_empty());
}

#[test]
fn info_without_app_size_reports_no_version() {
    let mut d = Dispatcher::<128>::new();
    let image = vec![0x00; 256];
    let plan = d.dispatch(&req(Cmd::Info, 0, Vec::new()), &ctx(BootState::Idle), &image);
    match plan.response.data {
        Data::Info(info) => assert_eq!(info.app_version, 0xFFFF),
        _ => panic!("no info"),
    }
}

#[test]
fn erase_from_idle_advances_then_erases() {
    let mut d = Dispatcher::<128>::new();
    let image = vec![0xFF; 256];
    let plan = d.dispatch(&erase(64, 128), &ctx(BootState::Idle), &image);
    assert_eq!(plan.response, bare(Status::Success));
    assert_eq!(plan.ops.len(), 2);
    assert!(matches!(plan.ops[0], Op::MetaAdvance));
    assert!(matches!(plan.ops[1], Op::Erase { from: 64, to: 192 }));
}

#[test]
fn erase_from_validating_resets_meta() {
    let mut d = Dispatcher::<128>::new();
    let image = vec![0xFF; 256];
    let plan = d.dispatch(&erase(0, 64), &ctx(BootState::Validating), &image);
    assert_eq!(plan.ops.len(), 2);
    assert!(matches!(
        plan.ops[0],
        Op::MetaRefresh { checksum: 0xFFFF, state: BootState::Updating, app_size: 0xFFFF_FFFF }
    ));
}

#[test]
fn erase_while_updating_only_erases() {
    let mut d = Dispatcher::<128>::new();
    let image = vec![0xFF; 256];
    let plan = d.dispatch(&erase(192, 64), &ctx(BootState::Updating), &image);
    assert_eq!(plan.ops.len(), 1);
    assert!(matches!(plan.ops[0], Op::Erase { from: 192, to: 256 }));
}

#[test]
fn erase_rejects_bad_ranges() {
    let mut d = Dispatcher::<128>::new();
    let image = vec![0xFF; 256];
    for r in [erase(1, 64), erase(0, 63), erase(0, 0), erase(192, 128), erase(0xFFFF_FFC0, 128)] {
        let plan = d.dispatch(&r, &ctx(BootState::Idle), &image);
        assert_eq!(plan.response, bare(Status::AddrOutOfBounds));
        assert!(plan.ops.is_empty());
    }
}

#[test]
fn write_outside_update_is_unsupported() {
    let mut d = Dispatcher::<128>::new();
    let image = vec![0xFF; 256];
    let plan = d.dispatch(&req(Cmd::Write, 0, vec![1; 16]), &ctx(BootState::Idle), &image);
    assert_eq!(plan.response, bare(Status::Unsupported));
}

#[test]
fn writes_are_buffered_and_flushed_a_page_at_a_time() {
    let mut d = Dispatcher::<128>::new();
    let image = vec![0xFF; 256];
    let c = ctx(BootState::Updating);
    let data: Vec<u8> = (0..100u8).collect();
    let p1 = d.dispatch(&req(Cmd::Write, 0, data[..40].to_vec()), &c, &image);
    assert_eq!(p1.response, bare(Status::Success));
    assert!(p1.ops.is_empty());
    let p2 = d.dispatch(&req(Cmd::Write, 40, data[40..80].to_vec()), &c, &image);
    assert_eq!(writes(&p2), vec![(0, data[..64].to_vec())]);
    let p3 = d.dispatch(&req(Cmd::Write, 80, data[80..].to_vec()), &c, &image);
    assert!(p3.ops.is_empty());
    let p4 = d.dispatch(&req(Cmd::Flush, 0, Vec::new()), &c, &image);
    assert_eq!(p4.response, bare(Status::Success));
    assert_eq!(writes(&p4), vec![(64, data[64..].to_vec())]);
    let p5 = d.dispatch(&req(Cmd::Flush, 0, Vec::new()), &c, &image);
    assert!(p5.ops.is_empty());
}

#[test]
fn write_must_be_sequential() {
    let mut d = Dispatcher::<128>::new();
    let image = vec![0xFF; 256];
    let c = ctx(BootState::Updating);
    let p1 = d.dispatch(&req(Cmd::Write, 3, vec![1; 8]), &c, &image);
    assert_eq!(p1.response, bare(Status::AddrOutOfBounds));
    let p2 = d.dispatch(&req(Cmd::Write, 64, vec![1; 8]), &c, &image);
    assert_eq!(p2.response, bare(Status::Success));
    let p3 = d.dispatch(&req(Cmd::Write, 64, vec![1; 8]), &c, &image);
    assert_eq!(p3.response, bare(Status::AddrOutOfBounds));
    let p4 = d.dispatch(&req(Cmd::Write, 72, vec![2; 8]), &c, &image);
    assert_eq!(p4.response, bare(Status::Success));
    let p5 = d.dispatch(&req(Cmd::Write, 250, vec![2; 8]), &c, &image);
    assert_eq!(p5.response, bare(Status::AddrOutOfBounds));
}

#[test]
fn verify_computes_crc_and_records_it() {
    let mut d = Dispatcher::<128>::new();
    let mut image = vec![0xFF; 256];
    image[..9].copy_from_slice(b"123456789");
    let plan = d.dispatch(&req(Cmd::Verify, 9, Vec::new()), &ctx(BootState::Updating), &image);
    assert_eq!(
        plan.response,
        Response { status: Status::Success, len: 2, data: Data::Verify(VerifyData { crc: 0x29B1 }) }
    );
    assert_eq!(plan.ops.len(), 1);
    assert!(matches!(
        plan.ops[0],
        Op::MetaRefresh { checksum: 0x29B1, state: BootState::Validating, app_size: 9 }
    ));
    assert_eq!(crc16(CRC_INIT, &image[..9]), 0x29B1);
}

#[test]
fn verify_rejects_bad_sizes_and_states() {
    let mut d = Dispatcher::<128>::new();
    let image = vec![0xFF; 256];
    let p = d.dispatch(&req(Cmd::Verify, 0, Vec::new()), &ctx(BootState::Updating), &image);
    assert_eq!(p.response, bare(Status::AddrOutOfBounds));
    let p = d.dispatch(&req(Cmd::Verify, 257, Vec::new()), &ctx(BootState::Updating), &image);
    assert_eq!(p.response, bare(Status::AddrOutOfBounds));
    let p = d.dispatch(&req(Cmd::Verify, 9, Vec::new()), &ctx(BootState::Idle), &image);
    assert_eq!(p.response, bare(Status::Unsupported));
}

#[test]
fn reset_selects_run_mode() {
    let mut d = Dispatcher::<128>::new();
    let image = vec![0xFF; 256];
    let p = d.dispatch(&req(Cmd::Reset, 1, Vec::new()), &ctx(BootState::Idle), &image);
    assert_eq!(p.response, bare(Status::Success));
    assert_eq!(p.reset, Some(RunMode::Service));
    let p = d.dispatch(&req(Cmd::Reset, 0, Vec::new()), &ctx(BootState::Idle), &image);
    assert_eq!(p.reset, Some(RunMode::HandOff));
}

#[test]
fn failed_operation_turns_into_write_error() {
    let mut d = Dispatcher::<128>::new();
    let mut image = vec![0xFF; 256];
    image[0] = 1;
    let plan = d.dispatch(&req(Cmd::Verify, 1, Vec::new()), &ctx(BootState::Updating), &image);
    let failed = plan.finish(true);
    assert_eq!(failed.status, Status::WriteError);
    assert_eq!(failed.len, 2);
    assert_eq!(plan.finish(false), plan.response);
}

#[test]
fn write_run_reaches_storage_a_page_at_a_time() {
    let mut d = Dispatcher::<128>::new();
    let image = vec![0xFF; 256];
    let c = ctx(BootState::Updating);
    let stream: Vec<u8> = (0..200u32).map(|i| (i * 7 + 3) as u8).collect();
    let cuts = [0usize, 40, 104, 130, 194, 200];
    let mut pages: Vec<(u32, Vec<u8>)> = Vec::new();
    for w in cuts.windows(2) {
        let plan = d.dispatch(&req(Cmd::Write, w[0] as u32, stream[w[0]..w[1]].to_vec()), &c, &image);
        assert_eq!(plan.response, bare(Status::Success));
        pages.extend(writes(&plan));
    }
    assert_eq!(pages.len(), 200 / 64);
    for (i, (offset, data)) in pages.iter().enumerate() {
        assert_eq!(*offset, (i * 64) as u32);
        assert_eq!(data, &stream[i * 64..(i + 1) * 64].to_vec());
    }
    let plan = d.dispatch(&req(Cmd::Flush, 0, Vec::new()), &c, &image);
    assert_eq!(writes(&plan), vec![(192u32, stream[192..200].to_vec())]);
}

struct Runner {
    fail_at: Option<usize>,
    seen: Vec<String>,
}

impl OpRunner for Runner {
    fn run_op(&mut self, op: &Op) -> bool {
        let name = match op {
            Op::MetaAdvance => "advance".to_string(),
            Op::MetaRefresh { .. } => "refresh".to_string(),
            Op::Erase { from, to } => format!("erase {}..{}", from, to),
            Op::Write { offset, .. } => format!("write {}", offset),
        };
        self.seen.push(name);
        self.fail_at != Some(self.seen.len() - 1)
    }
}

#[test]
fn erase_is_skipped_when_the_metadata_step_fails() {
    let mut d = Dispatcher::<128>::new();
    let image = vec![0xFF; 256];
    let plan = d.dispatch(&erase(0, 128), &ctx(BootState::Idle), &image);
    let mut runner = Runner { fail_at: Some(0), seen: Vec::new() };
    let (response, report) = plan.carry_out(&mut runner);
    assert_eq!(runner.seen, vec!["advance".to_string()]);
    assert_eq!(response, bare(Status::WriteError));
    assert_eq!(report.carried, 1);
    assert!(report.failed);
}

#[test]
fn all_steps_run_when_none_fails() {
    let mut d = Dispatcher::<128>::new();
    let image = vec![0xFF; 256];
    let plan = d.dispatch(&erase(0, 128), &ctx(BootState::Idle), &image);
    let mut runner = Runner { fail_at: None, seen: Vec::new() };
    let (response, report) = plan.carry_out(&mut runner);
    assert_eq!(runner.seen, vec!["advance".to_string(), "erase 0..128".to_string()]);
    assert_eq!(response, bare(Status::Success));
    assert_eq!(report.carried, 2);
    assert!(!report.failed);
    let mut runner = Runner { fail_at: Some(1), seen: Vec::new() };
    let (response, report) = plan.carry_out(&mut runner);
    assert_eq!(runner.seen.len(), 2);
    assert_eq!(response, bare(Status::WriteError));
    assert_eq!((report.carried, report.failed), (2, true));
}
