//! Protocol dispatcher: decides, for each received frame, the response and
//! the storage and metadata operations the platform must carry out.
//!
//! Writes are accumulated in a ring buffer and flushed a page at a time. The
//! host must `Flush` before `Verify` or before skipping to a non-sequential
//! address, otherwise the trailing partial page is lost.

use vstd::prelude::*;
use crate::boot::{BootState, RunMode};
use crate::crc::{crc16, crc16_spec, CRC_INIT};
use crate::meta::le16;
use crate::protocol::{Cmd, Status};
use crate::ringbuf::RingBuf;

verus! {

/// Device information returned by `Info`.
#[derive(Debug, Clone, Copy, PartialEq, Eq, Structural)]
pub struct InfoData {
    /// App region capacity in bytes.
    pub capacity: u32,
    /// Erase page size in bytes.
    pub erase_size: u16,
    /// Bootloader version (5.5.6 packed).
    pub boot_version: u16,
    /// App version (5.5.6 packed), `0xFFFF` when unknown.
    pub app_version: u16,
    /// 0 in the bootloader, 1 in the app.
    pub mode: u8,
}

/// Payload of an `Erase` request.
#[derive(Debug, Clone, Copy, PartialEq, Eq, Structural)]
pub struct EraseData {
    /// Number of bytes to erase.
    pub byte_count: u16,
}

/// Payload of a `Verify` response.
#[derive(Debug, Clone, Copy, PartialEq, Eq, Structural)]
pub struct VerifyData {
    /// CRC16 of the app image.
    pub crc: u16,
}

/// Typed response payload.
#[derive(Debug, Clone, Copy, PartialEq, Eq, Structural)]
pub enum Data {
    /// No payload.
    Empty,
    /// Device information.
    Info(InfoData),
    /// Verification result.
    Verify(VerifyData),
}

/// A received request frame, decoded.
pub struct Request {
    /// Outcome of decoding the frame: `Success`, or the status to answer with.
    pub status: Status,
    /// Command.
    pub cmd: Cmd,
    /// Address field.
    pub addr: u32,
    /// Raw payload bytes (`len` of them).
    pub payload: Vec<u8>,
    /// The payload viewed as erase data.
    pub erase: EraseData,
}

/// A response frame to send back.
#[derive(Debug, Clone, Copy, PartialEq, Eq, Structural)]
pub struct Response {
    /// Status code.
    pub status: Status,
    /// Payload length in bytes.
    pub len: u16,
    /// Payload.
    pub data: Data,
}

/// Platform facts the dispatcher decides on.
#[derive(Debug, Clone, Copy, PartialEq, Eq, Structural)]
pub struct Context {
    /// App region capacity in bytes.
    pub capacity: u32,
    /// Erase granularity in bytes.
    pub erase_size: u32,
    /// Write granularity in bytes.
    pub write_size: u32,
    /// Current lifecycle state from the boot metadata.
    pub state: BootState,
    /// Stored app size from the boot metadata.
    pub app_size: u32,
    /// Bootloader version.
    pub boot_version: u16,
}

/// A platform operation to carry out, in order; the first failure stops the
/// sequence and turns the response status into `WriteError`
/// ([`Plan::carry_out`]).
pub enum Op {
    /// Advance the boot state (1→0 bit clear).
    MetaAdvance,
    /// Erase and rewrite the boot metadata.
    MetaRefresh { checksum: u16, state: BootState, app_size: u32 },
    /// Erase storage `[from, to)`.
    Erase { from: u32, to: u32 },
    /// Write `data` to storage at `offset`.
    Write { offset: u32, data: Vec<u8> },
}

/// What to do for one request.
pub struct Plan {
    /// Response to send if every operation succeeds.
    pub response: Response,
    /// Operations to carry out before responding.
    pub ops: Vec<Op>,
    /// After responding, set this run mode and reset the device.
    pub reset: Option<RunMode>,
}

/// `a` is a multiple of `b` (zero is the only multiple of zero).
pub open spec fn multiple_of(a: u32, b: u32) -> bool {
    if b == 0 {
        a == 0
    } else {
        a % b == 0
    }
}

/// App version stored in the last two bytes of the app image, or `0xFFFF`
/// when no app size is recorded or it does not leave room for one.
pub open spec fn spec_app_version(app_size: u32, image: Seq<u8>) -> u16 {
    if app_size != 0xFFFF_FFFF && 2 <= app_size <= image.len() {
        le16(image[app_size - 2], image[app_size - 1])
    } else {
        0xFFFF
    }
}

/// Whenever an app size is recorded and leaves room for it, the reported app
/// version is the little-endian halfword in the last two bytes of the app
/// image, whatever that size is; with no recorded size it is `0xFFFF`.
pub proof fn lemma_app_version_is_last_halfword(app_size: u32, image: Seq<u8>)
    ensures
        app_size != 0xFFFF_FFFF && 2 <= app_size <= image.len() ==> spec_app_version(
            app_size,
            image,
        ) as int == image[app_size - 2] as int + 256 * (image[app_size - 1] as int),
        app_size == 0xFFFF_FFFF ==> spec_app_version(app_size, image) == 0xFFFF,
{
    if app_size != 0xFFFF_FFFF && 2 <= app_size <= image.len() {
        let b0 = image[app_size - 2];
        let b1 = image[app_size - 1];
        assert((b0 as u16 | ((b1 as u16) << 8u16)) as u16 as int == b0 as int + 256 * (b1 as int))
            by (bit_vector);
    }
}

/// The `Erase` request range is aligned, non-empty and inside the app region.
pub open spec fn erase_in_bounds(addr: u32, count: u32, ctx: Context) -> bool {
    &&& multiple_of(addr, ctx.erase_size)
    &&& multiple_of(count, ctx.erase_size)
    &&& count != 0
    &&& addr + count <= ctx.capacity
}

/// The `Write` request fits the app region and continues the current run
/// (or starts a write-aligned one).
pub open spec fn write_in_bounds(addr: u32, len: nat, ctx: Context, next: Option<u32>) -> bool {
    &&& addr + len <= ctx.capacity
    &&& next is None ==> multiple_of(addr, ctx.write_size)
    &&& next matches Some(n) ==> n == addr
}

/// One accepted `Write` of `payload` at `addr`, with `buffered` already held
/// in a buffer of `buf_cap` slots: as much of the payload as fits is
/// buffered, and once a full `ws`-byte page is held it is handed to storage
/// at the address it was received for. Gives that page with its offset, if
/// any, and the bytes kept buffered.
pub open spec fn write_step(buffered: Seq<u8>, addr: int, payload: Seq<u8>, buf_cap: int, ws: int) -> (
    Option<(int, Seq<u8>)>,
    Seq<u8>,
) {
    let room = buf_cap - 1 - buffered.len();
    let pushed = if payload.len() <= room {
        payload.len() as int
    } else {
        room
    };
    let mid = buffered + payload.take(pushed);
    let next = addr + payload.len();
    if mid.len() >= ws {
        (Some((next - mid.len(), mid.take(ws))), mid.skip(ws))
    } else {
        (None, mid)
    }
}

/// A run of accepted sequential writes `ds`, starting at `a0` with an empty
/// buffer: the pages handed to storage, in order, and the bytes left
/// buffered at the end.
pub open spec fn write_run(ds: Seq<Seq<u8>>, a0: int, buf_cap: int, ws: int) -> (
    Seq<(int, Seq<u8>)>,
    Seq<u8>,
)
    decreases ds.len(),
{
    if ds.len() == 0 {
        (Seq::empty(), Seq::empty())
    } else {
        let prev = write_run(ds.drop_last(), a0, buf_cap, ws);
        let addr = a0 + ds.drop_last().flatten_alt().len();
        let step = write_step(prev.1, addr, ds.last(), buf_cap, ws);
        match step.0 {
            Some(page) => (prev.0.push(page), step.1),
            None => (prev.0, step.1),
        }
    }
}

/// The pages of a write run are the concatenated stream cut into `ws`-byte
/// pieces at consecutive offsets, and the rest stays buffered.
pub open spec fn run_is_paged(pages: Seq<(int, Seq<u8>)>, kept: Seq<u8>, stream: Seq<u8>, a0: int, ws: int) -> bool {
    &&& pages.len() * ws <= stream.len()
    &&& forall|i: int|
        0 <= i < pages.len() ==> (#[trigger] pages[i]).0 == a0 + i * ws && pages[i].1
            == stream.subrange(i * ws, i * ws + ws)
    &&& kept == stream.skip(pages.len() * ws)
    &&& kept.len() < ws
}

proof fn lemma_write_run_paged(ds: Seq<Seq<u8>>, a0: int, buf_cap: int, ws: int)
    requires
        ws > 0,
        buf_cap == 2 * ws,
        forall|i: int| 0 <= i < ds.len() ==> (#[trigger] ds[i]).len() <= ws,
    ensures
        run_is_paged(write_run(ds, a0, buf_cap, ws).0, write_run(ds, a0, buf_cap, ws).1, ds.flatten_alt(), a0, ws),
    decreases ds.len(),
{
    if ds.len() > 0 {
        let init = ds.drop_last();
        assert forall|i: int| 0 <= i < init.len() implies (#[trigger] init[i]).len() <= ws by {
            assert(init[i] == ds[i]);
        }
        lemma_write_run_paged(init, a0, buf_cap, ws);
        let prev = write_run(init, a0, buf_cap, ws);
        let d0 = init.flatten_alt();
        let d = ds.last();
        let stream = ds.flatten_alt();
        assert(stream == d0 + d);
        let n = prev.0.len() as int;
        let addr = a0 + d0.len();
        let mid = prev.1 + d;
        assert(prev.1 + d.take(d.len() as int) == mid) by {
            assert(d.take(d.len() as int) =~= d);
        }
        assert(mid =~= stream.skip(n * ws));
        let step = write_step(prev.1, addr, d, buf_cap, ws);
        let cur = write_run(ds, a0, buf_cap, ws);
        assert forall|i: int| 0 <= i < n implies #[trigger] stream.subrange(i * ws, i * ws + ws)
            == d0.subrange(i * ws, i * ws + ws) by {
            assert(i * ws + ws <= n * ws) by (nonlinear_arith)
                requires
                    0 <= i < n,
                    ws > 0,
            ;
            assert(0 <= i * ws) by (nonlinear_arith)
                requires
                    0 <= i,
                    ws > 0,
            ;
            assert(stream.subrange(i * ws, i * ws + ws) =~= d0.subrange(i * ws, i * ws + ws));
        }
        if mid.len() >= ws {
            assert(step.0 == Some((a0 + n * ws, mid.take(ws))));
            assert(cur.0 == prev.0.push((a0 + n * ws, mid.take(ws))));
            assert(mid.take(ws) =~= stream.subrange(n * ws, n * ws + ws));
            assert(mid.skip(ws) =~= stream.skip((n + 1) * ws)) by {
                assert((n + 1) * ws == n * ws + ws) by (nonlinear_arith);
            }
            assert((n + 1) * ws == n * ws + ws) by (nonlinear_arith);
            assert forall|i: int| 0 <= i < n + 1 implies (#[trigger] cur.0[i]).0 == a0 + i * ws
                && cur.0[i].1 == stream.subrange(i * ws, i * ws + ws) by {
                if i < n {
                    assert(cur.0[i] == prev.0[i]);
                }
            }
            assert(cur.1 == stream.skip((n + 1) * ws));
            assert(cur.0.len() * ws <= stream.len());
        } else {
            assert(cur.0 == prev.0);
            assert(cur.1 == mid);
            assert forall|i: int| 0 <= i < n implies (#[trigger] cur.0[i]).0 == a0 + i * ws
                && cur.0[i].1 == stream.subrange(i * ws, i * ws + ws) by {
                assert(stream.subrange(i * ws, i * ws + ws) == d0.subrange(i * ws, i * ws + ws));
            }
        }
    } else {
        assert(ds.flatten_alt().skip(0) =~= Seq::<u8>::empty());
    }
}

/// A run extended by one more accepted write is the run followed by the step
/// that `dispatch` takes for that write, at the address right after the
/// bytes written so far: this is how the `Write` contract of `dispatch`
/// chains into `write_run` from call to call.
pub proof fn lemma_write_run_push(ds: Seq<Seq<u8>>, d: Seq<u8>, a0: int, buf_cap: int, ws: int)
    ensures
        ({
            let prev = write_run(ds, a0, buf_cap, ws);
            let step = write_step(prev.1, a0 + ds.flatten().len(), d, buf_cap, ws);
            write_run(ds.push(d), a0, buf_cap, ws) == match step.0 {
                Some(page) => (prev.0.push(page), step.1),
                None => (prev.0, step.1),
            }
        }),
{
    assert(ds.push(d).drop_last() =~= ds);
    assert(ds.push(d).last() == d);
    ds.lemma_flatten_and_flatten_alt_are_equivalent();
}

/// A run of accepted sequential `Write`s, each at most one page long and
/// begun with an empty buffer (after `new` or `Flush`), with a buffer of two
/// pages: storage receives the concatenated stream a page at a time, page
/// `i` at offset `a0 + i * ws`, `stream.len() / ws` pages in all, and the
/// last `stream.len() % ws` bytes stay buffered; the next `Flush` hands them
/// to storage at `next - kept.len()`, the offset right after the last page.
pub proof fn lemma_write_run_streams_pages(ds: Seq<Seq<u8>>, a0: int, ws: int)
    requires
        ws > 0,
        forall|i: int| 0 <= i < ds.len() ==> (#[trigger] ds[i]).len() <= ws,
    ensures
        ({
            let (pages, kept) = write_run(ds, a0, 2 * ws, ws);
            let stream = ds.flatten();
            &&& pages.len() == (stream.len() as int) / ws
            &&& forall|i: int|
                0 <= i < pages.len() ==> (#[trigger] pages[i]).0 == a0 + i * ws && pages[i].1
                    == stream.subrange(i * ws, i * ws + ws)
            &&& kept == stream.skip(pages.len() * ws)
            &&& kept.len() == (stream.len() as int) % ws
            &&& a0 + stream.len() - kept.len() == a0 + pages.len() * ws
        }),
{
    lemma_write_run_paged(ds, a0, 2 * ws, ws);
    ds.lemma_flatten_and_flatten_alt_are_equivalent();
    let (pages, kept) = write_run(ds, a0, 2 * ws, ws);
    let stream = ds.flatten();
    let n = pages.len() as int;
    vstd::arithmetic::div_mod::lemma_fundamental_div_mod_converse(
        stream.len() as int,
        ws,
        n,
        stream.len() - n * ws,
    );
}

/// A response with no payload.
pub open spec fn bare(status: Status) -> Response {
    Response { status, len: 0, data: Data::Empty }
}

/// Protocol dispatcher with write buffering.
pub struct Dispatcher<const BUF: usize> {
    buf: RingBuf<BUF>,
    next_addr: Option<u32>,
}

impl<const BUF: usize> Dispatcher<BUF> {
    /// Bytes received but not yet handed to storage.
    pub closed spec fn buffered(&self) -> Seq<u8> {
        self.buf@
    }

    /// Expected address of the next sequential write; `None` accepts any
    /// write-aligned address.
    pub closed spec fn next(&self) -> Option<u32> {
        self.next_addr
    }

    /// The buffered bytes are the tail of the current run of writes, which
    /// ends at `next`.
    pub closed spec fn wf(&self) -> bool {
        &&& self.buf.wf()
        &&& self.next_addr is None ==> self.buf@.len() == 0
        &&& self.next_addr matches Some(n) ==> self.buf@.len() <= n
    }

    /// Create a new dispatcher with an empty write buffer.
    pub fn new() -> (r: Self)
        ensures
            r.wf(),
            r.buffered() == Seq::<u8>::empty(),
            r.next() is None,
    {
        Dispatcher { buf: RingBuf::default(), next_addr: None }
    }

    /// Hand the first `n` buffered bytes to storage, at the address they were
    /// received for.
    fn write_buf(&mut self, next: u32, n: usize) -> (r: Op)
        requires
            BUF > 0,
            old(self).buf.wf(),
            old(self).buf@.len() <= next,
            n <= old(self).buf@.len(),
        ensures
            final(self).buf.wf(),
            final(self).next_addr == old(self).next_addr,
            final(self).buf@ == old(self).buf@.skip(n as int),
            r matches Op::Write { offset, data } && offset == next - old(self).buf@.len()
                && data@ == old(self).buf@.take(n as int),
    {
        let addr: u32 = next - (self.buf.len() as u32);
        let data = self.buf.peek(n);
        self.buf.consume(n);
        Op::Write { offset: addr, data }
    }

    /// Decide the response and platform operations for one request.
    pub fn dispatch(&mut self, req: &Request, ctx: &Context, image: &[u8]) -> (plan: Plan)
        requires
            BUF > 0,
            old(self).wf(),
            image@.len() == ctx.capacity,
        ensures
            final(self).wf(),
            final(self).buffered().len() < BUF,
            req.status != Status::Success ==> {
                &&& plan.response == bare(req.status)
                &&& plan.ops@.len() == 0
                &&& plan.reset is None
                &&& final(self).buffered() == old(self).buffered()
                &&& final(self).next() == old(self).next()
            },
            req.status == Status::Success ==> match req.cmd {
                Cmd::Info => {
                    &&& plan.response == (Response {
                        status: Status::Success,
                        len: 12,
                        data: Data::Info(
                            InfoData {
                                capacity: ctx.capacity,
                                erase_size: #[verifier::truncate] (ctx.erase_size as u16),
                                boot_version: ctx.boot_version,
                                app_version: spec_app_version(ctx.app_size, image@),
                                mode: 0,
                            },
                        ),
                    })
                    &&& plan.ops@.len() == 0
                    &&& plan.reset is None
                    &&& final(self).buffered() == old(self).buffered()
                    &&& final(self).next() == old(self).next()
                },
                Cmd::Erase => {
                    let addr = req.addr;
                    let count = req.erase.byte_count as u32;
                    &&& plan.reset is None
                    &&& final(self).buffered() == old(self).buffered()
                    &&& final(self).next() == old(self).next()
                    &&& !erase_in_bounds(addr, count, *ctx) ==> {
                        &&& plan.response == bare(Status::AddrOutOfBounds)
                        &&& plan.ops@.len() == 0
                    }
                    &&& erase_in_bounds(addr, count, *ctx) ==> {
                        &&& plan.response == bare(Status::Success)
                        &&& plan.ops@.last() matches Op::Erase { from, to } && from == addr && to
                            == addr + count
                        &&& ctx.state == BootState::Idle ==> plan.ops@.len() == 2
                            && plan.ops@[0] is MetaAdvance
                        &&& ctx.state == BootState::Validating ==> (plan.ops@.len() == 2 && (
                        plan.ops@[0] matches Op::MetaRefresh { checksum, state, app_size }
                            && checksum == 0xFFFF && state == BootState::Updating && app_size
                            == 0xFFFF_FFFF))
                        &&& ctx.state == BootState::Updating ==> plan.ops@.len() == 1
                    }
                },
                Cmd::Write => {
                    let addr = req.addr;
                    let len = req.payload@.len();
                    &&& plan.reset is None
                    &&& ctx.state != BootState::Updating ==> {
                        &&& plan.response == bare(Status::Unsupported)
                        &&& plan.ops@.len() == 0
                        &&& final(self).buffered() == old(self).buffered()
                        &&& final(self).next() == old(self).next()
                    }
                    &&& ctx.state == BootState::Updating && !write_in_bounds(
                        addr,
                        len,
                        *ctx,
                        old(self).next(),
                    ) ==> {
                        &&& plan.response == bare(Status::AddrOutOfBounds)
                        &&& plan.ops@.len() == 0
                        &&& final(self).buffered() == old(self).buffered()
                        &&& final(self).next() == old(self).next()
                    }
                    &&& ctx.state == BootState::Updating && write_in_bounds(
                        addr,
                        len,
                        *ctx,
                        old(self).next(),
                    ) ==> {
                        let step = write_step(
                            old(self).buffered(),
                            addr as int,
                            req.payload@,
                            BUF as int,
                            ctx.write_size as int,
                        );
                        &&& plan.response == bare(Status::Success)
                        &&& final(self).next() == Some((addr + len) as u32)
                        &&& final(self).buffered() == step.1
                        &&& step.0 matches Some(page) ==> (plan.ops@.len() == 1
                            && (plan.ops@[0] matches Op::Write { offset, data } && offset == page.0
                            && data@ == page.1))
                        &&& step.0 is None ==> plan.ops@.len() == 0
                    }
                },
                Cmd::Verify => {
                    let sz = req.addr;
                    &&& plan.reset is None
                    &&& final(self).buffered() == old(self).buffered()
                    &&& final(self).next() == old(self).next()
                    &&& ctx.state != BootState::Updating ==> {
                        &&& plan.response == bare(Status::Unsupported)
                        &&& plan.ops@.len() == 0
                    }
                    &&& ctx.state == BootState::Updating && (sz == 0 || sz > ctx.capacity) ==> {
                        &&& plan.response == bare(Status::AddrOutOfBounds)
                        &&& plan.ops@.len() == 0
                    }
                    &&& ctx.state == BootState::Updating && 0 < sz <= ctx.capacity ==> {
                        let crc = crc16_spec(CRC_INIT, image@.take(sz as int));
                        &&& plan.response == (Response {
                            status: Status::Success,
                            len: 2,
                            data: Data::Verify(VerifyData { crc }),
                        })
                        &&& plan.ops@.len() == 1
                        &&& plan.ops@[0] matches Op::MetaRefresh { checksum, state, app_size }
                            && checksum == crc && state == BootState::Validating && app_size
                            == sz
                    }
                },
                Cmd::Reset => {
                    &&& plan.response == bare(Status::Success)
                    &&& plan.ops@.len() == 0
                    &&& plan.reset == Some(
                        if req.addr == 1 {
                            RunMode::Service
                        } else {
                            RunMode::HandOff
                        },
                    )
                    &&& final(self).buffered() == old(self).buffered()
                    &&& final(self).next() == old(self).next()
                },
                Cmd::Flush => {
                    &&& plan.response == bare(Status::Success)
                    &&& plan.reset is None
                    &&& final(self).next() is None
                    &&& final(self).buffered().len() == 0
                    &&& old(self).buffered().len() > 0 ==> (old(self).next() matches Some(n)
                        ==> {
                        &&& plan.ops@.len() == 1
                        &&& plan.ops@[0] matches Op::Write { offset, data } && offset == n
                            - old(self).buffered().len() && data@ == old(self).buffered()
                    })
                    &&& !(old(self).next() is Some && old(self).buffered().len() > 0)
                        ==> plan.ops@.len() == 0
                },
            },
    {
        proof {
            self.buf.lemma_len_bound();
        }
        let mut ops: Vec<Op> = Vec::new();
        if req.status != Status::Success {
            return refuse(req.status);
        }
        let capacity: u32 = ctx.capacity;
        let erase_size: u32 = ctx.erase_size;
        let write_size: u32 = ctx.write_size;
        let state = ctx.state;
        let ok = Response { status: Status::Success, len: 0, data: Data::Empty };
        match req.cmd {
            Cmd::Info => {
                let app_sz: u32 = ctx.app_size;
                let app_version: u16 = if app_sz != 0xFFFF_FFFF && 2 <= app_sz && (app_sz as usize)
                    <= image.len() {
                    let i: usize = app_sz as usize;
                    (image[i - 2] as u16) | ((image[i - 1] as u16) << 8u16)
                } else {
                    0xFFFF
                };
                let info = InfoData {
                    capacity,
                    erase_size: #[verifier::truncate] (erase_size as u16),
                    boot_version: ctx.boot_version,
                    app_version,
                    mode: 0,
                };
                let response = Response { status: Status::Success, len: 12, data: Data::Info(info) };
                Plan { response, ops, reset: None }
            },
            Cmd::Erase => {
                let addr: u32 = req.addr;
                let byte_count: u32 = req.erase.byte_count as u32;
                if !addr.is_multiple_of(erase_size) || !byte_count.is_multiple_of(erase_size)
                    || byte_count == 0 || (addr as u64) + (byte_count as u64) > (capacity as u64) {
                    return refuse(Status::AddrOutOfBounds);
                }
                match state {
                    BootState::Idle => {
                        ops.push(Op::MetaAdvance);
                    },
                    BootState::Validating => {
                        ops.push(
                            Op::MetaRefresh {
                                checksum: 0xFFFF,
                                state: BootState::Updating,
                                app_size: 0xFFFF_FFFF,
                            },
                        );
                    },
                    BootState::Updating => {},
                }
                ops.push(Op::Erase { from: addr, to: addr + byte_count });
                Plan { response: ok, ops, reset: None }
            },
            Cmd::Write => {
                if state != BootState::Updating {
                    return refuse(Status::Unsupported);
                }
                let addr: u32 = req.addr;
                let data_len: usize = req.payload.len();
                let fits: bool = (data_len as u64) <= (capacity as u64) && (addr as u64) <= (
                capacity as u64) - (data_len as u64);
                let continues: bool = match self.next_addr {
                    None => addr.is_multiple_of(write_size),
                    Some(n) => n == addr,
                };
                if !fits || !continues {
                    return refuse(Status::AddrOutOfBounds);
                }
                self.buf.push(req.payload.as_slice());
                let next: u32 = addr + (data_len as u32);
                self.next_addr = Some(next);
                if self.buf.len() >= write_size as usize {
                    let op = self.write_buf(next, write_size as usize);
                    ops.push(op);
                }
                Plan { response: ok, ops, reset: None }
            },
            Cmd::Verify => {
                if state != BootState::Updating {
                    return refuse(Status::Unsupported);
                }
                let app_size: u32 = req.addr;
                if app_size == 0 || app_size > capacity {
                    return refuse(Status::AddrOutOfBounds);
                }
                let sz: usize = app_size as usize;
                let crc: u16 = crc16(CRC_INIT, &image[0..sz]);
                ops.push(
                    Op::MetaRefresh { checksum: crc, state: BootState::Validating, app_size },
                );
                let response = Response {
                    status: Status::Success,
                    len: 2,
                    data: Data::Verify(VerifyData { crc }),
                };
                Plan { response, ops, reset: None }
            },
            Cmd::Reset => {
                let mode = if req.addr == 1 {
                    RunMode::Service
                } else {
                    RunMode::HandOff
                };
                Plan { response: ok, ops, reset: Some(mode) }
            },
            Cmd::Flush => {
                if let Some(next) = self.next_addr {
                    if !self.buf.is_empty() {
                        let n: usize = self.buf.len();
                        let op = self.write_buf(next, n);
                        ops.push(op);
                    }
                    self.next_addr = None;
                }
                Plan { response: ok, ops, reset: None }
            },
        }
    }
}

/// A plan that only answers with `status`.
fn refuse(status: Status) -> (r: Plan)
    ensures
        r.response == bare(status),
        r.ops@.len() == 0,
        r.reset is None,
{
    Plan { response: Response { status, len: 0, data: Data::Empty }, ops: Vec::new(), reset: None }
}

/// Carries out planned operations on the platform.
pub trait OpRunner {
    /// Carry out `op`; true when it succeeded.
    fn run_op(&mut self, op: &Op) -> bool;
}

/// What carrying out a plan did.
pub struct RunReport {
    /// How many of the planned operations were handed to the runner: always
    /// the first ones, in order.
    pub carried: usize,
    /// Whether the last operation handed over failed.
    pub failed: bool,
    /// Whether each operation handed over succeeded, in order.
    pub outcomes: Ghost<Seq<bool>>,
}

impl Plan {
    /// Carry out the planned operations in order through `runner`, stopping
    /// at the first that fails: no operation after a failed one is handed
    /// over. Returns the response to send ([`Plan::finish`]) and what was
    /// done.
    pub fn carry_out<R: OpRunner>(&self, runner: &mut R) -> (r: (Response, RunReport))
        ensures
            r.1.carried <= self.ops@.len(),
            r.1.outcomes@.len() == r.1.carried,
            forall|i: int| 0 <= i < r.1.carried - 1 ==> #[trigger] r.1.outcomes@[i],
            r.1.failed == (r.1.carried > 0 && !r.1.outcomes@[r.1.carried - 1]),
            !r.1.failed ==> r.1.carried == self.ops@.len(),
            r.1.failed ==> r.0 == (Response { status: Status::WriteError, ..self.response }),
            !r.1.failed ==> r.0 == self.response,
    {
        let n: usize = self.ops.len();
        let mut i: usize = 0;
        let mut failed = false;
        let ghost mut outcomes: Seq<bool> = Seq::empty();
        while i < n && !failed
            invariant
                n == self.ops@.len(),
                i <= n,
                outcomes.len() == i,
                forall|j: int| 0 <= j < i && !(failed && j == i - 1) ==> #[trigger] outcomes[j],
                failed ==> i > 0 && !outcomes[i - 1],
            decreases n - i,
        {
            let ok = runner.run_op(&self.ops[i]);
            proof {
                outcomes = outcomes.push(ok);
            }
            if !ok {
                failed = true;
            }
            i = i + 1;
        }
        let response = self.finish(failed);
        (response, RunReport { carried: i, failed, outcomes: Ghost(outcomes) })
    }

    /// The response to send once the operations have run: `WriteError` if
    /// one of them failed, the planned response otherwise.
    pub fn finish(&self, failed: bool) -> (r: Response)
        ensures
            failed ==> r == (Response { status: Status::WriteError, ..self.response }),
            !failed ==> r == self.response,
    {
        if failed {
            Response { status: Status::WriteError, len: self.response.len, data: self.response.data }
        } else {
            self.response
        }
    }
}

} // verus!
