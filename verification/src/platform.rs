//! CH32 platform pieces whose behaviour is computation: the app-region
//! storage geometry, serial configuration values, option-byte images and the
//! boot-request register encoding.

use vstd::prelude::*;
use crate::boot::{BootState, spec_state_from_u8};

verus! {

/// Flash storage configuration.
#[derive(Debug, Clone, Copy, PartialEq, Eq, Structural)]
pub struct StorageConfig {
    /// Physical base address of the app region.
    pub app_base: u32,
    /// Size of the app region in bytes.
    pub app_size: usize,
}

/// Storage access refused.
#[derive(Debug, Clone, Copy, PartialEq, Eq, Structural)]
pub enum StorageError {
    /// Offset or length not aligned.
    NotAligned,
    /// Outside the app region.
    OutOfBounds,
}

/// CH32 app-region flash storage.
#[derive(Debug, Clone, Copy, PartialEq, Eq, Structural)]
pub struct Storage {
    app_base: u32,
    app_size: usize,
}

impl Storage {
    /// Physical base address of the app region.
    pub closed spec fn base(&self) -> u32 {
        self.app_base
    }

    /// Size of the app region in bytes.
    pub closed spec fn size(&self) -> usize {
        self.app_size
    }

    /// Create storage from configuration.
    pub fn new(config: StorageConfig) -> (r: Self)
        ensures
            r.base() == config.app_base,
            r.size() == config.app_size,
    {
        Storage { app_base: config.app_base, app_size: config.app_size }
    }

    /// Address of the first byte of the app region.
    pub fn app_ptr(&self) -> (r: u32)
        ensures
            r == self.base(),
    {
        self.app_base
    }

    /// Size of the app region in bytes.
    pub fn capacity(&self) -> (r: usize)
        ensures
            r == self.size(),
    {
        self.app_size
    }

    /// Copy `bytes.len()` bytes at `offset` of the app region, whose contents
    /// are `image`, into `bytes`.
    pub fn read(&self, image: &[u8], offset: u32, bytes: &mut [u8]) -> (r: Result<(), StorageError>)
        requires
            image@.len() == self.size(),
        ensures
            offset + old(bytes)@.len() > self.size() ==> r == Err::<(), StorageError>(
                StorageError::OutOfBounds,
            ) && final(bytes)@ == old(bytes)@,
            offset + old(bytes)@.len() <= self.size() ==> r is Ok && final(bytes)@ == image@.subrange(
                offset as int,
                offset + old(bytes)@.len(),
            ),
    {
        if copy_region(image, offset, bytes) {
            Ok(())
        } else {
            Err(StorageError::OutOfBounds)
        }
    }

    /// Addresses of the pages erased for the region `[from, to)`: every
    /// `page_size`-th address from `app_base + from` below `app_base + to`.
    pub fn erase_pages(&self, from: u32, to: u32, page_size: u32) -> (r: Vec<u32>)
        requires
            page_size > 0,
            from % page_size == 0,
            to % page_size == 0,
            to <= self.size(),
            self.base() + self.size() <= u32::MAX,
            self.base() + from <= u32::MAX,
        ensures
            from <= to ==> r@.len() == (to - from) / (page_size as int),
            from > to ==> r@.len() == 0,
            forall|i: int| 0 <= i < r@.len() ==> #[trigger] r@[i] == self.base() + from + i
                * page_size,
    {
        proof {
            if from <= to {
                lemma_aligned_diff(from as int, to as int, page_size as int);
            }
        }
        page_addresses(self.app_base + from, self.app_base + to, page_size)
    }

    /// The word-by-word programming of a page write: each 4-byte group of
    /// `bytes`, read little-endian, goes to consecutive word addresses from
    /// `app_base + offset`.
    pub fn write_words(&self, offset: u32, bytes: &[u8], page_size: u32) -> (r: Vec<(u32, u32)>)
        requires
            offset % page_size == 0,
            page_size > 0,
            bytes@.len() <= page_size,
            bytes@.len() % 4 == 0,
            offset + bytes@.len() <= self.size(),
            self.base() + self.size() <= u32::MAX,
        ensures
            r@.len() == bytes@.len() / 4,
            forall|i: int|
                0 <= i < r@.len() ==> #[trigger] r@[i] == (
                    (self.base() + offset + 4 * i) as u32,
                    crate::meta::le32(
                        bytes@[4 * i],
                        bytes@[4 * i + 1],
                        bytes@[4 * i + 2],
                        bytes@[4 * i + 3],
                    ),
                ),
    {
        let words = le_words(bytes);
        let mut out: Vec<(u32, u32)> = Vec::new();
        let mut i: usize = 0;
        while i < words.len()
            invariant
                words@.len() == bytes@.len() / 4,
                self.base() + offset + bytes@.len() <= u32::MAX,
                i <= words@.len(),
                out@.len() == i,
                forall|k: int|
                    0 <= k < words@.len() ==> #[trigger] words@[k] == crate::meta::le32(
                        bytes@[4 * k],
                        bytes@[4 * k + 1],
                        bytes@[4 * k + 2],
                        bytes@[4 * k + 3],
                    ),
                forall|k: int|
                    0 <= k < i ==> #[trigger] out@[k] == ((self.base() + offset + 4 * k) as u32,
                    words@[k]),
            decreases words@.len() - i,
        {
            assert(4 * words@.len() <= bytes@.len()) by (nonlinear_arith)
                requires
                    words@.len() == bytes@.len() / 4,
            ;
            let addr: u32 = self.app_base + offset + 4 * (i as u32);
            out.push((addr, words[i]));
            i = i + 1;
        }
        out
    }
}

/// Copy `bytes.len()` bytes at `offset` of `image` into `bytes`; false, with
/// `bytes` untouched, when that range is not inside `image`.
fn copy_region(image: &[u8], offset: u32, bytes: &mut [u8]) -> (r: bool)
    ensures
        r == (offset + old(bytes)@.len() <= image@.len()),
        r ==> final(bytes)@ == image@.subrange(offset as int, offset + old(bytes)@.len()),
        !r ==> final(bytes)@ == old(bytes)@,
{
    let n: usize = bytes.len();
    if (offset as u64) > (image.len() as u64) || (n as u64) > (image.len() as u64) - (
    offset as u64) {
        return false;
    }
    let start: usize = offset as usize;
    let mut i: usize = 0;
    while i < n
        invariant
            n == bytes@.len(),
            start + n <= image.len(),
            i <= n,
            forall|k: int| 0 <= k < i ==> bytes@[k] == image@[start + k],
        decreases n - i,
    {
        bytes[i] = image[start + i];
        i = i + 1;
    }
    assert(bytes@ =~= image@.subrange(start as int, start + n));
    true
}

/// Every `step`-th address from `start` below `end`.
fn page_addresses(start: u32, end: u32, step: u32) -> (r: Vec<u32>)
    requires
        step > 0,
        start <= end ==> (end - start) % (step as int) == 0,
    ensures
        start <= end ==> r@.len() == (end - start) / (step as int),
        start > end ==> r@.len() == 0,
        forall|i: int| 0 <= i < r@.len() ==> #[trigger] r@[i] == start + i * step,
{
    let mut pages: Vec<u32> = Vec::new();
    let mut addr: u32 = start;
    assert(pages@.len() * step == 0) by (nonlinear_arith)
        requires
            pages@.len() == 0,
    ;
    while addr < end
        invariant
            step > 0,
            start <= end ==> (end - start) % (step as int) == 0,
            addr == start + pages@.len() * step,
            start <= end ==> addr <= end,
            start > end ==> pages@.len() == 0,
            forall|i: int| 0 <= i < pages@.len() ==> #[trigger] pages@[i] == start + i * step,
        decreases end - addr,
    {
        let ghost k = pages@.len() as int;
        pages.push(addr);
        proof {
            lemma_next_page(start as int, end as int, k + 1, step as int);
            assert((k + 1) * step == k * step + step) by (nonlinear_arith);
        }
        addr = addr + step;
    }
    proof {
        if start <= end {
            lemma_page_count(start as int, end as int, pages@.len() as int, step as int);
        }
    }
    pages
}

proof fn lemma_aligned_diff(from: int, to: int, page: int)
    requires
        page > 0,
        from % page == 0,
        to % page == 0,
        from <= to,
    ensures
        (to - from) % page == 0,
{
    let a = from / page;
    let b = to / page;
    vstd::arithmetic::div_mod::lemma_fundamental_div_mod(from, page);
    vstd::arithmetic::div_mod::lemma_fundamental_div_mod(to, page);
    assert(to - from == (b - a) * page) by (nonlinear_arith)
        requires
            from == page * a,
            to == page * b,
    ;
    vstd::arithmetic::div_mod::lemma_mod_multiples_basic(b - a, page);
}

proof fn lemma_next_page(start: int, end: int, k: int, step: int)
    requires
        step > 0,
        (end - start) % step == 0,
        start + (k - 1) * step < end,
        k >= 1,
    ensures
        start + k * step <= end,
{
    assert(start + k * step <= end) by (nonlinear_arith)
        requires
            step > 0,
            (end - start) % step == 0,
            start + (k - 1) * step < end,
    {
        let q = (end - start) / step;
        assert(end - start == q * step);
        assert(k - 1 < q);
    }
}

proof fn lemma_page_count(start: int, end: int, k: int, step: int)
    requires
        step > 0,
        start <= end,
        start + k * step == end,
    ensures
        k == (end - start) / step,
{
    assert(k == (end - start) / step) by (nonlinear_arith)
        requires
            step > 0,
            start + k * step == end,
    ;
}

/// The flash controller's page operations, as the chip family offers them.
pub trait FlashController {
    /// Unlock the controller for erase and program.
    fn unlock(&mut self);

    /// Lock the controller again.
    fn lock(&mut self);

    /// Erase the page at `addr`.
    fn erase_page(&mut self, addr: u32) -> Result<(), FlashError>;

    /// Program one write unit, `chunk`, at `addr`.
    fn write_page(&mut self, addr: u32, chunk: &[u8]) -> Result<(), FlashError>;
}

/// An access to the flash controller, with the error it reported, if any.
pub enum FlashCommand {
    /// The controller was unlocked.
    Unlock,
    /// The controller was locked.
    Lock,
    /// The page at the address was erased.
    ErasePage(u32, Option<FlashError>),
    /// A write unit was programmed at the address.
    WritePage(u32, Option<FlashError>),
}

/// The error a page command reported (none for other commands).
pub open spec fn command_error(c: FlashCommand) -> Option<FlashError> {
    match c {
        FlashCommand::ErasePage(_, e) => e,
        FlashCommand::WritePage(_, e) => e,
        _ => None,
    }
}

/// The error of a controller call's result, if any.
pub open spec fn error_of(r: Result<(), FlashError>) -> Option<FlashError> {
    match r {
        Ok(_) => None,
        Err(e) => Some(e),
    }
}

/// `c` erases (or, when `erase` is false, programs) the page at `addr`.
pub open spec fn page_at(c: FlashCommand, addr: int, erase: bool) -> bool {
    if erase {
        c matches FlashCommand::ErasePage(a, _) && a == addr
    } else {
        c matches FlashCommand::WritePage(a, _) && a == addr
    }
}

/// `tail` is one locked-again run of page commands: unlock; the pages at
/// `first`, `first + step`, ... in order, all `n` of them or up to and
/// including the first that failed; lock. `r` is the error of the page that
/// failed, or `Ok` when none did.
pub open spec fn page_run(
    tail: Seq<FlashCommand>,
    first: int,
    step: int,
    n: int,
    erase: bool,
    r: Result<(), FlashError>,
) -> bool {
    let k = tail.len() - 2;
    &&& 2 <= tail.len() <= n + 2
    &&& tail[0] is Unlock
    &&& tail[tail.len() - 1] is Lock
    &&& forall|i: int| 1 <= i <= k ==> page_at(#[trigger] tail[i], first + (i - 1) * step, erase)
    &&& forall|i: int| 1 <= i < k ==> command_error(#[trigger] tail[i]) is None
    &&& k < n ==> k >= 1 && command_error(tail[k]) is Some
    &&& r is Ok <==> !(k >= 1 && command_error(tail[k]) is Some)
    &&& r matches Err(e) ==> command_error(tail[k]) == Some(e)
}

proof fn lemma_count_bound(k: int, d: int, step: int)
    requires
        step > 0,
        k >= 0,
        d % step == 0,
        k * step <= d,
    ensures
        k <= d / step,
        k * step == d ==> k == d / step,
{
    vstd::arithmetic::div_mod::lemma_fundamental_div_mod(d, step);
    let q = d / step;
    assert(k <= q) by (nonlinear_arith)
        requires
            step > 0,
            k * step <= d,
            d == step * q,
    ;
    if k * step == d {
        lemma_page_count(0, d, k, step);
    }
}

/// App region of the internal flash, driven through the family's flash
/// controller: base address, size, and erase and write granularity.
pub struct Flash<C: FlashController> {
    ctl: C,
    app_base: u32,
    app_size: usize,
    erase_size: u32,
    write_size: u32,
    log: Ghost<Seq<FlashCommand>>,
    written: Ghost<Seq<Seq<u8>>>,
}

impl<C: FlashController> Flash<C> {
    /// Base address of the app region.
    pub closed spec fn base(&self) -> u32 {
        self.app_base
    }

    /// Size of the app region in bytes.
    pub closed spec fn size(&self) -> usize {
        self.app_size
    }

    /// Erase granularity in bytes.
    pub closed spec fn erase_unit(&self) -> u32 {
        self.erase_size
    }

    /// Write granularity in bytes.
    pub closed spec fn write_unit(&self) -> u32 {
        self.write_size
    }

    /// The commands handed to the controller since construction, in order.
    pub closed spec fn flash_log(&self) -> Seq<FlashCommand> {
        self.log@
    }

    /// The data handed to the controller's page writes, in order.
    pub closed spec fn written(&self) -> Seq<Seq<u8>> {
        self.written@
    }

    /// Describe the app region, driven through `ctl`.
    pub fn new(ctl: C, app_base: u32, app_size: usize, erase_size: u32, write_size: u32) -> (r:
        Self)
        ensures
            r.base() == app_base,
            r.size() == app_size,
            r.erase_unit() == erase_size,
            r.write_unit() == write_size,
            r.flash_log() == Seq::<FlashCommand>::empty(),
            r.written() == Seq::<Seq<u8>>::empty(),
    {
        Flash {
            ctl,
            app_base,
            app_size,
            erase_size,
            write_size,
            log: Ghost(Seq::empty()),
            written: Ghost(Seq::empty()),
        }
    }

    /// The flash controller.
    pub fn controller(&self) -> &C {
        &self.ctl
    }

    /// Unlock the controller; the log records exactly this call.
    fn unlock_logged(&mut self)
        ensures
            final(self).log@ == old(self).log@.push(FlashCommand::Unlock),
            final(self).written@ == old(self).written@,
            final(self).app_base == old(self).app_base,
            final(self).app_size == old(self).app_size,
            final(self).erase_size == old(self).erase_size,
            final(self).write_size == old(self).write_size,
    {
        self.ctl.unlock();
        self.log = Ghost(self.log@.push(FlashCommand::Unlock));
    }

    /// Lock the controller; the log records exactly this call.
    fn lock_logged(&mut self)
        ensures
            final(self).log@ == old(self).log@.push(FlashCommand::Lock),
            final(self).written@ == old(self).written@,
            final(self).app_base == old(self).app_base,
            final(self).app_size == old(self).app_size,
            final(self).erase_size == old(self).erase_size,
            final(self).write_size == old(self).write_size,
    {
        self.ctl.lock();
        self.log = Ghost(self.log@.push(FlashCommand::Lock));
    }

    /// Erase the page at `addr` through the controller; the log records
    /// exactly this call and what it returned.
    fn erase_page_logged(&mut self, addr: u32) -> (r: Result<(), FlashError>)
        ensures
            final(self).log@ == old(self).log@.push(FlashCommand::ErasePage(addr, error_of(r))),
            final(self).written@ == old(self).written@,
            final(self).app_base == old(self).app_base,
            final(self).app_size == old(self).app_size,
            final(self).erase_size == old(self).erase_size,
            final(self).write_size == old(self).write_size,
    {
        let r = self.ctl.erase_page(addr);
        self.log = Ghost(self.log@.push(FlashCommand::ErasePage(addr, error_of(r))));
        r
    }

    /// Program `chunk` at `addr` through the controller; the logs record
    /// exactly this call, its data and what it returned.
    fn write_page_logged(&mut self, addr: u32, chunk: &[u8]) -> (r: Result<(), FlashError>)
        ensures
            final(self).log@ == old(self).log@.push(FlashCommand::WritePage(addr, error_of(r))),
            final(self).written@ == old(self).written@.push(chunk@),
            final(self).app_base == old(self).app_base,
            final(self).app_size == old(self).app_size,
            final(self).erase_size == old(self).erase_size,
            final(self).write_size == old(self).write_size,
    {
        let r = self.ctl.write_page(addr, chunk);
        self.log = Ghost(self.log@.push(FlashCommand::WritePage(addr, error_of(r))));
        self.written = Ghost(self.written@.push(chunk@));
        r
    }

    /// Erase `[from, to)` of the app region: alignment is checked first, then
    /// bounds; then, with the controller unlocked, the pages are erased in
    /// order, stopping at the first that fails, and the controller is locked
    /// again.
    pub fn erase(&mut self, from: u32, to: u32) -> (r: Result<(), FlashError>)
        requires
            old(self).erase_unit() > 0,
            old(self).base() + old(self).size() <= u32::MAX,
        ensures
            final(self).base() == old(self).base(),
            final(self).size() == old(self).size(),
            final(self).erase_unit() == old(self).erase_unit(),
            final(self).write_unit() == old(self).write_unit(),
            final(self).written() == old(self).written(),
            ({
                let es = old(self).erase_unit();
                let aligned = from % es == 0 && to % es == 0;
                &&& !aligned ==> r == Err::<(), FlashError>(FlashError::NotAligned)
                    && final(self).flash_log() == old(self).flash_log()
                &&& aligned && to > old(self).size() ==> r == Err::<(), FlashError>(
                    FlashError::OutOfBounds,
                ) && final(self).flash_log() == old(self).flash_log()
                &&& aligned && to <= old(self).size() ==> {
                    let n = if from <= to {
                        (to - from) / (es as int)
                    } else {
                        0
                    };
                    &&& final(self).flash_log().take(old(self).flash_log().len() as int)
                        == old(self).flash_log()
                    &&& page_run(
                        final(self).flash_log().skip(old(self).flash_log().len() as int),
                        old(self).base() + from,
                        es as int,
                        n,
                        true,
                        r,
                    )
                }
            }),
    {
        let es: u32 = self.erase_size;
        if from % es != 0 || to % es != 0 {
            return Err(FlashError::NotAligned);
        }
        if (to as u64) > (self.app_size as u64) {
            return Err(FlashError::OutOfBounds);
        }
        let ghost before = self.log@;
        let ghost m = before.len() as int;
        self.unlock_logged();
        let mut result: Result<(), FlashError> = Ok(());
        let ghost mut k: int = 0;
        if from < to {
            proof {
                lemma_aligned_diff(from as int, to as int, es as int);
            }
            let end: u32 = self.app_base + to;
            let mut addr: u32 = self.app_base + from;
            let ghost first: int = addr as int;
            let mut failed = false;
            assert(0 * es == 0) by (nonlinear_arith);
            while addr < end && !failed
                invariant
                    es > 0,
                    es == self.erase_size,
                    self.app_base == old(self).app_base,
                    self.app_size == old(self).app_size,
                    self.write_size == old(self).write_size,
                    self.written@ == old(self).written@,
                    first == old(self).app_base + from,
                    end == old(self).app_base + to,
                    (end - first) % (es as int) == 0,
                    0 <= k,
                    addr == first + k * es,
                    first <= addr <= end,
                    m == before.len(),
                    self.log@.len() == m + 1 + k,
                    self.log@.take(m) == before,
                    self.log@[m] is Unlock,
                    forall|i: int|
                        1 <= i <= k ==> page_at(#[trigger] self.log@[m + i], first + (i - 1) * es, true),
                    forall|i: int|
                        1 <= i <= k && !(failed && i == k) ==> command_error(#[trigger] self.log@[m + i]) is None,
                    failed ==> k >= 1 && command_error(self.log@[m + k]) is Some && result == Err::<
                        (),
                        FlashError,
                    >(command_error(self.log@[m + k])->0),
                    !failed ==> result is Ok,
                decreases end - addr,
            {
                let ghost prev = self.log@;
                let res = self.erase_page_logged(addr);
                if let Err(e) = res {
                    result = Err(e);
                    failed = true;
                }
                proof {
                    assert(self.log@.take(m) =~= prev.take(m));
                    assert(self.log@[m] == prev[m]);
                    lemma_next_page(first, end as int, k + 1, es as int);
                    assert((k + 1) * es == k * es + es) by (nonlinear_arith);
                    k = k + 1;
                }
                addr = addr + es;
            }
            proof {
                lemma_count_bound(k, (to - from) as int, es as int);
                if !failed && k >= 1 {
                    assert(command_error(self.log@[m + k]) is None);
                }
            }
        }
        let ghost pre = self.log@;
        self.lock_logged();
        proof {
            if k >= 1 {
                assert(self.log@[m + k] == pre[m + k]);
            }
            let tail = self.log@.skip(m);
            assert(self.log@.take(m) =~= before);
            assert forall|i: int| 0 <= i < tail.len() implies #[trigger] tail[i] == self.log@[m + i] by {}
            if k >= 1 {
                assert(tail[k] == self.log@[m + k]);
            }
        }
        result
    }

    /// Write `bytes` at `offset` of the app region: alignment is checked
    /// first, then bounds; then, with the controller unlocked, each
    /// write-unit chunk is programmed in order at consecutive addresses,
    /// stopping at the first that fails, and the controller is locked again.
    pub fn write(&mut self, offset: u32, bytes: &[u8]) -> (r: Result<(), FlashError>)
        requires
            old(self).write_unit() > 0,
            old(self).base() + old(self).size() <= u32::MAX,
        ensures
            final(self).base() == old(self).base(),
            final(self).size() == old(self).size(),
            final(self).erase_unit() == old(self).erase_unit(),
            final(self).write_unit() == old(self).write_unit(),
            ({
                let ws = old(self).write_unit() as int;
                let aligned = offset % (ws as u32) == 0 && bytes@.len() % (ws as nat) == 0;
                let m = old(self).flash_log().len() as int;
                let w = old(self).written().len() as int;
                &&& !aligned ==> r == Err::<(), FlashError>(FlashError::NotAligned)
                    && final(self).flash_log() == old(self).flash_log() && final(self).written()
                    == old(self).written()
                &&& aligned && offset + bytes@.len() > old(self).size() ==> r == Err::<
                    (),
                    FlashError,
                >(FlashError::OutOfBounds) && final(self).flash_log() == old(self).flash_log()
                    && final(self).written() == old(self).written()
                &&& aligned && offset + bytes@.len() <= old(self).size() ==> {
                    let k = final(self).flash_log().len() - m - 2;
                    &&& final(self).flash_log().take(m) == old(self).flash_log()
                    &&& page_run(
                        final(self).flash_log().skip(m),
                        old(self).base() + offset,
                        ws,
                        (bytes@.len() as int) / ws,
                        false,
                        r,
                    )
                    &&& final(self).written().take(w) == old(self).written()
                    &&& final(self).written().len() == w + k
                    &&& forall|i: int|
                        0 <= i < k ==> #[trigger] final(self).written()[w + i] == bytes@.subrange(
                            i * ws,
                            i * ws + ws,
                        )
                }
            }),
    {
        let ws: u32 = self.write_size;
        let n: usize = bytes.len();
        if offset % ws != 0 || n % (ws as usize) != 0 {
            return Err(FlashError::NotAligned);
        }
        if (offset as u64) > (self.app_size as u64) || (n as u64) > (self.app_size as u64) - (
        offset as u64) {
            return Err(FlashError::OutOfBounds);
        }
        let ghost before = self.log@;
        let ghost m = before.len() as int;
        let ghost wbefore = self.written@;
        let ghost w = wbefore.len() as int;
        self.unlock_logged();
        let mut result: Result<(), FlashError> = Ok(());
        let start: u32 = self.app_base + offset;
        let mut pos: usize = 0;
        let mut failed = false;
        let ghost mut k: int = 0;
        assert(0 * ws == 0) by (nonlinear_arith);
        while pos < n && !failed
            invariant
                ws > 0,
                ws == self.write_size,
                self.app_base == old(self).app_base,
                self.app_size == old(self).app_size,
                self.erase_size == old(self).erase_size,
                n == bytes@.len(),
                (n as int) % (ws as int) == 0,
                start == old(self).app_base + offset,
                start + n <= u32::MAX,
                0 <= k,
                pos == k * ws,
                pos <= n,
                m == before.len(),
                w == wbefore.len(),
                self.log@.len() == m + 1 + k,
                self.log@.take(m) == before,
                self.log@[m] is Unlock,
                forall|i: int|
                    1 <= i <= k ==> page_at(#[trigger] self.log@[m + i], start + (i - 1) * ws, false),
                forall|i: int|
                    1 <= i <= k && !(failed && i == k) ==> command_error(#[trigger] self.log@[m + i]) is None,
                failed ==> k >= 1 && command_error(self.log@[m + k]) is Some && result == Err::<
                    (),
                    FlashError,
                >(command_error(self.log@[m + k])->0),
                !failed ==> result is Ok,
                self.written@.len() == w + k,
                self.written@.take(w) == wbefore,
                forall|i: int|
                    0 <= i < k ==> #[trigger] self.written@[w + i] == bytes@.subrange(i * ws, i * ws + ws),
            decreases n - pos,
        {
            proof {
                lemma_next_page(0, n as int, k + 1, ws as int);
                assert((k + 1) * ws == k * ws + ws) by (nonlinear_arith);
            }
            let addr: u32 = start + (pos as u32);
            let chunk = &bytes[pos..pos + (ws as usize)];
            let ghost prev = self.log@;
            let ghost wprev = self.written@;
            let res = self.write_page_logged(addr, chunk);
            if let Err(e) = res {
                result = Err(e);
                failed = true;
            }
            proof {
                assert(self.log@.take(m) =~= prev.take(m));
                assert(self.log@[m] == prev[m]);
                assert(self.written@.take(w) =~= wprev.take(w));
                k = k + 1;
            }
            pos = pos + (ws as usize);
        }
        proof {
            lemma_count_bound(k, n as int, ws as int);
            if !failed && k >= 1 {
                assert(command_error(self.log@[m + k]) is None);
            }
        }
        let ghost pre = self.log@;
        self.lock_logged();
        proof {
            if k >= 1 {
                assert(self.log@[m + k] == pre[m + k]);
            }
            let tail = self.log@.skip(m);
            assert(self.log@.take(m) =~= before);
            assert forall|i: int| 0 <= i < tail.len() implies #[trigger] tail[i] == self.log@[m + i] by {}
            if k >= 1 {
                assert(tail[k] == self.log@[m + k]);
            }
        }
        result
    }

    /// Copy `bytes.len()` bytes at `offset` of the app region, whose contents
    /// are `image`, into `bytes`.
    pub fn read(&self, image: &[u8], offset: u32, bytes: &mut [u8]) -> (r: Result<(), FlashError>)
        requires
            image@.len() == self.size(),
        ensures
            offset + old(bytes)@.len() > self.size() ==> r == Err::<(), FlashError>(
                FlashError::OutOfBounds,
            ) && final(bytes)@ == old(bytes)@,
            offset + old(bytes)@.len() <= self.size() ==> r is Ok && final(bytes)@ == image@.subrange(
                offset as int,
                offset + old(bytes)@.len(),
            ),
    {
        if copy_region(image, offset, bytes) {
            Ok(())
        } else {
            Err(FlashError::OutOfBounds)
        }
    }

    /// Size of the app region in bytes.
    pub fn capacity(&self) -> (r: usize)
        ensures
            r == self.size(),
    {
        self.app_size
    }
}

/// Little-endian 32-bit words of `bytes`, four bytes each.
pub fn le_words(bytes: &[u8]) -> (r: Vec<u32>)
    requires
        bytes@.len() % 4 == 0,
    ensures
        r@.len() == bytes@.len() / 4,
        forall|k: int|
            0 <= k < r@.len() ==> #[trigger] r@[k] == crate::meta::le32(
                bytes@[4 * k],
                bytes@[4 * k + 1],
                bytes@[4 * k + 2],
                bytes@[4 * k + 3],
            ),
{
    let mut out: Vec<u32> = Vec::new();
    let mut i: usize = 0;
    let n: usize = bytes.len() / 4;
    while i < n
        invariant
            n == bytes@.len() / 4,
            bytes@.len() % 4 == 0,
            i <= n,
            out@.len() == i,
            forall|k: int|
                0 <= k < i ==> #[trigger] out@[k] == crate::meta::le32(
                    bytes@[4 * k],
                    bytes@[4 * k + 1],
                    bytes@[4 * k + 2],
                    bytes@[4 * k + 3],
                ),
        decreases n - i,
    {
        assert(4 * n <= bytes@.len()) by (nonlinear_arith)
            requires
                n == bytes@.len() / 4,
        ;
        assert(4 * i + 3 < bytes.len());
        let j: usize = 4 * i;
        let w: u32 = (bytes[j] as u32) | ((bytes[j + 1] as u32) << 8u32) | ((bytes[j + 2] as u32)
            << 16u32) | ((bytes[j + 3] as u32) << 24u32);
        out.push(w);
        i = i + 1;
    }
    out
}

/// Serial duplex mode.
#[derive(Debug, Clone, Copy, PartialEq, Eq, Structural)]
pub enum Duplex {
    /// One line, half duplex.
    Half,
    /// Separate TX and RX lines.
    Full,
}

/// Supported baud rates.
#[derive(Debug, Clone, Copy, PartialEq, Eq, Structural)]
pub enum BaudRate {
    /// 9600 baud.
    B9600,
    /// 19200 baud.
    B19200,
    /// 38400 baud.
    B38400,
    /// 57600 baud.
    B57600,
    /// 115200 baud.
    B115200,
}

impl BaudRate {
    /// Bits per second.
    pub fn value(&self) -> (r: u32)
        ensures
            r == match *self {
                BaudRate::B9600 => 9600u32,
                BaudRate::B19200 => 19200u32,
                BaudRate::B38400 => 38400u32,
                BaudRate::B57600 => 57600u32,
                BaudRate::B115200 => 115200u32,
            },
    {
        match self {
            BaudRate::B9600 => 9600,
            BaudRate::B19200 => 19200,
            BaudRate::B38400 => 38400,
            BaudRate::B57600 => 57600,
            BaudRate::B115200 => 115200,
        }
    }
}

/// Baud rate register value: the peripheral clock divided by the baud rate,
/// rounded to nearest (the 16x oversampling is in the register layout).
pub fn baud_divisor(pclk: u32, baud: u32) -> (r: u32)
    requires
        baud > 0,
        pclk + baud / 2 <= u32::MAX,
    ensures
        r == (pclk + baud / 2) / (baud as int),
{
    (pclk + baud / 2) / baud
}

/// Level of a transceiver direction pin: driven to `active_high` while
/// transmitting, to the opposite level while receiving.
pub fn direction_level(active_high: bool, transmit: bool) -> (r: bool)
    ensures
        r == (active_high == transmit),
{
    if transmit {
        active_high
    } else {
        !active_high
    }
}

/// Active level of an RS-485 direction pin.
#[derive(Debug, Clone, Copy, PartialEq, Eq, Structural)]
pub enum Polarity {
    /// Pin is driven high to transmit, low to receive.
    ActiveHigh,
    /// Pin is driven low to transmit, high to receive.
    ActiveLow,
}

impl Polarity {
    /// Pin level (true = high) for transmitting or receiving.
    pub fn level(&self, transmit: bool) -> (r: bool)
        ensures
            r == ((*self == Polarity::ActiveHigh) == transmit),
    {
        match self {
            Polarity::ActiveHigh => transmit,
            Polarity::ActiveLow => !transmit,
        }
    }
}

/// CH32 boot client: confirms trial boots by rewriting the option bytes.
#[derive(Debug, Clone, Copy, PartialEq, Eq, Structural)]
pub struct Ch32BootClient;

impl Ch32BootClient {
    /// The sixteen option bytes to write when confirming a boot, from the
    /// eight chip configuration bytes and the eight metadata bytes read now:
    /// `None` (nothing to do) unless the state is Validating; otherwise the
    /// chip bytes, then the metadata with state Idle and trials reset.
    pub fn confirm_image(chip: [u8; 8], meta: [u8; 8]) -> (r: Option<[u8; 16]>)
        ensures
            spec_state_from_u8(meta@[0]) != BootState::Validating ==> r is None,
            spec_state_from_u8(meta@[0]) == BootState::Validating ==> (r matches Some(img) && img@
                == chip@ + seq![0xFFu8, 0xFFu8] + meta@.subrange(2, 8)),
    {
        if BootState::from_u8(meta[0]) != BootState::Validating {
            return None;
        }
        let img = [
            chip[0],
            chip[1],
            chip[2],
            chip[3],
            chip[4],
            chip[5],
            chip[6],
            chip[7],
            BootState::Idle.code(),
            0xFF,
            meta[2],
            meta[3],
            meta[4],
            meta[5],
            meta[6],
            meta[7],
        ];
        assert(img@ =~= chip@ + seq![0xFFu8, 0xFFu8] + meta@.subrange(2, 8));
        Some(img)
    }
}

/// Boot metadata register keys.
#[derive(Debug, Clone, Copy, PartialEq, Eq, Structural)]
pub enum RegistryKey {
    /// Boot request byte.
    BootRequest,
}

/// Boot request values.
#[derive(Debug, Clone, Copy, PartialEq, Eq, Structural)]
pub enum BootRequest {
    /// Boot the application (0x00).
    Application,
    /// Enter the bootloader (0x01).
    Bootloader,
    /// Anything else (0xFF when written).
    Invalid,
}

/// Byte stored for a boot request.
pub open spec fn spec_request_code(br: BootRequest) -> u8 {
    match br {
        BootRequest::Application => 0x00,
        BootRequest::Bootloader => 0x01,
        BootRequest::Invalid => 0xFF,
    }
}

/// Boot request a stored byte denotes.
pub open spec fn spec_request_from(v: u8) -> BootRequest {
    if v == 0x00 {
        BootRequest::Application
    } else if v == 0x01 {
        BootRequest::Bootloader
    } else {
        BootRequest::Invalid
    }
}

impl BootRequest {
    /// Boot request a stored byte denotes.
    pub fn from_u8(v: u8) -> (r: Self)
        ensures
            r == spec_request_from(v),
    {
        match v {
            0x00 => BootRequest::Application,
            0x01 => BootRequest::Bootloader,
            _ => BootRequest::Invalid,
        }
    }

    /// Byte stored for this boot request.
    pub fn code(self) -> (r: u8)
        ensures
            r == spec_request_code(self),
    {
        match self {
            BootRequest::Application => 0x00,
            BootRequest::Bootloader => 0x01,
            BootRequest::Invalid => 0xFF,
        }
    }
}

/// Storing a boot request and reading it back gives the same request.
pub proof fn lemma_request_round_trip(br: BootRequest)
    ensures
        spec_request_from(spec_request_code(br)) == br,
{
}

/// Boot metadata registers (for CH32, option byte DATA0/DATA1; elsewhere
/// backup registers or a flash page).
pub trait Registry {
    /// Error type.
    type Error;

    /// Value stored under `key`.
    spec fn stored(&self, key: RegistryKey) -> u8;

    /// Read the value stored under `key`.
    fn read(&mut self, key: RegistryKey) -> (r: Result<u8, Self::Error>)
        ensures
            r matches Ok(v) ==> v == old(self).stored(key),
            forall|k: RegistryKey| #[trigger] final(self).stored(k) == old(self).stored(k),
    ;

    /// Store `value` under `key`.
    fn write(&mut self, key: RegistryKey, value: u8) -> (r: Result<(), Self::Error>)
        ensures
            r is Ok ==> final(self).stored(key) == value,
    ;

    /// Read the boot request.
    fn read_boot_request(&mut self) -> (r: Result<BootRequest, Self::Error>)
        ensures
            r matches Ok(b) ==> b == spec_request_from(old(self).stored(RegistryKey::BootRequest)),
            forall|k: RegistryKey| #[trigger] final(self).stored(k) == old(self).stored(k),
    {
        match self.read(RegistryKey::BootRequest) {
            Ok(v) => Ok(BootRequest::from_u8(v)),
            Err(e) => Err(e),
        }
    }

    /// Store a boot request.
    fn write_boot_request(&mut self, br: BootRequest) -> (r: Result<(), Self::Error>)
        ensures
            r is Ok ==> final(self).stored(RegistryKey::BootRequest) == spec_request_code(br),
    {
        self.write(RegistryKey::BootRequest, br.code())
    }
}

/// Reading an option-byte register failed.
#[derive(Debug, Clone, Copy, PartialEq, Eq, Structural)]
pub enum Ch32RegistryError {
    /// The stored byte and its complement disagree (never written).
    UnitializedValue,
}

/// Decode an option-byte halfword: the low byte, if the high byte is its
/// complement.
pub fn read_ob(raw: u16) -> (r: Result<u8, Ch32RegistryError>)
    ensures
        raw as u8 == !((raw >> 8u16) as u8) ==> r == Ok::<u8, Ch32RegistryError>(raw as u8),
        raw as u8 != !((raw >> 8u16) as u8) ==> r == Err::<u8, Ch32RegistryError>(
            Ch32RegistryError::UnitializedValue,
        ),
{
    let inv: u8 = (raw >> 8u16) as u8;
    let data: u8 = raw as u8;
    if data == !inv {
        Ok(data)
    } else {
        Err(Ch32RegistryError::UnitializedValue)
    }
}

/// Flash operation refused or failed.
#[derive(Debug, Clone, Copy, PartialEq, Eq, Structural)]
pub enum FlashError {
    /// Offset or length not aligned.
    NotAligned,
    /// Outside the app region.
    OutOfBounds,
    /// Write-protection error reported by the controller.
    Protected,
}

} // verus!
