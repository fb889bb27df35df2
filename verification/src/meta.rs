//! Boot metadata kept in the option bytes, cached in RAM and written through
//! on every change.

use vstd::prelude::*;
use crate::boot::{BootState, spec_state_code, spec_state_from_u8, spec_bit_clear};
use crate::traits::BootMetaStore as TBBootMetaStore;

verus! {

/// Option-byte base address.
pub const OB_BASE: u32 = 0x1FFFF800;

/// Address of the first metadata option byte.
pub const META_OB_BASE: u32 = 0x1FFFF810;

/// Why a metadata step was refused.
#[derive(Debug, Clone, Copy, PartialEq, Eq, Structural)]
pub enum BootMetaError {
    /// The state is already at its last stage.
    InvalidTransition,
    /// No trial boots are left.
    TrialsExhausted,
}

/// Option-byte programming, as the flash controller offers it.
pub trait OptionBytes {
    /// Read the option byte at `addr`.
    fn read_byte(&self, addr: u32) -> u8;

    /// Program the option halfword at `addr` (bits only go from 1 to 0).
    fn program(&mut self, addr: u32, value: u16);

    /// Erase the option bytes and write `bytes` to the sixteen option
    /// halfwords from [`OB_BASE`].
    fn rewrite(&mut self, bytes: [u8; 16]);
}

/// An access to the option-byte device.
pub enum ObCommand {
    /// The byte at the address was read, with this value.
    Read(u32, u8),
    /// Program the halfword at the address with the value.
    Program(u32, u16),
    /// Erase the option bytes and write these sixteen bytes from `OB_BASE`.
    Rewrite([u8; 16]),
}

/// The value of a read access (0 for other accesses).
pub open spec fn read_value(c: ObCommand) -> u8 {
    match c {
        ObCommand::Read(_, v) => v,
        _ => 0,
    }
}

/// `after` is `before` followed by a rewrite of the option bytes that keeps
/// the chip configuration: the eight chip bytes at `OB_BASE + 2 * i` are
/// read, then all sixteen are rewritten with those bytes followed by `meta`.
pub open spec fn rewrote_meta(before: Seq<ObCommand>, after: Seq<ObCommand>, meta: Seq<u8>) -> bool {
    let n = before.len() as int;
    &&& after.len() == n + 9
    &&& after.take(n) == before
    &&& forall|i: int|
        0 <= i < 8 ==> (#[trigger] after[n + i] matches ObCommand::Read(a, _) && a == OB_BASE + 2
            * i)
    &&& after[n + 8] matches ObCommand::Rewrite(img) && (forall|i: int|
        0 <= i < 8 ==> #[trigger] img@[i] == read_value(after[n + i])) && img@.subrange(8, 16)
        == meta
}

/// Boot metadata backed by option bytes.
///
/// Layout mirrors the option-byte metadata halfwords (data bytes at even
/// addresses, complement bytes skipped): state, trials, checksum (little
/// endian), app size (little endian). Cached at construction, written
/// through to the option bytes on every change.
pub struct BootMetaStore<W: OptionBytes> {
    state: u8,
    trials: u8,
    checksum: u16,
    app_size: u32,
    ob: W,
    log: Ghost<Seq<ObCommand>>,
}

/// Little-endian value of two bytes.
pub open spec fn le16(b0: u8, b1: u8) -> u16 {
    (b0 as u16 | ((b1 as u16) << 8u16)) as u16
}

/// Little-endian value of four bytes.
pub open spec fn le32(b0: u8, b1: u8, b2: u8, b3: u8) -> u32 {
    (b0 as u32 | ((b1 as u32) << 8u32) | ((b2 as u32) << 16u32) | ((b3 as u32) << 24u32)) as u32
}

impl<W: OptionBytes> BootMetaStore<W> {
    /// Cached state byte.
    pub closed spec fn state_byte(&self) -> u8 {
        self.state
    }

    /// Cached trials byte: one bit per remaining trial boot.
    pub closed spec fn trials_byte(&self) -> u8 {
        self.trials
    }

    /// Cached app checksum.
    pub closed spec fn checksum(&self) -> u16 {
        self.checksum
    }

    /// Cached app size.
    pub closed spec fn size(&self) -> u32 {
        self.app_size
    }

    /// The commands handed to the option-byte device since construction, in
    /// order.
    pub closed spec fn ob_log(&self) -> Seq<ObCommand> {
        self.log@
    }

    /// Build the cache from the eight metadata option bytes, in the order
    /// they are stored, writing through `ob`.
    pub fn from_ob_bytes(ob: W, b: [u8; 8]) -> (r: Self)
        ensures
            r.state_byte() == b@[0],
            r.trials_byte() == b@[1],
            r.checksum() == le16(b@[2], b@[3]),
            r.size() == le32(b@[4], b@[5], b@[6], b@[7]),
            r.ob_log() == Seq::<ObCommand>::empty(),
    {
        let checksum: u16 = (b[2] as u16) | ((b[3] as u16) << 8u16);
        let app_size: u32 = (b[4] as u32) | ((b[5] as u32) << 8u32) | ((b[6] as u32) << 16u32) | ((
        b[7] as u32) << 24u32);
        BootMetaStore { state: b[0], trials: b[1], checksum, app_size, ob, log: Ghost(Seq::empty()) }
    }

    /// The eight metadata option bytes that hold this cache.
    pub fn to_ob_bytes(&self) -> (r: [u8; 8])
        ensures
            r@ == self.to_ob_bytes_spec(),
            r@[0] == self.state_byte(),
            r@[1] == self.trials_byte(),
            le16(r@[2], r@[3]) == self.checksum(),
            le32(r@[4], r@[5], r@[6], r@[7]) == self.size(),
    {
        let c: u16 = self.checksum;
        let s: u32 = self.app_size;
        let r = [
            self.state,
            self.trials,
            (c & 0xFF) as u8,
            (c >> 8u16) as u8,
            (s & 0xFF) as u8,
            ((s >> 8u32) & 0xFF) as u8,
            ((s >> 16u32) & 0xFF) as u8,
            (s >> 24u32) as u8,
        ];
        assert(r@ =~= self.to_ob_bytes_spec());
        assert(((c & 0xFF) as u8 as u16 | (((c >> 8u16) as u8 as u16) << 8u16)) == c)
            by (bit_vector);
        assert(((s & 0xFF) as u8 as u32 | ((((s >> 8u32) & 0xFF) as u8 as u32) << 8u32) | ((((s
            >> 16u32) & 0xFF) as u8 as u32) << 16u32) | (((s >> 24u32) as u8 as u32) << 24u32))
            == s) by (bit_vector);
        r
    }

    /// The sixteen option bytes written when the metadata is rewritten: the
    /// eight chip configuration bytes, unchanged, then the metadata bytes.
    pub fn ob_image(&self, chip: [u8; 8]) -> (r: [u8; 16])
        ensures
            r@.subrange(0, 8) == chip@,
            r@.subrange(8, 16) == self.to_ob_bytes_spec(),
    {
        let m = self.to_ob_bytes();
        let r = [
            chip[0],
            chip[1],
            chip[2],
            chip[3],
            chip[4],
            chip[5],
            chip[6],
            chip[7],
            m[0],
            m[1],
            m[2],
            m[3],
            m[4],
            m[5],
            m[6],
            m[7],
        ];
        assert(r@.subrange(0, 8) =~= chip@);
        assert(r@.subrange(8, 16) =~= m@);
        r
    }

    /// The option-byte device the metadata is written through.
    pub fn option_bytes(&self) -> &W {
        &self.ob
    }

    /// The metadata bytes of this cache as a sequence.
    pub open spec fn to_ob_bytes_spec(&self) -> Seq<u8> {
        seq![
            self.state_byte(),
            self.trials_byte(),
            (self.checksum() & 0xFF) as u8,
            (self.checksum() >> 8u16) as u8,
            (self.size() & 0xFF) as u8,
            ((self.size() >> 8u32) & 0xFF) as u8,
            ((self.size() >> 16u32) & 0xFF) as u8,
            (self.size() >> 24u32) as u8,
        ]
    }

    /// Bit-clear step down of byte `offset` (0: state, 1: trials) unless it
    /// is already at or below `floor`; the new byte is programmed into its
    /// option byte. Returns the new byte.
    fn step_down(&mut self, offset: usize, floor: u8) -> (r: Option<u8>)
        requires
            offset < 2,
        ensures
            ({
                let cur = if offset == 0 {
                    old(self).state
                } else {
                    old(self).trials
                };
                &&& cur <= floor ==> r is None && *final(self) == *old(self)
                &&& cur > floor ==> {
                    &&& r == Some(spec_bit_clear(cur))
                    &&& final(self).checksum == old(self).checksum
                    &&& final(self).app_size == old(self).app_size
                    &&& offset == 0 ==> final(self).state == spec_bit_clear(cur)
                        && final(self).trials == old(self).trials
                    &&& offset == 1 ==> final(self).trials == spec_bit_clear(cur)
                        && final(self).state == old(self).state
                    &&& final(self).log@ == old(self).log@.push(
                        ObCommand::Program(
                            (META_OB_BASE + offset * 2) as u32,
                            spec_bit_clear(cur) as u16,
                        ),
                    )
                }
            }),
    {
        let current: u8 = if offset == 0 {
            self.state
        } else {
            self.trials
        };
        if current <= floor {
            return None;
        }
        let next: u8 = current & (current >> 1u8);
        let addr: u32 = META_OB_BASE + (offset as u32) * 2;
        self.program_logged(addr, next as u16);
        if offset == 0 {
            self.state = next;
        } else {
            self.trials = next;
        }
        Some(next)
    }

    /// Program the halfword at `addr`; the log records exactly this call.
    fn program_logged(&mut self, addr: u32, value: u16)
        ensures
            final(self).log@ == old(self).log@.push(ObCommand::Program(addr, value)),
            final(self).state == old(self).state,
            final(self).trials == old(self).trials,
            final(self).checksum == old(self).checksum,
            final(self).app_size == old(self).app_size,
    {
        self.ob.program(addr, value);
        self.log = Ghost(self.log@.push(ObCommand::Program(addr, value)));
    }

    /// Erase and rewrite the option bytes with `bytes`; the log records
    /// exactly this call.
    fn rewrite_logged(&mut self, bytes: [u8; 16])
        ensures
            final(self).log@ == old(self).log@.push(ObCommand::Rewrite(bytes)),
            final(self).state == old(self).state,
            final(self).trials == old(self).trials,
            final(self).checksum == old(self).checksum,
            final(self).app_size == old(self).app_size,
    {
        self.ob.rewrite(bytes);
        self.log = Ghost(self.log@.push(ObCommand::Rewrite(bytes)));
    }

    /// Read the option byte at `addr`, recording the access.
    fn read_logged(&mut self, addr: u32) -> (v: u8)
        ensures
            final(self).log@ == old(self).log@.push(ObCommand::Read(addr, v)),
            final(self).state == old(self).state,
            final(self).trials == old(self).trials,
            final(self).checksum == old(self).checksum,
            final(self).app_size == old(self).app_size,
    {
        let v: u8 = self.ob.read_byte(addr);
        self.log = Ghost(self.log@.push(ObCommand::Read(addr, v)));
        v
    }

    /// Erase the option bytes and rewrite the chip configuration bytes,
    /// unchanged, followed by the cached metadata.
    fn write(&mut self)
        ensures
            final(self).state == old(self).state,
            final(self).trials == old(self).trials,
            final(self).checksum == old(self).checksum,
            final(self).app_size == old(self).app_size,
            rewrote_meta(old(self).log@, final(self).log@, old(self).to_ob_bytes_spec()),
    {
        let ghost before = self.log@;
        let c0 = self.read_logged(OB_BASE);
        let c1 = self.read_logged(OB_BASE + 2);
        let c2 = self.read_logged(OB_BASE + 4);
        let c3 = self.read_logged(OB_BASE + 6);
        let c4 = self.read_logged(OB_BASE + 8);
        let c5 = self.read_logged(OB_BASE + 10);
        let c6 = self.read_logged(OB_BASE + 12);
        let c7 = self.read_logged(OB_BASE + 14);
        let chip = [c0, c1, c2, c3, c4, c5, c6, c7];
        let image = self.ob_image(chip);
        self.rewrite_logged(image);
        proof {
            let n = before.len() as int;
            let after = self.log@;
            assert(after.take(n) =~= before);
            assert(after[n] == ObCommand::Read(OB_BASE, c0));
            assert(after[n + 1] == ObCommand::Read((OB_BASE + 2) as u32, c1));
            assert(after[n + 2] == ObCommand::Read((OB_BASE + 4) as u32, c2));
            assert(after[n + 3] == ObCommand::Read((OB_BASE + 6) as u32, c3));
            assert(after[n + 4] == ObCommand::Read((OB_BASE + 8) as u32, c4));
            assert(after[n + 5] == ObCommand::Read((OB_BASE + 10) as u32, c5));
            assert(after[n + 6] == ObCommand::Read((OB_BASE + 12) as u32, c6));
            assert(after[n + 7] == ObCommand::Read((OB_BASE + 14) as u32, c7));
            assert(image@.subrange(0, 8) == chip@);
            assert forall|i: int| 0 <= i < 8 implies #[trigger] image@[i] == read_value(
                after[n + i],
            ) by {
                assert(image@[i] == image@.subrange(0, 8)[i]);
            }
        }
    }
}

impl<W: OptionBytes> TBBootMetaStore for BootMetaStore<W> {
    type Error = BootMetaError;

    open spec fn meta_state(&self) -> BootState {
        spec_state_from_u8(self.state_byte())
    }

    open spec fn meta_trials(&self) -> nat {
        trial_steps(self.trials_byte())
    }

    open spec fn trial_error(&self) -> BootMetaError {
        BootMetaError::TrialsExhausted
    }

    open spec fn meta_checksum(&self) -> u16 {
        self.checksum()
    }

    open spec fn meta_app_size(&self) -> u32 {
        self.size()
    }

    fn boot_state(&self) -> (r: BootState) {
        BootState::from_u8(self.state)
    }

    fn has_trials(&self) -> (r: bool) {
        self.trials != 0
    }

    fn app_checksum(&self) -> (r: u16) {
        self.checksum
    }

    fn app_size(&self) -> (r: u32) {
        self.app_size
    }

    /// Bit-clear step down of the state byte, unless it is already at or
    /// below the Validating byte.
    fn advance(&mut self) -> (r: Result<BootState, BootMetaError>)
        ensures
            old(self).state_byte() <= spec_state_code(BootState::Validating) ==> {
                &&& r == Err::<BootState, BootMetaError>(BootMetaError::InvalidTransition)
                &&& *final(self) == *old(self)
            },
            old(self).state_byte() > spec_state_code(BootState::Validating) ==> {
                &&& final(self).state_byte() == spec_bit_clear(old(self).state_byte())
                &&& final(self).ob_log() == old(self).ob_log().push(
                    ObCommand::Program(META_OB_BASE, final(self).state_byte() as u16),
                )
                &&& final(self).trials_byte() == old(self).trials_byte()
                &&& final(self).checksum() == old(self).checksum()
                &&& final(self).size() == old(self).size()
                &&& r == Ok::<BootState, BootMetaError>(
                    spec_state_from_u8(final(self).state_byte()),
                )
            },
    {
        match self.step_down(0, 0x3F) {
            Some(next) => Ok(BootState::from_u8(next)),
            None => Err(BootMetaError::InvalidTransition),
        }
    }

    /// Clear one bit of the trials counter, unless none are left.
    fn consume_trial(&mut self) -> (r: Result<(), BootMetaError>)
        ensures
            old(self).trials_byte() == 0 ==> {
                &&& r == Err::<(), BootMetaError>(BootMetaError::TrialsExhausted)
                &&& *final(self) == *old(self)
            },
            old(self).trials_byte() != 0 ==> {
                &&& r is Ok
                &&& final(self).trials_byte() == spec_bit_clear(old(self).trials_byte())
                &&& final(self).ob_log() == old(self).ob_log().push(
                    ObCommand::Program((META_OB_BASE + 2) as u32, final(self).trials_byte() as u16),
                )
                &&& final(self).state_byte() == old(self).state_byte()
                &&& final(self).checksum() == old(self).checksum()
                &&& final(self).size() == old(self).size()
            },
    {
        match self.step_down(1, 0) {
            Some(_) => Ok(()),
            None => Err(BootMetaError::TrialsExhausted),
        }
    }

    /// Rewrite the metadata. Trials reset to the erased default (all eight).
    fn refresh(&mut self, checksum: u16, state: BootState, app_size: u32) -> (r: Result<
        (),
        BootMetaError,
    >)
        ensures
            r is Ok,
            final(self).state_byte() == spec_state_code(state),
            final(self).trials_byte() == 0xFF,
            final(self).checksum() == checksum,
            final(self).size() == app_size,
            rewrote_meta(old(self).ob_log(), final(self).ob_log(), final(self).to_ob_bytes_spec()),
    {
        self.state = state.code();
        self.trials = 0xFF;
        self.checksum = checksum;
        self.app_size = app_size;
        self.write();
        Ok(())
    }
}

/// Number of trial boots a trials byte allows: how many bit-clear steps
/// `t & (t >> 1)` it takes to reach zero.
pub open spec fn trial_steps(t: u8) -> nat
    decreases t,
{
    if t == 0 {
        0
    } else {
        proof {
            assert(t != 0 ==> t & (t >> 1u8) < t) by (bit_vector);
        }
        1 + trial_steps(t & (t >> 1u8))
    }
}

/// The trials byte with `k` trials left (`0 <= k <= 8`): a run of `k` ones
/// from bit 0.
pub open spec fn trial_run(k: int) -> u8 {
    seq![0x00u8, 0x01u8, 0x03u8, 0x07u8, 0x0Fu8, 0x1Fu8, 0x3Fu8, 0x7Fu8, 0xFFu8][k]
}

/// Consuming a trial from a run of `k` ones leaves a run of `k - 1` ones, so
/// the erased default 0xFF allows exactly eight trial boots.
pub proof fn lemma_trial_step(k: int)
    requires
        1 <= k <= 8,
    ensures
        spec_bit_clear(trial_run(k)) == trial_run(k - 1),
        trial_run(k) != 0,
        trial_run(0) == 0,
        trial_run(8) == 0xFF,
{
    assert({
        &&& spec_bit_clear(0x01u8) == 0x00u8
        &&& spec_bit_clear(0x03u8) == 0x01u8
        &&& spec_bit_clear(0x07u8) == 0x03u8
        &&& spec_bit_clear(0x0Fu8) == 0x07u8
        &&& spec_bit_clear(0x1Fu8) == 0x0Fu8
        &&& spec_bit_clear(0x3Fu8) == 0x1Fu8
        &&& spec_bit_clear(0x7Fu8) == 0x3Fu8
        &&& spec_bit_clear(0xFFu8) == 0x7Fu8
    }) by (bit_vector);
}

proof fn lemma_run_steps(k: int)
    requires
        0 <= k <= 8,
    ensures
        trial_steps(trial_run(k)) == k,
    decreases k,
{
    if k > 0 {
        lemma_trial_step(k);
        lemma_run_steps(k - 1);
    }
}

/// A run of `k` ones allows exactly `k` trial boots; in particular the
/// erased default 0xFF that `refresh` writes allows eight, and the ninth
/// `consume_trial` fails.
pub proof fn lemma_trial_run_steps(k: int)
    requires
        0 <= k <= 8,
    ensures
        trial_steps(trial_run(k)) == k,
        trial_steps(0xFF) == 8,
{
    lemma_run_steps(k);
    lemma_run_steps(8);
    lemma_trial_step(8);
}

} // verus!
