//! Frame sync preamble detection.

use vstd::prelude::*;
use crate::protocol::ReadError;

verus! {

/// Frame sync preamble: the last two bytes seen on the wire.
#[derive(Debug, Clone, Copy, PartialEq, Eq, Structural)]
pub struct Sync(pub u8, pub u8);

/// The state after feeding the first `k` bytes of `data` to `s`.
pub open spec fn sync_after(s: Sync, data: Seq<u8>, k: int) -> Sync
    decreases k,
{
    if k <= 0 {
        s
    } else {
        Sync(sync_after(s, data, k - 1).1, data[k - 1])
    }
}

/// Whether the state after feeding `k` bytes is the sync word.
pub open spec fn synced_at(s: Sync, data: Seq<u8>, k: int) -> bool {
    sync_after(s, data, k) == Sync(0xAA, 0x55)
}

impl Default for Sync {
    fn default() -> (r: Self)
        ensures
            r == Sync(0, 0),
    {
        Sync(0, 0)
    }
}

impl Sync {
    /// Valid sync word for building frames.
    pub fn valid() -> (r: Self)
        ensures
            r == Sync(0xAA, 0x55),
    {
        Sync(0xAA, 0x55)
    }

    /// Shift one received byte in; returns true when the sync word is now
    /// complete.
    pub fn shift(&mut self, b: u8) -> (r: bool)
        ensures
            *final(self) == Sync(old(self).1, b),
            r == (*final(self) == Sync(0xAA, 0x55)),
    {
        self.0 = self.1;
        self.1 = b;
        self.0 == 0xAA && self.1 == 0x55
    }

    /// Consume bytes from `data` until the sync word is received, updating
    /// self. Returns how many bytes were consumed; fails when `data` runs out
    /// first.
    pub fn read(&mut self, data: &[u8]) -> (r: Result<usize, ReadError>)
        ensures
            match r {
                Ok(n) => {
                    &&& 1 <= n <= data@.len()
                    &&& synced_at(*old(self), data@, n as int)
                    &&& forall|k: int| 1 <= k < n ==> !synced_at(*old(self), data@, k)
                    &&& *final(self) == sync_after(*old(self), data@, n as int)
                },
                Err(_) => {
                    &&& forall|k: int| 1 <= k <= data@.len() ==> !synced_at(*old(self), data@, k)
                    &&& *final(self) == sync_after(*old(self), data@, data@.len() as int)
                },
            },
    {
        let ghost start = *self;
        let mut i: usize = 0;
        while i < data.len()
            invariant
                i <= data.len(),
                start == *old(self),
                *self == sync_after(start, data@, i as int),
                forall|k: int| 1 <= k <= i ==> !synced_at(start, data@, k),
            decreases data.len() - i,
        {
            let found = self.shift(data[i]);
            assert(*self == sync_after(start, data@, i + 1));
            i = i + 1;
            if found {
                return Ok(i);
            }
        }
        Err(ReadError)
    }
}

} // verus!
