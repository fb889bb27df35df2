//! Platform abstraction traits implemented by board support crates.

use vstd::prelude::*;
use crate::boot::BootState;

verus! {

/// Persistent boot metadata.
///
/// The spec functions are the store's abstract contents; implementations
/// promise that the methods read and change them as stated.
pub trait BootMetaStore {
    /// Error returned by mutating methods.
    type Error;

    /// Stored lifecycle state.
    spec fn meta_state(&self) -> BootState;

    /// Number of trial boots remaining.
    spec fn meta_trials(&self) -> nat;

    /// The error `consume_trial` reports when it fails.
    spec fn trial_error(&self) -> Self::Error;

    /// Stored app CRC16.
    spec fn meta_checksum(&self) -> u16;

    /// Stored app size in bytes.
    spec fn meta_app_size(&self) -> u32;

    /// Current lifecycle state.
    fn boot_state(&self) -> (r: BootState)
        ensures
            r == self.meta_state(),
    ;

    /// Any trials left?
    fn has_trials(&self) -> (r: bool)
        ensures
            r == (self.meta_trials() > 0),
    ;

    /// Stored app CRC16.
    fn app_checksum(&self) -> (r: u16)
        ensures
            r == self.meta_checksum(),
    ;

    /// Stored app size in bytes.
    fn app_size(&self) -> (r: u32)
        ensures
            r == self.meta_app_size(),
    ;

    /// Advance state (1→0 bit clear); returns the new state.
    fn advance(&mut self) -> (r: Result<BootState, Self::Error>)
        ensures
            r matches Ok(s) ==> final(self).meta_state() == s,
            final(self).meta_checksum() == old(self).meta_checksum(),
            final(self).meta_app_size() == old(self).meta_app_size(),
    ;

    /// Use up one trial boot (clear one bit of the trials counter).
    fn consume_trial(&mut self) -> (r: Result<(), Self::Error>)
        ensures
            old(self).meta_trials() == 0 ==> r is Err,
            r is Ok ==> old(self).meta_trials() > 0 && final(self).meta_trials() == old(
                self,
            ).meta_trials() - 1,
            r matches Err(e) ==> e == old(self).trial_error() && final(self).meta_trials()
                == old(self).meta_trials(),
            final(self).meta_state() == old(self).meta_state(),
            final(self).meta_checksum() == old(self).meta_checksum(),
            final(self).meta_app_size() == old(self).meta_app_size(),
    ;

    /// Erase and rewrite meta. Trials reset to the erased default.
    fn refresh(&mut self, checksum: u16, state: BootState, app_size: u32) -> (r: Result<
        (),
        Self::Error,
    >)
        ensures
            r is Ok ==> {
                &&& final(self).meta_state() == state
                &&& final(self).meta_trials() > 0
                &&& final(self).meta_checksum() == checksum
                &&& final(self).meta_app_size() == app_size
            },
    ;
}

} // verus!
