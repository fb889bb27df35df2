//! App-side tinyboot client: boot confirmation and the replies to Info and
//! Reset, so the host can drive updates without physical access.

use vstd::prelude::*;
use crate::boot::BootState;
use crate::dispatcher::{bare, Data, InfoData, Response};
use crate::protocol::{Cmd, Status};
use crate::traits::BootMetaStore;

verus! {

/// App-side configuration.
#[derive(Debug, Clone, Copy, PartialEq, Eq, Structural)]
pub struct AppConfig {
    /// App region capacity in bytes.
    pub capacity: u32,
    /// Erase page size in bytes.
    pub erase_size: u16,
    /// Boot version (caller reads it from flash).
    pub boot_version: u16,
    /// App version.
    pub app_version: u16,
}

/// What the app does with one received frame.
#[derive(Debug, Clone, Copy, PartialEq, Eq, Structural)]
pub struct AppReply {
    /// Response frame.
    pub response: Response,
    /// Send the response (and flush the transport).
    pub send: bool,
    /// Reset the device instead of replying.
    pub reset: bool,
    /// Before resetting, set the run mode to `Service` (enter the bootloader).
    pub enter_bootloader: bool,
}

impl AppConfig {
    /// Handle one received frame: `status` is the outcome of decoding it.
    pub fn reply(&self, status: Status, cmd: Cmd, addr: u32) -> (r: AppReply)
        ensures
            status != Status::Success ==> r == (AppReply {
                response: bare(status),
                send: cmd != Cmd::Reset,
                reset: false,
                enter_bootloader: false,
            }),
            status == Status::Success ==> match cmd {
                Cmd::Info => r == (AppReply {
                    response: Response {
                        status: Status::Success,
                        len: 12,
                        data: Data::Info(
                            InfoData {
                                capacity: self.capacity,
                                erase_size: self.erase_size,
                                boot_version: self.boot_version,
                                app_version: self.app_version,
                                mode: 1,
                            },
                        ),
                    },
                    send: true,
                    reset: false,
                    enter_bootloader: false,
                }),
                Cmd::Reset => r == (AppReply {
                    response: bare(Status::Success),
                    send: false,
                    reset: true,
                    enter_bootloader: addr == 1,
                }),
                _ => r == (AppReply {
                    response: bare(Status::Unsupported),
                    send: true,
                    reset: false,
                    enter_bootloader: false,
                }),
            },
    {
        if status != Status::Success {
            let send = match cmd {
                Cmd::Reset => false,
                _ => true,
            };
            return AppReply {
                response: Response { status, len: 0, data: Data::Empty },
                send,
                reset: false,
                enter_bootloader: false,
            };
        }
        match cmd {
            Cmd::Info => AppReply {
                response: Response {
                    status: Status::Success,
                    len: 12,
                    data: Data::Info(
                        InfoData {
                            capacity: self.capacity,
                            erase_size: self.erase_size,
                            boot_version: self.boot_version,
                            app_version: self.app_version,
                            mode: 1,
                        },
                    ),
                },
                send: true,
                reset: false,
                enter_bootloader: false,
            },
            Cmd::Reset => AppReply {
                response: Response { status: Status::Success, len: 0, data: Data::Empty },
                send: false,
                reset: true,
                enter_bootloader: addr == 1,
            },
            _ => AppReply {
                response: Response { status: Status::Unsupported, len: 0, data: Data::Empty },
                send: true,
                reset: false,
                enter_bootloader: false,
            },
        }
    }
}

/// Address of the bootloader version: the last halfword of the bootloader
/// region.
pub fn boot_version_addr(boot_base: u32, boot_size: u32) -> (r: u32)
    requires
        boot_size >= 2,
        boot_base + boot_size <= u32::MAX,
    ensures
        r == boot_base + boot_size - 2,
{
    boot_base + boot_size - 2
}

/// Validating → Idle: confirm a successful trial boot, keeping the stored
/// checksum and size. Does nothing in any other state.
pub fn confirm<M: BootMetaStore>(meta: &mut M) -> (r: Option<Result<(), M::Error>>)
    ensures
        old(meta).meta_state() != BootState::Validating ==> r is None && *final(meta) == *old(
            meta,
        ),
        old(meta).meta_state() == BootState::Validating ==> (r matches Some(res) && (res is Ok
            ==> {
            &&& final(meta).meta_state() == BootState::Idle
            &&& final(meta).meta_trials() > 0
            &&& final(meta).meta_checksum() == old(meta).meta_checksum()
            &&& final(meta).meta_app_size() == old(meta).meta_app_size()
        })),
{
    if meta.boot_state() != BootState::Validating {
        return None;
    }
    let checksum: u16 = meta.app_checksum();
    let app_size: u32 = meta.app_size();
    Some(meta.refresh(checksum, BootState::Idle, app_size))
}

} // verus!
