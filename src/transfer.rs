//! Decisions of a blocking block transfer that may be cut short: how far the
//! transfer has come, when to recover the device, retry, stop or give up.
use vstd::prelude::*;

verus! {

/// The error number of a broken pipe: the device under- or overran.
pub const EPIPE: i32 = 32;

/// The error number of a call that would have blocked.
pub const EAGAIN: i32 = 11;

/// What to do next while moving one block to or from a device.
#[derive(Debug, Clone, Copy, PartialEq, Eq, Structural)]
pub enum TransferAction {
    /// Transfer the rest of the block, starting at this offset.
    Transfer(usize),
    /// Prepare the device again, then transfer from this offset.
    Recover(usize),
    /// The whole block has been transferred.
    Finished,
    /// Give up with this error number.
    Abort(i32),
}

/// The first action for a block of `len` samples.
pub fn transfer_start(len: usize) -> (a: TransferAction)
    ensures
        a == if len == 0 { TransferAction::Finished } else { TransferAction::Transfer(0) },
{
    if len == 0 {
        TransferAction::Finished
    } else {
        TransferAction::Transfer(0)
    }
}

/// The action after a transfer from `offset` of a block of `len` samples
/// ended with `outcome`: the number of samples moved, or an error number.
pub fn transfer_next(offset: usize, len: usize, outcome: Result<usize, i32>) -> (a: TransferAction)
    requires
        offset < len,
    ensures
        a == match outcome {
            Ok(n) => if offset + n >= len {
                TransferAction::Finished
            } else {
                TransferAction::Transfer((offset + n) as usize)
            },
            Err(e) => if e == EPIPE {
                TransferAction::Recover(offset)
            } else if e == EAGAIN {
                TransferAction::Transfer(offset)
            } else {
                TransferAction::Abort(e)
            },
        },
        a matches TransferAction::Transfer(o) ==> offset <= o < len,
{
    match outcome {
        Ok(n) => {
            if n >= len - offset {
                TransferAction::Finished
            } else {
                TransferAction::Transfer(offset + n)
            }
        },
        Err(e) => {
            if e == EPIPE {
                TransferAction::Recover(offset)
            } else if e == EAGAIN {
                TransferAction::Transfer(offset)
            } else {
                TransferAction::Abort(e)
            }
        },
    }
}

} // verus!
