use vstd::prelude::*;
use crate::constants::{ENOMEM, IPC_64, IPC_TIME64, PTRDIFF_MAX, SIZE_MAX};

verus! {

/// What a system call wrapper hands back to C: the return value and, on
/// failure, the error number to store in `errno`.
#[derive(Clone, Copy, Debug, PartialEq, Eq, Structural)]
pub struct CallOutcome {
    pub ret: i64,
    pub errno: Option<i32>,
}

/// The outcome of a system call that returns its result or, on failure,
/// stores the error number and returns `failure`.
pub fn syscall_outcome(reply: Result<i64, i32>, failure: i64) -> (o: CallOutcome)
    ensures
        reply matches Ok(v) ==> o == (CallOutcome { ret: v, errno: None }),
        reply matches Err(e) ==> o == (CallOutcome { ret: failure, errno: Some(e) }),
{
    match reply {
        Ok(v) => CallOutcome { ret: v, errno: None },
        Err(e) => CallOutcome { ret: failure, errno: Some(e) },
    }
}

/// The segment size that `shmget` asks the kernel for: a size above
/// `PTRDIFF_MAX` becomes `SIZE_MAX`.
pub fn shm_size(size: u64) -> (s: u64)
    ensures
        size > i64::MAX ==> s == u64::MAX,
        size <= i64::MAX ==> s == size,
{
    if size > PTRDIFF_MAX as u64 {
        SIZE_MAX
    } else {
        size
    }
}

/// Clearing no bits and setting none leaves a command as it is.
proof fn lemma_cmd_bits(cmd: i32)
    by (bit_vector)
    ensures
        (cmd & !0i32) | 0i32 == cmd,
        2i32 & 0x100i32 == 0i32,
{
}

/// The command that `shmctl` passes on: `cmd` without the time64 flag and with
/// the IPC_64 flag, which on this platform is `cmd` itself.
pub fn ipc_cmd(cmd: i32) -> (c: i32)
    ensures
        c == cmd,
{
    proof {
        lemma_cmd_bits(cmd);
    }
    (cmd & !IPC_TIME64) | IPC_64
}

/// The outcome of `brk`: 0 where the kernel moved the break away from
/// `previous`, else -1 with `ENOMEM`.
pub fn brk_outcome(previous: u64, reply: Result<u64, i32>) -> (o: CallOutcome)
    ensures
        (reply matches Ok(b) && b != previous) ==> o == (CallOutcome { ret: 0i64, errno: None }),
        !(reply matches Ok(b) && b != previous) ==> o == (CallOutcome { ret: -1i64, errno: Some(ENOMEM) }),
{
    match reply {
        Ok(b) => {
            if b != previous {
                CallOutcome { ret: 0, errno: None }
            } else {
                CallOutcome { ret: -1, errno: Some(ENOMEM) }
            }
        },
        Err(_) => CallOutcome { ret: -1, errno: Some(ENOMEM) },
    }
}

/// The break that `sbrk` asks for: none where `increment` is 0, else the old
/// break moved by `increment`.
pub fn sbrk_request(old_brk: u64, increment: i64) -> (r: Option<u64>)
    requires
        0 <= old_brk + increment <= u64::MAX,
    ensures
        increment == 0 ==> r is None,
        increment != 0 ==> r == Some((old_brk + increment) as u64),
{
    if increment == 0 {
        None
    } else {
        Some((old_brk as i128 + increment as i128) as u64)
    }
}

/// What `sbrk` returns once the kernel answered the request for `new_brk`:
/// the old break, except where the kernel set another break than asked for,
/// where it is the address 0xff with `ENOMEM`.
pub fn sbrk_outcome(old_brk: u64, new_brk: u64, reply: Result<u64, i32>) -> (o: (u64, Option<i32>))
    ensures
        (reply matches Ok(b) && b != new_brk) ==> o == (0xffu64, Some(ENOMEM)),
        !(reply matches Ok(b) && b != new_brk) ==> o == (old_brk, None::<i32>),
{
    match reply {
        Ok(b) => {
            if b != new_brk {
                (0xff, Some(ENOMEM))
            } else {
                (old_brk, None)
            }
        },
        Err(_) => (old_brk, None),
    }
}

} // verus!
