#![allow(non_upper_case_globals)]

use vstd::prelude::*;

verus! {

pub const NULL: i64 = 0;
pub const O_RDONLY: i32 = 0;

/// Cannot allocate memory.
pub const ENOMEM: i32 = 12;
/// Permission denied.
pub const EACCES: i32 = 13;
/// File exists.
pub const EEXIST: i32 = 17;
/// Is a directory.
pub const EISDIR: i32 = 21;
/// Invalid argument.
pub const EINVAL: i32 = 22;
/// Result too large.
pub const ERANGE: i32 = 34;

pub const FUTEX_WAIT: i32 = 0;
pub const FUTEX_WAKE: i32 = 1;
pub const FUTEX_FD: i32 = 2;
pub const FUTEX_REQUEUE: i32 = 3;
pub const FUTEX_CMP_REQUEUE: i32 = 4;
pub const FUTEX_WAKE_OP: i32 = 5;
pub const FUTEX_LOCK_PI: i32 = 6;
pub const FUTEX_UNLOCK_PI: i32 = 7;
pub const FUTEX_TRYLOCK_PI: i32 = 8;
pub const FUTEX_WAIT_BITSET: i32 = 9;
pub const FUTEX_WAKE_BITSET: i32 = 10;
pub const FUTEX_WAIT_REQUEUE_PI: i32 = 11;
pub const FUTEX_CMP_REQUEUE_PI: i32 = 12;
pub const FUTEX_PRIVATE_FLAG: i32 = 128;
pub const FUTEX_CLOCK_REALTIME: i32 = 256;
pub const FUTEX_CMD_MASK: i32 = !(FUTEX_PRIVATE_FLAG | FUTEX_CLOCK_REALTIME);

/// Nanoseconds in one second.
pub const NSEC_PER_SEC: u64 = 1_000_000_000;

pub const CLOCK_REALTIME: i32 = 0;
pub const CLOCK_MONOTONIC: i32 = 1;
pub const CLOCK_PROCESS_CPUTIME_ID: i32 = 2;
pub const CLOCK_THREAD_CPUTIME_ID: i32 = 3;
pub const CLOCK_MONOTONIC_RAW: i32 = 4;
pub const CLOCK_REALTIME_COARSE: i32 = 5;
pub const CLOCK_MONOTONIC_COARSE: i32 = 6;
pub const CLOCK_BOOTTIME: i32 = 7;
pub const CLOCK_REALTIME_ALARM: i32 = 8;
pub const CLOCK_BOOTTIME_ALARM: i32 = 9;

pub const IPCOP_semop: i32 = 1;
pub const IPCOP_semget: i32 = 2;
pub const IPCOP_semctl: i32 = 3;
pub const IPCOP_msgsnd: i32 = 11;
pub const IPCOP_msgrcv: i32 = 12;
pub const IPCOP_msgget: i32 = 13;
pub const IPCOP_msgctl: i32 = 14;
pub const IPCOP_shmat: i32 = 21;
pub const IPCOP_shmdt: i32 = 22;
pub const IPCOP_shmget: i32 = 23;
pub const IPCOP_shmctl: i32 = 24;
pub const IPC_STAT: i32 = 2;
pub const IPC_64: i32 = 0;
pub const IPC_MODERN: i32 = 0x100;
pub const IPC_TIME64: i32 = IPC_STAT & 0x100;

pub const INT_MAX: i32 = 2147483647;
pub const INT8_MIN: i8 = -128;
pub const INT16_MIN: i16 = -32768;
pub const INT32_MIN: i32 = -2147483648;
pub const INT64_MIN: i64 = -9223372036854775808;
pub const INT8_MAX: i8 = 127;
pub const INT16_MAX: i16 = 32767;
pub const INT32_MAX: i32 = 2147483647;
pub const INT64_MAX: i64 = 9223372036854775807;
pub const UINT8_MAX: u8 = 255;
pub const UINT16_MAX: u16 = 65535;
pub const UINT32_MAX: u32 = 4294967295;
pub const UINT64_MAX: u64 = 18446744073709551615;
pub const INTPTR_MIN: i64 = INT64_MIN;
pub const INTPTR_MAX: i64 = INT64_MAX;
pub const UINTPTR_MAX: u64 = UINT64_MAX;
pub const PTRDIFF_MIN: i64 = INT64_MIN;
pub const PTRDIFF_MAX: i64 = INT64_MAX;
pub const SIZE_MAX: u64 = UINT64_MAX;
pub const IOV_MAX: u64 = 2147483647;

} // verus!
