use minilibc::constants::ENOMEM;
use minilibc::posix::{brk_outcome, ipc_cmd, sbrk_outcome, sbrk_request, shm_size, syscall_outcome, CallOutcome};

#[test]
fn shm_size_clamps() {
    assert_eq!(shm_size(10), 10);
    assert_eq!(shm_size(i64::MAX as u64), i64::MAX as u64);
    assert_eq!(shm_size(i64::MAX as u64 + 1), u64::MAX);
}

#[test]
fn ipc_cmd_keeps_command() {
    assert_eq!(ipc_cmd(2), 2);
    assert_eq!(ipc_cmd(-1), -1);
}

#[test]
fn outcomes() {
    assert_eq!(syscall_outcome(Ok(13), -1), CallOutcome { ret: 13, errno: None });
    assert_eq!(syscall_outcome(Err(9), -1), CallOutcome { ret: -1, errno: Some(9) });
    assert_eq!(brk_outcome(100, Ok(200)), CallOutcome { ret: 0, errno: None });
    assert_eq!(brk_outcome(100, Ok(100)), CallOutcome { ret: -1, errno: Some(ENOMEM) });
    assert_eq!(brk_outcome(100, Err(1)), CallOutcome { ret: -1, errno: Some(ENOMEM) });
    assert_eq!(sbrk_request(100, 0), None);
    assert_eq!(sbrk_request(100, -40), Some(60));
    assert_eq!(sbrk_outcome(100, 140, Ok(140)), (100, None));
    assert_eq!(sbrk_outcome(100, 140, Ok(100)), (0xff, Some(ENOMEM)));
    assert_eq!(sbrk_outcome(100, 140, Err(12)), (100, None));
}
