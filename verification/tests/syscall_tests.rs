use rcore_os::syscall::process::{
    mapping_status, sys_exec, sys_fork, sys_get_time, sys_getpid, sys_mmap, sys_munmap,
    sys_sbrk, sys_set_priority, sys_spawn, sys_waitpid, sys_yield, ChildProcess, MapPermission,
    MmapRequest, MunmapRequest, MAP_PERM_R, MAP_PERM_U, MAP_PERM_W, MAP_PERM_X,
};
use rcore_os::syscall::{
    reset_syscall_audit, syscall, SysCallAuditArray, SyscallRequest, SYSCALL_EXIT,
    SYSCALL_GET_TIME, SYSCALL_ID_ARRAY, SYSCALL_TRACE, SYSCALL_WRITE, SYSCALL_YIELD,
};

fn counts(a: &SysCallAuditArray) -> Vec<isize> {
    (0..5).map(|i| a.get(i).count()).collect()
}

#[test]
fn audit_starts_at_zero_with_each_call() {
    let a = SysCallAuditArray::new();
    for i in 0..5 {
        assert_eq!(a.get(i).id(), SYSCALL_ID_ARRAY[i]);
        assert_eq!(a.get(i).count(), 0);
    }
}

#[test]
fn syscall_counts_exactly_its_own_counter() {
    let mut a = SysCallAuditArray::new();
    assert_eq!(syscall(&mut a, SYSCALL_YIELD, [0, 0, 0]), SyscallRequest::Yield);
    assert_eq!(syscall(&mut a, SYSCALL_YIELD, [0, 0, 0]), SyscallRequest::Yield);
    assert_eq!(
        syscall(&mut a, SYSCALL_WRITE, [1, 0x1000, 12]),
        SyscallRequest::Write { fd: 1, buf: 0x1000, len: 12 }
    );
    assert_eq!(counts(&a), vec![1, 0, 2, 0, 0]);
    reset_syscall_audit(&mut a);
    assert_eq!(counts(&a), vec![0, 0, 0, 0, 0]);
    assert_eq!(a.get(4).id(), SYSCALL_TRACE);
}

#[test]
fn each_task_counts_its_own_calls() {
    let mut first = SysCallAuditArray::new();
    let mut second = SysCallAuditArray::new();
    syscall(&mut first, SYSCALL_GET_TIME, [0, 0, 0]);
    syscall(&mut second, SYSCALL_WRITE, [1, 0, 0]);
    syscall(&mut second, SYSCALL_WRITE, [1, 0, 0]);
    assert_eq!(counts(&first), vec![0, 0, 0, 1, 0]);
    assert_eq!(counts(&second), vec![2, 0, 0, 0, 0]);
}

#[test]
fn syscall_decodes_arguments() {
    let mut a = SysCallAuditArray::new();
    assert_eq!(
        syscall(&mut a, SYSCALL_EXIT, [0x1_0000_0003, 0, 0]),
        SyscallRequest::Exit { exit_code: 3 }
    );
    assert_eq!(
        syscall(&mut a, SYSCALL_GET_TIME, [0x2000, 9, 1]),
        SyscallRequest::GetTime { ts: 0x2000, tz: 9 }
    );
    assert_eq!(
        syscall(&mut a, SYSCALL_TRACE, [0, 64, 0]),
        SyscallRequest::Trace { trace_request: 0, id: 64, data: 0 }
    );
    assert_eq!(counts(&a), vec![0, 1, 0, 1, 1]);
}

fn child(pid: usize, zombie: bool, exit_code: i32) -> ChildProcess {
    ChildProcess { pid, zombie, exit_code }
}

#[test]
fn waitpid_without_such_child_fails() {
    let mut children = vec![child(3, true, 0)];
    assert_eq!(sys_waitpid(&mut children, 4), (-1, None));
    assert_eq!(children.len(), 1);
    let mut none: Vec<ChildProcess> = Vec::new();
    assert_eq!(sys_waitpid(&mut none, -1), (-1, None));
}

#[test]
fn waitpid_on_running_child_asks_to_wait() {
    let mut children = vec![child(3, false, 0), child(4, false, 0)];
    assert_eq!(sys_waitpid(&mut children, -1), (-2, None));
    assert_eq!(sys_waitpid(&mut children, 4), (-2, None));
    assert_eq!(children.len(), 2);
}

#[test]
fn waitpid_reaps_first_exited_child() {
    let mut children = vec![child(3, false, 0), child(4, true, 7), child(5, true, 9)];
    assert_eq!(sys_waitpid(&mut children, -1), (4, Some(7)));
    assert_eq!(children, vec![child(3, false, 0), child(5, true, 9)]);
    assert_eq!(sys_waitpid(&mut children, 5), (5, Some(9)));
    assert_eq!(children, vec![child(3, false, 0)]);
}

#[test]
fn reaped_child_is_not_found_again() {
    let mut children = vec![child(3, true, 1), child(4, false, 0)];
    assert_eq!(sys_waitpid(&mut children, 3), (3, Some(1)));
    assert_eq!(sys_waitpid(&mut children, 3), (-1, None));
}

#[test]
fn mmap_checks_alignment_and_protection() {
    assert_eq!(sys_mmap(0x1001, 4096, 1), Err(-1));
    assert_eq!(sys_mmap(0x1000, 4096, 0), Err(-1));
    assert_eq!(sys_mmap(0x1000, 4096, 8), Err(-1));
    assert_eq!(sys_mmap(0x1000, 4096, 0xf), Err(-1));
    assert_eq!(
        sys_mmap(0x1000, 4096, 3),
        Ok(MmapRequest {
            start: 0x1000,
            end: 0x2000,
            perm: MapPermission { bits: MAP_PERM_U | MAP_PERM_R | MAP_PERM_W },
        })
    );
    assert_eq!(
        sys_mmap(0, 10, 7),
        Ok(MmapRequest {
            start: 0,
            end: 10,
            perm: MapPermission { bits: MAP_PERM_U | MAP_PERM_R | MAP_PERM_W | MAP_PERM_X },
        })
    );
    assert_eq!(mapping_status(true), 0);
    assert_eq!(mapping_status(false), -1);
}

#[test]
fn munmap_checks_both_ends() {
    assert_eq!(sys_munmap(0x1001, 0x1000), Err(-1));
    assert_eq!(sys_munmap(0x1000, 0x800), Err(-1));
    assert_eq!(sys_munmap(0x1000, 0x2000), Ok(MunmapRequest { start: 0x1000, end: 0x3000 }));
}

#[test]
fn get_time_splits_bytes_over_buffers() {
    let ms = 12_345usize;
    let mut bytes = Vec::new();
    bytes.extend_from_slice(&12u64.to_le_bytes());
    bytes.extend_from_slice(&345_000u64.to_le_bytes());
    let (r, chunks) = sys_get_time(ms, &vec![16]);
    assert_eq!(r, 0);
    assert_eq!(chunks, vec![bytes.clone()]);
    let (_, chunks) = sys_get_time(ms, &vec![5, 0, 7, 10, 3]);
    assert_eq!(chunks[0], bytes[0..5].to_vec());
    assert_eq!(chunks[1], Vec::<u8>::new());
    assert_eq!(chunks[2], bytes[5..12].to_vec());
    assert_eq!(chunks[3], bytes[12..16].to_vec());
    assert_eq!(chunks[4], Vec::<u8>::new());
    let (_, short) = sys_get_time(999, &vec![3]);
    assert_eq!(short, vec![vec![0, 0, 0]]);
}

#[test]
fn small_process_calls() {
    assert_eq!(sys_yield(), 0);
    assert_eq!(sys_getpid(42), 42);
    let mut regs = [5usize; 32];
    assert_eq!(sys_fork(9, &mut regs), 9);
    assert_eq!(regs[10], 0);
    assert_eq!(regs[11], 5);
    assert_eq!(regs[9], 5);
    assert_eq!(sys_exec(true), 0);
    assert_eq!(sys_exec(false), -1);
    assert_eq!(sys_sbrk(Some(0x8000)), 0x8000);
    assert_eq!(sys_sbrk(None), -1);
    assert_eq!(sys_spawn(Some(12)), 12);
    assert_eq!(sys_spawn(None), -1);
    assert_eq!(sys_set_priority(16), -1);
}
