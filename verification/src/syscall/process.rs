//! Process management syscalls: what each call decides and returns, given
//! what the kernel reports about the calling task.

use vstd::prelude::*;

verus! {

/// What the kernel knows of one child of the calling process.
#[derive(Clone, Copy, Debug, PartialEq, Eq, Structural)]
pub struct ChildProcess {
    /// The child's process id.
    pub pid: usize,
    /// Whether the child has exited and waits to be reaped.
    pub zombie: bool,
    /// The code the child exited with.
    pub exit_code: i32,
}

/// Whether a wait for `pid` (-1: any child) concerns the child `child_pid`.
pub open spec fn waits_for(pid: isize, child_pid: usize) -> bool {
    pid == -1 || #[verifier::truncate] (pid as usize) == child_pid
}

/// Whether child `c` can be reaped by a wait for `pid`.
pub open spec fn reapable(c: ChildProcess, pid: isize) -> bool {
    c.zombie && waits_for(pid, c.pid)
}

/// Whether a wait for `pid` concerns some child in `children`.
pub open spec fn has_awaited_child(children: Seq<ChildProcess>, pid: isize) -> bool {
    exists|i: int| 0 <= i < children.len() && waits_for(pid, #[trigger] children[i].pid)
}

/// Whether `i` is the first child in `children` that a wait for `pid` can reap.
pub open spec fn first_reapable_at(children: Seq<ChildProcess>, pid: isize, i: int) -> bool {
    &&& 0 <= i < children.len()
    &&& reapable(children[i], pid)
    &&& forall|j: int| 0 <= j < i ==> !reapable(#[trigger] children[j], pid)
}

/// No two children share a pid.
pub open spec fn distinct_pids(children: Seq<ChildProcess>) -> bool {
    forall|i: int, j: int|
        0 <= i < children.len() && 0 <= j < children.len() && i != j ==> #[trigger] children[i].pid
            != #[trigger] children[j].pid
}

/// A child is reaped once: after a wait for a given pid reaps child `i`, a
/// second wait for that pid finds no such child.
pub proof fn lemma_wait_twice(children: Seq<ChildProcess>, pid: isize, i: int)
    requires
        distinct_pids(children),
        pid != -1,
        first_reapable_at(children, pid, i),
    ensures
        !has_awaited_child(children.remove(i), pid),
{
    let rest = children.remove(i);
    assert forall|k: int| 0 <= k < rest.len() implies !waits_for(pid, #[trigger] rest[k].pid) by {
        if k < i {
            assert(rest[k] == children[k]);
        } else {
            assert(rest[k] == children[k + 1]);
        }
    }
}

/// Whether a child can be reaped depends only on its having exited and on
/// its pid, never on its exit code: the first exited child that a wait
/// concerns is the one reaped, whatever code it exited with.
pub proof fn lemma_exited_child_is_reaped(children: Seq<ChildProcess>, pid: isize, i: int)
    requires
        0 <= i < children.len(),
        children[i].zombie,
        waits_for(pid, children[i].pid),
        forall|j: int|
            0 <= j < i ==> !(#[trigger] children[j].zombie && waits_for(pid, children[j].pid)),
    ensures
        first_reapable_at(children, pid, i),
        has_awaited_child(children, pid),
{
    assert(waits_for(pid, children[i].pid));
}

/// If there is not a child process whose pid is same as given, return -1.
/// Else if there is a child process but it is still running, return -2.
/// Otherwise the first such child that has exited is removed from `children`,
/// and its pid is returned with the exit code to store for the caller.
pub fn sys_waitpid(children: &mut Vec<ChildProcess>, pid: isize) -> (r: (isize, Option<i32>))
    ensures
        !has_awaited_child(old(children)@, pid) ==> r == (-1isize, None::<i32>) && final(children)@
            == old(children)@,
        has_awaited_child(old(children)@, pid) && !(exists|i: int|
            first_reapable_at(old(children)@, pid, i)) ==> r == (-2isize, None::<i32>)
            && final(children)@ == old(children)@,
        forall|i: int|
            #[trigger] first_reapable_at(old(children)@, pid, i) ==> r == (
                #[verifier::truncate] (old(children)@[i].pid as isize),
                Some(old(children)@[i].exit_code),
            ) && final(children)@ == old(children)@.remove(i),
{
    let mut any = false;
    let mut k: usize = 0;
    while k < children.len()
        invariant
            k <= children.len(),
            any <==> exists|i: int| 0 <= i < k && waits_for(pid, #[trigger] children@[i].pid),
        decreases children.len() - k,
    {
        if pid == -1 || #[verifier::truncate] (pid as usize) == children[k].pid {
            assert(waits_for(pid, children@[k as int].pid));
            any = true;
        }
        k += 1;
    }
    if !any {
        return (-1, None);
    }
    let mut idx: usize = 0;
    let mut found = false;
    while idx < children.len()
        invariant_except_break
            !found,
        invariant
            idx <= children.len(),
            forall|j: int| 0 <= j < idx ==> !reapable(#[trigger] children@[j], pid),
        ensures
            found ==> first_reapable_at(children@, pid, idx as int),
            !found ==> forall|j: int| 0 <= j < children@.len() ==> !reapable(#[trigger] children@[j], pid),
        decreases children.len() - idx,
    {
        let c = children[idx];
        if c.zombie && (pid == -1 || #[verifier::truncate] (pid as usize) == c.pid) {
            found = true;
            break;
        }
        idx += 1;
    }
    if found {
        let child = children.remove(idx);
        (#[verifier::truncate] (child.pid as isize), Some(child.exit_code))
    } else {
        (-2, None)
    }
}

/// The size of a page, in bytes.
pub const PAGE_SIZE: usize = 4096;

/// Readable mapping.
pub const MAP_PERM_R: u8 = 2;

/// Writable mapping.
pub const MAP_PERM_W: u8 = 4;

/// Executable mapping.
pub const MAP_PERM_X: u8 = 8;

/// Mapping reachable from user mode.
pub const MAP_PERM_U: u8 = 16;

/// The access rights of a mapped area, as a set of the `MAP_PERM_` bits.
#[derive(Clone, Copy, Debug, PartialEq, Eq, Structural)]
pub struct MapPermission {
    pub bits: u8,
}

/// A user area `[start, end)` to map with permission `perm`.
#[derive(Clone, Copy, Debug, PartialEq, Eq, Structural)]
pub struct MmapRequest {
    pub start: usize,
    pub end: usize,
    pub perm: MapPermission,
}

/// A user area `[start, end)` to unmap.
#[derive(Clone, Copy, Debug, PartialEq, Eq, Structural)]
pub struct MunmapRequest {
    pub start: usize,
    pub end: usize,
}

/// Whether `addr` is the first address of a page.
pub open spec fn page_aligned(addr: usize) -> bool {
    addr % PAGE_SIZE == 0
}

/// Check an mmap request: `start` must be page aligned and `prot` a nonempty
/// set of the read (1), write (2) and execute (4) bits, or the call fails with
/// -1. The area to map is `[start, start + len)`, user-accessible, with the
/// rights that `prot` names.
pub fn sys_mmap(start: usize, len: usize, prot: usize) -> (r: Result<MmapRequest, isize>)
    requires
        page_aligned(start) ==> start + len <= usize::MAX,
    ensures
        !page_aligned(start) ==> r == Err::<MmapRequest, isize>(-1isize),
        page_aligned(start) && !(1 <= prot <= 7) ==> r == Err::<MmapRequest, isize>(-1isize),
        page_aligned(start) && 1 <= prot <= 7 ==> r == Ok::<MmapRequest, isize>(
            MmapRequest {
                start,
                end: (start + len) as usize,
                perm: MapPermission { bits: (MAP_PERM_U + 2 * prot) as u8 },
            },
        ),
{
    if start % PAGE_SIZE != 0 {
        return Err(-1);
    }
    let end = start + len;
    if prot & !0x7usize != 0 || prot & 0x7usize == 0 {
        assert(!(1 <= prot <= 7)) by (bit_vector)
            requires
                prot & !0x7usize != 0 || prot & 0x7usize == 0,
        ;
        return Err(-1);
    }
    assert(1 <= prot <= 7) by (bit_vector)
        requires
            !(prot & !0x7usize != 0 || prot & 0x7usize == 0),
    ;
    let readable = prot & 0x1 != 0;
    let writable = prot & 0x2 != 0;
    let executable = prot & 0x4 != 0;
    let r_bit: u8 = if readable { MAP_PERM_R } else { 0 };
    let w_bit: u8 = if writable { MAP_PERM_W } else { 0 };
    let x_bit: u8 = if executable { MAP_PERM_X } else { 0 };
    let bits: u8 = MAP_PERM_U | r_bit | w_bit | x_bit;
    assert(bits == 16 + 2 * prot) by (bit_vector)
        requires
            1 <= prot <= 7,
            readable == (prot & 0x1 != 0),
            writable == (prot & 0x2 != 0),
            executable == (prot & 0x4 != 0),
            r_bit == (if readable { 2u8 } else { 0u8 }),
            w_bit == (if writable { 4u8 } else { 0u8 }),
            x_bit == (if executable { 8u8 } else { 0u8 }),
            bits == 16u8 | r_bit | w_bit | x_bit,
    ;
    Ok(MmapRequest { start, end, perm: MapPermission { bits } })
}

/// Check an munmap request: both ends of `[start, start + len)` must be page
/// aligned, or the call fails with -1.
pub fn sys_munmap(start: usize, len: usize) -> (r: Result<MunmapRequest, isize>)
    requires
        page_aligned(start) ==> start + len <= usize::MAX,
    ensures
        !page_aligned(start) ==> r == Err::<MunmapRequest, isize>(-1isize),
        page_aligned(start) && !page_aligned((start + len) as usize) ==> r == Err::<MunmapRequest, isize>(-1isize),
        page_aligned(start) && page_aligned((start + len) as usize) ==> r == Ok::<
            MunmapRequest,
            isize,
        >(MunmapRequest { start, end: (start + len) as usize }),
{
    if start % PAGE_SIZE != 0 {
        return Err(-1);
    }
    let end = start + len;
    if end % PAGE_SIZE != 0 {
        return Err(-1);
    }
    Ok(MunmapRequest { start, end })
}

/// An area that mmap accepts and whose length is a whole number of pages is
/// accepted by munmap too: its end is page aligned, so munmap asks the kernel
/// to unmap the same `[start, start + len)` that mmap asked it to map.
pub proof fn lemma_mmap_then_munmap(start: usize, len: usize, prot: usize)
    requires
        page_aligned(start),
        len % PAGE_SIZE == 0,
        start + len <= usize::MAX,
        1 <= prot <= 7,
    ensures
        page_aligned((start + len) as usize),
{
}

/// What an mmap or munmap call returns once the kernel has tried to change
/// the mapping: 0 when it succeeded, -1 when it did not.
pub fn mapping_status(changed: bool) -> (r: isize)
    ensures
        r == (if changed { 0isize } else { -1isize }),
{
    if changed {
        0
    } else {
        -1
    }
}

/// A time of day as seconds and microseconds.
#[derive(Debug)]
pub struct TimeVal {
    pub sec: usize,
    pub usec: usize,
}

/// The size of a `TimeVal` in user memory: two 64-bit words.
pub const TIME_VAL_SIZE: usize = 16;

/// Byte `i` of `x`, least significant first.
pub open spec fn le_byte(x: u64, i: nat) -> u8 {
    ((x >> ((8 * i) as u64)) & 0xff) as u8
}

/// The time `ms` milliseconds after boot.
pub open spec fn time_val_of_ms(ms: usize) -> TimeVal {
    TimeVal { sec: ms / 1000, usec: ((ms % 1000) * 1000) as usize }
}

/// The bytes of `t` in user memory: `sec`, then `usec`, each as a 64-bit
/// little-endian word.
pub open spec fn time_val_bytes(t: TimeVal) -> Seq<u8> {
    Seq::new(
        16,
        |k: int|
            if k < 8 {
                le_byte(t.sec as u64, k as nat)
            } else {
                le_byte(t.usec as u64, (k - 8) as nat)
            },
    )
}

/// How many bytes of a `TimeVal` go before buffer `k`, when consecutive user
/// buffers of lengths `lens` receive it.
pub open spec fn chunk_offset(lens: Seq<usize>, k: int) -> int
    decreases k,
{
    if k <= 0 {
        0
    } else {
        let o = chunk_offset(lens, k - 1);
        o + vstd::math::min(lens[k - 1] as int, 16 - o)
    }
}

/// How many bytes of a `TimeVal` go into buffer `k`.
pub open spec fn chunk_len(lens: Seq<usize>, k: int) -> int {
    vstd::math::min(lens[k] as int, 16 - chunk_offset(lens, k))
}

/// The sum of the first `k` buffer lengths.
pub open spec fn lens_sum(lens: Seq<usize>, k: int) -> int
    decreases k,
{
    if k <= 0 {
        0
    } else {
        lens_sum(lens, k - 1) + lens[k - 1]
    }
}

/// The time stored loses nothing: its seconds and microseconds give back the
/// milliseconds, and the microseconds stay below one second.
pub proof fn lemma_time_val_round_trip(ms: usize)
    ensures
        time_val_of_ms(ms).sec * 1000 + time_val_of_ms(ms).usec / 1000 == ms,
        time_val_of_ms(ms).usec < 1_000_000,
        time_val_of_ms(ms).usec % 1000 == 0,
{
}

/// The pieces follow each other: piece `k` starts where piece `k - 1` ends,
/// none reaches past the `TimeVal`, and buffers long enough in all receive
/// all of it.
pub proof fn lemma_chunks_cover(lens: Seq<usize>, k: int)
    requires
        0 <= k <= lens.len(),
    ensures
        0 <= chunk_offset(lens, k) <= 16,
        chunk_offset(lens, k) == vstd::math::min(lens_sum(lens, k), 16),
        k < lens.len() ==> chunk_offset(lens, k + 1) == chunk_offset(lens, k) + chunk_len(lens, k),
    decreases k,
{
    if k > 0 {
        lemma_chunks_cover(lens, k - 1);
    }
}

/// The time `ms` milliseconds after boot, cut into the pieces that the
/// caller's consecutive user buffers, of lengths `buffer_lens`, receive;
/// returns 0 with the pieces.
pub fn sys_get_time(ms: usize, buffer_lens: &Vec<usize>) -> (r: (isize, Vec<Vec<u8>>))
    ensures
        r.0 == 0,
        r.1@.len() == buffer_lens@.len(),
        forall|k: int|
            0 <= k < buffer_lens@.len() ==> #[trigger] r.1@[k]@ == time_val_bytes(
                time_val_of_ms(ms),
            ).subrange(chunk_offset(buffer_lens@, k), chunk_offset(buffer_lens@, k) + chunk_len(buffer_lens@, k)),
{
    let sec = ms / 1000;
    let usec = (ms % 1000) * 1000;
    let time_val = TimeVal { sec, usec };
    let ghost expected = time_val_bytes(time_val_of_ms(ms));
    let mut bytes: Vec<u8> = Vec::new();
    let mut j: u64 = 0;
    while j < 16
        invariant
            j <= 16,
            bytes@.len() == j,
            time_val == time_val_of_ms(ms),
            expected == time_val_bytes(time_val),
            forall|k: int| 0 <= k < j ==> bytes@[k] == expected[k],
        decreases 16 - j,
    {
        let word: u64 = if j < 8 { time_val.sec as u64 } else { time_val.usec as u64 };
        let shift: u64 = if j < 8 { 8 * j } else { 8 * (j - 8) };
        bytes.push(((word >> shift) & 0xff) as u8);
        j += 1;
    }
    let mut chunks: Vec<Vec<u8>> = Vec::new();
    let mut l: usize = 0;
    let mut i: usize = 0;
    while i < buffer_lens.len()
        invariant
            i <= buffer_lens@.len(),
            l == chunk_offset(buffer_lens@, i as int),
            l <= 16,
            bytes@ == expected,
            expected.len() == 16,
            chunks@.len() == i,
            forall|k: int|
                0 <= k < i ==> #[trigger] chunks@[k]@ == expected.subrange(
                    chunk_offset(buffer_lens@, k),
                    chunk_offset(buffer_lens@, k) + chunk_len(buffer_lens@, k),
                ),
        decreases buffer_lens@.len() - i,
    {
        let len: usize = if buffer_lens[i] < TIME_VAL_SIZE - l {
            buffer_lens[i]
        } else {
            TIME_VAL_SIZE - l
        };
        let mut chunk: Vec<u8> = Vec::new();
        let mut t: usize = 0;
        while t < len
            invariant
                t <= len,
                l + len <= 16,
                bytes@ == expected,
                expected.len() == 16,
                chunk@ == expected.subrange(l as int, l + t),
            decreases len - t,
        {
            chunk.push(bytes[l + t]);
            t += 1;
            assert(chunk@ =~= expected.subrange(l as int, l + t));
        }
        chunks.push(chunk);
        l += len;
        i += 1;
    }
    (0, chunks)
}

/// current task gives up resources for other tasks; the call returns 0
pub fn sys_yield() -> (r: isize)
    ensures
        r == 0,
{
    0
}

/// The id `pid` of the calling process, as the call returns it.
pub fn sys_getpid(pid: usize) -> (r: isize)
    ensures
        r == #[verifier::truncate] (pid as isize),
{
    #[verifier::truncate] (pid as isize)
}

/// Finish a fork that made the child `new_pid`: the child, whose saved
/// registers are `child_regs`, sees 0 in `a0` (x10); the parent sees the
/// child's pid.
pub fn sys_fork(new_pid: usize, child_regs: &mut [usize; 32]) -> (r: isize)
    ensures
        r == #[verifier::truncate] (new_pid as isize),
        final(child_regs)@ == old(child_regs)@.update(10, 0),
{
    child_regs[10] = 0;
    #[verifier::truncate] (new_pid as isize)
}

/// The result of exec once the kernel looked for the program: 0 when it was
/// found and loaded, -1 when there is no such program.
pub fn sys_exec(found: bool) -> (r: isize)
    ensures
        r == (if found { 0isize } else { -1isize }),
{
    if found {
        0
    } else {
        -1
    }
}

/// change data segment size: the old end of the data segment when the
/// kernel could move it (`old_brk`), -1 when it could not
pub fn sys_sbrk(old_brk: Option<usize>) -> (r: isize)
    ensures
        r == (match old_brk {
            Some(b) => #[verifier::truncate] (b as isize),
            None => -1isize,
        }),
{
    match old_brk {
        Some(b) => #[verifier::truncate] (b as isize),
        None => -1,
    }
}

/// The result of spawn: the new child's pid when the program was found and
/// started (`child_pid`), -1 when there is no such program.
pub fn sys_spawn(child_pid: Option<usize>) -> (r: isize)
    ensures
        r == (match child_pid {
            Some(p) => #[verifier::truncate] (p as isize),
            None => -1isize,
        }),
{
    match child_pid {
        Some(p) => #[verifier::truncate] (p as isize),
        None => -1,
    }
}

/// Setting a task's priority is not supported: the call always returns -1.
pub fn sys_set_priority(_prio: isize) -> (r: isize)
    ensures
        r == -1,
{
    -1
}

} // verus!
