//! Saved register contexts and the round-robin process table.

use vstd::prelude::*;
use x86_64::instructions::segmentation::Segment;

verus! {

/// The registers saved for a process, in the order the context switch
/// restores them.
#[derive(Clone, Copy, Debug)]
pub struct Context {
    pub rax: u64,
    pub rbx: u64,
    pub rcx: u64,
    pub rdx: u64,
    pub r8: u64,
    pub r9: u64,
    pub r10: u64,
    pub r11: u64,
    pub r12: u64,
    pub r13: u64,
    pub r14: u64,
    pub r15: u64,
    pub ss: u64,
    pub rsp: u64,
    pub rflags: u64,
    pub cs: u64,
    pub rip: u64,
}

/// The context with every register zero.
pub open spec fn zero_context() -> Context {
    Context {
        rax: 0,
        rbx: 0,
        rcx: 0,
        rdx: 0,
        r8: 0,
        r9: 0,
        r10: 0,
        r11: 0,
        r12: 0,
        r13: 0,
        r14: 0,
        r15: 0,
        ss: 0,
        rsp: 0,
        rflags: 0,
        cs: 0,
        rip: 0,
    }
}

impl Context {
    /// A context with every register zero.
    pub fn new() -> (r: Self)
        ensures
            r == zero_context(),
    {
        Self {
            rax: 0,
            rbx: 0,
            rcx: 0,
            rdx: 0,
            r8: 0,
            r9: 0,
            r10: 0,
            r11: 0,
            r12: 0,
            r13: 0,
            r14: 0,
            r15: 0,
            ss: 0,
            rsp: 0,
            rflags: 0,
            cs: 0,
            rip: 0,
        }
    }
}

/// Whether a process is on the CPU or waiting for it.
#[derive(Clone, Copy, Debug, PartialEq, Eq, Structural)]
pub enum ProcessState {
    Running,
    Ready,
}

/// A process: its state, its saved registers and the base of its stack.
#[derive(Clone, Copy, Debug)]
pub struct Process {
    pub state: ProcessState,
    pub context: Context,
    pub stack: u64,
}

/// What the CPU pushed on an interrupt: where it was and with what flags.
#[derive(Clone, Copy, Debug)]
pub struct InterruptFrame {
    pub instruction_pointer: u64,
    pub code_segment: u16,
    pub cpu_flags: u64,
    pub stack_pointer: u64,
    pub stack_segment: u16,
}

/// Bytes of a process stack.
pub const STACK_SIZE: u64 = 64000;

/// The context a new process starts from: zero registers, the given
/// segments and flags, the stack pointer at the top of its stack and the
/// instruction pointer at its entry.
pub open spec fn start_context(entry: u64, stack: u64, ss: u16, cs: u16, rflags: u64) -> Context {
    Context {
        ss: ss as u64,
        rsp: (stack + STACK_SIZE) as u64,
        rflags,
        cs: cs as u64,
        rip: entry,
        ..zero_context()
    }
}

/// The context a new process starts from, as `start_context` says.
pub fn new_process_context(entry: u64, stack: u64, ss: u16, cs: u16, rflags: u64) -> (r: Context)
    requires
        stack + STACK_SIZE <= u64::MAX,
    ensures
        r == start_context(entry, stack, ss, cs, rflags),
{
    let mut ctx = Context::new();
    ctx.ss = ss as u64;
    ctx.rsp = stack + STACK_SIZE;
    ctx.rflags = rflags;
    ctx.cs = cs as u64;
    ctx.rip = entry;
    ctx
}

/// The value of the SS register.
#[verifier::external_body]
fn read_ss() -> (r: u16) {
    x86_64::instructions::segmentation::SS::get_reg().0
}

/// The value of the CS register.
#[verifier::external_body]
fn read_cs() -> (r: u16) {
    x86_64::instructions::segmentation::CS::get_reg().0
}

/// The value of the RFLAGS register.
#[verifier::external_body]
fn read_rflags() -> (r: u64) {
    x86_64::registers::rflags::read_raw()
}

/// The processes and which one the scheduler takes next.
pub struct ProcessTable {
    processes: Vec<Process>,
    current_pid: usize,
}

/// The table, current pid and context to resume after a timer interrupt
/// that stopped the CPU with registers `regs` at `frame`: the pid is reset
/// to 0 when it is out of range, the interrupted context is saved into the
/// process before it (the last one when the pid is 0) and marked ready, and
/// the process at the pid is marked running and resumed.
pub open spec fn schedule_spec(
    procs: Seq<Process>,
    current_pid: int,
    regs: Context,
    frame: InterruptFrame,
) -> (Seq<Process>, int, Context) {
    let len = procs.len() as int;
    let pid = if current_pid >= len {
        0
    } else {
        current_pid
    };
    let prev = if pid != 0 {
        pid - 1
    } else {
        len - 1
    };
    let saved = Context {
        ss: frame.stack_segment as u64,
        rsp: frame.stack_pointer,
        rflags: frame.cpu_flags,
        cs: frame.code_segment as u64,
        rip: frame.instruction_pointer,
        ..regs
    };
    let p1 = procs.update(prev, Process { state: ProcessState::Ready, context: saved, ..procs[prev] });
    let p2 = p1.update(pid, Process { state: ProcessState::Running, ..p1[pid] });
    (p2, pid, p2[pid].context)
}

impl ProcessTable {
    pub closed spec fn spec_processes(&self) -> Seq<Process> {
        self.processes@
    }

    pub closed spec fn spec_current_pid(&self) -> nat {
        self.current_pid as nat
    }

    /// An empty table.
    pub fn new() -> (r: Self)
        ensures
            r.spec_processes() == Seq::<Process>::empty(),
            r.spec_current_pid() == 0,
    {
        ProcessTable { processes: Vec::new(), current_pid: 0 }
    }

    pub fn len(&self) -> (r: usize)
        ensures
            r == self.spec_processes().len(),
    {
        self.processes.len()
    }

    pub fn current_pid(&self) -> (r: usize)
        ensures
            r == self.spec_current_pid(),
    {
        self.current_pid
    }

    /// The process at `pid`.
    pub fn get(&self, pid: usize) -> (r: Process)
        requires
            pid < self.spec_processes().len(),
        ensures
            r == self.spec_processes()[pid as int],
    {
        self.processes[pid]
    }
}

/// Adds a ready process that starts at `entry` on the stack at `stack`,
/// with the current values of SS, CS and RFLAGS.
pub fn spawn(table: &mut ProcessTable, entry: u64, stack: u64)
    requires
        stack + STACK_SIZE <= u64::MAX,
    ensures
        final(table).spec_current_pid() == old(table).spec_current_pid(),
        final(table).spec_processes().len() == old(table).spec_processes().len() + 1,
        final(table).spec_processes().drop_last() == old(table).spec_processes(),
        exists|ss: u16, cs: u16, rflags: u64|
            final(table).spec_processes().last() == (Process {
                state: ProcessState::Ready,
                context: start_context(entry, stack, ss, cs, rflags),
                stack,
            }),
{
    let ss = read_ss();
    let rflags = read_rflags();
    let cs = read_cs();
    let ctx = new_process_context(entry, stack, ss, cs, rflags);
    table.processes.push(Process { state: ProcessState::Ready, context: ctx, stack });
    assert(table.processes@.drop_last() =~= old(table).processes@);
}

/// Saves the context the timer interrupted and picks the context to
/// resume, as `schedule_spec` says.
pub fn schedule(table: &mut ProcessTable, regs: Context, frame: InterruptFrame) -> (r: Context)
    requires
        old(table).spec_processes().len() > 0,
    ensures
        (final(table).spec_processes(), final(table).spec_current_pid() as int, r)
            == schedule_spec(
            old(table).spec_processes(),
            old(table).spec_current_pid() as int,
            regs,
            frame,
        ),
{
    let mut old_ctx = regs;
    old_ctx.ss = frame.stack_segment as u64;
    old_ctx.rsp = frame.stack_pointer;
    old_ctx.rflags = frame.cpu_flags;
    old_ctx.cs = frame.code_segment as u64;
    old_ctx.rip = frame.instruction_pointer;
    if table.current_pid >= table.processes.len() {
        table.current_pid = 0;
    }
    let len = table.processes.len();
    let prev = if table.current_pid != 0 {
        table.current_pid - 1
    } else {
        len - 1
    };
    let mut old_p = table.processes[prev];
    old_p.state = ProcessState::Ready;
    old_p.context = old_ctx;
    table.processes[prev] = old_p;
    let pid = table.current_pid;
    let mut p = table.processes[pid];
    p.state = ProcessState::Running;
    table.processes[pid] = p;
    p.context
}

/// A timer tick keeps the number of processes, leaves the pid in range,
/// marks the resumed process running and resumes the context it has saved.
pub proof fn lemma_schedule_resumes_running(
    procs: Seq<Process>,
    current_pid: int,
    regs: Context,
    frame: InterruptFrame,
)
    requires
        procs.len() > 0,
        current_pid >= 0,
    ensures
        ({
            let (p, pid, ctx) = schedule_spec(procs, current_pid, regs, frame);
            &&& p.len() == procs.len()
            &&& 0 <= pid < p.len()
            &&& p[pid].state == ProcessState::Running
            &&& ctx == p[pid].context
        }),
{
}

/// With a single process, a tick resumes exactly the context it
/// interrupted.
pub proof fn lemma_single_process_resumes_itself(
    procs: Seq<Process>,
    current_pid: int,
    regs: Context,
    frame: InterruptFrame,
)
    requires
        procs.len() == 1,
        current_pid >= 0,
    ensures
        schedule_spec(procs, current_pid, regs, frame).2 == (Context {
            ss: frame.stack_segment as u64,
            rsp: frame.stack_pointer,
            rflags: frame.cpu_flags,
            cs: frame.code_segment as u64,
            rip: frame.instruction_pointer,
            ..regs
        }),
{
}

} // verus!
