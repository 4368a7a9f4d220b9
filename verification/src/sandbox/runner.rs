//! The description of a sandboxed tool run, and the rules by which its output
//! is collected.
use vstd::prelude::*;
use crate::engine::world::concat;
use crate::text::{decimal, owned, u64_to_decimal};

verus! {

/// A command to run in a workspace, with its time and output limits.
#[derive(Debug, Clone, PartialEq, Eq)]
pub struct ToolRun {
    pub cmd: Vec<String>,
    pub cwd: String,
    pub env: Vec<(String, String)>,
    pub timeout_ms: u64,
    pub max_bytes_stdout: usize,
    pub max_bytes_stderr: usize,
}

/// How a tool run ended: its exit code (-1 when it was ended by a signal),
/// the collected output and the time it took.
#[derive(Debug, Clone, PartialEq, Eq)]
pub struct ToolResult {
    pub exit_code: i32,
    pub stdout: Vec<u8>,
    pub stderr: Vec<u8>,
    pub duration_ms: u64,
}

/// Runs tool commands in a workspace.
pub struct SandboxRunner;

impl SandboxRunner {
    pub fn new() -> (r: SandboxRunner)
        ensures
            r == SandboxRunner,
    {
        SandboxRunner
    }
}

/// The time limit of a probe step, in milliseconds.
pub const PROBE_TIMEOUT_MS: u64 = 60_000u64;

/// The most bytes of each output stream kept from a probe step.
pub const PROBE_MAX_OUTPUT_BYTES: usize = 256_000usize;

impl ToolRun {
    /// A probe step: the command in the workspace, with no extra environment,
    /// a one-minute limit and 256 000 bytes kept of each output stream.
    pub fn for_probe(cmd: Vec<String>, cwd: String) -> (r: ToolRun)
        ensures
            r.cmd == cmd,
            r.cwd == cwd,
            r.env@.len() == 0,
            r.timeout_ms == PROBE_TIMEOUT_MS,
            r.max_bytes_stdout == PROBE_MAX_OUTPUT_BYTES,
            r.max_bytes_stderr == PROBE_MAX_OUTPUT_BYTES,
    {
        ToolRun {
            cmd,
            cwd,
            env: Vec::new(),
            timeout_ms: PROBE_TIMEOUT_MS,
            max_bytes_stdout: PROBE_MAX_OUTPUT_BYTES,
            max_bytes_stderr: PROBE_MAX_OUTPUT_BYTES,
        }
    }

    /// The program and its arguments: the first word of the command and the
    /// rest; `empty cmd` when the command has no word.
    pub fn program_and_args(&self) -> (r: Result<(String, Vec<String>), String>)
        ensures
            self.cmd@.len() == 0 ==> (r matches Err(m) && m@ == "empty cmd"@),
            self.cmd@.len() > 0 ==> (r matches Ok((p, args)) && p == self.cmd@[0] && args@ == self.cmd@.subrange(1, self.cmd@.len() as int)),
    {
        let n = self.cmd.len();
        if n == 0 {
            return Err(owned("empty cmd"));
        }
        let program = self.cmd[0].clone();
        let mut args: Vec<String> = Vec::new();
        for i in 1..n
            invariant
                n == self.cmd@.len(),
                args@ == self.cmd@.subrange(1, i as int),
        {
            args.push(self.cmd[i].clone());
            assert(args@ =~= self.cmd@.subrange(1, i + 1));
        }
        Ok((program, args))
    }

    /// The time limit actually applied: at least one millisecond.
    pub fn effective_timeout_ms(&self) -> (r: u64)
        ensures
            r == if self.timeout_ms == 0 { 1 } else { self.timeout_ms },
    {
        if self.timeout_ms == 0 { 1 } else { self.timeout_ms }
    }

    /// The error reported when the run exceeds its time limit.
    pub fn timeout_message(&self) -> (r: String)
        ensures
            r@ == "tool timeout after "@ + decimal(self.timeout_ms as int) + "ms"@,
    {
        let ms = u64_to_decimal(self.timeout_ms);
        let mut r = concat("tool timeout after ", ms.as_str());
        r.append("ms");
        r
    }
}

/// Appends a chunk read from an output stream to what was collected, keeping
/// at most `limit` bytes in all, and tells whether to read on.
///
/// An empty chunk (end of stream) stops the reading. Otherwise the chunk is
/// appended up to the limit, and reading goes on only while the chunk fitted
/// whole and the limit is not reached.
pub fn collect_chunk(buf: &mut Vec<u8>, chunk: &[u8], limit: usize) -> (more: bool)
    requires
        old(buf)@.len() < limit,
    ensures
        chunk@.len() == 0 ==> final(buf)@ == old(buf)@ && !more,
        chunk@.len() > 0 ==> {
            let room = limit - old(buf)@.len();
            &&& final(buf)@ == old(buf)@ + chunk@.take(if chunk@.len() < room { chunk@.len() as int } else { room })
            &&& more == (chunk@.len() < room)
        },
        final(buf)@.len() <= limit,
{
    let n = chunk.len();
    if n == 0 {
        return false;
    }
    let room = limit - buf.len();
    let take = if n < room { n } else { room };
    let ghost before = buf@;
    for i in 0..take
        invariant
            take <= chunk@.len(),
            buf@ == before + chunk@.take(i as int),
    {
        buf.push(chunk[i]);
        assert(buf@ =~= before + chunk@.take(i + 1));
    }
    n < room
}

/// The progress of running a probe's steps in order: the run stops at the
/// first step that exits non-zero, whose exit code the verdict then reports.
/// Every step that runs, the failing one included, has its stdout and stderr
/// stored as artifacts.
#[derive(Debug, Clone, Copy, PartialEq, Eq)]
pub struct StepRun {
    /// How many steps the validator has.
    pub steps: usize,
    /// How many steps have run.
    pub done: usize,
    /// Whether every step that ran exited 0.
    pub all_ok: bool,
    /// The exit code of the last step that ran (0 before any).
    pub last_exit: i32,
}

/// The run after the steps exited with these codes, in order.
pub open spec fn step_run_after(steps: usize, codes: Seq<i32>) -> StepRun
    decreases codes.len(),
{
    if codes.len() == 0 {
        StepRun { steps, done: 0, all_ok: true, last_exit: 0 }
    } else {
        let before = step_run_after(steps, codes.drop_last());
        StepRun { steps, done: (before.done + 1) as usize, all_ok: codes.last() == 0, last_exit: codes.last() }
    }
}

impl StepRun {
    /// A run of the given number of steps, none run yet.
    pub fn new(steps: usize) -> (r: StepRun)
        ensures
            r == step_run_after(steps, Seq::empty()),
    {
        StepRun { steps, done: 0, all_ok: true, last_exit: 0 }
    }

    /// The index of the next step to run: none once a step has failed or all
    /// have run.
    pub fn next_step(&self) -> (r: Option<usize>)
        ensures
            r == (if self.all_ok && self.done < self.steps { Some(self.done) } else { None::<usize> }),
    {
        if self.all_ok && self.done < self.steps {
            Some(self.done)
        } else {
            None
        }
    }

    /// Records the exit code of the step just run; answers whether the step
    /// succeeded (the run goes on only after a success).
    pub fn record(&mut self, exit_code: i32) -> (succeeded: bool)
        requires
            old(self).all_ok,
            old(self).done < old(self).steps,
        ensures
            succeeded == (exit_code == 0),
            final(self).steps == old(self).steps,
            final(self).done == old(self).done + 1,
            final(self).all_ok == (exit_code == 0),
            final(self).last_exit == exit_code,
            forall|codes: Seq<i32>|
                *old(self) == step_run_after(old(self).steps, codes) ==> #[trigger] step_run_after(
                    old(self).steps,
                    codes.push(exit_code),
                ) == *final(self),
    {
        self.done = self.done + 1;
        self.last_exit = exit_code;
        self.all_ok = exit_code == 0;
        assert forall|codes: Seq<i32>| *old(self) == step_run_after(old(self).steps, codes) implies #[trigger] step_run_after(
            old(self).steps,
            codes.push(exit_code),
        ) == *self by {
            assert(codes.push(exit_code).drop_last() =~= codes);
        }
        self.all_ok
    }
}

/// Driving a run by [`StepRun::next_step`] and [`StepRun::record`]: after the
/// steps exited with `codes`, the probe passes exactly when every code was 0,
/// and the reported exit code is the last one: on a failure, the first
/// non-zero code, since no step runs after it.
pub proof fn lemma_step_run_passes_iff_all_zero(steps: usize, codes: Seq<i32>)
    requires
        codes.len() <= steps,
        forall|i: int| 0 <= i < codes.len() - 1 ==> #[trigger] codes[i] == 0,
    ensures
        step_run_after(steps, codes).done == codes.len(),
        step_run_after(steps, codes).all_ok <==> forall|i: int| 0 <= i < codes.len() ==> #[trigger] codes[i] == 0,
        codes.len() > 0 ==> step_run_after(steps, codes).last_exit == codes.last(),
        !step_run_after(steps, codes).all_ok ==> codes.len() > 0 && codes.last() != 0 && forall|i: int|
            0 <= i < codes.len() - 1 ==> #[trigger] codes[i] == 0,
    decreases codes.len(),
{
    if codes.len() > 0 {
        let init = codes.drop_last();
        assert forall|i: int| 0 <= i < init.len() - 1 implies #[trigger] init[i] == 0 by {
            assert(init[i] == codes[i]);
        }
        lemma_step_run_passes_iff_all_zero(steps, init);
        if step_run_after(steps, codes).all_ok {
            assert forall|i: int| 0 <= i < codes.len() implies #[trigger] codes[i] == 0 by {
                if i < codes.len() - 1 {
                } else {
                    assert(codes[i] == codes.last());
                }
            }
        }
    }
}

} // verus!
