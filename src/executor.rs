//! The pipeline executor's decisions, as a state machine over the stages of
//! one pipeline. For each segment it says what to do and how to wire the
//! standard streams; the caller spawns programs and runs builtins, and reports
//! back whether each spawn succeeded. The state records who owns the previous
//! stage's output: no one, or a running process that holds it.
use crate::builtins::{builtin_of, classify, Builtin};
use crate::tokenize::Segment;
use vstd::prelude::*;

verus! {

/// Where a spawned stage reads from.
#[derive(PartialEq, Eq, Structural, Clone, Copy, Debug)]
pub enum StdinSource {
    /// The shell's own standard input.
    Inherit,
    /// The output pipe of the previous stage, whose ownership moves here.
    Previous,
}

/// Where a spawned stage writes to.
#[derive(PartialEq, Eq, Structural, Clone, Copy, Debug)]
pub enum StdoutSink {
    /// The shell's own standard output.
    Inherit,
    /// A new pipe, read by the next stage.
    Pipe,
}

/// The stage that the executor holds from earlier segments.
#[derive(PartialEq, Eq, Structural, Clone, Copy, Debug)]
pub enum Held {
    /// No process: nothing started yet, or its output was dropped.
    Nothing,
    /// A started process; `piped` says whether its output pipe is unconsumed.
    Running { piped: bool },
}

/// What to do for one segment.
#[derive(PartialEq, Eq, Structural, Clone, Copy, Debug)]
pub enum StageAction {
    /// The segment has no command: report it and go on.
    ReportEmpty,
    /// Run a builtin (never `Exit` or `External`) in the shell itself.
    RunBuiltin(Builtin),
    /// Persist history and leave the read loop.
    Exit,
    /// Spawn the external program with this wiring.
    Spawn { stdin: StdinSource, stdout: StdoutSink },
}

/// The action for a segment with command `command`, given the held stage and
/// whether another segment follows.
pub open spec fn action_for(held: Held, command: Seq<char>, has_next: bool) -> StageAction {
    if command.len() == 0 {
        StageAction::ReportEmpty
    } else if builtin_of(command) == Builtin::Exit {
        StageAction::Exit
    } else if builtin_of(command) != Builtin::External {
        StageAction::RunBuiltin(builtin_of(command))
    } else {
        StageAction::Spawn {
            stdin: if held == (Held::Running { piped: true }) {
                StdinSource::Previous
            } else {
                StdinSource::Inherit
            },
            stdout: if has_next {
                StdoutSink::Pipe
            } else {
                StdoutSink::Inherit
            },
        }
    }
}

/// The held stage after performing `action`; `spawned` is whether a spawn
/// succeeded. A builtin drops what was held; a failed spawn leaves nothing.
pub open spec fn held_after(held: Held, action: StageAction, spawned: bool) -> Held {
    match action {
        StageAction::ReportEmpty => held,
        StageAction::Exit => held,
        StageAction::RunBuiltin(_) => Held::Nothing,
        StageAction::Spawn { stdout, .. } => if spawned {
            Held::Running { piped: stdout == StdoutSink::Pipe }
        } else {
            Held::Nothing
        },
    }
}

/// One pipeline run in progress.
pub struct PipelineRun {
    pub held: Held,
}

impl PipelineRun {
    /// A run before its first segment.
    pub fn new() -> (r: PipelineRun)
        ensures
            r.held == Held::Nothing,
    {
        PipelineRun { held: Held::Nothing }
    }

    /// The action for the next segment.
    pub fn next_action(&self, seg: &Segment, has_next: bool) -> (r: StageAction)
        ensures
            r == action_for(self.held, seg.command@, has_next),
    {
        if seg.is_empty() {
            return StageAction::ReportEmpty;
        }
        let b = classify(seg.command.as_str());
        match b {
            Builtin::Exit => StageAction::Exit,
            Builtin::External => StageAction::Spawn {
                stdin: match self.held {
                    Held::Running { piped: true } => StdinSource::Previous,
                    _ => StdinSource::Inherit,
                },
                stdout: if has_next {
                    StdoutSink::Pipe
                } else {
                    StdoutSink::Inherit
                },
            },
            _ => StageAction::RunBuiltin(b),
        }
    }

    /// Records that `action` was performed; `spawned` is whether a spawn
    /// succeeded (ignored for other actions).
    pub fn advance(&mut self, action: StageAction, spawned: bool)
        ensures
            final(self).held == held_after(old(self).held, action, spawned),
    {
        self.held = match action {
            StageAction::ReportEmpty => self.held,
            StageAction::Exit => self.held,
            StageAction::RunBuiltin(_) => Held::Nothing,
            StageAction::Spawn { stdout, .. } => if spawned {
                Held::Running { piped: stdout == StdoutSink::Pipe }
            } else {
                Held::Nothing
            },
        };
    }

    /// Whether, after the last segment, the caller waits for the held process.
    pub fn awaits_final(&self) -> (r: bool)
        ensures
            r == (self.held is Running),
    {
        match self.held {
            Held::Running { .. } => true,
            Held::Nothing => false,
        }
    }
}

/// Stages are independent: whatever the earlier stages were and however they
/// ended, an external command in the next segment is spawned; a stage that
/// could not start leaves the next one reading the shell's own input.
pub proof fn lemma_stage_outcome_does_not_block(
    held: Held,
    done: StageAction,
    spawned: bool,
    command: Seq<char>,
    has_next: bool,
)
    requires
        command.len() > 0,
        builtin_of(command) == Builtin::External,
    ensures
        action_for(held_after(held, done, spawned), command, has_next) is Spawn,
        (done is Spawn && !spawned) ==> action_for(held_after(held, done, spawned), command, has_next)
            == (StageAction::Spawn {
            stdin: StdinSource::Inherit,
            stdout: if has_next {
                StdoutSink::Pipe
            } else {
                StdoutSink::Inherit
            },
        }),
{
}

/// An empty segment is reported and skipped: it changes nothing held, so the
/// segments after it are decided as if it were absent.
pub proof fn lemma_empty_segment_skipped(held: Held, spawned: bool, has_next: bool)
    ensures
        action_for(held, Seq::empty(), has_next) == StageAction::ReportEmpty,
        held_after(held, StageAction::ReportEmpty, spawned) == held,
{
}

} // verus!
