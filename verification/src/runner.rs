//! The execution engine's decision core.
//!
//! Running a resolved script is a dialogue: this crate decides which shell
//! command comes next and what the outcome means, and the surrounding
//! binary performs the actual process launches and reports each exit back.
//! The state machine enforces fail-fast sequencing: commands run strictly
//! in order, and the first non-zero exit ends the run — later commands are
//! never handed out.

use vstd::prelude::*;

verus! {

use crate::errors::RobinError;
use crate::errors::RobinErrorV;
use crate::manifest::ScriptBody;
use crate::manifest::BodyV;
use crate::manifest::RobinConfig;
use crate::manifest::EntryV;
use crate::manifest::spec_lookup;
use crate::invocation::split_command_and_args;
use crate::invocation::spec_script_name;
use crate::invocation::spec_var_args;
use crate::substitute::replace_variables;
use crate::substitute::spec_replace_body;

/// Where a run stands: still working, finished cleanly, or stopped at the
/// step whose index and exit code are recorded.
#[derive(Debug, PartialEq, Eq, Clone, Copy)]
pub enum RunStatus {
    InProgress,
    Succeeded,
    Failed(usize, Option<i32>),
}

/// The commands a resolved script wants run, in order, plus the progress
/// of running them.
#[derive(Debug)]
pub struct SequenceRun {
    pub commands: Vec<String>,
    pub single: bool,
    pub next: usize,
    pub status: RunStatus,
}

/// The commands a script body resolves to, in order.
pub open spec fn body_commands(b: BodyV) -> Seq<Seq<char>> {
    match b {
        BodyV::Single(s) => seq![s],
        BodyV::Sequence(cmds) => cmds,
    }
}

impl SequenceRun {
    /// The machine's invariant: progress never passes the end, a finished
    /// run stands exactly at the end, and a failed run stopped right after
    /// the step it records.
    pub open spec fn wf(&self) -> bool {
        &&& self.next <= self.commands@.len()
        &&& match self.status {
            RunStatus::InProgress => self.next < self.commands@.len(),
            RunStatus::Succeeded => self.next == self.commands@.len(),
            RunStatus::Failed(index, _) => index < self.commands@.len() && self.next == index + 1,
        }
        &&& (self.single ==> self.commands@.len() == 1)
    }

    /// A run that has not started any step yet.
    pub open spec fn initial(&self) -> bool {
        &&& self.next == 0
        &&& if self.commands@.len() == 0 {
            self.status is Succeeded
        } else {
            self.status is InProgress
        }
    }

    /// The command the surrounding binary should run next, if the run is
    /// still in progress.
    pub open spec fn spec_current(&self) -> Option<Seq<char>> {
        match self.status {
            RunStatus::InProgress => Some(self.commands@[self.next as int]@),
            RunStatus::Succeeded => None,
            RunStatus::Failed(_, _) => None,
        }
    }

    /// Start a run of the given resolved script body.
    pub fn new(body: ScriptBody) -> (r: SequenceRun)
        ensures
            r.wf(),
            r.initial(),
            r.commands.deep_view() == body_commands(body@),
            r.single == (body@ is Single),
    {
        match body {
            ScriptBody::Single(cmd) => {
                let commands = vec![cmd];
                proof {
                    assert(commands.deep_view() =~= body_commands(body@));
                }
                SequenceRun { commands, single: true, next: 0, status: RunStatus::InProgress }
            },
            ScriptBody::Sequence(cmds) => {
                let status = if cmds.len() == 0 {
                    RunStatus::Succeeded
                } else {
                    RunStatus::InProgress
                };
                SequenceRun { commands: cmds, single: false, next: 0, status }
            },
        }
    }

    /// The command to run next: `Some` exactly while the run is in
    /// progress; a finished or failed run hands out nothing more.
    pub fn current(&self) -> (r: Option<&String>)
        requires
            self.wf(),
        ensures
            match r {
                Some(c) => self.spec_current() == Some(c@),
                None => self.spec_current() is None,
            },
    {
        match self.status {
            RunStatus::InProgress => Some(&self.commands[self.next]),
            RunStatus::Succeeded => None,
            RunStatus::Failed(_, _) => None,
        }
    }

    /// Record the exit of the current command. On success the run moves to
    /// the next command, or finishes after the last; on failure it stops
    /// at once, remembering the failing index and exit code.
    pub fn record_exit(&mut self, success: bool, code: Option<i32>)
        requires
            old(self).wf(),
            old(self).status is InProgress,
        ensures
            final(self).wf(),
            final(self).commands == old(self).commands,
            final(self).single == old(self).single,
            final(self).next == old(self).next + 1,
            success ==> final(self).status == if old(self).next + 1 == old(
                self,
            ).commands@.len() {
                RunStatus::Succeeded
            } else {
                RunStatus::InProgress
            },
            !success ==> final(self).status == RunStatus::Failed(old(self).next, code),
            !success ==> final(self).spec_current() is None,
    {
        let n = self.commands.len();
        if success {
            self.next = self.next + 1;
            if self.next == n {
                self.status = RunStatus::Succeeded;
            }
        } else {
            self.status = RunStatus::Failed(self.next, code);
            self.next = self.next + 1;
        }
    }

    /// The result of a finished run: success, or the error naming the
    /// failed command — a plain failure for a single command, a step
    /// failure with its index for a sequence.
    pub fn outcome(&self) -> (r: Result<(), RobinError>)
        requires
            self.wf(),
            !(self.status is InProgress),
        ensures
            match self.status {
                RunStatus::Succeeded => r is Ok,
                RunStatus::Failed(index, code) => r is Err && r->Err_0@ == (if self.single {
                    RobinErrorV::ScriptFailed {
                        command: self.commands@[index as int]@,
                        code: match code {
                            Some(c) => Some(c as int),
                            None => None,
                        },
                    }
                } else {
                    RobinErrorV::SequenceStepFailed {
                        index: index as int,
                        command: self.commands@[index as int]@,
                        code: match code {
                            Some(c) => Some(c as int),
                            None => None,
                        },
                    }
                }),
                RunStatus::InProgress => false,
            },
    {
        match self.status {
            RunStatus::Succeeded => Ok(()),
            RunStatus::Failed(index, code) => {
                let command = self.commands[index].clone();
                if self.single {
                    Err(RobinError::ScriptFailed { command, code })
                } else {
                    Err(RobinError::SequenceStepFailed { index, command, code })
                }
            },
            RunStatus::InProgress => {
                proof {
                    assert(false);  // ruled out by the precondition
                }
                Ok(())
            },
        }
    }
}

/// Fail-fast, as a law: a failed run hands out no further command, and it
/// stopped immediately — no command past the failed one was ever current.
pub proof fn lemma_fail_fast(r: SequenceRun, index: usize, code: Option<i32>)
    requires
        r.wf(),
        r.status == RunStatus::Failed(index, code),
    ensures
        r.spec_current() is None,
        r.next == index + 1,
        index < r.commands@.len(),
{
}

/// What a raw invocation resolves to before anything runs: the tokens are
/// split into a name and variable arguments, the name is looked up in the
/// merged manifest, and the body's placeholders are substituted.
pub open spec fn spec_plan(entries: Seq<EntryV>, tokens: Seq<Seq<char>>) -> Result<
    BodyV,
    RobinErrorV,
> {
    let name = spec_script_name(tokens);
    match spec_lookup(entries, name) {
        None => Err(RobinErrorV::UnknownScript { name }),
        Some(body) => spec_replace_body(body, spec_var_args(tokens)),
    }
}

/// Resolve a raw invocation against a manifest into a ready-to-run
/// sequence. An unknown script name or a substitution failure aborts
/// before any command is handed out, so nothing runs.
pub fn plan_run(config: &RobinConfig, tokens: &[String]) -> (r: Result<SequenceRun, RobinError>)
    ensures
        match r {
            Ok(run) => {
                &&& spec_plan(config.entries(), tokens.deep_view()) is Ok
                &&& run.commands.deep_view() == body_commands(
                    spec_plan(config.entries(), tokens.deep_view())->Ok_0,
                )
                &&& run.single == (spec_plan(config.entries(), tokens.deep_view())->Ok_0 is Single)
                &&& run.wf()
                &&& run.initial()
            },
            Err(e) => spec_plan(config.entries(), tokens.deep_view()) == Err::<
                BodyV,
                RobinErrorV,
            >(e@),
        },
{
    let (name, var_args) = split_command_and_args(tokens);
    match config.lookup(name.as_str()) {
        None => Err(RobinError::UnknownScript { name }),
        Some(body) => {
            match replace_variables(body, var_args.as_slice()) {
                Ok(resolved) => Ok(SequenceRun::new(resolved)),
                Err(e) => Err(e),
            }
        },
    }
}

} // verus!
