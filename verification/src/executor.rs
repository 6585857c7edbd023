//! The pipeline execution planner.
//!
//! Spawning OS processes is outside work, done by the surrounding program;
//! everything the executor decides is stated and proved here: which streams
//! each stage's standard input and output are wired to, how the spawn
//! sequence advances on success and on failure, and that once the sequence
//! ends the parent holds no intermediate pipe end it created.

use vstd::prelude::*;

use crate::ast::Command;

verus! {

/// Why a pipeline could not be executed.
#[derive(Debug, Clone, Copy, PartialEq, Eq, Structural)]
pub enum ExecError {
    /// A command with no arguments: there is no executable to spawn. Not
    /// reachable from a successfully parsed pipeline, but checked before any
    /// spawn attempt.
    EmptyCommand,
}

/// Where a stage's standard input comes from.
#[derive(Debug, Clone, Copy, PartialEq, Eq, Structural)]
pub enum StdinWiring {
    /// The caller-supplied input stream: only the first stage reads it.
    Outer,
    /// The read end of the pipe that the previous stage writes.
    FromPreviousStage,
}

/// Where a stage's standard output goes.
#[derive(Debug, Clone, Copy, PartialEq, Eq, Structural)]
pub enum StdoutWiring {
    /// The caller-supplied output stream: only the last stage writes it.
    Outer,
    /// The write end of a fresh pipe whose read end feeds the next stage.
    NewPipe,
}

impl Command {
    /// The decision inside executing one command: the executable name (the
    /// first argument) and the arguments handed to it (the rest), or the
    /// error for a command with no arguments — checked before any spawn
    /// attempt is made.
    pub fn split_program(&self) -> (r: Result<(String, Vec<String>), ExecError>)
        ensures
            match r {
                Ok((prog, rest)) => {
                    &&& self@.len() >= 1
                    &&& prog@ == self@[0]
                    &&& rest.deep_view() == self@.skip(1)
                },
                Err(e) => {
                    &&& e == ExecError::EmptyCommand
                    &&& self@.len() == 0
                },
            },
    {
        if self.args.len() == 0 {
            Err(ExecError::EmptyCommand)
        } else {
            let prog = self.args[0].clone();
            let mut rest: Vec<String> = Vec::new();
            let mut idx: usize = 1;
            while idx < self.args.len()
                invariant
                    1 <= idx <= self.args.len(),
                    rest.deep_view() == self@.subrange(1, idx as int),
                decreases self.args.len() - idx,
            {
                let ghost prev = rest.deep_view();
                rest.push(self.args[idx].clone());
                proof {
                    assert(rest.deep_view() =~~= prev.push(self.args@[idx as int]@));
                    assert(prev.push(self.args@[idx as int]@) =~~= self@.subrange(1, idx + 1));
                }
                idx = idx + 1;
            }
            proof {
                assert(self@.subrange(1, self.args.len() as int) =~~= self@.skip(1));
            }
            Ok((prog, rest))
        }
    }
}

/// How stage `i` of an `n`-stage pipeline is wired: the first stage reads
/// the caller's input, every later stage reads the pipe of the stage before
/// it; the last stage writes the caller's output, every earlier stage
/// writes a fresh pipe.
pub fn stage_wiring(i: usize, n: usize) -> (w: (StdinWiring, StdoutWiring))
    requires
        i < n,
    ensures
        w.0 == (if i == 0 {
            StdinWiring::Outer
        } else {
            StdinWiring::FromPreviousStage
        }),
        w.1 == (if i + 1 == n {
            StdoutWiring::Outer
        } else {
            StdoutWiring::NewPipe
        }),
{
    (
        if i == 0 {
            StdinWiring::Outer
        } else {
            StdinWiring::FromPreviousStage
        },
        if i + 1 == n {
            StdoutWiring::Outer
        } else {
            StdoutWiring::NewPipe
        },
    )
}

/// The state of one pipeline execution's spawn sequence, together with an
/// account of the intermediate pipes the executor created and which of
/// their ends the parent still holds.
///
/// Spawning a non-last stage creates one fresh pipe: its write end goes to
/// that stage as standard output, and the parent carries its read end only
/// until the next spawn attempt, which consumes it — as the next stage's
/// standard input on success, or with the dropped spawn request on failure.
/// A failed spawn ends the sequence; stages already spawned are left
/// running.
#[derive(Debug, Clone, Copy, PartialEq, Eq, Structural)]
pub struct ExecState {
    /// The number of stages in the pipeline.
    pub n: usize,
    /// The next stage to spawn; every earlier stage has been spawned.
    pub next: usize,
    /// Whether a spawn attempt failed.
    pub failed: bool,
    /// How many intermediate pipes have been created.
    pub pipes_created: usize,
    /// How many ends of those pipes the parent still holds.
    pub pipe_ends_held: usize,
}

impl ExecState {
    /// The account the executor keeps of itself, preserved by every step:
    /// in particular, the parent holds exactly one pipe end — the read end
    /// carried to the coming stage — between two spawns, and none before
    /// the first spawn, after the last, or after a failure.
    pub open spec fn wf(self) -> bool {
        &&& 1 <= self.n
        &&& self.next <= self.n
        &&& self.failed ==> self.next < self.n
        &&& self.pipes_created == (if self.next == self.n {
            (self.n - 1) as int
        } else {
            self.next as int
        })
        &&& self.pipe_ends_held == (if !self.failed && 0 < self.next < self.n {
            1int
        } else {
            0int
        })
    }

    /// Whether the spawn sequence has ended: every stage was spawned, or a
    /// spawn attempt failed.
    pub open spec fn spec_done(self) -> bool {
        self.failed || self.next == self.n
    }

    /// Begin executing an `n`-stage pipeline: nothing spawned, nothing
    /// created, nothing held.
    pub fn begin(n: usize) -> (st: ExecState)
        requires
            1 <= n,
        ensures
            st.wf(),
            st == (ExecState { n, next: 0, failed: false, pipes_created: 0, pipe_ends_held: 0 }),
    {
        ExecState { n, next: 0, failed: false, pipes_created: 0, pipe_ends_held: 0 }
    }

    pub fn done(&self) -> (r: bool)
        ensures
            r == self.spec_done(),
    {
        self.failed || self.next == self.n
    }

    /// The wiring for the stage to spawn next.
    pub fn next_wiring(&self) -> (w: (StdinWiring, StdoutWiring))
        requires
            self.wf(),
            !self.spec_done(),
        ensures
            w.0 == (if self.next == 0 {
                StdinWiring::Outer
            } else {
                StdinWiring::FromPreviousStage
            }),
            w.1 == (if self.next + 1 == self.n {
                StdoutWiring::Outer
            } else {
                StdoutWiring::NewPipe
            }),
    {
        stage_wiring(self.next, self.n)
    }

    /// Record the outcome of spawning the coming stage. On success the
    /// carried read end (if any) went to the child as standard input, and a
    /// non-last stage created one fresh pipe whose read end the parent now
    /// carries. On failure the carried end was consumed with the dropped
    /// spawn request, and the sequence ends.
    pub fn record_spawn(&mut self, ok: bool)
        requires
            old(self).wf(),
            !old(self).spec_done(),
        ensures
            final(self).wf(),
            final(self).n == old(self).n,
            ok ==> {
                &&& final(self).next == old(self).next + 1
                &&& !final(self).failed
                &&& final(self).pipes_created == old(self).pipes_created + (
                if old(self).next + 1 < old(self).n {
                    1int
                } else {
                    0int
                })
            },
            !ok ==> {
                &&& final(self).next == old(self).next
                &&& final(self).failed
                &&& final(self).pipes_created == old(self).pipes_created
            },
            final(self).pipe_ends_held == (if ok && old(self).next + 1 < old(self).n {
                1int
            } else {
                0int
            }),
    {
        if ok {
            if self.next + 1 < self.n {
                self.pipes_created = self.pipes_created + 1;
                self.pipe_ends_held = 1;
            } else {
                self.pipe_ends_held = 0;
            }
            self.next = self.next + 1;
        } else {
            self.failed = true;
            self.pipe_ends_held = 0;
        }
    }
}

/// Resource safety: when the spawn sequence has ended — all stages spawned,
/// or a spawn attempt failed — the parent holds no end of any pipe the
/// executor created; every intermediate pipe end has passed to a child or
/// been dropped.
pub proof fn lemma_no_pipe_end_held_at_end(st: ExecState)
    requires
        st.wf(),
        st.spec_done(),
    ensures
        st.pipe_ends_held == 0,
{
}

} // verus!
