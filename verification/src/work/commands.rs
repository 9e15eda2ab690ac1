//! Command construction and dispatch for the `Work` engine: materializing
//! a task's renderer command once its scene is on disk, splitting the
//! command line for the spawn, and folding the renderer's exit back into
//! the task lifecycle.

use vstd::prelude::*;
use crate::ratelimit::MAX_TIME_MS;
use crate::shell::{shell_split_of, shlex_split};
use crate::task::{Task, TaskStatus, TaskCommand};
use crate::work::{Work, lemma_monotone_from_pointwise};

verus! {

/// The exit state of a spawned renderer, as the caller's poll reports it.
#[derive(Debug, Clone)]
pub enum ExitStatus {
    /// The child exited successfully.
    Finished,
    /// The child exited with a failure, or could not be awaited.
    Errored(String),
    /// The child is still running.
    Running,
    /// There is nothing to wait for.
    Idle,
}

/// What the dispatch phase asks the caller to do.
#[derive(Debug)]
pub enum DispatchPlan {
    /// Spawn the renderer with these arguments and report back through
    /// `apply_spawn`.
    Spawn(Vec<String>),
    /// The command line could not be split; the task in flight was marked
    /// `Errored` and the caller publishes the error event.
    SplitFailed,
    /// Nothing to dispatch this tick.
    Hold,
}

/// Whether `t1` is `t0` with its command constructed against `scene` and
/// `outdir`: everything else is kept, the command string is materialized,
/// and every expected output starts without size, hash or upload mark.
pub open spec fn spec_constructed_from(t1: Task, t0: Task, scene: Seq<char>, outdir: Seq<char>) -> bool {
    &&& t1.id == t0.id
    &&& t1.parent_id == t0.parent_id
    &&& t1.status == t0.status
    &&& t1.delivery_tag == t0.delivery_tag
    &&& t1.scene_path == t0.scene_path
    &&& t1.wf()
    &&& t1.command.spec_is_constructed()
    &&& (t1.command is Renderer <==> t0.command is Renderer)
    &&& (t1.command matches TaskCommand::Renderer(rc) ==> {
        &&& rc.frames == t0.command->Renderer_0.frames
        &&& (rc.scene matches Option::Some(sc) && sc@ == scene)
        &&& (rc.outdir matches Option::Some(od) && od@ == outdir)
        &&& forall|i: int|
            0 <= i < rc.outputs@.len() ==> (#[trigger] rc.outputs@[i]).filesize is None
                && rc.outputs@[i].hash is None && !rc.outputs@[i].uploaded
    })
}

/// Whether `t` is waiting for its command: queued, not yet constructed,
/// and tied to a scene file on disk.
pub open spec fn spec_needs_command(t: Task) -> bool {
    &&& t.status == TaskStatus::Queued
    &&& !t.command.spec_is_constructed()
    &&& t.scene_path is Some
}

/// The output directories of the tasks of `s` that wait for their command,
/// in task order.
pub open spec fn spec_dirs_needed(outpath: Seq<char>, s: Seq<Task>) -> Seq<Seq<char>>
    decreases s.len(),
{
    if s.len() == 0 {
        Seq::<Seq<char>>::empty()
    } else {
        let p = spec_dirs_needed(outpath, s.drop_last());
        if spec_needs_command(s.last()) {
            p.push(outpath + "/"@ + s.last().parent_id@)
        } else {
            p
        }
    }
}

/// Whether some entry of `v` reads `x`.
pub(crate) fn vec_contains_string(v: &Vec<String>, x: &String) -> (r: bool)
    ensures
        r == v.deep_view().contains(x@),
{
    let mut i: usize = 0;
    while i < v.len()
        invariant
            0 <= i <= v@.len(),
            forall|j: int| 0 <= j < i ==> v.deep_view()[j] != x@,
        decreases v@.len() - i,
    {
        if v[i].eq(x) {
            proof {
                assert(v.deep_view()[i as int] == x@);
            }
            return true;
        }
        i = i + 1;
    }
    proof {
        assert forall|j: int| 0 <= j < v.deep_view().len() implies v.deep_view()[j] != x@ by {}
    }
    false
}

impl Work {
    /// The per-job output directory: the configured output path, a
    /// separator, and the job identity.
    pub open spec fn spec_output_dir(&self, pid: Seq<char>) -> Seq<char> {
        self.config.outpath@ + "/"@ + pid
    }

    /// Build the per-job output directory path for job `pid`.
    pub fn output_dir_for(&self, pid: &String) -> (r: String)
        ensures
            r@ == self.spec_output_dir(pid@),
    {
        proof {
            reveal_strlit("/");
        }
        let mut r = self.config.outpath.clone();
        r.append("/");
        r.append(pid.as_str());
        proof {
            assert(r@ =~= self.spec_output_dir(pid@));
        }
        r
    }

    /// The output directories that must exist before commands can be
    /// constructed: one per task that waits for its command.  The caller
    /// creates them and hands the ones that exist to
    /// `construct_commands`.
    pub fn output_dirs_needed(&self) -> (r: Vec<String>)
        ensures
            r.deep_view() == spec_dirs_needed(self.config.outpath@, self.tasks@),
    {
        let mut r: Vec<String> = Vec::new();
        let mut i: usize = 0;
        while i < self.tasks.len()
            invariant
                0 <= i <= self.tasks@.len(),
                r.deep_view() == spec_dirs_needed(
                    self.config.outpath@,
                    self.tasks@.subrange(0, i as int),
                ),
            decreases self.tasks@.len() - i,
        {
            let ghost pre_sub = self.tasks@.subrange(0, i as int);
            let t = &self.tasks[i];
            if t.is_queued() && !t.command.is_constructed() && t.scene_path.is_some() {
                let dir = self.output_dir_for(&self.tasks[i].parent_id);
                r.push(dir);
            }
            proof {
                assert(self.tasks@.subrange(0, i + 1).drop_last() =~= pre_sub);
                assert(self.tasks@.subrange(0, i + 1).last() == self.tasks@[i as int]);
                assert(r.deep_view() =~= spec_dirs_needed(
                    self.config.outpath@,
                    self.tasks@.subrange(0, i + 1),
                ));
            }
            i = i + 1;
        }
        proof {
            assert(self.tasks@.subrange(0, self.tasks@.len() as int) =~= self.tasks@);
        }
        r
    }

    /// Construct the command of every task that waits for one and whose
    /// output directory the caller reports ready: the command string is
    /// materialized from the task's scene path and that directory.
    pub fn construct_commands(&mut self, ready_dirs: &Vec<String>)
        requires
            old(self).wf(),
        ensures
            final(self).wf(),
            final(self).current == old(self).current,
            final(self).subprocess == old(self).subprocess,
            final(self).blendfiles == old(self).blendfiles,
            final(self).parent_jobs == old(self).parent_jobs,
            final(self).acked == old(self).acked,
            final(self).config == old(self).config,
            final(self).last_heartbeat == old(self).last_heartbeat,
            final(self).last_status == old(self).last_status,
            final(self).last_download == old(self).last_download,
            final(self).last_upload == old(self).last_upload,
            Work::tasks_monotone(*old(self), *final(self)),
            Work::scenes_monotone(*old(self), *final(self)),
            Work::acks_monotone(*old(self), *final(self)),
            ({
                &&& final(self).tasks@.len() == old(self).tasks@.len()
                &&& forall|i: int|
                    0 <= i < old(self).tasks@.len() ==> {
                        let t0 = #[trigger] old(self).tasks@[i];
                        if spec_needs_command(t0) && ready_dirs.deep_view().contains(
                            old(self).spec_output_dir(t0.parent_id@),
                        ) {
                            spec_constructed_from(
                                final(self).tasks@[i],
                                t0,
                                t0.scene_path->0@,
                                old(self).spec_output_dir(t0.parent_id@),
                            )
                        } else {
                            final(self).tasks@[i] == t0
                        }
                    }
            }),
    {
        let ghost pre = *old(self);
        let mut i: usize = 0;
        while i < self.tasks.len()
            invariant
                self.wf(),
                pre.wf(),
                0 <= i <= self.tasks@.len(),
                self.tasks@.len() == pre.tasks@.len(),
                self.current == pre.current,
                self.subprocess == pre.subprocess,
                self.blendfiles == pre.blendfiles,
                self.parent_jobs == pre.parent_jobs,
                self.acked == pre.acked,
                self.config == pre.config,
                self.last_heartbeat == pre.last_heartbeat,
                self.last_status == pre.last_status,
                self.last_download == pre.last_download,
                self.last_upload == pre.last_upload,
                forall|j: int| i <= j < pre.tasks@.len() ==> self.tasks@[j] == pre.tasks@[j],
                forall|j: int|
                    0 <= j < i ==> {
                        let t0 = #[trigger] pre.tasks@[j];
                        if spec_needs_command(t0) && ready_dirs.deep_view().contains(
                            pre.spec_output_dir(t0.parent_id@),
                        ) {
                            spec_constructed_from(
                                self.tasks@[j],
                                t0,
                                t0.scene_path->0@,
                                pre.spec_output_dir(t0.parent_id@),
                            )
                        } else {
                            self.tasks@[j] == t0
                        }
                    },
            decreases self.tasks@.len() - i,
        {
            let t = &self.tasks[i];
            let candidate = t.is_queued() && !t.command.is_constructed() && t.scene_path.is_some();
            if candidate {
                let scene = match &self.tasks[i].scene_path {
                    Option::Some(s) => s.clone(),
                    Option::None => unreached(),
                };
                let outdir = self.output_dir_for(&self.tasks[i].parent_id);
                if vec_contains_string(ready_dirs, &outdir) {
                    let ghost tasks0 = self.tasks@;
                    let mut t = self.tasks.remove(i);
                    t.construct(&scene, &outdir);
                    self.tasks.insert(i, t);
                    proof {
                        assert(self.tasks@ =~= tasks0.update(i as int, self.tasks@[i as int]));
                    }
                }
            }
            i = i + 1;
        }
        proof {
            let post = *self;
            lemma_monotone_from_pointwise(pre, post);
        }
    }

    /// Plan the dispatch of the task in flight.  When a constructed
    /// renderer command is in flight with no subprocess yet, its command
    /// line (without the leading renderer word) is split POSIX-style: the
    /// caller spawns the returned arguments.  A command line the splitter
    /// refuses marks the task `Errored`.  Anything else waits.
    pub fn prepare_command(&mut self) -> (plan: DispatchPlan)
        requires
            old(self).wf(),
        ensures
            final(self).wf(),
            final(self).config == old(self).config,
            final(self).blendfiles == old(self).blendfiles,
            final(self).parent_jobs == old(self).parent_jobs,
            final(self).acked == old(self).acked,
            final(self).last_heartbeat == old(self).last_heartbeat,
            final(self).last_status == old(self).last_status,
            final(self).last_download == old(self).last_download,
            final(self).last_upload == old(self).last_upload,
            Work::tasks_monotone(*old(self), *final(self)),
            Work::scenes_monotone(*old(self), *final(self)),
            Work::acks_monotone(*old(self), *final(self)),
            ({
                let dispatchable = (old(self).current matches Option::Some(c) && !old(
                    self,
                ).subprocess && (c.command matches TaskCommand::Renderer(rc)
                    && rc.command_string is Some));
                if dispatchable {
                    let c = old(self).current->0;
                    let cmd = c.command->Renderer_0.command_string->0@;
                    match shell_split_of(cmd.skip(8)) {
                        Option::Some(words) => {
                            &&& plan matches DispatchPlan::Spawn(args) && args.deep_view() == words
                            &&& *final(self) == *old(self)
                        },
                        Option::None => {
                            &&& plan is SplitFailed
                            &&& final(self).tasks@ == old(self).tasks@.push(
                                (Task { status: TaskStatus::Errored, ..c }),
                            )
                            &&& final(self).current is None
                            &&& !final(self).subprocess
                        },
                    }
                } else {
                    plan is Hold && *final(self) == *old(self)
                }
            }),
    {
        let cmd_opt: Option<String> = match &self.current {
            Option::Some(c) => {
                if self.subprocess {
                    Option::None
                } else {
                    match &c.command {
                        TaskCommand::Renderer(rc) => match &rc.command_string {
                            Option::Some(cmd) => Option::Some(cmd.clone()),
                            Option::None => Option::None,
                        },
                        _ => Option::None,
                    }
                }
            },
            Option::None => Option::None,
        };
        match cmd_opt {
            Option::None => DispatchPlan::Hold,
            Option::Some(cmd) => {
                proof {
                    reveal_strlit("blender -b \"");
                    let c = self.current->0;
                    assert(cmd@ == c.command->Renderer_0.command_string->0@);
                    assert(cmd@.len() >= 12);
                }
                let n = cmd.as_str().unicode_len();
                let stripped = cmd.as_str().substring_char(8, n);
                proof {
                    assert(stripped@ =~= cmd@.skip(8));
                }
                match shlex_split(stripped) {
                    Option::Some(args) => DispatchPlan::Spawn(args),
                    Option::None => {
                        self.error_current();
                        DispatchPlan::SplitFailed
                    },
                }
            },
        }
    }

    /// Fold the spawn result back in: on success the subprocess slot
    /// fills; on failure the task in flight is marked `Errored` and the
    /// caller publishes the error event.  Without a task in flight or
    /// with a subprocess already running, nothing changes.
    pub fn apply_spawn(&mut self, ok: bool)
        requires
            old(self).wf(),
        ensures
            final(self).wf(),
            final(self).config == old(self).config,
            final(self).blendfiles == old(self).blendfiles,
            final(self).parent_jobs == old(self).parent_jobs,
            final(self).acked == old(self).acked,
            final(self).last_heartbeat == old(self).last_heartbeat,
            final(self).last_status == old(self).last_status,
            final(self).last_download == old(self).last_download,
            final(self).last_upload == old(self).last_upload,
            Work::tasks_monotone(*old(self), *final(self)),
            Work::scenes_monotone(*old(self), *final(self)),
            Work::acks_monotone(*old(self), *final(self)),
            match old(self).current {
                Option::None => *final(self) == *old(self),
                Option::Some(c) => {
                    if old(self).subprocess {
                        *final(self) == *old(self)
                    } else if ok {
                        *final(self) == (Work { subprocess: true, ..*old(self) })
                    } else {
                        &&& final(self).tasks@ == old(self).tasks@.push(
                            (Task { status: TaskStatus::Errored, ..c }),
                        )
                        &&& final(self).current is None
                        &&& !final(self).subprocess
                    }
                },
            },
    {
        if self.current.is_some() && !self.subprocess {
            if ok {
                self.subprocess = true;
            } else {
                self.error_current();
            }
        }
    }

    /// Fold the polled exit state of the renderer back in: a successful
    /// exit finishes the task in flight (returning the delivery tag for
    /// the caller to acknowledge), a failed exit marks it `Errored`, and a
    /// child still running changes nothing.
    pub fn apply_exit_status(&mut self, status: &ExitStatus, now: u64) -> (r: Option<u64>)
        requires
            old(self).wf(),
            now <= MAX_TIME_MS,
        ensures
            final(self).wf(),
            final(self).config == old(self).config,
            final(self).parent_jobs == old(self).parent_jobs,
            final(self).last_heartbeat == old(self).last_heartbeat,
            final(self).last_status == old(self).last_status,
            final(self).last_download == old(self).last_download,
            final(self).last_upload == old(self).last_upload,
            Work::tasks_monotone(*old(self), *final(self)),
            Work::scenes_monotone(*old(self), *final(self)),
            Work::acks_monotone(*old(self), *final(self)),
            match status {
                ExitStatus::Finished => match old(self).current {
                    Option::None => r is None && *final(self) == *old(self),
                    Option::Some(c) => {
                        &&& r == Option::Some(c.delivery_tag->0)
                        &&& !old(self).acked@.contains(c.delivery_tag->0)
                        &&& final(self).acked@ == old(self).acked@.push(c.delivery_tag->0)
                        &&& final(self).tasks@ == old(self).tasks@.push(
                            (Task { status: TaskStatus::Finished, ..c }),
                        )
                        &&& final(self).current is None
                        &&& !final(self).subprocess
                    },
                },
                ExitStatus::Errored(_) => {
                    &&& r is None
                    &&& final(self).blendfiles == old(self).blendfiles
                    &&& final(self).acked == old(self).acked
                    &&& match old(self).current {
                        Option::None => *final(self) == *old(self),
                        Option::Some(c) => {
                            &&& final(self).tasks@ == old(self).tasks@.push(
                                (Task { status: TaskStatus::Errored, ..c }),
                            )
                            &&& final(self).current is None
                            &&& !final(self).subprocess
                        },
                    }
                },
                _ => r is None && *final(self) == *old(self),
            },
    {
        match status {
            ExitStatus::Finished => self.finish_current(now),
            ExitStatus::Errored(_) => {
                self.error_current();
                Option::None
            },
            ExitStatus::Running => Option::None,
            ExitStatus::Idle => Option::None,
        }
    }
}

} // verus!
