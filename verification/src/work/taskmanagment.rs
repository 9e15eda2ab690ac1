//! Task management: intake from the broker, queries over the task set,
//! selection of the next task, and the finish and error transitions of the
//! task in flight.

use vstd::prelude::*;
use crate::blend::Blend;
use crate::ratelimit::MAX_TIME_MS;
use crate::task::{Task, TaskStatus, TaskCommand};
use crate::work::{Work, task_find, assoc_find, lemma_task_find_absent, lemma_task_find_first,
    lemma_task_find_present, lemma_task_find_remove, lemma_assoc_find_update,
    lemma_monotone_from_pointwise};

verus! {

/// How many tasks of `s` are not terminal.
pub open spec fn count_nonterminal(s: Seq<Task>) -> int
    decreases s.len(),
{
    if s.len() == 0 {
        0
    } else {
        count_nonterminal(s.drop_last()) + if s.last().spec_is_ended() {
            0int
        } else {
            1int
        }
    }
}


/// The distinct parent identities of `s` in order of first occurrence.
pub open spec fn unique_parents(s: Seq<Task>) -> Seq<Seq<char>>
    decreases s.len(),
{
    if s.len() == 0 {
        Seq::<Seq<char>>::empty()
    } else {
        let p = unique_parents(s.drop_last());
        if p.contains(s.last().parent_id@) {
            p
        } else {
            p.push(s.last().parent_id@)
        }
    }
}

impl Work {
    /// How many held tasks, parked or in flight, are not terminal.
    pub open spec fn spec_active_count(&self) -> int {
        count_nonterminal(self.tasks@) + if self.current is Some {
            1int
        } else {
            0int
        }
    }

    /// Whether a new task should be pulled from the broker: only when the
    /// free bytes at the output directory are above the configured limit
    /// and the non-terminal tasks are below the configured workload.
    pub fn should_add(&self, free_bytes: u64) -> (r: bool)
        requires
            self.wf(),
        ensures
            r == (free_bytes > self.config.disklimit && self.spec_active_count()
                < self.config.workload),
    {
        if free_bytes <= self.config.disklimit {
            return false;
        }
        let mut count: u64 = 0;
        let mut i: usize = 0;
        while i < self.tasks.len()
            invariant
                0 <= i <= self.tasks@.len(),
                count == count_nonterminal(self.tasks@.subrange(0, i as int)),
                count <= i,
            decreases self.tasks@.len() - i,
        {
            let ghost pre = self.tasks@.subrange(0, i as int);
            if !self.tasks[i].is_ended() {
                count = count + 1;
            }
            proof {
                assert(self.tasks@.subrange(0, i + 1).drop_last() =~= pre);
            }
            i = i + 1;
        }
        proof {
            assert(self.tasks@.subrange(0, self.tasks@.len() as int) =~= self.tasks@);
        }
        if self.current.is_some() {
            count < self.config.workload - 1
        } else {
            count < self.config.workload
        }
    }

    /// Take in a task the broker delivered under `tag`: the tag is stamped
    /// into the task, the task moves to `Queued` and is appended to the
    /// parked tasks.  The caller must hand a fresh task under a tag the
    /// engine does not know (`knows_tag`, `has_task_with_id`).
    pub fn receive_task(&mut self, t: Task, tag: u64)
        requires
            old(self).wf(),
            t.wf(),
            t.status == TaskStatus::Waiting,
            t.delivery_tag is None,
            t.scene_path is None,
            !t.command.spec_is_constructed(),
            task_find(old(self).tasks@, t.id@) is None,
            (old(self).current matches Option::Some(c) ==> c.id@ != t.id@),
            forall|i: int|
                0 <= i < old(self).tasks@.len() ==> (#[trigger] old(self).tasks@[i]).delivery_tag
                    != Option::Some(tag),
            (old(self).current matches Option::Some(c) ==> c.delivery_tag != Option::Some(tag)),
            !old(self).acked@.contains(tag),
        ensures
            final(self).wf(),
            final(self).tasks@ == old(self).tasks@.push(
                Task {
                    status: TaskStatus::Queued,
                    delivery_tag: Option::Some(tag),
                    ..t
                },
            ),
            final(self).current == old(self).current,
            final(self).subprocess == old(self).subprocess,
            final(self).blendfiles == old(self).blendfiles,
            final(self).parent_jobs == old(self).parent_jobs,
            final(self).acked == old(self).acked,
            final(self).config == old(self).config,
            final(self).last_heartbeat == old(self).last_heartbeat,
            Work::tasks_monotone(*old(self), *final(self)),
            Work::scenes_monotone(*old(self), *final(self)),
            Work::acks_monotone(*old(self), *final(self)),
    {
        let mut t = t;
        t.queue();
        t.delivery_tag = Option::Some(tag);
        self.tasks.push(t);
        proof {
            let pre = *old(self);
            let post = *self;
            assert(post.tasks@.drop_last() =~= pre.tasks@);
            assert forall|i: int| 0 <= i < pre.tasks@.len() implies (#[trigger] pre.tasks@[i]).id@
                != t.id@ by {
                if pre.tasks@[i].id@ == t.id@ {
                    lemma_task_find_present(pre.tasks@, i);
                }
            }
            assert(Work::tasks_monotone(pre, post)) by {
                assert forall|id: Seq<char>|
                    match (
                        #[trigger] pre.spec_task_status(id),
                        #[trigger] post.spec_task_status(id),
                    ) {
                        (Option::Some(a), Option::Some(b)) => a.can_reach(b),
                        _ => true,
                    } by {
                    if pre.spec_task_status(id) is Some {
                        if task_find(pre.tasks@, id) is Some {
                            assert(task_find(post.tasks@, id) == task_find(pre.tasks@, id));
                        } else {
                            assert(post.tasks@.last().id@ == t.id@);
                            assert(pre.current matches Option::Some(c) && c.id@ == id);
                            assert(task_find(post.tasks@, id) is None);
                        }
                    }
                }
            }
        }
    }

    /// Drop a broker message that could not be decoded: its tag is
    /// acknowledged at once so garbage does not pile up in the queue.  The
    /// caller performs the acknowledgement; the engine records it.
    pub fn receive_garbage(&mut self, tag: u64)
        requires
            old(self).wf(),
            forall|i: int|
                0 <= i < old(self).tasks@.len() ==> (#[trigger] old(self).tasks@[i]).delivery_tag
                    != Option::Some(tag),
            (old(self).current matches Option::Some(c) ==> c.delivery_tag != Option::Some(tag)),
            !old(self).acked@.contains(tag),
        ensures
            final(self).wf(),
            final(self).acked@ == old(self).acked@.push(tag),
            *final(self) == (Work { acked: final(self).acked, ..*old(self) }),
            Work::tasks_monotone(*old(self), *final(self)),
            Work::scenes_monotone(*old(self), *final(self)),
            Work::acks_monotone(*old(self), *final(self)),
    {
        self.acked.push(tag);
        proof {
            let pre = *old(self);
            let post = *self;
            assert forall|i: int| 0 <= i < post.tasks@.len() implies {
                let tg = (#[trigger] post.tasks@[i]).delivery_tag->0;
                &&& (post.tasks@[i].status != TaskStatus::Finished ==> !post.acked@.contains(tg))
                &&& (post.tasks@[i].status == TaskStatus::Finished ==> post.acked@.contains(tg))
            } by {
                let tg = post.tasks@[i].delivery_tag->0;
                assert(tg != tag);
                if post.tasks@[i].status != TaskStatus::Finished {
                    assert(!pre.acked@.contains(tg));
                    assert forall|k: int| 0 <= k < post.acked@.len() implies post.acked@[k] != tg by {
                        if k < pre.acked@.len() {
                            assert(pre.acked@[k] == post.acked@[k]);
                            assert(pre.acked@.contains(pre.acked@[k]));
                        }
                    }
                } else {
                    assert(pre.acked@.contains(tg));
                    let k = choose|k: int| 0 <= k < pre.acked@.len() && pre.acked@[k] == tg;
                    assert(post.acked@[k] == tg);
                }
            }
            match post.current {
                Option::Some(c) => {
                    assert(!pre.acked@.contains(c.delivery_tag->0));
                    assert forall|k: int|
                        0 <= k < post.acked@.len() implies post.acked@[k] != c.delivery_tag->0 by {
                        if k < pre.acked@.len() {
                            assert(pre.acked@.contains(pre.acked@[k]));
                        }
                    }
                },
                Option::None => {},
            }
        }
    }

    /// Whether the parked task `t` could be selected to run: its command is
    /// constructed, its status allows running, and the scene of its parent
    /// job is optimized.
    pub open spec fn spec_selectable(&self, t: Task) -> bool {
        &&& (t.status == TaskStatus::Queued || t.status == TaskStatus::Running)
        &&& t.command.spec_is_constructed()
        &&& match assoc_find(self.blendfiles@, t.parent_id@) {
            Option::Some(b) => b is Optimized,
            Option::None => false,
        }
    }

    /// Index of the first selectable parked task at or after `i`.
    pub open spec fn spec_first_selectable(&self, i: int) -> Option<int>
        decreases self.tasks@.len() - i,
            when 0 <= i <= self.tasks@.len()
    {
        if i >= self.tasks@.len() {
            Option::None
        } else if self.spec_selectable(self.tasks@[i]) {
            Option::Some(i)
        } else {
            self.spec_first_selectable(i + 1)
        }
    }

    /// A reference to the task that selection would pick, without picking
    /// it; `None` while a task is in flight or none qualifies.
    pub fn next_task(&self) -> (r: Option<&Task>)
        requires
            self.wf(),
        ensures
            match r {
                Option::Some(t) => self.current is None && self.spec_first_selectable(0) is Some
                    && *t == self.tasks@[self.spec_first_selectable(0)->0],
                Option::None => self.current is Some || self.spec_first_selectable(0) is None,
            },
    {
        if self.current.is_some() {
            return Option::None;
        }
        let mut i: usize = 0;
        while i < self.tasks.len()
            invariant
                self.wf(),
                self.current is None,
                0 <= i <= self.tasks@.len(),
                self.spec_first_selectable(0) == self.spec_first_selectable(i as int),
            decreases self.tasks@.len() - i,
        {
            let t = &self.tasks[i];
            let selectable = (t.is_queued() || t.is_running()) && t.command.is_constructed()
                && match self.blend_index(&t.parent_id) {
                Option::Some(b) => self.blendfiles[b].1.is_optimized(),
                Option::None => false,
            };
            if selectable {
                proof {
                    assert(self.spec_selectable(self.tasks@[i as int]));
                    assert(self.spec_first_selectable(i as int) == Option::Some(i as int));
                    assert(self.spec_first_selectable(0) == Option::Some(i as int));
                    assert(self.spec_first_selectable(0)->0 == i as int);
                }
                let tr = &self.tasks[i];
                proof {
                    assert(*tr == self.tasks@[i as int]);
                }
                return Option::Some(tr);
            }
            i = i + 1;
        }
        Option::None
    }

    /// Select the next task: when no task is in flight and a parked task
    /// is selectable, the first such task leaves the parked set, moves to
    /// `Running` and becomes the task in flight.  Returns whether a task
    /// was selected; the caller then publishes the start event.
    pub fn select_next_task(&mut self) -> (selected: bool)
        requires
            old(self).wf(),
        ensures
            final(self).wf(),
            final(self).config == old(self).config,
            final(self).blendfiles == old(self).blendfiles,
            final(self).parent_jobs == old(self).parent_jobs,
            final(self).acked == old(self).acked,
            final(self).subprocess == old(self).subprocess,
            final(self).last_heartbeat == old(self).last_heartbeat,
            final(self).last_status == old(self).last_status,
            final(self).last_download == old(self).last_download,
            final(self).last_upload == old(self).last_upload,
            Work::tasks_monotone(*old(self), *final(self)),
            Work::scenes_monotone(*old(self), *final(self)),
            Work::acks_monotone(*old(self), *final(self)),
            if old(self).current is Some {
                !selected && *final(self) == *old(self)
            } else {
                match old(self).spec_first_selectable(0) {
                    Option::None => !selected && *final(self) == *old(self),
                    Option::Some(i) => {
                        &&& selected
                        &&& final(self).tasks@ == old(self).tasks@.remove(i)
                        &&& final(self).current == Option::Some(
                            (Task { status: TaskStatus::Running, ..old(self).tasks@[i] }),
                        )
                    },
                }
            },
    {
        if self.current.is_some() {
            return false;
        }
        let ghost pre = *self;
        let mut i: usize = 0;
        let mut found: Option<usize> = Option::None;
        while i < self.tasks.len() && found.is_none()
            invariant
                self.wf(),
                *self == pre,
                pre.current is None,
                0 <= i <= self.tasks@.len(),
                match found {
                    Option::Some(f) => f == i && i < self.tasks@.len()
                        && self.spec_selectable(self.tasks@[i as int])
                        && self.spec_first_selectable(0) == Option::Some(i as int),
                    Option::None => self.spec_first_selectable(0) == self.spec_first_selectable(
                        i as int,
                    ),
                },
            decreases self.tasks@.len() - i + (if found is None {
                1int
            } else {
                0int
            }),
        {
            let t = &self.tasks[i];
            let selectable = (t.is_queued() || t.is_running()) && t.command.is_constructed()
                && match self.blend_index(&t.parent_id) {
                Option::Some(b) => self.blendfiles[b].1.is_optimized(),
                Option::None => false,
            };
            if selectable {
                proof {
                    assert(self.spec_selectable(self.tasks@[i as int]));
                    assert(self.spec_first_selectable(i as int) == Option::Some(i as int));
                }
                found = Option::Some(i);
            } else {
                i = i + 1;
            }
        }
        match found {
            Option::None => {
                assert(self.spec_first_selectable(0) is None);
                false
            },
            Option::Some(idx) => {
                let mut t = self.tasks.remove(idx);
                t.start();
                self.current = Option::Some(t);
                proof {
                    let post = *self;
                    let chosen = pre.tasks@[idx as int];
                    pre.tasks@.remove_ensures(idx as int);
                    assert forall|p: int, q: int|
                        0 <= p < q < post.tasks@.len() implies (#[trigger] post.tasks@[p]).id@ != (
                    #[trigger] post.tasks@[q]).id@ && post.tasks@[p].delivery_tag
                        != post.tasks@[q].delivery_tag by {
                        let p0 = if p < idx { p } else { p + 1 };
                        let q0 = if q < idx { q } else { q + 1 };
                        assert(post.tasks@[p] == pre.tasks@[p0]);
                        assert(post.tasks@[q] == pre.tasks@[q0]);
                    }
                    assert forall|j: int| 0 <= j < post.tasks@.len() implies {
                        let tj = #[trigger] post.tasks@[j];
                        &&& tj.wf()
                        &&& tj.status != TaskStatus::Running
                        &&& tj.delivery_tag is Some
                        &&& (tj.status != TaskStatus::Finished ==> !post.acked@.contains(
                            tj.delivery_tag->0,
                        ))
                        &&& (tj.status == TaskStatus::Finished ==> post.acked@.contains(
                            tj.delivery_tag->0,
                        ))
                        &&& tj.id@ != chosen.id@
                        &&& tj.delivery_tag != chosen.delivery_tag
                        &&& (tj.scene_path is Some ==> match assoc_find(
                            post.blendfiles@,
                            tj.parent_id@,
                        ) {
                            Option::Some(b) => !(b is Missing),
                            Option::None => false,
                        })
                    } by {
                        let j0 = if j < idx { j } else { j + 1 };
                        assert(post.tasks@[j] == pre.tasks@[j0]);
                        if j0 < idx {
                            assert(pre.tasks@[j0].id@ != pre.tasks@[idx as int].id@);
                        }
                    }
                    assert(post.wf());
                    assert forall|j: int| 0 <= j < pre.tasks@.len() && j != idx implies (
                    #[trigger] pre.tasks@[j]).id@ != chosen.id@ by {}
                    lemma_task_find_first(pre.tasks@, chosen.id@, idx as int);
                    assert(Work::tasks_monotone(pre, post)) by {
                        assert forall|id: Seq<char>|
                            match (
                                #[trigger] pre.spec_task_status(id),
                                #[trigger] post.spec_task_status(id),
                            ) {
                                (Option::Some(a), Option::Some(b)) => a.can_reach(b),
                                _ => true,
                            } by {
                            lemma_task_find_remove(pre.tasks@, idx as int, id);
                            if id == chosen.id@ {
                                assert(pre.spec_task_status(id) == Option::Some(chosen.status));
                                assert(task_find(post.tasks@, id) is None);
                                assert(post.spec_task_status(id) == Option::Some(
                                    TaskStatus::Running,
                                ));
                            } else {
                                assert(task_find(post.tasks@, id) == task_find(pre.tasks@, id));
                            }
                        }
                    }
                }
                true
            },
        }
    }

    /// Finish the task in flight: it moves to `Finished` and back to the
    /// parked set, its delivery tag is acknowledged exactly once (the
    /// caller performs the acknowledgement and publishes the finish
    /// event), the parent scene records the rendered frame, and the
    /// subprocess slot clears.  Returns the tag to acknowledge, or `None`
    /// when no task was in flight.
    pub fn finish_current(&mut self, now: u64) -> (r: Option<u64>)
        requires
            old(self).wf(),
            now <= MAX_TIME_MS,
        ensures
            final(self).wf(),
            final(self).config == old(self).config,
            final(self).parent_jobs == old(self).parent_jobs,
            final(self).last_heartbeat == old(self).last_heartbeat,
            final(self).last_status == old(self).last_status,
            final(self).last_download == old(self).last_download,
            final(self).last_upload == old(self).last_upload,
            Work::tasks_monotone(*old(self), *final(self)),
            Work::scenes_monotone(*old(self), *final(self)),
            Work::acks_monotone(*old(self), *final(self)),
            match old(self).current {
                Option::None => r is None && *final(self) == *old(self),
                Option::Some(c) => {
                    &&& r == Option::Some(c.delivery_tag->0)
                    &&& !old(self).acked@.contains(c.delivery_tag->0)
                    &&& final(self).acked@ == old(self).acked@.push(c.delivery_tag->0)
                    &&& final(self).tasks@ == old(self).tasks@.push(
                        (Task { status: TaskStatus::Finished, ..c }),
                    )
                    &&& final(self).current is None
                    &&& !final(self).subprocess
                    &&& (forall|k: Seq<char>|
                        k != c.parent_id@ ==> #[trigger] assoc_find(final(self).blendfiles@, k)
                            == assoc_find(old(self).blendfiles@, k))
                    &&& match assoc_find(old(self).blendfiles@, c.parent_id@) {
                        Option::Some(b) => if b is Optimized {
                            assoc_find(final(self).blendfiles@, c.parent_id@)
                                matches Option::Some(b2) && b2 is Optimized
                                && b2.spec_file().frames_rendered == b.spec_file().frames_rendered
                                + 1 && b2.spec_file().lastaccess == now
                        } else {
                            assoc_find(final(self).blendfiles@, c.parent_id@) == Option::Some(b)
                        },
                        Option::None => assoc_find(final(self).blendfiles@, c.parent_id@) is None,
                    }
                },
            },
    {
        let mut cur: Option<Task> = Option::None;
        core::mem::swap(&mut cur, &mut self.current);
        match cur {
            Option::None => Option::None,
            Option::Some(mut t) => {
                let ghost pre = *old(self);
                let ghost c = pre.current->0;
                t.finish();
                let tag = match t.delivery_tag {
                    Option::Some(tg) => tg,
                    Option::None => unreached(),
                };
                self.acked.push(tag);
                let parent = t.parent_id.clone();
                self.tasks.push(t);
                self.subprocess = false;
                match self.blend_index(&parent) {
                    Option::Some(bi) => {
                        let ghost blends0 = self.blendfiles@;
                        let entry = self.blendfiles.remove(bi);
                        match entry.1 {
                            Blend::Optimized(mut bf) => {
                                bf.increment_frame(now);
                                self.blendfiles.insert(bi, (entry.0, Blend::Optimized(bf)));
                            },
                            other => {
                                self.blendfiles.insert(bi, (entry.0, other));
                            },
                        }
                        proof {
                            assert(self.blendfiles@ =~= blends0.update(
                                bi as int,
                                self.blendfiles@[bi as int],
                            ));
                            assert(self.blendfiles@[bi as int].0@ == blends0[bi as int].0@);
                            let e2 = self.blendfiles@[bi as int];
                            assert forall|k: Seq<char>| #[trigger] assoc_find(self.blendfiles@, k)
                                == (if k == blends0[bi as int].0@ {
                                Option::Some(e2.1)
                            } else {
                                assoc_find(blends0, k)
                            }) by {
                                lemma_assoc_find_update(blends0, bi as int, e2, k);
                            }
                        }
                    },
                    Option::None => {},
                }
                proof {
                    let post = *self;
                    assert(post.tasks@.drop_last() =~= pre.tasks@);
                    assert forall|j: int| 0 <= j < pre.tasks@.len() implies (
                    #[trigger] pre.tasks@[j]).id@ != c.id@ && pre.tasks@[j].delivery_tag
                        != c.delivery_tag by {}
                    assert forall|j: int| 0 <= j < post.tasks@.len() implies {
                        let tj = #[trigger] post.tasks@[j];
                        &&& (tj.status != TaskStatus::Finished ==> !post.acked@.contains(
                            tj.delivery_tag->0,
                        ))
                        &&& (tj.status == TaskStatus::Finished ==> post.acked@.contains(
                            tj.delivery_tag->0,
                        ))
                    } by {
                        let tg = post.tasks@[j].delivery_tag->0;
                        if j < pre.tasks@.len() {
                            assert(post.tasks@[j] == pre.tasks@[j]);
                            assert(tg != tag);
                            if pre.tasks@[j].status != TaskStatus::Finished {
                                assert(!pre.acked@.contains(tg));
                                assert forall|k: int|
                                    0 <= k < post.acked@.len() implies post.acked@[k] != tg by {
                                    if k < pre.acked@.len() {
                                        assert(pre.acked@.contains(pre.acked@[k]));
                                    }
                                }
                            } else {
                                let k = choose|k: int|
                                    0 <= k < pre.acked@.len() && pre.acked@[k] == tg;
                                assert(post.acked@[k] == tg);
                            }
                        } else {
                            assert(post.acked@.last() == tg);
                            assert(post.acked@.contains(tg));
                        }
                    }
                    assert forall|p: int, q: int|
                        0 <= p < q < post.acked@.len() implies post.acked@[p] != post.acked@[q] by {
                        if q == post.acked@.len() - 1 {
                            assert(pre.acked@.contains(pre.acked@[p]));
                        }
                    }
                    assert(post.wf());
                    lemma_task_find_absent(pre.tasks@, c.id@);
                    assert(Work::tasks_monotone(pre, post)) by {
                        assert forall|id: Seq<char>|
                            match (
                                #[trigger] pre.spec_task_status(id),
                                #[trigger] post.spec_task_status(id),
                            ) {
                                (Option::Some(a), Option::Some(b)) => a.can_reach(b),
                                _ => true,
                            } by {
                            if id == c.id@ {
                                assert(task_find(pre.tasks@, id) is None);
                                assert(post.tasks@.last().id@ == id);
                                assert(post.spec_task_status(id) == Option::Some(
                                    TaskStatus::Finished,
                                ));
                            } else {
                                assert(task_find(post.tasks@, id) == task_find(pre.tasks@, id));
                            }
                        }
                    }
                    assert(Work::scenes_monotone(pre, post)) by {
                        assert forall|id: Seq<char>|
                            match (
                                #[trigger] pre.spec_scene_rank(id),
                                #[trigger] post.spec_scene_rank(id),
                            ) {
                                (Option::Some(a), Option::Some(b)) => a <= b,
                                _ => true,
                            } by {}
                    }
                }
                Option::Some(tag)
            },
        }
    }

    /// Drop the task in flight as failed: it moves to `Errored` and back to
    /// the parked set, its delivery tag is not acknowledged, and the
    /// subprocess slot clears.  The caller publishes the error event.
    /// Returns whether a task was in flight.
    pub fn error_current(&mut self) -> (r: bool)
        requires
            old(self).wf(),
        ensures
            final(self).wf(),
            final(self).config == old(self).config,
            final(self).blendfiles == old(self).blendfiles,
            final(self).parent_jobs == old(self).parent_jobs,
            final(self).acked == old(self).acked,
            final(self).last_heartbeat == old(self).last_heartbeat,
            final(self).last_status == old(self).last_status,
            final(self).last_download == old(self).last_download,
            final(self).last_upload == old(self).last_upload,
            Work::tasks_monotone(*old(self), *final(self)),
            Work::scenes_monotone(*old(self), *final(self)),
            Work::acks_monotone(*old(self), *final(self)),
            match old(self).current {
                Option::None => !r && *final(self) == *old(self),
                Option::Some(c) => {
                    &&& r
                    &&& final(self).tasks@ == old(self).tasks@.push(
                        (Task { status: TaskStatus::Errored, ..c }),
                    )
                    &&& final(self).current is None
                    &&& !final(self).subprocess
                },
            },
    {
        let mut cur: Option<Task> = Option::None;
        core::mem::swap(&mut cur, &mut self.current);
        match cur {
            Option::None => false,
            Option::Some(mut t) => {
                let ghost pre = *old(self);
                let ghost c = pre.current->0;
                t.error();
                self.tasks.push(t);
                self.subprocess = false;
                proof {
                    let post = *self;
                    assert(post.tasks@.drop_last() =~= pre.tasks@);
                    lemma_task_find_absent(pre.tasks@, c.id@);
                    assert(Work::tasks_monotone(pre, post)) by {
                        assert forall|id: Seq<char>|
                            match (
                                #[trigger] pre.spec_task_status(id),
                                #[trigger] post.spec_task_status(id),
                            ) {
                                (Option::Some(a), Option::Some(b)) => a.can_reach(b),
                                _ => true,
                            } by {
                            if id == c.id@ {
                                assert(task_find(pre.tasks@, id) is None);
                                assert(post.tasks@.last().id@ == id);
                                assert(post.spec_task_status(id) == Option::Some(
                                    TaskStatus::Errored,
                                ));
                            } else {
                                assert(task_find(post.tasks@, id) == task_find(pre.tasks@, id));
                            }
                        }
                    }
                }
                true
            },
        }
    }

    /// The distinct parent-job identities of the parked tasks, first
    /// occurrence first.
    pub fn unique_parent_ids(&self) -> (r: Vec<String>)
        ensures
            r.deep_view() == unique_parents(self.tasks@),
    {
        let mut r: Vec<String> = Vec::new();
        let mut i: usize = 0;
        while i < self.tasks.len()
            invariant
                0 <= i <= self.tasks@.len(),
                r.deep_view() == unique_parents(self.tasks@.subrange(0, i as int)),
            decreases self.tasks@.len() - i,
        {
            let pid = &self.tasks[i].parent_id;
            let mut present = false;
            let mut k: usize = 0;
            while k < r.len()
                invariant
                    0 <= k <= r@.len(),
                    r@.len() == r.deep_view().len(),
                    forall|j: int| 0 <= j < r@.len() ==> r.deep_view()[j] == (#[trigger] r@[j])@,
                    present ==> r.deep_view().contains(pid@),
                    !present ==> forall|j: int| 0 <= j < k ==> r.deep_view()[j] != pid@,
                decreases r@.len() - k,
            {
                if r[k].eq(pid) {
                    present = true;
                    proof {
                        assert(r.deep_view()[k as int] == pid@);
                    }
                    k = r.len();
                } else {
                    k = k + 1;
                }
            }
            let ghost pre_sub = self.tasks@.subrange(0, i as int);
            if !present {
                proof {
                    assert(!r.deep_view().contains(pid@)) by {
                        assert forall|j: int|
                            0 <= j < r.deep_view().len() implies r.deep_view()[j] != pid@ by {}
                    }
                }
                r.push(pid.clone());
                proof {
                    assert(r.deep_view() =~= unique_parents(pre_sub).push(pid@));
                }
            }
            proof {
                assert(self.tasks@.subrange(0, i + 1).drop_last() =~= pre_sub);
                assert(self.tasks@.subrange(0, i + 1).last() == self.tasks@[i as int]);
                assert(r.deep_view() =~= unique_parents(self.tasks@.subrange(0, i + 1)));
            }
            i = i + 1;
        }
        proof {
            assert(self.tasks@.subrange(0, self.tasks@.len() as int) =~= self.tasks@);
        }
        r
    }

    /// Whether the finished task `t` is waiting for its stat event: a
    /// finished renderer task with every byte size and hash computed.
    pub open spec fn spec_stat_complete(t: Task) -> bool {
        &&& t.status == TaskStatus::Finished
        &&& t.command is Renderer
        &&& t.command.spec_all_filesize()
        &&& t.command.spec_all_hashed()
    }

    /// Whether `t` waits for upload: stat-complete but with some frame not
    /// yet uploaded.
    pub open spec fn spec_upload_candidate(t: Task) -> bool {
        Work::spec_stat_complete(t) && !t.command.spec_all_uploaded()
    }

    /// Record the byte size of the rendered frame `frame` of the task with
    /// identity `id`.  Returns whether a parked renderer task with that
    /// identity was found; every one of its outputs for that frame number
    /// takes the size.
    pub fn set_frame_filesize(&mut self, id: &String, frame: u64, size: u64) -> (found: bool)
        requires
            old(self).wf(),
        ensures
            final(self).wf(),
            Work::tasks_monotone(*old(self), *final(self)),
            Work::scenes_monotone(*old(self), *final(self)),
            Work::acks_monotone(*old(self), *final(self)),
            *final(self) == (Work { tasks: final(self).tasks, ..*old(self) }),
            final(self).tasks@.len() == old(self).tasks@.len(),
            forall|i: int|
                0 <= i < old(self).tasks@.len() ==> {
                    let t0 = #[trigger] old(self).tasks@[i];
                    if t0.id@ == id@ && t0.command is Renderer {
                        final(self).tasks@[i] == (Task {
                            command: TaskCommand::Renderer(
                                crate::task::RenderCommand {
                                    outputs: final(self).tasks@[i].command->Renderer_0.outputs,
                                    ..t0.command->Renderer_0
                                },
                            ),
                            ..t0
                        }) && final(self).tasks@[i].command->Renderer_0.outputs@ == Seq::new(
                            t0.command->Renderer_0.outputs@.len(),
                            |j: int|
                                if t0.command->Renderer_0.outputs@[j].frame == frame {
                                    crate::task::FrameOutput {
                                        filesize: Option::Some(size),
                                        ..t0.command->Renderer_0.outputs@[j]
                                    }
                                } else {
                                    t0.command->Renderer_0.outputs@[j]
                                },
                        )
                    } else {
                        final(self).tasks@[i] == t0
                    }
                },
    {
        let ghost pre = *old(self);
        let mut found = false;
        let mut i: usize = 0;
        while i < self.tasks.len()
            invariant
                self.wf(),
                pre.wf(),
                0 <= i <= self.tasks@.len(),
                self.tasks@.len() == pre.tasks@.len(),
                *self == (Work { tasks: self.tasks, ..pre }),
                forall|j: int| i <= j < pre.tasks@.len() ==> self.tasks@[j] == pre.tasks@[j],
                forall|j: int|
                    0 <= j < i ==> {
                        let t0 = #[trigger] pre.tasks@[j];
                        if t0.id@ == id@ && t0.command is Renderer {
                            self.tasks@[j] == (Task {
                                command: TaskCommand::Renderer(
                                    crate::task::RenderCommand {
                                        outputs: self.tasks@[j].command->Renderer_0.outputs,
                                        ..t0.command->Renderer_0
                                    },
                                ),
                                ..t0
                            }) && self.tasks@[j].command->Renderer_0.outputs@ == Seq::new(
                                t0.command->Renderer_0.outputs@.len(),
                                |k: int|
                                    if t0.command->Renderer_0.outputs@[k].frame == frame {
                                        crate::task::FrameOutput {
                                            filesize: Option::Some(size),
                                            ..t0.command->Renderer_0.outputs@[k]
                                        }
                                    } else {
                                        t0.command->Renderer_0.outputs@[k]
                                    },
                            )
                        } else {
                            self.tasks@[j] == t0
                        }
                    },
                found == exists|j: int|
                    0 <= j < i && (#[trigger] pre.tasks@[j]).id@ == id@ && pre.tasks@[j].command
                        is Renderer,
            decreases self.tasks@.len() - i,
        {
            let hit = self.tasks[i].id.eq(id) && self.tasks[i].command.is_blender();
            if hit {
                let ghost tasks0 = self.tasks@;
                let mut t = self.tasks.remove(i);
                set_output_filesize(&mut t, frame, size);
                self.tasks.insert(i, t);
                found = true;
                proof {
                    assert(self.tasks@ =~= tasks0.update(i as int, self.tasks@[i as int]));
                    assert(exists|j: int|
                        0 <= j < i + 1 && (#[trigger] pre.tasks@[j]).id@ == id@
                            && pre.tasks@[j].command is Renderer) by {
                        assert(pre.tasks@[i as int].id@ == id@);
                    }
                }
            }
            i = i + 1;
        }
        proof {
            lemma_monotone_from_pointwise(pre, *self);
        }
        found
    }

    /// Record the content hash of the rendered frame `frame` of the task
    /// with identity `id`, as `set_frame_filesize` records the size.
    pub fn set_frame_hash(&mut self, id: &String, frame: u64, hash: String) -> (found: bool)
        requires
            old(self).wf(),
        ensures
            final(self).wf(),
            Work::tasks_monotone(*old(self), *final(self)),
            Work::scenes_monotone(*old(self), *final(self)),
            Work::acks_monotone(*old(self), *final(self)),
            *final(self) == (Work { tasks: final(self).tasks, ..*old(self) }),
            final(self).tasks@.len() == old(self).tasks@.len(),
            forall|i: int|
                0 <= i < old(self).tasks@.len() ==> {
                    let t0 = #[trigger] old(self).tasks@[i];
                    if t0.id@ == id@ && t0.command is Renderer {
                        final(self).tasks@[i] == (Task {
                            command: TaskCommand::Renderer(
                                crate::task::RenderCommand {
                                    outputs: final(self).tasks@[i].command->Renderer_0.outputs,
                                    ..t0.command->Renderer_0
                                },
                            ),
                            ..t0
                        }) && final(self).tasks@[i].command->Renderer_0.outputs@ == Seq::new(
                            t0.command->Renderer_0.outputs@.len(),
                            |j: int|
                                if t0.command->Renderer_0.outputs@[j].frame == frame {
                                    crate::task::FrameOutput {
                                        hash: Option::Some(hash),
                                        ..t0.command->Renderer_0.outputs@[j]
                                    }
                                } else {
                                    t0.command->Renderer_0.outputs@[j]
                                },
                        )
                    } else {
                        final(self).tasks@[i] == t0
                    }
                },
    {
        let ghost pre = *old(self);
        let mut found = false;
        let mut i: usize = 0;
        while i < self.tasks.len()
            invariant
                self.wf(),
                pre.wf(),
                0 <= i <= self.tasks@.len(),
                self.tasks@.len() == pre.tasks@.len(),
                *self == (Work { tasks: self.tasks, ..pre }),
                forall|j: int| i <= j < pre.tasks@.len() ==> self.tasks@[j] == pre.tasks@[j],
                forall|j: int|
                    0 <= j < i ==> {
                        let t0 = #[trigger] pre.tasks@[j];
                        if t0.id@ == id@ && t0.command is Renderer {
                            self.tasks@[j] == (Task {
                                command: TaskCommand::Renderer(
                                    crate::task::RenderCommand {
                                        outputs: self.tasks@[j].command->Renderer_0.outputs,
                                        ..t0.command->Renderer_0
                                    },
                                ),
                                ..t0
                            }) && self.tasks@[j].command->Renderer_0.outputs@ == Seq::new(
                                t0.command->Renderer_0.outputs@.len(),
                                |k: int|
                                    if t0.command->Renderer_0.outputs@[k].frame == frame {
                                        crate::task::FrameOutput {
                                            hash: Option::Some(hash),
                                            ..t0.command->Renderer_0.outputs@[k]
                                        }
                                    } else {
                                        t0.command->Renderer_0.outputs@[k]
                                    },
                            )
                        } else {
                            self.tasks@[j] == t0
                        }
                    },
            decreases self.tasks@.len() - i,
        {
            let hit = self.tasks[i].id.eq(id) && self.tasks[i].command.is_blender();
            if hit {
                let ghost tasks0 = self.tasks@;
                let mut t = self.tasks.remove(i);
                let h = hash.clone();
                set_output_hash(&mut t, frame, h);
                self.tasks.insert(i, t);
                found = true;
                proof {
                    assert(self.tasks@ =~= tasks0.update(i as int, self.tasks@[i as int]));
                }
            }
            i = i + 1;
        }
        proof {
            lemma_monotone_from_pointwise(pre, *self);
        }
        found
    }

    /// The identities of the finished renderer tasks whose sizes and
    /// hashes are complete: the caller publishes a stat event for each.
    pub fn stat_finished(&self) -> (r: Vec<String>)
        requires
            self.wf(),
        ensures
            forall|k: int|
                0 <= k < r.deep_view().len() ==> (task_find(
                    self.tasks@,
                    #[trigger] r.deep_view()[k],
                ) matches Option::Some(t) && Work::spec_stat_complete(t)),
            forall|i: int|
                0 <= i < self.tasks@.len() ==> (Work::spec_stat_complete(
                    #[trigger] self.tasks@[i],
                ) ==> exists|k: int|
                    0 <= k < r.deep_view().len() && #[trigger] r.deep_view()[k]
                        == self.tasks@[i].id@),
    {
        self.collect_ids_complete(false)
    }

    /// Whether an upload may run now.
    pub fn upload_should_run(&self, now: u64) -> (r: bool)
        requires
            self.wf(),
        ensures
            r == self.last_upload.spec_should_run(now),
    {
        self.last_upload.should_run(now)
    }

    /// The identities of the finished renderer tasks whose frames are
    /// complete but not all uploaded: in independent mode the caller
    /// posts each task's frames to the coordinator and reports back
    /// through `apply_upload_result`.
    pub fn upload_candidates(&self) -> (r: Vec<String>)
        requires
            self.wf(),
        ensures
            forall|k: int|
                0 <= k < r.deep_view().len() ==> (task_find(
                    self.tasks@,
                    #[trigger] r.deep_view()[k],
                ) matches Option::Some(t) && Work::spec_upload_candidate(t)),
            forall|i: int|
                0 <= i < self.tasks@.len() ==> (Work::spec_upload_candidate(
                    #[trigger] self.tasks@[i],
                ) ==> exists|k: int|
                    0 <= k < r.deep_view().len() && #[trigger] r.deep_view()[k]
                        == self.tasks@[i].id@),
    {
        self.collect_ids_complete(true)
    }


    /// Fold an upload attempt for the task with identity `id` back in: on
    /// HTTP success every frame of the task is marked uploaded, the
    /// upload limiter records the success and the caller publishes a stat
    /// event; on failure the limiter backs off and the frames stay
    /// unmarked for a retry on a later tick.
    pub fn apply_upload_result(&mut self, id: &String, ok: bool, now: u64) -> (marked: bool)
        requires
            old(self).wf(),
            now <= MAX_TIME_MS,
        ensures
            final(self).wf(),
            Work::tasks_monotone(*old(self), *final(self)),
            Work::scenes_monotone(*old(self), *final(self)),
            Work::acks_monotone(*old(self), *final(self)),
            final(self).current == old(self).current,
            final(self).subprocess == old(self).subprocess,
            final(self).blendfiles == old(self).blendfiles,
            final(self).parent_jobs == old(self).parent_jobs,
            final(self).acked == old(self).acked,
            final(self).config == old(self).config,
            final(self).last_heartbeat == old(self).last_heartbeat,
            final(self).last_status == old(self).last_status,
            final(self).last_download == old(self).last_download,
            if ok {
                &&& final(self).last_upload == old(self).last_upload.spec_after_success(now)
                &&& final(self).tasks@.len() == old(self).tasks@.len()
                &&& (forall|i: int|
                    0 <= i < old(self).tasks@.len() ==> {
                        let t0 = #[trigger] old(self).tasks@[i];
                        if t0.id@ == id@ && t0.command is Renderer {
                            final(self).tasks@[i] == (Task {
                                command: TaskCommand::Renderer(
                                    crate::task::RenderCommand {
                                        outputs: final(self).tasks@[i].command->Renderer_0.outputs,
                                        ..t0.command->Renderer_0
                                    },
                                ),
                                ..t0
                            }) && final(self).tasks@[i].command->Renderer_0.outputs@ == Seq::new(
                                t0.command->Renderer_0.outputs@.len(),
                                |j: int|
                                    (crate::task::FrameOutput {
                                        uploaded: true,
                                        ..t0.command->Renderer_0.outputs@[j]
                                    }),
                            ) && final(self).tasks@[i].command.spec_all_uploaded()
                        } else {
                            final(self).tasks@[i] == t0
                        }
                    })
                &&& marked == exists|i: int|
                    0 <= i < old(self).tasks@.len() && (#[trigger] old(self).tasks@[i]).id@ == id@
                        && old(self).tasks@[i].command is Renderer
            } else {
                &&& !marked
                &&& final(self).tasks == old(self).tasks
                &&& final(self).last_upload == old(self).last_upload.spec_after_failure(now)
            },
    {
        if !ok {
            self.last_upload.set_last_failed(now);
            return false;
        }
        let ghost pre = *old(self);
        let mut marked = false;
        let mut i: usize = 0;
        while i < self.tasks.len()
            invariant
                self.wf(),
                pre.wf(),
                0 <= i <= self.tasks@.len(),
                self.tasks@.len() == pre.tasks@.len(),
                *self == (Work { tasks: self.tasks, ..pre }),
                forall|j: int| i <= j < pre.tasks@.len() ==> self.tasks@[j] == pre.tasks@[j],
                forall|j: int|
                    0 <= j < i ==> {
                        let t0 = #[trigger] pre.tasks@[j];
                        if t0.id@ == id@ && t0.command is Renderer {
                            self.tasks@[j] == (Task {
                                command: TaskCommand::Renderer(
                                    crate::task::RenderCommand {
                                        outputs: self.tasks@[j].command->Renderer_0.outputs,
                                        ..t0.command->Renderer_0
                                    },
                                ),
                                ..t0
                            }) && self.tasks@[j].command->Renderer_0.outputs@ == Seq::new(
                                t0.command->Renderer_0.outputs@.len(),
                                |k: int|
                                    (crate::task::FrameOutput {
                                        uploaded: true,
                                        ..t0.command->Renderer_0.outputs@[k]
                                    }),
                            ) && self.tasks@[j].command.spec_all_uploaded()
                        } else {
                            self.tasks@[j] == t0
                        }
                    },
                marked == exists|j: int|
                    0 <= j < i && (#[trigger] pre.tasks@[j]).id@ == id@ && pre.tasks@[j].command
                        is Renderer,
            decreases self.tasks@.len() - i,
        {
            let hit = self.tasks[i].id.eq(id) && self.tasks[i].command.is_blender();
            if hit {
                let ghost tasks0 = self.tasks@;
                let mut t = self.tasks.remove(i);
                set_all_outputs_uploaded(&mut t);
                self.tasks.insert(i, t);
                marked = true;
                proof {
                    assert(self.tasks@ =~= tasks0.update(i as int, self.tasks@[i as int]));
                    assert(exists|j: int|
                        0 <= j < i + 1 && (#[trigger] pre.tasks@[j]).id@ == id@
                            && pre.tasks@[j].command is Renderer) by {
                        assert(pre.tasks@[i as int].id@ == id@);
                    }
                }
            }
            i = i + 1;
        }
        self.last_upload.set_last(now);
        proof {
            lemma_monotone_from_pointwise(pre, *self);
        }
        marked
    }

    /// Mark every complete finished task uploaded at once, as server mode
    /// does: the frames already lie on shared storage, so no upload runs.
    /// Returns the identities marked; the caller publishes a stat event
    /// for each.  Acts only in server mode, with a task held, when the
    /// upload limiter permits.
    pub fn upload_finished(&mut self, now: u64) -> (r: Vec<String>)
        requires
            old(self).wf(),
            now <= MAX_TIME_MS,
        ensures
            final(self).wf(),
            Work::tasks_monotone(*old(self), *final(self)),
            Work::scenes_monotone(*old(self), *final(self)),
            Work::acks_monotone(*old(self), *final(self)),
            final(self).current == old(self).current,
            final(self).subprocess == old(self).subprocess,
            final(self).blendfiles == old(self).blendfiles,
            final(self).parent_jobs == old(self).parent_jobs,
            final(self).acked == old(self).acked,
            final(self).config == old(self).config,
            final(self).last_heartbeat == old(self).last_heartbeat,
            final(self).last_status == old(self).last_status,
            final(self).last_download == old(self).last_download,
            ({
                let fire = old(self).config.mode == crate::config::Mode::Server && (old(self).tasks@.len() > 0 || old(self).current is Some) && old(self).last_upload.spec_should_run(now);
                if fire {
                    &&& final(self).tasks@.len() == old(self).tasks@.len()
                    &&& final(self).last_upload == (if exists|i: int|
                        0 <= i < old(self).tasks@.len() && Work::spec_upload_candidate(
                            #[trigger] old(self).tasks@[i],
                        ) {
                        old(self).last_upload.spec_after_success(now)
                    } else {
                        old(self).last_upload
                    })
                    &&& (forall|i: int|
                        0 <= i < old(self).tasks@.len() ==> {
                            let t0 = #[trigger] old(self).tasks@[i];
                            if Work::spec_upload_candidate(t0) {
                                final(self).tasks@[i].command.spec_all_uploaded() && final(self).tasks@[i].id == t0.id && final(self).tasks@[i].status
                                    == t0.status && final(self).tasks@[i].parent_id
                                    == t0.parent_id && final(self).tasks@[i].delivery_tag
                                    == t0.delivery_tag
                            } else {
                                final(self).tasks@[i] == t0
                            }
                        })
                    &&& (forall|i: int|
                        0 <= i < old(self).tasks@.len() ==> (Work::spec_upload_candidate(
                            #[trigger] old(self).tasks@[i],
                        ) ==> exists|k: int|
                            0 <= k < r.deep_view().len() && #[trigger] r.deep_view()[k]
                                == old(self).tasks@[i].id@))
                } else {
                    *final(self) == *old(self) && r.deep_view() == Seq::<Seq<char>>::empty()
                }
            }),
    {
        let mut r: Vec<String> = Vec::new();
        if !(self.config.mode.is_server() && self.has_task() && self.last_upload.should_run(
            now,
        )) {
            proof {
                assert(r.deep_view() =~= Seq::<Seq<char>>::empty());
            }
            return r;
        }
        let ghost pre = *old(self);
        let mut any = false;
        let mut i: usize = 0;
        while i < self.tasks.len()
            invariant
                self.wf(),
                pre.wf(),
                0 <= i <= self.tasks@.len(),
                self.tasks@.len() == pre.tasks@.len(),
                *self == (Work { tasks: self.tasks, ..pre }),
                forall|j: int| i <= j < pre.tasks@.len() ==> self.tasks@[j] == pre.tasks@[j],
                forall|j: int|
                    0 <= j < i ==> {
                        let t0 = #[trigger] pre.tasks@[j];
                        if Work::spec_upload_candidate(t0) {
                            self.tasks@[j].command.spec_all_uploaded() && self.tasks@[j].id
                                == t0.id && self.tasks@[j].status == t0.status
                                && self.tasks@[j].parent_id == t0.parent_id
                                && self.tasks@[j].delivery_tag == t0.delivery_tag
                        } else {
                            self.tasks@[j] == t0
                        }
                    },
                forall|j: int|
                    0 <= j < i ==> (Work::spec_upload_candidate(#[trigger] pre.tasks@[j])
                        ==> exists|k: int|
                        0 <= k < r.deep_view().len() && #[trigger] r.deep_view()[k]
                            == pre.tasks@[j].id@),
                any == exists|j: int|
                    0 <= j < i && Work::spec_upload_candidate(#[trigger] pre.tasks@[j]),
            decreases self.tasks@.len() - i,
        {
            let t = &self.tasks[i];
            let candidate = t.is_finished() && t.command.is_blender() && t.command.all_filesize()
                && t.command.all_hashed() && !t.command.all_uploaded();
            if candidate {
                let tid = self.tasks[i].id.clone();
                let ghost tasks0 = self.tasks@;
                let ghost d0 = r.deep_view();
                let ghost r0 = r@;
                let mut t = self.tasks.remove(i);
                set_all_outputs_uploaded(&mut t);
                self.tasks.insert(i, t);
                any = true;
                r.push(tid);
                proof {
                    assert(self.tasks@ =~= tasks0.update(i as int, self.tasks@[i as int]));
                    assert forall|k: int| 0 <= k < d0.len() implies r.deep_view()[k] == d0[k] by {
                        assert(r@[k] == r0[k]);
                    }
                    assert(r.deep_view()[d0.len() as int] == pre.tasks@[i as int].id@);
                    assert(exists|j: int|
                        0 <= j < i + 1 && Work::spec_upload_candidate(
                            #[trigger] pre.tasks@[j],
                        )) by {
                        assert(Work::spec_upload_candidate(pre.tasks@[i as int]));
                    }
                }
            }
            i = i + 1;
        }
        if any {
            self.last_upload.set_last(now);
        }
        proof {
            lemma_monotone_from_pointwise(pre, *self);
        }
        r
    }

    /// The indices of the parked tasks of parent job `id`, ascending.
    pub fn get_tasks_for_parent_id(&self, id: &String) -> (r: Vec<usize>)
        ensures
            forall|k: int|
                0 <= k < r@.len() ==> (#[trigger] r@[k]) < self.tasks@.len()
                    && self.tasks@[r@[k] as int].parent_id@ == id@,
            forall|p: int, q: int| 0 <= p < q < r@.len() ==> r@[p] < r@[q],
            forall|j: int|
                0 <= j < self.tasks@.len() ==> ((#[trigger] self.tasks@[j]).parent_id@ == id@
                    ==> r@.contains(j as usize)),
    {
        let mut r: Vec<usize> = Vec::new();
        let mut i: usize = 0;
        while i < self.tasks.len()
            invariant
                0 <= i <= self.tasks@.len(),
                forall|k: int|
                    0 <= k < r@.len() ==> (#[trigger] r@[k]) < i
                        && self.tasks@[r@[k] as int].parent_id@ == id@,
                forall|p: int, q: int| 0 <= p < q < r@.len() ==> r@[p] < r@[q],
                forall|j: int|
                    0 <= j < i ==> ((#[trigger] self.tasks@[j]).parent_id@ == id@ ==> r@.contains(
                        j as usize,
                    )),
            decreases self.tasks@.len() - i,
        {
            if self.tasks[i].parent_id.eq(id) {
                let ghost r0 = r@;
                r.push(i);
                proof {
                    assert(r@.last() == i);
                    assert(r@.contains(i));
                    assert forall|j: int|
                        0 <= j < i + 1 implies ((#[trigger] self.tasks@[j]).parent_id@ == id@
                        ==> r@.contains(j as usize)) by {
                        if j < i && self.tasks@[j].parent_id@ == id@ {
                            assert(r0.contains(j as usize));
                            let m = choose|m: int| 0 <= m < r0.len() && r0[m] == j as usize;
                            assert(r@[m] == j as usize);
                        }
                    }
                }
            }
            i = i + 1;
        }
        r
    }

    /// The first parked task of parent job `id`, if any.
    pub fn get_first_task_for_parent_id(&self, id: &String) -> (r: Option<&Task>)
        ensures
            match r {
                Option::Some(t) => exists|i: int|
                    0 <= i < self.tasks@.len() && *t == self.tasks@[i] && (
                    #[trigger] self.tasks@[i]).parent_id@ == id@ && (forall|j: int|
                        0 <= j < i ==> (#[trigger] self.tasks@[j]).parent_id@ != id@),
                Option::None => forall|j: int|
                    0 <= j < self.tasks@.len() ==> (#[trigger] self.tasks@[j]).parent_id@ != id@,
            },
    {
        let mut i: usize = 0;
        while i < self.tasks.len()
            invariant
                0 <= i <= self.tasks@.len(),
                forall|j: int| 0 <= j < i ==> (#[trigger] self.tasks@[j]).parent_id@ != id@,
            decreases self.tasks@.len() - i,
        {
            if self.tasks[i].parent_id.eq(id) {
                let t = &self.tasks[i];
                proof {
                    assert(0 <= i < self.tasks@.len() && *t == self.tasks@[i as int] && (
                    self.tasks@[i as int]).parent_id@ == id@);
                }
                return Option::Some(t);
            }
            i = i + 1;
        }
        Option::None
    }
    /// The identities of the stat-complete tasks; with `pending_only`,
    /// only those with an upload still pending.
    fn collect_ids_complete(&self, pending_only: bool) -> (r: Vec<String>)
        requires
            self.wf(),
        ensures
            forall|k: int|
                0 <= k < r.deep_view().len() ==> (task_find(
                    self.tasks@,
                    #[trigger] r.deep_view()[k],
                ) matches Option::Some(t) && (if pending_only {
                    Work::spec_upload_candidate(t)
                } else {
                    Work::spec_stat_complete(t)
                })),
            forall|i: int|
                0 <= i < self.tasks@.len() ==> ((if pending_only {
                    Work::spec_upload_candidate(#[trigger] self.tasks@[i])
                } else {
                    Work::spec_stat_complete(self.tasks@[i])
                }) ==> exists|k: int|
                    0 <= k < r.deep_view().len() && #[trigger] r.deep_view()[k]
                        == self.tasks@[i].id@),
    {
        let mut r: Vec<String> = Vec::new();
        let mut i: usize = 0;
        while i < self.tasks.len()
            invariant
                self.wf(),
                0 <= i <= self.tasks@.len(),
                forall|k: int|
                    0 <= k < r.deep_view().len() ==> (task_find(
                        self.tasks@,
                        #[trigger] r.deep_view()[k],
                    ) matches Option::Some(t) && (if pending_only {
                        Work::spec_upload_candidate(t)
                    } else {
                        Work::spec_stat_complete(t)
                    })),
                forall|j: int|
                    0 <= j < i ==> ((if pending_only {
                        Work::spec_upload_candidate(#[trigger] self.tasks@[j])
                    } else {
                        Work::spec_stat_complete(self.tasks@[j])
                    }) ==> exists|k: int|
                        0 <= k < r.deep_view().len() && #[trigger] r.deep_view()[k]
                            == self.tasks@[j].id@),
            decreases self.tasks@.len() - i,
        {
            let t = &self.tasks[i];
            let complete = t.is_finished() && t.command.is_blender() && t.command.all_filesize()
                && t.command.all_hashed();
            let take = if pending_only {
                complete && !t.command.all_uploaded()
            } else {
                complete
            };
            if take {
                let tid = self.tasks[i].id.clone();
                let ghost d0 = r.deep_view();
                let ghost r0 = r@;
                proof {
                    assert forall|p: int| 0 <= p < i implies (#[trigger] self.tasks@[p]).id@
                        != tid@ by {}
                    lemma_task_find_first(self.tasks@, tid@, i as int);
                }
                r.push(tid);
                proof {
                    assert forall|k: int| 0 <= k < d0.len() implies r.deep_view()[k] == d0[k] by {
                        assert(r@[k] == r0[k]);
                    }
                    assert(r.deep_view()[d0.len() as int] == (self.tasks@[i as int]).id@);
                    assert forall|k: int|
                        0 <= k < r.deep_view().len() implies (task_find(
                        self.tasks@,
                        #[trigger] r.deep_view()[k],
                    ) matches Option::Some(t) && (if pending_only {
                        Work::spec_upload_candidate(t)
                    } else {
                        Work::spec_stat_complete(t)
                    })) by {
                        if k < d0.len() {
                            assert(r.deep_view()[k] == d0[k]);
                        } else {
                            assert(r.deep_view()[k] == self.tasks@[i as int].id@);
                            assert(task_find(self.tasks@, r.deep_view()[k]) == Option::Some(
                                self.tasks@[i as int],
                            ));
                        }
                    }
                }
            }
            i = i + 1;
        }
        r
    }
}

/// Give every output of `t`'s renderer command for frame `frame` the byte
/// size `size`.
fn set_output_filesize(t: &mut Task, frame: u64, size: u64)
    requires
        old(t).wf(),
        old(t).command is Renderer,
    ensures
        final(t).wf(),
        *final(t) == (Task {
            command: TaskCommand::Renderer(
                crate::task::RenderCommand {
                    outputs: final(t).command->Renderer_0.outputs,
                    ..old(t).command->Renderer_0
                },
            ),
            ..*old(t)
        }),
        final(t).command->Renderer_0.outputs@ == Seq::new(
            old(t).command->Renderer_0.outputs@.len(),
            |j: int|
                if old(t).command->Renderer_0.outputs@[j].frame == frame {
                    crate::task::FrameOutput {
                        filesize: Option::Some(size),
                        ..old(t).command->Renderer_0.outputs@[j]
                    }
                } else {
                    old(t).command->Renderer_0.outputs@[j]
                },
        ),
{
    let ghost outs0 = old(t).command->Renderer_0.outputs@;
    let mut cmd = TaskCommand::Generic { constructed: false };
    core::mem::swap(&mut cmd, &mut t.command);
    match cmd {
        TaskCommand::Renderer(mut rc) => {
            let mut j: usize = 0;
            while j < rc.outputs.len()
                invariant
                    0 <= j <= outs0.len(),
                    rc == (crate::task::RenderCommand {
                        outputs: rc.outputs,
                        ..old(t).command->Renderer_0
                    }),
                    rc.outputs@.len() == outs0.len(),
                    forall|k: int| j <= k < outs0.len() ==> rc.outputs@[k] == outs0[k],
                    forall|k: int|
                        0 <= k < j ==> rc.outputs@[k] == (if outs0[k].frame == frame {
                            (crate::task::FrameOutput {
                                filesize: Option::Some(size),
                                ..outs0[k]
                            })
                        } else {
                            outs0[k]
                        }),
                decreases outs0.len() - j,
            {
                if rc.outputs[j].frame == frame {
                    let ghost o0 = rc.outputs@;
                    let mut o = rc.outputs.remove(j);
                    o.filesize = Option::Some(size);
                    rc.outputs.insert(j, o);
                    proof {
                        assert(rc.outputs@ =~= o0.update(j as int, rc.outputs@[j as int]));
                    }
                }
                j = j + 1;
            }
            proof {
                assert(rc.outputs@ =~= Seq::new(
                    outs0.len(),
                    |k: int|
                        if outs0[k].frame == frame {
                            (crate::task::FrameOutput {
                                filesize: Option::Some(size),
                                ..outs0[k]
                            })
                        } else {
                            outs0[k]
                        },
                ));
            }
            t.command = TaskCommand::Renderer(rc);
        },
        _ => {
            proof {
                assert(false);
            }
        },
    }
    proof {
        let rcf = t.command->Renderer_0;
        assert(rcf.outputs@.len() == outs0.len());
        assert forall|k: int| 0 <= k < rcf.outputs@.len() implies (#[trigger] rcf.outputs@[k]).frame
            == outs0[k].frame && rcf.outputs@[k].path == outs0[k].path by {}
        assert(t.wf());
    }
}

/// Give every output of `t`'s renderer command for frame `frame` the
/// content hash `hash`.
fn set_output_hash(t: &mut Task, frame: u64, hash: String)
    requires
        old(t).wf(),
        old(t).command is Renderer,
    ensures
        final(t).wf(),
        *final(t) == (Task {
            command: TaskCommand::Renderer(
                crate::task::RenderCommand {
                    outputs: final(t).command->Renderer_0.outputs,
                    ..old(t).command->Renderer_0
                },
            ),
            ..*old(t)
        }),
        final(t).command->Renderer_0.outputs@ == Seq::new(
            old(t).command->Renderer_0.outputs@.len(),
            |j: int|
                if old(t).command->Renderer_0.outputs@[j].frame == frame {
                    crate::task::FrameOutput {
                        hash: Option::Some(hash),
                        ..old(t).command->Renderer_0.outputs@[j]
                    }
                } else {
                    old(t).command->Renderer_0.outputs@[j]
                },
        ),
{
    let ghost outs0 = old(t).command->Renderer_0.outputs@;
    let mut cmd = TaskCommand::Generic { constructed: false };
    core::mem::swap(&mut cmd, &mut t.command);
    match cmd {
        TaskCommand::Renderer(mut rc) => {
            let mut j: usize = 0;
            while j < rc.outputs.len()
                invariant
                    0 <= j <= outs0.len(),
                    rc == (crate::task::RenderCommand {
                        outputs: rc.outputs,
                        ..old(t).command->Renderer_0
                    }),
                    rc.outputs@.len() == outs0.len(),
                    forall|k: int| j <= k < outs0.len() ==> rc.outputs@[k] == outs0[k],
                    forall|k: int|
                        0 <= k < j ==> rc.outputs@[k] == (if outs0[k].frame == frame {
                            (crate::task::FrameOutput { hash: Option::Some(hash), ..outs0[k] })
                        } else {
                            outs0[k]
                        }),
                decreases outs0.len() - j,
            {
                if rc.outputs[j].frame == frame {
                    let ghost o0 = rc.outputs@;
                    let mut o = rc.outputs.remove(j);
                    o.hash = Option::Some(hash.clone());
                    rc.outputs.insert(j, o);
                    proof {
                        assert(rc.outputs@ =~= o0.update(j as int, rc.outputs@[j as int]));
                        assert(rc.outputs@[j as int].hash == Option::Some(hash));
                    }
                }
                j = j + 1;
            }
            proof {
                assert(rc.outputs@ =~= Seq::new(
                    outs0.len(),
                    |k: int|
                        if outs0[k].frame == frame {
                            (crate::task::FrameOutput { hash: Option::Some(hash), ..outs0[k] })
                        } else {
                            outs0[k]
                        },
                ));
            }
            t.command = TaskCommand::Renderer(rc);
        },
        _ => {
            proof {
                assert(false);
            }
        },
    }
    proof {
        let rcf = t.command->Renderer_0;
        assert(rcf.outputs@.len() == outs0.len());
        assert forall|k: int| 0 <= k < rcf.outputs@.len() implies (#[trigger] rcf.outputs@[k]).frame
            == outs0[k].frame && rcf.outputs@[k].path == outs0[k].path by {}
        assert(t.wf());
    }
}


/// Mark every output of `t`'s renderer command uploaded.
fn set_all_outputs_uploaded(t: &mut Task)
    requires
        old(t).wf(),
        old(t).command is Renderer,
    ensures
        final(t).wf(),
        *final(t) == (Task {
            command: TaskCommand::Renderer(
                crate::task::RenderCommand {
                    outputs: final(t).command->Renderer_0.outputs,
                    ..old(t).command->Renderer_0
                },
            ),
            ..*old(t)
        }),
        final(t).command->Renderer_0.outputs@ == Seq::new(
            old(t).command->Renderer_0.outputs@.len(),
            |j: int|
                (crate::task::FrameOutput {
                    uploaded: true,
                    ..old(t).command->Renderer_0.outputs@[j]
                }),
        ),
        final(t).command.spec_all_uploaded(),
{
    let ghost outs0 = old(t).command->Renderer_0.outputs@;
    let mut cmd = TaskCommand::Generic { constructed: false };
    core::mem::swap(&mut cmd, &mut t.command);
    match cmd {
        TaskCommand::Renderer(mut rc) => {
            let mut j: usize = 0;
            while j < rc.outputs.len()
                invariant
                    0 <= j <= outs0.len(),
                    rc == (crate::task::RenderCommand {
                        outputs: rc.outputs,
                        ..old(t).command->Renderer_0
                    }),
                    rc.outputs@.len() == outs0.len(),
                    forall|k: int| j <= k < outs0.len() ==> rc.outputs@[k] == outs0[k],
                    forall|k: int|
                        0 <= k < j ==> rc.outputs@[k] == (crate::task::FrameOutput {
                            uploaded: true,
                            ..outs0[k]
                        }),
                decreases outs0.len() - j,
            {
                let ghost o0 = rc.outputs@;
                let mut o = rc.outputs.remove(j);
                o.uploaded = true;
                rc.outputs.insert(j, o);
                proof {
                    assert(rc.outputs@ =~= o0.update(j as int, rc.outputs@[j as int]));
                }
                j = j + 1;
            }
            proof {
                assert(rc.outputs@ =~= Seq::new(
                    outs0.len(),
                    |k: int| (crate::task::FrameOutput { uploaded: true, ..outs0[k] }),
                ));
            }
            t.command = TaskCommand::Renderer(rc);
        },
        _ => {
            proof {
                assert(false);
            }
        },
    }
    proof {
        let rcf = t.command->Renderer_0;
        assert(rcf.outputs@.len() == outs0.len());
        assert forall|k: int| 0 <= k < rcf.outputs@.len() implies (#[trigger] rcf.outputs@[k]).frame
            == outs0[k].frame && rcf.outputs@[k].path == outs0[k].path by {}
        assert(t.wf());
    }
}

} // verus!
