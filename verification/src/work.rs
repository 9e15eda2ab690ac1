//! The `Work` engine: the long-lived aggregate that owns the task set, the
//! per-job scene map, the single in-flight task and subprocess, the
//! parent-job status cache and the rate limiters.
//!
//! The engine performs no outside effects itself.  The caller runs one tick
//! as the ordered phases below, performing the broker, HTTP, subprocess and
//! file-system work between the calls and handing every outcome to the
//! engine as plain values:
//!
//! 1. intake (`should_add`, `receive_task`, `receive_garbage`),
//! 2. job-status refresh (`update_parent_job_status`, `apply_job_status`),
//! 3. scene acquisition (`get_blendfiles`, `apply_blendfile_fetch`),
//! 4. command construction (`construct_commands`),
//! 5. optimization (`blendfiles_to_optimize`, `apply_optimize_result`),
//! 6. selection (`select_next_task`),
//! 7. dispatch and wait (`prepare_command`, `apply_spawn`, `apply_exit_status`),
//! 8. finish (`finish_current`) or error (`error_current`),
//! 9. stat and hash (`set_frame_filesize`, `set_frame_hash`, `stat_finished`),
//! 10. upload (`upload_candidates`, `apply_upload_result`, `upload_finished`),
//! 11. scene reclamation (`reclaim_candidates`, `apply_reclaim`),
//! 12. frame reclamation (`cleanup_frames`),
//! 13. heartbeat (`beat_heart`).

use vstd::prelude::*;
use crate::blend::Blend;
use crate::config::WorkerConfig;
use crate::ratelimit::{RateLimiter, MAX_TIME_MS};
use crate::task::{Task, TaskStatus};

pub mod taskmanagment;

pub mod blendfiles;

pub mod commands;

pub mod optimize;

verus! {

/// First task in `s` with identity `id`, searching left to right.
pub open spec fn task_find(s: Seq<Task>, id: Seq<char>) -> Option<Task>
    decreases s.len(),
{
    if s.len() == 0 {
        Option::None
    } else {
        match task_find(s.drop_last(), id) {
            Option::Some(t) => Option::Some(t),
            Option::None => {
                if s.last().id@ == id {
                    Option::Some(s.last())
                } else {
                    Option::None
                }
            },
        }
    }
}

/// First value in the association list `s` under key `k`, searching left to
/// right.
pub open spec fn assoc_find<V>(s: Seq<(String, V)>, k: Seq<char>) -> Option<V>
    decreases s.len(),
{
    if s.len() == 0 {
        Option::None
    } else {
        match assoc_find(s.drop_last(), k) {
            Option::Some(v) => Option::Some(v),
            Option::None => {
                if s.last().0@ == k {
                    Option::Some(s.last().1)
                } else {
                    Option::None
                }
            },
        }
    }
}

/// When no entry of `s` bears `id`, the search misses.
pub proof fn lemma_task_find_absent(s: Seq<Task>, id: Seq<char>)
    requires
        forall|j: int| 0 <= j < s.len() ==> (#[trigger] s[j]).id@ != id,
    ensures
        task_find(s, id) is None,
    decreases s.len(),
{
    if s.len() > 0 {
        lemma_task_find_absent(s.drop_last(), id);
    }
}

/// What the search returns bears the identity it searched and is drawn
/// from the sequence.
pub proof fn lemma_task_find_is_match(s: Seq<Task>, id: Seq<char>)
    ensures
        task_find(s, id) matches Option::Some(t) ==> t.id@ == id && s.contains(t),
    decreases s.len(),
{
    if s.len() > 0 {
        lemma_task_find_is_match(s.drop_last(), id);
        if task_find(s.drop_last(), id) is Some {
            let t = task_find(s.drop_last(), id)->0;
            let j = choose|j: int| 0 <= j < s.drop_last().len() && s.drop_last()[j] == t;
            assert(s[j] == t);
        } else {
            if s.last().id@ == id {
                assert(s.contains(s.last()));
            }
        }
    }
}

/// Any entry bearing `id` makes the search hit.
pub proof fn lemma_task_find_present(s: Seq<Task>, j: int)
    requires
        0 <= j < s.len(),
    ensures
        task_find(s, s[j].id@) is Some,
    decreases s.len(),
{
    if j < s.len() - 1 {
        lemma_task_find_present(s.drop_last(), j);
    }
}

/// Any entry under key `k` makes the search hit.
pub proof fn lemma_assoc_find_present<V>(s: Seq<(String, V)>, j: int)
    requires
        0 <= j < s.len(),
    ensures
        assoc_find(s, s[j].0@) is Some,
    decreases s.len(),
{
    if j < s.len() - 1 {
        lemma_assoc_find_present(s.drop_last(), j);
    }
}

/// When the first entry bearing `id` stands at `i`, the search returns it.
pub proof fn lemma_task_find_first(s: Seq<Task>, id: Seq<char>, i: int)
    requires
        0 <= i < s.len(),
        s[i].id@ == id,
        forall|j: int| 0 <= j < i ==> (#[trigger] s[j]).id@ != id,
    ensures
        task_find(s, id) == Option::Some(s[i]),
    decreases s.len(),
{
    if i == s.len() - 1 {
        lemma_task_find_absent(s.drop_last(), id);
    } else {
        lemma_task_find_first(s.drop_last(), id, i);
    }
}

/// When no entry of `s` bears key `k`, the search misses.
pub proof fn lemma_assoc_find_absent<V>(s: Seq<(String, V)>, k: Seq<char>)
    requires
        forall|j: int| 0 <= j < s.len() ==> (#[trigger] s[j]).0@ != k,
    ensures
        assoc_find(s, k) is None,
    decreases s.len(),
{
    if s.len() > 0 {
        lemma_assoc_find_absent(s.drop_last(), k);
    }
}

/// When the first entry under key `k` stands at `i`, the search returns
/// its value.
pub proof fn lemma_assoc_find_first<V>(s: Seq<(String, V)>, k: Seq<char>, i: int)
    requires
        0 <= i < s.len(),
        s[i].0@ == k,
        forall|j: int| 0 <= j < i ==> (#[trigger] s[j]).0@ != k,
    ensures
        assoc_find(s, k) == Option::Some(s[i].1),
    decreases s.len(),
{
    if i == s.len() - 1 {
        lemma_assoc_find_absent(s.drop_last(), k);
    } else {
        lemma_assoc_find_first(s.drop_last(), k, i);
    }
}

/// Removing the task at `i` changes only what the search finds under its
/// identity, which afterwards misses, provided identities are unique.
pub proof fn lemma_task_find_remove(s: Seq<Task>, i: int, id: Seq<char>)
    requires
        0 <= i < s.len(),
        forall|p: int, q: int|
            0 <= p < q < s.len() ==> (#[trigger] s[p]).id@ != (#[trigger] s[q]).id@,
    ensures
        task_find(s.remove(i), id) == (if id == s[i].id@ {
            Option::<Task>::None
        } else {
            task_find(s, id)
        }),
    decreases s.len(),
{
    let s2 = s.remove(i);
    if i == s.len() - 1 {
        assert(s2 =~= s.drop_last());
        if id == s[i].id@ {
            assert(forall|j: int| 0 <= j < s2.len() ==> (#[trigger] s2[j]).id@ != id);
            lemma_task_find_absent(s2, id);
        }
    } else {
        assert(s2.drop_last() =~= s.drop_last().remove(i));
        assert(s2.last() == s.last());
        lemma_task_find_remove(s.drop_last(), i, id);
        if id == s[i].id@ {
            assert(s.last().id@ != id);
        }
    }
}

/// Replacing the entry at `i` (which keeps its key) changes only what the
/// search finds under that key, provided earlier entries bear other keys.
pub proof fn lemma_assoc_find_update<V>(s: Seq<(String, V)>, i: int, e: (String, V), k: Seq<char>)
    requires
        0 <= i < s.len(),
        e.0@ == s[i].0@,
        forall|j: int| 0 <= j < i ==> (#[trigger] s[j]).0@ != s[i].0@,
    ensures
        assoc_find(s.update(i, e), k) == (if k == s[i].0@ {
            Option::Some(e.1)
        } else {
            assoc_find(s, k)
        }),
    decreases s.len(),
{
    let s2 = s.update(i, e);
    if i == s.len() - 1 {
        assert(s2.drop_last() =~= s.drop_last());
        if k == s[i].0@ {
            lemma_assoc_find_absent(s.drop_last(), k);
        }
    } else {
        assert(s2.drop_last() =~= s.drop_last().update(i, e));
        assert(s2.last() == s.last());
        lemma_assoc_find_update(s.drop_last(), i, e, k);
    }
}

/// Removing the entry at `i` changes only what the search finds under its
/// key, which afterwards misses, provided keys are unique.
pub proof fn lemma_assoc_find_remove<V>(s: Seq<(String, V)>, i: int, k: Seq<char>)
    requires
        0 <= i < s.len(),
        forall|p: int, q: int|
            0 <= p < q < s.len() ==> (#[trigger] s[p]).0@ != (#[trigger] s[q]).0@,
    ensures
        assoc_find(s.remove(i), k) == (if k == s[i].0@ {
            Option::<V>::None
        } else {
            assoc_find(s, k)
        }),
    decreases s.len(),
{
    let s2 = s.remove(i);
    if i == s.len() - 1 {
        assert(s2 =~= s.drop_last());
        if k == s[i].0@ {
            assert(forall|j: int| 0 <= j < s2.len() ==> (#[trigger] s2[j]).0@ != k);
            lemma_assoc_find_absent(s2, k);
        }
    } else {
        assert(s2.drop_last() =~= s.drop_last().remove(i));
        assert(s2.last() == s.last());
        lemma_assoc_find_remove(s.drop_last(), i, k);
        if k == s[i].0@ {
            assert(s.last().0@ != k);
        }
    }
}


/// Two task sequences that agree pointwise on identity and status make the
/// search agree on presence and status under every identity.
pub proof fn lemma_task_find_pointwise(s1: Seq<Task>, s2: Seq<Task>, id: Seq<char>)
    requires
        s1.len() == s2.len(),
        forall|i: int|
            0 <= i < s1.len() ==> (#[trigger] s1[i]).id@ == (#[trigger] s2[i]).id@ && s1[i].status
                == s2[i].status,
    ensures
        match (task_find(s1, id), task_find(s2, id)) {
            (Option::Some(a), Option::Some(b)) => a.status == b.status && a.id@ == b.id@,
            (Option::None, Option::None) => true,
            _ => false,
        },
    decreases s1.len(),
{
    if s1.len() > 0 {
        assert(forall|i: int|
            0 <= i < s1.drop_last().len() ==> (#[trigger] s1.drop_last()[i]).id@ == (
            #[trigger] s2.drop_last()[i]).id@ && s1.drop_last()[i].status
                == s2.drop_last()[i].status);
        lemma_task_find_pointwise(s1.drop_last(), s2.drop_last(), id);
    }
}

/// A step that keeps every task's identity and status, and the current
/// task's, moves no status at all.
pub proof fn lemma_monotone_from_pointwise(pre: Work, post: Work)
    requires
        pre.tasks@.len() == post.tasks@.len(),
        forall|i: int|
            0 <= i < pre.tasks@.len() ==> (#[trigger] pre.tasks@[i]).id@ == (
            #[trigger] post.tasks@[i]).id@ && pre.tasks@[i].status == post.tasks@[i].status,
        pre.current is Some <==> post.current is Some,
        (pre.current matches Option::Some(c) ==> post.current matches Option::Some(c2) && c2.id@
            == c.id@ && c2.status == c.status),
    ensures
        Work::tasks_monotone(pre, post),
{
    assert forall|id: Seq<char>|
        match (#[trigger] pre.spec_task_status(id), #[trigger] post.spec_task_status(id)) {
            (Option::Some(a), Option::Some(b)) => a.can_reach(b),
            _ => true,
        } by {
        lemma_task_find_pointwise(pre.tasks@, post.tasks@, id);
    }
}

/// Two scene maps that agree pointwise on keys and do not let any rank
/// fall never let the search see a rank fall.
pub proof fn lemma_scene_rank_pointwise(
    s1: Seq<(String, Blend)>,
    s2: Seq<(String, Blend)>,
    k: Seq<char>,
)
    requires
        s1.len() == s2.len(),
        forall|i: int|
            0 <= i < s1.len() ==> (#[trigger] s1[i]).0@ == (#[trigger] s2[i]).0@ && s1[i].1.rank()
                <= s2[i].1.rank(),
    ensures
        match (assoc_find(s1, k), assoc_find(s2, k)) {
            (Option::Some(a), Option::Some(b)) => a.rank() <= b.rank(),
            (Option::None, Option::None) => true,
            _ => false,
        },
    decreases s1.len(),
{
    if s1.len() > 0 {
        assert(forall|i: int|
            0 <= i < s1.drop_last().len() ==> (#[trigger] s1.drop_last()[i]).0@ == (
            #[trigger] s2.drop_last()[i]).0@ && s1.drop_last()[i].1.rank()
                <= s2.drop_last()[i].1.rank());
        lemma_scene_rank_pointwise(s1.drop_last(), s2.drop_last(), k);
    }
}

/// A step that keeps the scene map's keys and lets no entry's rank fall is
/// scene-monotone.
pub proof fn lemma_scenes_monotone_from_pointwise(pre: Work, post: Work)
    requires
        pre.blendfiles@.len() == post.blendfiles@.len(),
        forall|i: int|
            0 <= i < pre.blendfiles@.len() ==> (#[trigger] pre.blendfiles@[i]).0@ == (
            #[trigger] post.blendfiles@[i]).0@ && pre.blendfiles@[i].1.rank()
                <= post.blendfiles@[i].1.rank(),
    ensures
        Work::scenes_monotone(pre, post),
{
    assert forall|id: Seq<char>|
        match (#[trigger] pre.spec_scene_rank(id), #[trigger] post.spec_scene_rank(id)) {
            (Option::Some(a), Option::Some(b)) => a <= b,
            _ => true,
        } by {
        lemma_scene_rank_pointwise(pre.blendfiles@, post.blendfiles@, id);
    }
}

/// The `Work` engine state.  All mutation happens through the phase
/// methods; each preserves `wf` and the monotonicity of task statuses and
/// scene variants.
#[derive(Debug)]
pub struct Work {
    /// The configuration; immutable after construction.
    pub config: WorkerConfig,
    /// Tasks not currently in flight.  Never holds a `Running` task.
    pub tasks: Vec<Task>,
    /// The single in-flight task, always `Running`.
    pub current: Option<Task>,
    /// Whether a renderer subprocess is in flight; paired with `current`.
    pub subprocess: bool,
    /// Per parent-job scene state, keyed by job id.
    pub blendfiles: Vec<(String, Blend)>,
    /// Per parent-job status cache, keyed by job id; rebuilt wholesale.
    pub parent_jobs: Vec<(String, String)>,
    /// When the heart last beat, if it ever did.
    pub last_heartbeat: Option<u64>,
    /// Limits the job-status refresh.
    pub last_status: RateLimiter,
    /// Limits scene downloads.
    pub last_download: RateLimiter,
    /// Limits frame uploads.
    pub last_upload: RateLimiter,
    /// Every broker delivery tag the engine ordered acknowledged, in order.
    pub acked: Vec<u64>,
}

impl Work {
    /// Task-set invariant: parked tasks are well-formed, never `Running`,
    /// and tagged; identities and tags are unique across the parked tasks
    /// and the current task; no held tag was already acknowledged.
    pub open spec fn tasks_wf(&self) -> bool {
        &&& forall|i: int|
            0 <= i < self.tasks@.len() ==> (#[trigger] self.tasks@[i]).wf() && self.tasks@[i].status
                != TaskStatus::Running && self.tasks@[i].delivery_tag is Some
        &&& forall|i: int, j: int|
            0 <= i < j < self.tasks@.len() ==> (#[trigger] self.tasks@[i]).id@ != (
            #[trigger] self.tasks@[j]).id@
        &&& forall|i: int, j: int|
            0 <= i < j < self.tasks@.len() ==> (#[trigger] self.tasks@[i]).delivery_tag != (
            #[trigger] self.tasks@[j]).delivery_tag
        &&& forall|i: int|
            0 <= i < self.tasks@.len() ==> ((#[trigger] self.tasks@[i]).status
                != TaskStatus::Finished ==> !self.acked@.contains(self.tasks@[i].delivery_tag->0))
        &&& forall|i: int|
            0 <= i < self.tasks@.len() ==> ((#[trigger] self.tasks@[i]).status
                == TaskStatus::Finished ==> self.acked@.contains(self.tasks@[i].delivery_tag->0))
    }

    /// Current-task invariant: the in-flight task is well-formed, running,
    /// tagged with a fresh tag, and distinct from every parked task; a
    /// subprocess exists only while a task is in flight.
    pub open spec fn current_wf(&self) -> bool {
        &&& match self.current {
            Option::Some(c) => {
                &&& c.wf()
                &&& c.status == TaskStatus::Running
                &&& c.delivery_tag is Some
                &&& !self.acked@.contains(c.delivery_tag->0)
                &&& forall|i: int|
                    0 <= i < self.tasks@.len() ==> (#[trigger] self.tasks@[i]).id@ != c.id@
                        && self.tasks@[i].delivery_tag != c.delivery_tag
            },
            Option::None => true,
        }
        &&& (self.subprocess ==> self.current is Some)
    }

    /// Scene-map invariant: keys are unique, records are well-formed, and
    /// every task holding a scene path points at a present scene of its
    /// parent job.
    pub open spec fn scenes_wf(&self) -> bool {
        &&& forall|i: int, j: int|
            0 <= i < j < self.blendfiles@.len() ==> (#[trigger] self.blendfiles@[i]).0@ != (
            #[trigger] self.blendfiles@[j]).0@
        &&& forall|i: int|
            0 <= i < self.blendfiles@.len() ==> !((#[trigger] self.blendfiles@[i]).1 is Missing)
                ==> self.blendfiles@[i].1.spec_file().wf()
        &&& forall|i: int|
            0 <= i < self.tasks@.len() ==> (#[trigger] self.tasks@[i]).scene_path is Some ==> {
                match assoc_find(self.blendfiles@, self.tasks@[i].parent_id@) {
                    Option::Some(b) => !(b is Missing),
                    Option::None => false,
                }
            }
        &&& match self.current {
            Option::Some(c) => c.scene_path is Some ==> {
                match assoc_find(self.blendfiles@, c.parent_id@) {
                    Option::Some(b) => !(b is Missing),
                    Option::None => false,
                }
            },
            Option::None => true,
        }
    }

    /// The whole engine invariant.
    pub open spec fn wf(&self) -> bool {
        &&& self.config.wf()
        &&& self.tasks_wf()
        &&& self.current_wf()
        &&& self.scenes_wf()
        &&& forall|i: int, j: int|
            0 <= i < j < self.parent_jobs@.len() ==> (#[trigger] self.parent_jobs@[i]).0@ != (
            #[trigger] self.parent_jobs@[j]).0@
        &&& forall|i: int, j: int|
            0 <= i < j < self.acked@.len() ==> self.acked@[i] != self.acked@[j]
        &&& (self.last_heartbeat is Some ==> self.last_heartbeat->0 <= MAX_TIME_MS)
        &&& self.last_status.wf()
        &&& self.last_download.wf()
        &&& self.last_upload.wf()
    }

    /// The status of the task with identity `id`, wherever it stands.
    pub open spec fn spec_task_status(&self, id: Seq<char>) -> Option<TaskStatus> {
        match task_find(self.tasks@, id) {
            Option::Some(t) => Option::Some(t.status),
            Option::None => match self.current {
                Option::Some(c) => if c.id@ == id {
                    Option::Some(c.status)
                } else {
                    Option::None
                },
                Option::None => Option::None,
            },
        }
    }

    /// The lifecycle rank of the scene of job `id`, if one is mapped.
    pub open spec fn spec_scene_rank(&self, id: Seq<char>) -> Option<int> {
        match assoc_find(self.blendfiles@, id) {
            Option::Some(b) => Option::Some(b.rank()),
            Option::None => Option::None,
        }
    }

    /// No task present before and after a step moved against the status
    /// lattice: statuses only advance.
    pub open spec fn tasks_monotone(pre: Work, post: Work) -> bool {
        forall|id: Seq<char>|
            match (#[trigger] pre.spec_task_status(id), #[trigger] post.spec_task_status(id)) {
                (Option::Some(a), Option::Some(b)) => a.can_reach(b),
                _ => true,
            }
    }

    /// No scene present before and after a step regressed: the variant
    /// rank never falls within one lifetime of an id.
    pub open spec fn scenes_monotone(pre: Work, post: Work) -> bool {
        forall|id: Seq<char>|
            match (#[trigger] pre.spec_scene_rank(id), #[trigger] post.spec_scene_rank(id)) {
                (Option::Some(a), Option::Some(b)) => a <= b,
                _ => true,
            }
    }

    /// Acknowledged tags are only ever appended.
    pub open spec fn acks_monotone(pre: Work, post: Work) -> bool {
        pre.acked@.is_prefix_of(post.acked@)
    }

    /// Create an idle engine with the given configuration.
    pub fn new(config: WorkerConfig) -> (r: Self)
        requires
            config.wf(),
        ensures
            r.wf(),
            r.config == config,
            r.tasks@.len() == 0,
            r.current is None,
            !r.subprocess,
            r.blendfiles@.len() == 0,
            r.parent_jobs@.len() == 0,
            r.last_heartbeat is None,
            r.acked@.len() == 0,
            r.last_status.last is None && r.last_status.last_failed is None,
            r.last_download.last is None && r.last_download.last_failed is None,
            r.last_upload.last is None && r.last_upload.last_failed is None,
    {
        Work {
            config,
            tasks: Vec::new(),
            current: Option::None,
            subprocess: false,
            blendfiles: Vec::new(),
            parent_jobs: Vec::new(),
            last_heartbeat: Option::None,
            last_status: RateLimiter::new(),
            last_download: RateLimiter::new(),
            last_upload: RateLimiter::new(),
            acked: Vec::new(),
        }
    }

    /// True while at least one task is held, parked or in flight.
    pub fn has_task(&self) -> (r: bool)
        ensures
            r == (self.tasks@.len() > 0 || self.current is Some),
    {
        self.tasks.len() > 0 || self.current.is_some()
    }

    /// Whether the engine already saw `tag`: on a parked task, on the
    /// current task, or among the acknowledged tags.  Intake requires a
    /// tag the engine does not know.
    pub fn knows_tag(&self, tag: u64) -> (r: bool)
        ensures
            r == ({
                ||| exists|i: int|
                    0 <= i < self.tasks@.len() && (#[trigger] self.tasks@[i]).delivery_tag
                        == Option::Some(tag)
                ||| (self.current matches Option::Some(c) && c.delivery_tag == Option::Some(tag))
                ||| self.acked@.contains(tag)
            }),
    {
        let mut i: usize = 0;
        while i < self.tasks.len()
            invariant
                0 <= i <= self.tasks@.len(),
                forall|j: int|
                    0 <= j < i ==> (#[trigger] self.tasks@[j]).delivery_tag != Option::Some(tag),
            decreases self.tasks@.len() - i,
        {
            match self.tasks[i].delivery_tag {
                Option::Some(t) => {
                    if t == tag {
                        return true;
                    }
                },
                Option::None => {},
            }
            i = i + 1;
        }
        match &self.current {
            Option::Some(c) => {
                match c.delivery_tag {
                    Option::Some(t) => {
                        if t == tag {
                            return true;
                        }
                    },
                    Option::None => {},
                }
            },
            Option::None => {},
        }
        let mut k: usize = 0;
        while k < self.acked.len()
            invariant
                0 <= k <= self.acked@.len(),
                forall|j: int| 0 <= j < k ==> self.acked@[j] != tag,
            decreases self.acked@.len() - k,
        {
            if self.acked[k] == tag {
                return true;
            }
            k = k + 1;
        }
        false
    }


    /// Whether the heart is due: it never beat, or at least
    /// `heart_rate_seconds` have passed since it last did.
    pub open spec fn spec_heart_due(last: Option<int>, t: int, rate_ms: int) -> bool {
        match last {
            Option::None => true,
            Option::Some(b) => t >= b + rate_ms,
        }
    }

    /// Beat the heart when it is due: the caller publishes the heartbeat
    /// message exactly when this returns true.
    pub fn beat_heart(&mut self, now: u64) -> (beat: bool)
        requires
            old(self).wf(),
            now <= MAX_TIME_MS,
        ensures
            final(self).wf(),
            Work::tasks_monotone(*old(self), *final(self)),
            Work::scenes_monotone(*old(self), *final(self)),
            Work::acks_monotone(*old(self), *final(self)),
            beat == Work::spec_heart_due(
                match old(self).last_heartbeat {
                    Option::Some(b) => Option::Some(b as int),
                    Option::None => Option::None,
                },
                now as int,
                old(self).config.heart_rate_seconds * 1000,
            ),
            if beat {
                *final(self) == (Work { last_heartbeat: Option::Some(now), ..*old(self) })
            } else {
                *final(self) == *old(self)
            },
    {
        let rate_ms = self.config.heart_rate_seconds * 1000;
        let due = match self.last_heartbeat {
            Option::None => true,
            Option::Some(b) => now >= b && now - b >= rate_ms,
        };
        proof {
            match self.last_heartbeat {
                Option::Some(b) => {
                    assert((now >= b && now - b >= rate_ms) == (now >= b + rate_ms));
                },
                Option::None => {},
            }
        }
        if due {
            self.last_heartbeat = Option::Some(now);
        }
        due
    }

    /// Whether a task with identity `id` is held, parked or in flight.
    pub fn has_task_with_id(&self, id: &String) -> (r: bool)
        ensures
            r == (task_find(self.tasks@, id@) is Some || (self.current
                matches Option::Some(c) && c.id@ == id@)),
    {
        let mut i: usize = 0;
        while i < self.tasks.len()
            invariant
                0 <= i <= self.tasks@.len(),
                forall|j: int| 0 <= j < i ==> (#[trigger] self.tasks@[j]).id@ != id@,
            decreases self.tasks@.len() - i,
        {
            if self.tasks[i].id.eq(id) {
                proof {
                    lemma_task_find_first(self.tasks@, id@, i as int);
                }
                return true;
            }
            i = i + 1;
        }
        proof {
            lemma_task_find_absent(self.tasks@, id@);
        }
        match &self.current {
            Option::Some(c) => c.id.eq(id),
            Option::None => false,
        }
    }
}


/// The single-flight law: in every well-formed engine state, at most one
/// task runs and it is the task in flight; a subprocess exists only while
/// a task is in flight.
pub proof fn lemma_single_flight(w: Work)
    requires
        w.wf(),
    ensures
        forall|i: int|
            0 <= i < w.tasks@.len() ==> (#[trigger] w.tasks@[i]).status != TaskStatus::Running,
        w.current matches Option::Some(c) ==> c.status == TaskStatus::Running,
        w.subprocess ==> w.current is Some,
{
}

/// The ack-exactly-once law: in every well-formed engine state no delivery
/// tag was acknowledged twice, every finished task's tag was acknowledged,
/// and no unfinished task's tag was.
pub proof fn lemma_ack_exactly_once(w: Work)
    requires
        w.wf(),
    ensures
        forall|p: int, q: int| 0 <= p < q < w.acked@.len() ==> w.acked@[p] != w.acked@[q],
        forall|i: int|
            0 <= i < w.tasks@.len() ==> ((#[trigger] w.tasks@[i]).status == TaskStatus::Finished
                ==> w.acked@.contains(w.tasks@[i].delivery_tag->0)),
        forall|i: int|
            0 <= i < w.tasks@.len() ==> ((#[trigger] w.tasks@[i]).status != TaskStatus::Finished
                ==> !w.acked@.contains(w.tasks@[i].delivery_tag->0)),
{
}

/// The heartbeat state after the calls at `a, a + 1000, ..., a + 1000 * k`
/// milliseconds, one per second as the main loop ticks: how many beats
/// fired and when the heart last beat.  One step is exactly what
/// `beat_heart` does at that call time.
pub open spec fn spec_heart_run(last0: Option<int>, a: int, rate_ms: int, k: nat) -> (int, Option<
    int,
>)
    decreases k,
{
    if k == 0 {
        if Work::spec_heart_due(last0, a, rate_ms) {
            (1int, Option::Some(a))
        } else {
            (0int, last0)
        }
    } else {
        let prev = spec_heart_run(last0, a, rate_ms, (k - 1) as nat);
        let t = a + 1000 * k;
        if Work::spec_heart_due(prev.1, t, rate_ms) {
            (prev.0 + 1, Option::Some(t))
        } else {
            prev
        }
    }
}

/// The running invariant of the heartbeat: after the call at
/// `a + 1000 * k` the heart beat recently (within one rate interval), on
/// the second grid, and at least once per rate interval of elapsed time.
pub proof fn lemma_heart_run_invariant(last0: Option<int>, a: int, rate_ms: int, k: nat)
    requires
        1000 <= rate_ms,
        rate_ms % 1000 == 0,
        (last0 matches Option::Some(b) ==> b <= a && (a - b) % 1000 == 0),
    ensures
        ({
            let r = spec_heart_run(last0, a, rate_ms, k);
            &&& r.1 is Some
            &&& r.1->0 <= a + 1000 * k
            &&& a + 1000 * k - r.1->0 < rate_ms
            &&& (a - r.1->0) % 1000 == 0
            &&& r.0 * rate_ms >= r.1->0 - a
            &&& r.0 >= 0
        }),
    decreases k,
{
    if k == 0 {
        if Work::spec_heart_due(last0, a, rate_ms) {
            assert((a - a) % 1000 == 0);
        }
    } else {
        lemma_heart_run_invariant(last0, a, rate_ms, (k - 1) as nat);
        let prev = spec_heart_run(last0, a, rate_ms, (k - 1) as nat);
        let t = a + 1000 * k;
        let tp = a + 1000 * (k - 1);
        assert(t == tp + 1000) by (nonlinear_arith)
            requires
                t == a + 1000 * k,
                tp == a + 1000 * (k - 1),
                k >= 1,
        ;
        let lp = prev.1->0;
        if Work::spec_heart_due(prev.1, t, rate_ms) {
            if lp >= a {
                assert((t - (lp + rate_ms)) % 1000 == 0) by {
                    assert((a - lp) % 1000 == 0);
                    assert((t - a) % 1000 == 0) by (nonlinear_arith)
                        requires
                            t == a + 1000 * k,
                    ;
                    assert(((t - a) + (a - lp) - rate_ms) % 1000 == 0) by (nonlinear_arith)
                        requires
                            (t - a) % 1000 == 0,
                            (a - lp) % 1000 == 0,
                            rate_ms % 1000 == 0,
                    ;
                }
                assert(t - (lp + rate_ms) < 1000) by {
                    assert(tp - lp < rate_ms);
                }
                assert(t == lp + rate_ms) by {
                    assert(t >= lp + rate_ms);
                    assert(0 <= t - (lp + rate_ms) < 1000);
                    assert((t - (lp + rate_ms)) % 1000 == t - (lp + rate_ms));
                }
                assert((prev.0 + 1) * rate_ms >= t - a) by (nonlinear_arith)
                    requires
                        prev.0 * rate_ms >= lp - a,
                        t == lp + rate_ms,
                ;
            } else {
                assert(prev.0 >= 0);
                assert(t - a <= rate_ms) by {
                    assert(tp - lp < rate_ms);
                    assert(lp < a);
                    assert(lp <= a - 1000) by {
                        assert((a - lp) % 1000 == 0);
                        assert(a - lp >= 1) by {
                            assert(lp < a);
                        }
                        assert(a - lp >= 1000) by {
                            assert((a - lp) % 1000 == 0 && a - lp >= 1 ==> a - lp >= 1000) by (nonlinear_arith);
                        }
                    }
                }
                assert((prev.0 + 1) * rate_ms >= t - a) by (nonlinear_arith)
                    requires
                        prev.0 >= 0,
                        rate_ms >= 1000,
                        rate_ms >= t - a,
                ;
            }
            assert((a - t) % 1000 == 0) by (nonlinear_arith)
                requires
                    t == a + 1000 * k,
            ;
        } else {
            assert(t - lp < rate_ms);
            assert(prev.0 * rate_ms >= lp - a);
        }
    }
}

/// The heartbeat rate law: across a window of `w` seconds covered by one
/// call per second, a heart whose last beat (if any) lay on the same
/// second grid at or before the window start beats at least
/// `w / heart_rate_seconds` times.
pub proof fn lemma_heartbeat_rate(last0: Option<int>, a: int, rate_s: int, w: nat)
    requires
        1 <= rate_s,
        (last0 matches Option::Some(b) ==> b <= a && (a - b) % 1000 == 0),
    ensures
        spec_heart_run(last0, a, rate_s * 1000, w).0 >= w as int / rate_s,
{
    let rate_ms = rate_s * 1000;
    assert(1000 <= rate_ms && rate_ms % 1000 == 0) by (nonlinear_arith)
        requires
            rate_ms == rate_s * 1000,
            rate_s >= 1,
    ;
    lemma_heart_run_invariant(last0, a, rate_ms, w);
    let r = spec_heart_run(last0, a, rate_ms, w);
    let count = r.0;
    let l = r.1->0;
    assert(count * rate_ms >= l - a);
    assert(l > a + 1000 * w - rate_ms);
    assert(count * rate_ms > 1000 * w - rate_ms);
    let q = w as int / rate_s;
    assert(q * rate_s <= w as int) by (nonlinear_arith)
        requires
            q == w as int / rate_s,
            rate_s >= 1,
            w as int >= 0,
    ;
    assert(count > q - 1) by (nonlinear_arith)
        requires
            count * (rate_s * 1000) > 1000 * w - rate_s * 1000,
            q * rate_s <= w as int,
            rate_s >= 1,
            rate_ms == rate_s * 1000,
    ;
}


/// The heartbeat state after `beat_heart` calls at the times of `ts`, in
/// order: how many beats fired and when the heart last beat.  One step is
/// exactly what `beat_heart` does at that call time.
pub open spec fn spec_heart_run_at(last0: Option<int>, ts: Seq<int>, rate_ms: int) -> (int, Option<
    int,
>)
    decreases ts.len(),
{
    if ts.len() == 0 {
        (0int, last0)
    } else {
        let prev = spec_heart_run_at(last0, ts.drop_last(), rate_ms);
        if Work::spec_heart_due(prev.1, ts.last(), rate_ms) {
            (prev.0 + 1, Option::Some(ts.last()))
        } else {
            prev
        }
    }
}

/// The running invariant of the heartbeat over arbitrary call times at
/// most `g` apart: after each call the heart beat within one rate
/// interval, and at least once per `rate_ms + g` of elapsed time.
pub proof fn lemma_heart_run_at_invariant(last0: Option<int>, ts: Seq<int>, rate_ms: int, g: int)
    requires
        1 <= rate_ms,
        1 <= g,
        1 <= ts.len(),
        forall|i: int| 1 <= i < ts.len() ==> 0 < #[trigger] (ts[i] - ts[i - 1]) <= g,
        (last0 matches Option::Some(b) ==> b <= ts[0]),
    ensures
        ({
            let r = spec_heart_run_at(last0, ts, rate_ms);
            &&& r.1 is Some
            &&& r.1->0 <= ts.last()
            &&& ts.last() - r.1->0 < rate_ms
            &&& r.0 * (rate_ms + g) >= r.1->0 - ts[0]
            &&& r.0 >= 0
        }),
    decreases ts.len(),
{
    if ts.len() == 1 {
    } else {
        let d = ts.drop_last();
        assert(forall|i: int| 1 <= i < d.len() ==> 0 < #[trigger] (d[i] - d[i - 1]) <= g);
        lemma_heart_run_at_invariant(last0, d, rate_ms, g);
        let prev = spec_heart_run_at(last0, d, rate_ms);
        let t = ts.last();
        let tp = d.last();
        assert(tp == ts[ts.len() - 2]);
        assert(0 < t - tp <= g);
        let lp = prev.1->0;
        if Work::spec_heart_due(prev.1, t, rate_ms) {
            assert(t < lp + rate_ms + g) by {
                assert(tp - lp < rate_ms);
            }
            assert((prev.0 + 1) * (rate_ms + g) >= t - ts[0]) by (nonlinear_arith)
                requires
                    prev.0 * (rate_ms + g) >= lp - ts[0],
                    t < lp + rate_ms + g,
                    prev.0 >= 0,
                    rate_ms >= 1,
                    g >= 1,
            ;
        }
    }
}

/// The heartbeat rate law over ticks: when `beat_heart` is reached once
/// per tick, consecutive ticks at most `g` milliseconds apart, and the
/// heart (if it ever beat) last beat at or before the first tick of the
/// window, then across the window the number of beats times
/// `rate_ms + g` exceeds the window span minus one rate interval.  As the
/// tick length shrinks against the rate this approaches one beat per
/// rate interval; the per-second instance is `lemma_heartbeat_rate`.
pub proof fn lemma_heartbeat_rate_ticks(last0: Option<int>, ts: Seq<int>, rate_ms: int, g: int)
    requires
        1 <= rate_ms,
        1 <= g,
        1 <= ts.len(),
        forall|i: int| 1 <= i < ts.len() ==> 0 < #[trigger] (ts[i] - ts[i - 1]) <= g,
        (last0 matches Option::Some(b) ==> b <= ts[0]),
    ensures
        spec_heart_run_at(last0, ts, rate_ms).0 * (rate_ms + g) > ts.last() - ts[0] - rate_ms,
{
    lemma_heart_run_at_invariant(last0, ts, rate_ms, g);
}

} // verus!
