//! Scene-file wrangling for the `Work` engine: the per-job status cache,
//! the per-job scene map, scene acquisition and reclamation.
//!
//! A task is tied to its scene file through its `parent_id`.  A scene is
//! requested once per job when the first task of that job arrives, moves
//! `Missing -> Downloaded -> Optimized`, and is reclaimed when the job is
//! finished on the server, every local task of the job is done and
//! uploaded, and the grace period has passed.

use vstd::prelude::*;
use crate::blend::Blend;
use crate::blendfile::Blendfile;
use crate::ratelimit::{RateLimiter, MAX_TIME_MS};
use crate::task::{Task, TaskStatus, TaskCommand};
use crate::textutil::{contains_sub, seq_contains_sub};
use crate::work::{
    Work,
    assoc_find,
    task_find,
    lemma_assoc_find_remove,
    lemma_monotone_from_pointwise,
    lemma_assoc_find_absent,
    lemma_assoc_find_first,
    lemma_assoc_find_present,
    lemma_assoc_find_update,
};

verus! {





/// Whether `t` is a finished renderer task all of whose frames were
/// uploaded: only such frames may be deleted locally.
pub open spec fn spec_frames_cleanable(t: Task) -> bool {
    &&& t.status == TaskStatus::Finished
    &&& (t.command matches TaskCommand::Renderer(rc) && rc.spec_all_uploaded())
}

/// The expected output paths of a renderer command.
pub open spec fn spec_output_path_list(rc: crate::task::RenderCommand) -> Seq<Seq<char>> {
    Seq::new(rc.outputs@.len(), |i: int| rc.outputs@[i].path@)
}

/// The frame files to delete: every output path of every finished,
/// fully-uploaded renderer task of `s`, in order.
pub open spec fn spec_frames_to_clean(s: Seq<Task>) -> Seq<Seq<char>>
    decreases s.len(),
{
    if s.len() == 0 {
        Seq::<Seq<char>>::empty()
    } else {
        let p = spec_frames_to_clean(s.drop_last());
        if spec_frames_cleanable(s.last()) {
            p + spec_output_path_list(s.last().command->Renderer_0)
        } else {
            p
        }
    }
}

/// Whether `name` has a file extension that begins with `blend`: a dot
/// with no later dot, followed by that prefix.
pub open spec fn spec_is_blend_entry(s: Seq<char>) -> bool {
    exists|d: int|
        0 <= d < s.len() && #[trigger] s[d] == '.' && (forall|e: int|
            d < e < s.len() ==> s[e] != '.') && crate::textutil::seq_starts_with(
            s.subrange(d + 1, s.len() as int),
            "blend"@,
        )
}

/// The index of the first entry naming a scene file, if any.
pub open spec fn spec_first_blend(entries: Seq<Seq<char>>, i: int) -> Option<int>
    decreases entries.len() - i,
        when 0 <= i <= entries.len()
{
    if i >= entries.len() {
        Option::None
    } else if spec_is_blend_entry(entries[i]) {
        Option::Some(i)
    } else {
        spec_first_blend(entries, i + 1)
    }
}

/// Whether `name` has a file extension beginning with `blend`.
pub fn is_blend_entry(name: &str) -> (r: bool)
    ensures
        r == spec_is_blend_entry(name@),
{
    let n = name.unicode_len();
    let mut i = n;
    while i > 0
        invariant
            0 <= i <= n,
            n == name@.len(),
            forall|e: int| i <= e < n ==> name@[e] != '.',
        decreases i,
    {
        i = i - 1;
        if name.get_char(i) == '.' {
            let ext = name.substring_char(i + 1, n);
            let r = crate::textutil::starts_with(ext, "blend");
            proof {
                assert(ext@ =~= name@.subrange(i + 1, n as int));
                if r {
                    assert(spec_is_blend_entry(name@)) by {
                        assert(name@[i as int] == '.');
                    }
                } else {
                    assert forall|d: int|
                        !(0 <= d < name@.len() && #[trigger] name@[d] == '.' && (forall|e: int|
                            d < e < name@.len() ==> name@[e] != '.')
                            && crate::textutil::seq_starts_with(
                            name@.subrange(d + 1, name@.len() as int),
                            "blend"@,
                        )) by {
                        if 0 <= d < name@.len() && name@[d] == '.' {
                            if d > i {
                                assert(name@[d] != '.');
                            } else if d < i {
                                assert(name@[i as int] == '.');
                            }
                        }
                    }
                }
            }
            return r;
        }
    }
    proof {
        assert forall|d: int| 0 <= d < name@.len() implies name@[d] != '.' by {}
    }
    false
}

/// The first directory entry naming a scene file, as server mode discovers
/// the scene of a job in its directory.
pub fn pick_blend_entry(entries: &Vec<String>) -> (r: Option<String>)
    ensures
        match r {
            Option::Some(p) => spec_first_blend(entries.deep_view(), 0) is Some && p@
                == entries.deep_view()[spec_first_blend(entries.deep_view(), 0)->0],
            Option::None => spec_first_blend(entries.deep_view(), 0) is None,
        },
{
    let ghost ev = entries.deep_view();
    let mut i: usize = 0;
    while i < entries.len()
        invariant
            0 <= i <= ev.len(),
            entries@.len() == ev.len(),
            forall|j: int| 0 <= j < ev.len() ==> (#[trigger] entries@[j])@ == ev[j],
            spec_first_blend(ev, 0) == spec_first_blend(ev, i as int),
        decreases ev.len() - i,
    {
        if is_blend_entry(entries[i].as_str()) {
            let p = entries[i].clone();
            proof {
                assert(spec_first_blend(ev, i as int) == Option::Some(i as int));
                assert(p@ == (entries@[i as int])@);
                assert(p@ == ev[i as int]);
                assert(ev == entries.deep_view());
                assert(spec_first_blend(entries.deep_view(), 0) is Some);
            }
            return Option::Some(p);
        }
        i = i + 1;
    }
    Option::None
}

/// `s` without the tasks of parent `pid`, in order.
pub open spec fn spec_remove_parent(s: Seq<Task>, pid: Seq<char>) -> Seq<Task>
    decreases s.len(),
{
    if s.len() == 0 {
        Seq::<Task>::empty()
    } else {
        let p = spec_remove_parent(s.drop_last(), pid);
        if s.last().parent_id@ == pid {
            p
        } else {
            p.push(s.last())
        }
    }
}

/// Every kept task comes from `s` and bears another parent.
pub proof fn lemma_remove_parent_membership(s: Seq<Task>, pid: Seq<char>)
    ensures
        forall|k: int|
            0 <= k < spec_remove_parent(s, pid).len() ==> s.contains(
                #[trigger] spec_remove_parent(s, pid)[k],
            ) && spec_remove_parent(s, pid)[k].parent_id@ != pid,
    decreases s.len(),
{
    if s.len() > 0 {
        lemma_remove_parent_membership(s.drop_last(), pid);
        let p = spec_remove_parent(s.drop_last(), pid);
        assert forall|k: int|
            0 <= k < p.len() implies s.contains(p[k]) by {
            let x = p[k];
            assert(s.drop_last().contains(x));
            let j = choose|j: int| 0 <= j < s.drop_last().len() && s.drop_last()[j] == x;
            assert(s[j] == x);
        }
        if s.last().parent_id@ != pid {
            assert(s.contains(s.last()));
        }
    }
}

/// Filtering out a parent keeps identities and tags pairwise distinct.
pub proof fn lemma_remove_parent_distinct(s: Seq<Task>, pid: Seq<char>)
    requires
        forall|i: int, j: int|
            0 <= i < j < s.len() ==> (#[trigger] s[i]).id@ != (#[trigger] s[j]).id@,
        forall|i: int, j: int|
            0 <= i < j < s.len() ==> (#[trigger] s[i]).delivery_tag != (#[trigger] s[j]).delivery_tag,
    ensures
        forall|i: int, j: int|
            0 <= i < j < spec_remove_parent(s, pid).len() ==> (#[trigger] spec_remove_parent(
                s,
                pid,
            )[i]).id@ != (#[trigger] spec_remove_parent(s, pid)[j]).id@,
        forall|i: int, j: int|
            0 <= i < j < spec_remove_parent(s, pid).len() ==> (#[trigger] spec_remove_parent(
                s,
                pid,
            )[i]).delivery_tag != (#[trigger] spec_remove_parent(s, pid)[j]).delivery_tag,
    decreases s.len(),
{
    if s.len() > 0 {
        let d = s.drop_last();
        assert(forall|i: int, j: int|
            0 <= i < j < d.len() ==> (#[trigger] d[i]).id@ != (#[trigger] d[j]).id@);
        assert(forall|i: int, j: int|
            0 <= i < j < d.len() ==> (#[trigger] d[i]).delivery_tag != (
            #[trigger] d[j]).delivery_tag);
        lemma_remove_parent_distinct(d, pid);
        lemma_remove_parent_membership(d, pid);
        let p = spec_remove_parent(d, pid);
        let f = spec_remove_parent(s, pid);
        if s.last().parent_id@ != pid {
            assert forall|i: int, j: int|
                0 <= i < j < f.len() implies (#[trigger] f[i]).id@ != (#[trigger] f[j]).id@ && (
            f[i]).delivery_tag != (f[j]).delivery_tag by {
                if j == f.len() - 1 {
                    assert(f[j] == s.last());
                    assert(f[i] == p[i]);
                    assert(d.contains(p[i]));
                    let m = choose|m: int| 0 <= m < d.len() && d[m] == p[i];
                    assert(s[m] == p[i]);
                    assert(s[m].id@ != s.last().id@);
                    assert(s[m].delivery_tag != s.last().delivery_tag);
                }
            }
        }
    }
}

/// What the search finds after the tasks of `pid` leave: nothing under an
/// identity whose task bore `pid`, the same as before elsewhere.
pub proof fn lemma_remove_parent_find(s: Seq<Task>, pid: Seq<char>, id: Seq<char>)
    requires
        forall|i: int, j: int|
            0 <= i < j < s.len() ==> (#[trigger] s[i]).id@ != (#[trigger] s[j]).id@,
    ensures
        task_find(spec_remove_parent(s, pid), id) == (match task_find(s, id) {
            Option::Some(t) => if t.parent_id@ == pid {
                Option::<Task>::None
            } else {
                Option::Some(t)
            },
            Option::None => Option::<Task>::None,
        }),
    decreases s.len(),
{
    if s.len() > 0 {
        let d = s.drop_last();
        assert(forall|i: int, j: int|
            0 <= i < j < d.len() ==> (#[trigger] d[i]).id@ != (#[trigger] d[j]).id@);
        lemma_remove_parent_find(d, pid, id);
        crate::work::lemma_task_find_is_match(d, id);
        let p = spec_remove_parent(d, pid);
        let f = spec_remove_parent(s, pid);
        if task_find(d, id) is Some {
            let t = task_find(d, id)->0;
            let j = choose|j: int| 0 <= j < d.len() && d[j] == t;
            assert(s[j] == t);
            assert(s.last().id@ != t.id@);
        }
        if s.last().parent_id@ != pid {
            assert(f.drop_last() =~= p);
        }
    }
}

/// The ids of `s` that still need their scene in `w`, kept in order.
pub open spec fn spec_filter_needed(w: Work, s: Seq<Seq<char>>) -> Seq<Seq<char>>
    decreases s.len(),
{
    if s.len() == 0 {
        Seq::<Seq<char>>::empty()
    } else {
        let p = spec_filter_needed(w, s.drop_last());
        if w.spec_scene_needed(s.last()) {
            p.push(s.last())
        } else {
            p
        }
    }
}

impl Work {
    /// The cached status of job `id`, if the cache holds one.
    pub open spec fn spec_job_status(&self, id: Seq<char>) -> Option<Seq<char>> {
        match assoc_find(self.parent_jobs@, id) {
            Option::Some(st) => Option::Some(st@),
            Option::None => Option::None,
        }
    }

    /// Whether the cached status of job `id` names it finished.
    pub open spec fn spec_job_is_finished(&self, id: Seq<char>) -> bool {
        match assoc_find(self.parent_jobs@, id) {
            Option::Some(st) => seq_contains_sub(st@, "Finished"@),
            Option::None => false,
        }
    }

    /// Whether every cached job status names its job finished.  True of an
    /// empty cache.
    pub open spec fn spec_all_jobs_finished(&self) -> bool {
        forall|i: int|
            0 <= i < self.parent_jobs@.len() ==> seq_contains_sub(
                (#[trigger] self.parent_jobs@[i]).1@,
                "Finished"@,
            )
    }

    /// Whether some cached job status names its job finished.
    pub open spec fn spec_any_job_finished(&self) -> bool {
        exists|i: int|
            0 <= i < self.parent_jobs@.len() && seq_contains_sub(
                (#[trigger] self.parent_jobs@[i]).1@,
                "Finished"@,
            )
    }

    /// Index of the cache entry for job `id`, if the cache holds one.
    pub(crate) fn parent_job_index(&self, id: &String) -> (r: Option<usize>)
        ensures
            match r {
                Option::Some(i) => i < self.parent_jobs@.len() && self.parent_jobs@[
                    i as int
                ].0@ == id@ && assoc_find(self.parent_jobs@, id@) == Option::Some(
                    self.parent_jobs@[i as int].1,
                ),
                Option::None => assoc_find(self.parent_jobs@, id@) is None,
            },
    {
        let mut i: usize = 0;
        while i < self.parent_jobs.len()
            invariant
                0 <= i <= self.parent_jobs@.len(),
                forall|j: int| 0 <= j < i ==> (#[trigger] self.parent_jobs@[j]).0@ != id@,
            decreases self.parent_jobs@.len() - i,
        {
            if self.parent_jobs[i].0.eq(id) {
                proof {
                    lemma_assoc_find_first(self.parent_jobs@, id@, i as int);
                }
                return Option::Some(i);
            }
            i = i + 1;
        }
        proof {
            lemma_assoc_find_absent(self.parent_jobs@, id@);
        }
        Option::None
    }

    /// Index of the scene entry for job `id`, if the map holds one.
    pub(crate) fn blend_index(&self, id: &String) -> (r: Option<usize>)
        ensures
            match r {
                Option::Some(i) => i < self.blendfiles@.len() && self.blendfiles@[i as int].0@
                    == id@ && assoc_find(self.blendfiles@, id@) == Option::Some(
                    self.blendfiles@[i as int].1,
                ),
                Option::None => assoc_find(self.blendfiles@, id@) is None,
            },
    {
        let mut i: usize = 0;
        while i < self.blendfiles.len()
            invariant
                0 <= i <= self.blendfiles@.len(),
                forall|j: int| 0 <= j < i ==> (#[trigger] self.blendfiles@[j]).0@ != id@,
            decreases self.blendfiles@.len() - i,
        {
            if self.blendfiles[i].0.eq(id) {
                proof {
                    lemma_assoc_find_first(self.blendfiles@, id@, i as int);
                }
                return Option::Some(i);
            }
            i = i + 1;
        }
        proof {
            lemma_assoc_find_absent(self.blendfiles@, id@);
        }
        Option::None
    }

    /// Whether the cached status of job `id` names it finished.
    pub fn job_is_finished(&self, id: &String) -> (r: bool)
        ensures
            r == self.spec_job_is_finished(id@),
    {
        match self.parent_job_index(id) {
            Option::Some(i) => contains_sub(self.parent_jobs[i].1.as_str(), "Finished"),
            Option::None => false,
        }
    }

    /// Whether some cached job status names its job finished.
    pub fn any_job_finished(&self) -> (r: bool)
        ensures
            r == self.spec_any_job_finished(),
    {
        let mut i: usize = 0;
        while i < self.parent_jobs.len()
            invariant
                0 <= i <= self.parent_jobs@.len(),
                forall|j: int|
                    0 <= j < i ==> !seq_contains_sub(
                        (#[trigger] self.parent_jobs@[j]).1@,
                        "Finished"@,
                    ),
            decreases self.parent_jobs@.len() - i,
        {
            if contains_sub(self.parent_jobs[i].1.as_str(), "Finished") {
                return true;
            }
            i = i + 1;
        }
        false
    }

    /// Whether every cached job status names its job finished; true of an
    /// empty cache.
    pub fn all_jobs_finished(&self) -> (r: bool)
        ensures
            r == self.spec_all_jobs_finished(),
    {
        let mut i: usize = 0;
        while i < self.parent_jobs.len()
            invariant
                0 <= i <= self.parent_jobs@.len(),
                forall|j: int|
                    0 <= j < i ==> seq_contains_sub(
                        (#[trigger] self.parent_jobs@[j]).1@,
                        "Finished"@,
                    ),
            decreases self.parent_jobs@.len() - i,
        {
            if !contains_sub(self.parent_jobs[i].1.as_str(), "Finished") {
                return false;
            }
            i = i + 1;
        }
        true
    }

    /// Whether the scene of job `id` is present, downloaded or optimized.
    pub fn has_blendfile_by_id(&self, id: &String) -> (r: bool)
        ensures
            r == match assoc_find(self.blendfiles@, id@) {
                Option::Some(b) => !(b is Missing),
                Option::None => false,
            },
    {
        match self.blend_index(id) {
            Option::Some(i) => self.blendfiles[i].1.is_some(),
            Option::None => false,
        }
    }

    /// Whether the scene of the parent job of `t` is present.
    pub fn has_blendfile(&self, t: &Task) -> (r: bool)
        ensures
            r == match assoc_find(self.blendfiles@, t.parent_id@) {
                Option::Some(b) => !(b is Missing),
                Option::None => false,
            },
    {
        self.has_blendfile_by_id(&t.parent_id)
    }

    /// Whether a scene entry for job `id` exists at all, present or not.
    pub fn holds_parent_id(&self, id: &String) -> (r: bool)
        ensures
            r == (assoc_find(self.blendfiles@, id@) is Some),
    {
        self.blend_index(id).is_some()
    }

    /// Begin a job-status refresh: when one is due (a task is held and
    /// the status limiter permits), the cache is cleared for the
    /// wholesale rebuild and the distinct parent ids to query are
    /// returned.  An empty return means no refresh is due.
    pub fn update_parent_job_status(&mut self, now: u64) -> (ids: Vec<String>)
        requires
            old(self).wf(),
        ensures
            final(self).wf(),
            Work::tasks_monotone(*old(self), *final(self)),
            Work::scenes_monotone(*old(self), *final(self)),
            Work::acks_monotone(*old(self), *final(self)),
            ({
                let due = (old(self).tasks@.len() > 0 || old(self).current is Some) && old(
                    self,
                ).last_status.spec_should_run(now);
                if due {
                    &&& ids.deep_view() == crate::work::taskmanagment::unique_parents(
                        old(self).tasks@,
                    )
                    &&& final(self).parent_jobs@.len() == 0
                    &&& *final(self) == (Work { parent_jobs: final(self).parent_jobs, ..*old(self) })
                } else {
                    ids.deep_view() == Seq::<Seq<char>>::empty() && *final(self) == *old(self)
                }
            }),
    {
        let due = self.has_task() && self.last_status.should_run(now);
        if due {
            let ids = self.unique_parent_ids();
            self.parent_jobs = Vec::new();
            ids
        } else {
            let r: Vec<String> = Vec::new();
            proof {
                assert(r.deep_view() =~= Seq::<Seq<char>>::empty());
            }
            r
        }
    }

    /// Write `status` into the cache under `id`, replacing any entry.
    fn upsert_parent_job(&mut self, id: &String, status: String)
        requires
            old(self).wf(),
        ensures
            final(self).wf(),
            *final(self) == (Work { parent_jobs: final(self).parent_jobs, ..*old(self) }),
            assoc_find(final(self).parent_jobs@, id@) == Option::Some(status),
            forall|k: Seq<char>|
                k != id@ ==> #[trigger] assoc_find(final(self).parent_jobs@, k) == assoc_find(
                    old(self).parent_jobs@,
                    k,
                ),
    {
        let ghost pre = *old(self);
        match self.parent_job_index(id) {
            Option::Some(i) => {
                let entry = self.parent_jobs.remove(i);
                self.parent_jobs.insert(i, (entry.0, status));
                proof {
                    let e2 = self.parent_jobs@[i as int];
                    assert(self.parent_jobs@ =~= pre.parent_jobs@.update(i as int, e2));
                    assert forall|k: Seq<char>| #[trigger] assoc_find(self.parent_jobs@, k) == (
                        if k == pre.parent_jobs@[i as int].0@ {
                            Option::Some(e2.1)
                        } else {
                            assoc_find(pre.parent_jobs@, k)
                        }) by {
                        lemma_assoc_find_update(pre.parent_jobs@, i as int, e2, k);
                    }
                }
            },
            Option::None => {
                self.parent_jobs.push((id.clone(), status));
                proof {
                    assert(self.parent_jobs@.drop_last() =~= pre.parent_jobs@);
                    assert forall|j: int|
                        0 <= j < pre.parent_jobs@.len() implies (
                    #[trigger] pre.parent_jobs@[j]).0@ != id@ by {
                        if pre.parent_jobs@[j].0@ == id@ {
                            lemma_assoc_find_present(pre.parent_jobs@, j);
                        }
                    }
                    assert forall|k: Seq<char>|
                        k != id@ implies #[trigger] assoc_find(self.parent_jobs@, k) == assoc_find(
                        pre.parent_jobs@,
                        k,
                    ) by {}
                }
            },
        }
    }

    /// Fold one job-status reply from the coordinator into the cache.  The
    /// reply body is parsed for its quoted status token: on success the
    /// token is cached under `id` and the status limiter records the
    /// success; a malformed reply registers a failure and leaves the
    /// cache untouched.
    pub fn apply_job_status(&mut self, id: &String, body: &str, now: u64) -> (ok: bool)
        requires
            old(self).wf(),
            now <= MAX_TIME_MS,
        ensures
            final(self).wf(),
            Work::tasks_monotone(*old(self), *final(self)),
            Work::scenes_monotone(*old(self), *final(self)),
            Work::acks_monotone(*old(self), *final(self)),
            final(self).tasks == old(self).tasks,
            final(self).current == old(self).current,
            final(self).subprocess == old(self).subprocess,
            final(self).blendfiles == old(self).blendfiles,
            final(self).acked == old(self).acked,
            final(self).config == old(self).config,
            final(self).last_heartbeat == old(self).last_heartbeat,
            final(self).last_download == old(self).last_download,
            final(self).last_upload == old(self).last_upload,
            match crate::textutil::spec_status_token(body@) {
                Option::Some(tok) => {
                    &&& ok
                    &&& final(self).spec_job_status(id@) == Option::Some(tok)
                    &&& (forall|k: Seq<char>|
                        k != id@ ==> #[trigger] assoc_find(final(self).parent_jobs@, k)
                            == assoc_find(old(self).parent_jobs@, k))
                    &&& final(self).last_status == old(self).last_status.spec_after_success(now)
                },
                Option::None => {
                    &&& !ok
                    &&& final(self).parent_jobs == old(self).parent_jobs
                    &&& final(self).last_status == old(self).last_status.spec_after_failure(now)
                },
            },
    {
        match crate::textutil::status_token(body) {
            Option::Some(tok) => {
                self.upsert_parent_job(id, tok);
                self.last_status.set_last(now);
                true
            },
            Option::None => {
                self.last_status.set_last_failed(now);
                false
            },
        }
    }

    /// Cache `token` as the status of job `id` without parsing, as the
    /// server-mode status read hands it over; the status limiter records
    /// the success.
    pub fn apply_job_status_token(&mut self, id: &String, token: String, now: u64)
        requires
            old(self).wf(),
            now <= MAX_TIME_MS,
        ensures
            final(self).wf(),
            Work::tasks_monotone(*old(self), *final(self)),
            Work::scenes_monotone(*old(self), *final(self)),
            Work::acks_monotone(*old(self), *final(self)),
            *final(self) == (Work {
                parent_jobs: final(self).parent_jobs,
                last_status: final(self).last_status,
                ..*old(self)
            }),
            final(self).spec_job_status(id@) == Option::Some(token@),
            final(self).last_status == old(self).last_status.spec_after_success(now),
            forall|k: Seq<char>|
                k != id@ ==> #[trigger] assoc_find(final(self).parent_jobs@, k) == assoc_find(
                    old(self).parent_jobs@,
                    k,
                ),
    {
        self.upsert_parent_job(id, token);
        self.last_status.set_last(now);
    }

    /// Register a failed job-status request: the status limiter backs
    /// off; the cache keeps what it has.
    pub fn apply_job_status_error(&mut self, now: u64)
        requires
            old(self).wf(),
            now <= MAX_TIME_MS,
        ensures
            final(self).wf(),
            Work::tasks_monotone(*old(self), *final(self)),
            Work::scenes_monotone(*old(self), *final(self)),
            Work::acks_monotone(*old(self), *final(self)),
            *final(self) == (Work { last_status: final(self).last_status, ..*old(self) }),
            final(self).last_status == old(self).last_status.spec_after_failure(now),
    {
        self.last_status.set_last_failed(now);
    }

    /// Whether job `id` still needs its scene: no entry, or a failed one.
    pub open spec fn spec_scene_needed(&self, id: Seq<char>) -> bool {
        match assoc_find(self.blendfiles@, id) {
            Option::Some(b) => b is Missing,
            Option::None => true,
        }
    }

    /// The distinct parent ids of the parked tasks whose scene is not on
    /// disk yet.  The caller obtains each scene (by HTTP download in
    /// independent mode, by directory lookup in server mode) and reports
    /// back through `apply_blendfile_fetch` or `apply_blendfile_read`.
    pub fn get_blendfiles(&self) -> (ids: Vec<String>)
        ensures
            ids.deep_view() == spec_filter_needed(
                *self,
                crate::work::taskmanagment::unique_parents(self.tasks@),
            ),
            forall|k: int|
                0 <= k < ids.deep_view().len() ==> self.spec_scene_needed(
                    #[trigger] ids.deep_view()[k],
                ),
    {
        let all = self.unique_parent_ids();
        let ghost allv = all.deep_view();
        let mut r: Vec<String> = Vec::new();
        let mut i: usize = 0;
        while i < all.len()
            invariant
                0 <= i <= all@.len(),
                all@.len() == allv.len(),
                forall|j: int| 0 <= j < allv.len() ==> (#[trigger] all@[j])@ == allv[j],
                r.deep_view() == spec_filter_needed(*self, allv.subrange(0, i as int)),
                forall|k: int|
                    0 <= k < r.deep_view().len() ==> self.spec_scene_needed(
                        #[trigger] r.deep_view()[k],
                    ),
            decreases all@.len() - i,
        {
            let ghost pre_sub = allv.subrange(0, i as int);
            if !self.has_blendfile_by_id(&all[i]) {
                r.push(all[i].clone());
                proof {
                    assert(r.deep_view() =~= spec_filter_needed(*self, pre_sub).push(
                        allv[i as int],
                    ));
                }
            }
            proof {
                assert(allv.subrange(0, i + 1).drop_last() =~= pre_sub);
                assert(allv.subrange(0, i + 1).last() == allv[i as int]);
                assert(r.deep_view() =~= spec_filter_needed(*self, allv.subrange(0, i + 1)));
            }
            i = i + 1;
        }
        proof {
            assert(allv.subrange(0, allv.len() as int) =~= allv);
        }
        r
    }

    /// Whether a scene download may run now.
    pub fn download_should_run(&self, now: u64) -> (r: bool)
        requires
            self.wf(),
        ensures
            r == self.last_download.spec_should_run(now),
    {
        self.last_download.should_run(now)
    }

    /// Write `b` into the scene map under `id`, replacing any entry.
    fn upsert_blendfile(&mut self, id: &String, b: Blend)
        requires
            old(self).wf(),
            old(self).spec_scene_needed(id@),
            !(b is Missing) ==> b.spec_file().wf(),
        ensures
            final(self).wf(),
            *final(self) == (Work { blendfiles: final(self).blendfiles, ..*old(self) }),
            assoc_find(final(self).blendfiles@, id@) == Option::Some(b),
            forall|k: Seq<char>|
                k != id@ ==> #[trigger] assoc_find(final(self).blendfiles@, k) == assoc_find(
                    old(self).blendfiles@,
                    k,
                ),
            Work::tasks_monotone(*old(self), *final(self)),
            Work::scenes_monotone(*old(self), *final(self)),
            Work::acks_monotone(*old(self), *final(self)),
    {
        let ghost pre = *old(self);
        match self.blend_index(id) {
            Option::Some(i) => {
                let entry = self.blendfiles.remove(i);
                self.blendfiles.insert(i, (entry.0, b));
                proof {
                    let e2 = self.blendfiles@[i as int];
                    assert(self.blendfiles@ =~= pre.blendfiles@.update(i as int, e2));
                    assert forall|k: Seq<char>| #[trigger] assoc_find(self.blendfiles@, k) == (
                        if k == pre.blendfiles@[i as int].0@ {
                            Option::Some(e2.1)
                        } else {
                            assoc_find(pre.blendfiles@, k)
                        }) by {
                        lemma_assoc_find_update(pre.blendfiles@, i as int, e2, k);
                    }
                    assert forall|j: int| 0 <= j < self.tasks@.len() implies (
                    #[trigger] self.tasks@[j]).scene_path is Some ==> {
                        match assoc_find(self.blendfiles@, self.tasks@[j].parent_id@) {
                            Option::Some(bb) => !(bb is Missing),
                            Option::None => false,
                        }
                    } by {}
                }
            },
            Option::None => {
                self.blendfiles.push((id.clone(), b));
                proof {
                    assert(self.blendfiles@.drop_last() =~= pre.blendfiles@);
                    assert forall|j: int|
                        0 <= j < pre.blendfiles@.len() implies (
                    #[trigger] pre.blendfiles@[j]).0@ != id@ by {
                        if pre.blendfiles@[j].0@ == id@ {
                            lemma_assoc_find_present(pre.blendfiles@, j);
                        }
                    }
                    assert forall|k: Seq<char>|
                        k != id@ implies #[trigger] assoc_find(self.blendfiles@, k) == assoc_find(
                        pre.blendfiles@,
                        k,
                    ) by {}
                }
            },
        }
    }

    /// Record the scene file of job `id` as downloaded at `path`.
    pub fn add_blendfile(&mut self, id: &String, path: String, now: u64)
        requires
            old(self).wf(),
            old(self).spec_scene_needed(id@),
            now <= MAX_TIME_MS,
        ensures
            final(self).wf(),
            *final(self) == (Work { blendfiles: final(self).blendfiles, ..*old(self) }),
            (assoc_find(final(self).blendfiles@, id@) matches Option::Some(b) && b is Downloaded
                && b.spec_file().path@ == path@ && b.spec_file().frames_rendered == 0),
            forall|k: Seq<char>|
                k != id@ ==> #[trigger] assoc_find(final(self).blendfiles@, k) == assoc_find(
                    old(self).blendfiles@,
                    k,
                ),
            Work::tasks_monotone(*old(self), *final(self)),
            Work::scenes_monotone(*old(self), *final(self)),
            Work::acks_monotone(*old(self), *final(self)),
    {
        let bf = Blendfile::new(path, now);
        self.upsert_blendfile(id, Blend::Downloaded(bf));
    }

    /// Fold a scene download back in: a successful download (the path the
    /// scene was streamed to) becomes a `Downloaded` entry and the
    /// download limiter records the success; a failed one becomes a
    /// `Missing` entry and the limiter backs off.
    pub fn apply_blendfile_fetch(&mut self, id: &String, path: Option<String>, now: u64)
        requires
            old(self).wf(),
            old(self).spec_scene_needed(id@),
            now <= MAX_TIME_MS,
        ensures
            final(self).wf(),
            final(self).tasks == old(self).tasks,
            final(self).current == old(self).current,
            final(self).subprocess == old(self).subprocess,
            final(self).parent_jobs == old(self).parent_jobs,
            final(self).acked == old(self).acked,
            final(self).config == old(self).config,
            final(self).last_heartbeat == old(self).last_heartbeat,
            final(self).last_status == old(self).last_status,
            final(self).last_upload == old(self).last_upload,
            Work::tasks_monotone(*old(self), *final(self)),
            Work::scenes_monotone(*old(self), *final(self)),
            Work::acks_monotone(*old(self), *final(self)),
            forall|k: Seq<char>|
                k != id@ ==> #[trigger] assoc_find(final(self).blendfiles@, k) == assoc_find(
                    old(self).blendfiles@,
                    k,
                ),
            match path {
                Option::Some(p) => {
                    &&& (assoc_find(final(self).blendfiles@, id@) matches Option::Some(b)
                        && b is Downloaded && b.spec_file().path@ == p@)
                    &&& final(self).last_download == old(self).last_download.spec_after_success(
                        now,
                    )
                },
                Option::None => {
                    &&& (assoc_find(final(self).blendfiles@, id@) matches Option::Some(b)
                        && b is Missing)
                    &&& final(self).last_download == old(self).last_download.spec_after_failure(
                        now,
                    )
                },
            },
    {
        match path {
            Option::Some(p) => {
                self.add_blendfile(id, p, now);
                self.last_download.set_last(now);
            },
            Option::None => {
                self.upsert_blendfile(id, Blend::Missing);
                self.last_download.set_last_failed(now);
            },
        }
    }

    /// Fold a server-mode scene lookup back in: the first scene file found
    /// in the job's directory becomes a `Downloaded` entry; none becomes
    /// `Missing`.  No limiter is involved.
    pub fn apply_blendfile_read(&mut self, id: &String, found: Option<String>, now: u64)
        requires
            old(self).wf(),
            old(self).spec_scene_needed(id@),
            now <= MAX_TIME_MS,
        ensures
            final(self).wf(),
            *final(self) == (Work { blendfiles: final(self).blendfiles, ..*old(self) }),
            Work::tasks_monotone(*old(self), *final(self)),
            Work::scenes_monotone(*old(self), *final(self)),
            Work::acks_monotone(*old(self), *final(self)),
            forall|k: Seq<char>|
                k != id@ ==> #[trigger] assoc_find(final(self).blendfiles@, k) == assoc_find(
                    old(self).blendfiles@,
                    k,
                ),
            match found {
                Option::Some(p) => (assoc_find(final(self).blendfiles@, id@)
                    matches Option::Some(b) && b is Downloaded && b.spec_file().path@ == p@),
                Option::None => (assoc_find(final(self).blendfiles@, id@)
                    matches Option::Some(b) && b is Missing),
            },
    {
        match found {
            Option::Some(p) => {
                self.add_blendfile(id, p, now);
            },
            Option::None => {
                self.upsert_blendfile(id, Blend::Missing);
            },
        }
    }

    /// The path of the optimized scene of the parent job of `t`, if that
    /// scene is ready for rendering.
    pub fn get_blendfile_for_task(&self, t: &Task) -> (r: Option<String>)
        ensures
            match r {
                Option::Some(p) => (assoc_find(self.blendfiles@, t.parent_id@)
                    matches Option::Some(b) && b is Optimized && b.spec_file().path@ == p@),
                Option::None => !(assoc_find(self.blendfiles@, t.parent_id@)
                    matches Option::Some(b) && b is Optimized),
            },
    {
        match self.blend_index(&t.parent_id) {
            Option::Some(i) => match &self.blendfiles[i].1 {
                Blend::Optimized(bf) => Option::Some(bf.path.clone()),
                _ => Option::None,
            },
            Option::None => Option::None,
        }
    }

    /// Hand every task whose parent's scene is on disk the path of that
    /// scene, so command construction can use it.
    pub fn add_paths_to_tasks(&mut self)
        requires
            old(self).wf(),
        ensures
            final(self).wf(),
            *final(self) == (Work { tasks: final(self).tasks, ..*old(self) }),
            final(self).tasks@.len() == old(self).tasks@.len(),
            forall|i: int|
                0 <= i < old(self).tasks@.len() ==> {
                    let t0 = #[trigger] old(self).tasks@[i];
                    if t0.scene_path is None && (assoc_find(old(self).blendfiles@, t0.parent_id@)
                        matches Option::Some(b) && !(b is Missing)) {
                        final(self).tasks@[i] == (Task {
                            scene_path: final(self).tasks@[i].scene_path,
                            ..t0
                        }) && (final(self).tasks@[i].scene_path matches Option::Some(p) && p@
                            == assoc_find(
                            old(self).blendfiles@,
                            t0.parent_id@,
                        )->0.spec_file().path@)
                    } else {
                        final(self).tasks@[i] == t0
                    }
                },
            Work::tasks_monotone(*old(self), *final(self)),
            Work::scenes_monotone(*old(self), *final(self)),
            Work::acks_monotone(*old(self), *final(self)),
    {
        let ghost pre = *old(self);
        let mut i: usize = 0;
        while i < self.tasks.len()
            invariant
                self.wf(),
                pre.wf(),
                0 <= i <= self.tasks@.len(),
                self.tasks@.len() == pre.tasks@.len(),
                *self == (Work { tasks: self.tasks, ..pre }),
                forall|j: int| i <= j < pre.tasks@.len() ==> self.tasks@[j] == pre.tasks@[j],
                forall|j: int|
                    0 <= j < i ==> {
                        let t0 = #[trigger] pre.tasks@[j];
                        if t0.scene_path is None && (assoc_find(pre.blendfiles@, t0.parent_id@)
                            matches Option::Some(b) && !(b is Missing)) {
                            self.tasks@[j] == (Task {
                                scene_path: self.tasks@[j].scene_path,
                                ..t0
                            }) && (self.tasks@[j].scene_path matches Option::Some(p) && p@
                                == assoc_find(
                                pre.blendfiles@,
                                t0.parent_id@,
                            )->0.spec_file().path@)
                        } else {
                            self.tasks@[j] == t0
                        }
                    },
            decreases self.tasks@.len() - i,
        {
            let needs = self.tasks[i].scene_path.is_none();
            if needs {
                let path_opt: Option<String> = match self.blend_index(&self.tasks[i].parent_id) {
                    Option::Some(bi) => match &self.blendfiles[bi].1 {
                        Blend::Downloaded(bf) => Option::Some(bf.path.clone()),
                        Blend::Optimized(bf) => Option::Some(bf.path.clone()),
                        Blend::Missing => Option::None,
                    },
                    Option::None => Option::None,
                };
                match path_opt {
                    Option::Some(p) => {
                        let ghost tasks0 = self.tasks@;
                        let mut t = self.tasks.remove(i);
                        t.scene_path = Option::Some(p);
                        self.tasks.insert(i, t);
                        proof {
                            assert(self.tasks@ =~= tasks0.update(i as int, self.tasks@[i as int]));
                        }
                    },
                    Option::None => {},
                }
            }
            i = i + 1;
        }
        proof {
            lemma_monotone_from_pointwise(pre, *self);
        }
    }

    /// Whether every local task of job `id` is terminal with all frames
    /// uploaded, and no task of that job is in flight.  Only then may the
    /// job's scene be reclaimed.
    pub open spec fn spec_parent_done(&self, id: Seq<char>) -> bool {
        &&& forall|i: int|
            0 <= i < self.tasks@.len() ==> ((#[trigger] self.tasks@[i]).parent_id@ == id
                ==> self.tasks@[i].spec_is_ended() && self.tasks@[i].command.spec_all_uploaded())
        &&& (self.current matches Option::Some(c) ==> c.parent_id@ != id)
    }

    /// Whether the scene entry `(id, b)` may be reclaimed now: independent
    /// mode with a task held, an optimized scene whose job the coordinator
    /// reports finished, every local task of the job terminal and fully
    /// uploaded, and the grace period passed since the last access.
    pub open spec fn spec_reclaimable(&self, id: Seq<char>, b: Blend, now: u64) -> bool {
        &&& self.config.mode == crate::config::Mode::Independent
        &&& (self.tasks@.len() > 0 || self.current is Some)
        &&& b is Optimized
        &&& self.spec_parent_done(id)
        &&& (if now >= b.spec_file().lastaccess {
            now - b.spec_file().lastaccess
        } else {
            0
        }) > self.config.grace_period * 1000
        &&& self.spec_job_is_finished(id)
    }

    /// Whether every local task of job `id` is done and uploaded and none
    /// is in flight.
    pub(crate) fn parent_done(&self, id: &String) -> (r: bool)
        ensures
            r == self.spec_parent_done(id@),
    {
        let mut i: usize = 0;
        while i < self.tasks.len()
            invariant
                0 <= i <= self.tasks@.len(),
                forall|j: int|
                    0 <= j < i ==> ((#[trigger] self.tasks@[j]).parent_id@ == id@
                        ==> self.tasks@[j].spec_is_ended()
                        && self.tasks@[j].command.spec_all_uploaded()),
            decreases self.tasks@.len() - i,
        {
            if self.tasks[i].parent_id.eq(id) {
                if !(self.tasks[i].is_ended() && self.tasks[i].command.all_uploaded()) {
                    return false;
                }
            }
            i = i + 1;
        }
        match &self.current {
            Option::Some(c) => !c.parent_id.eq(id),
            Option::None => true,
        }
    }

    /// The scenes ready for reclamation: for each, the job id and the
    /// scene file path.  The caller deletes the files (the scene, its
    /// backup sibling, the job's frame directory) and reports back
    /// through `apply_reclaim`.
    pub fn reclaim_candidates(&self, now: u64) -> (r: Vec<(String, String)>)
        requires
            self.wf(),
        ensures
            forall|k: int|
                0 <= k < r@.len() ==> {
                    let id = (#[trigger] r@[k]).0@;
                    &&& (assoc_find(self.blendfiles@, id) matches Option::Some(b)
                        && self.spec_reclaimable(id, b, now) && b.spec_file().path@ == r@[k].1@)
                },
            forall|i: int|
                0 <= i < self.blendfiles@.len() ==> (self.spec_reclaimable(
                    (#[trigger] self.blendfiles@[i]).0@,
                    self.blendfiles@[i].1,
                    now,
                ) ==> exists|k: int| 0 <= k < r@.len() && (#[trigger] r@[k]).0@
                    == self.blendfiles@[i].0@),
    {
        let mut r: Vec<(String, String)> = Vec::new();
        let mut i: usize = 0;
        while i < self.blendfiles.len()
            invariant
                self.wf(),
                0 <= i <= self.blendfiles@.len(),
                forall|k: int|
                    0 <= k < r@.len() ==> {
                        let id = (#[trigger] r@[k]).0@;
                        &&& (assoc_find(self.blendfiles@, id) matches Option::Some(b)
                            && self.spec_reclaimable(id, b, now) && b.spec_file().path@
                            == r@[k].1@)
                    },
                forall|j: int|
                    0 <= j < i ==> (self.spec_reclaimable(
                        (#[trigger] self.blendfiles@[j]).0@,
                        self.blendfiles@[j].1,
                        now,
                    ) ==> exists|k: int| 0 <= k < r@.len() && (#[trigger] r@[k]).0@
                        == self.blendfiles@[j].0@),
            decreases self.blendfiles@.len() - i,
        {
            let gate = self.config.mode.is_independent() && self.has_task();
            if gate {
                let path_opt: Option<String> = match &self.blendfiles[i].1 {
                    Blend::Optimized(bf) => {
                        if bf.is_over_grace_period(now, self.config.grace_period * 1000) {
                            Option::Some(bf.path.clone())
                        } else {
                            Option::None
                        }
                    },
                    _ => Option::None,
                };
                match path_opt {
                    Option::Some(path) => {
                        let id = self.blendfiles[i].0.clone();
                        if self.parent_done(&id) && self.job_is_finished(&id) {
                            proof {
                                lemma_assoc_find_first(self.blendfiles@, id@, i as int);
                            }
                            let ghost r0 = r@;
                            r.push((id, path));
                            proof {
                                assert(r@.drop_last() =~= r0);
                                assert(forall|k: int| 0 <= k < r0.len() ==> r@[k] == r0[k]);
                                assert(r@[r0.len() as int].0@ == self.blendfiles@[i as int].0@);
                            }
                        }
                    },
                    Option::None => {},
                }
            }
            i = i + 1;
        }
        r
    }

    /// Fold a reclamation back in.  When the caller deleted the files of a
    /// scene that is (still) reclaimable, every task of that job leaves
    /// the task set and the scene entry is erased; otherwise nothing
    /// changes.  A reclamation thus only ever fires for a job whose local
    /// tasks all ended with every frame uploaded.
    pub fn apply_reclaim(&mut self, id: &String, deleted: bool, now: u64)
        requires
            old(self).wf(),
        ensures
            final(self).wf(),
            Work::tasks_monotone(*old(self), *final(self)),
            Work::scenes_monotone(*old(self), *final(self)),
            Work::acks_monotone(*old(self), *final(self)),
            final(self).current == old(self).current,
            final(self).subprocess == old(self).subprocess,
            final(self).parent_jobs == old(self).parent_jobs,
            final(self).acked == old(self).acked,
            final(self).config == old(self).config,
            final(self).last_heartbeat == old(self).last_heartbeat,
            final(self).last_status == old(self).last_status,
            final(self).last_download == old(self).last_download,
            final(self).last_upload == old(self).last_upload,
            ({
                let fire = deleted && (assoc_find(old(self).blendfiles@, id@)
                    matches Option::Some(b) && old(self).spec_reclaimable(id@, b, now));
                if fire {
                    &&& final(self).tasks@ == spec_remove_parent(old(self).tasks@, id@)
                    &&& assoc_find(final(self).blendfiles@, id@) is None
                    &&& (forall|k: Seq<char>|
                        k != id@ ==> #[trigger] assoc_find(final(self).blendfiles@, k)
                            == assoc_find(old(self).blendfiles@, k))
                } else {
                    *final(self) == *old(self)
                }
            }),
    {
        if !deleted {
            return ;
        }
        let eligible = match self.blend_index(id) {
            Option::Some(i) => {
                let gate = self.config.mode.is_independent() && self.has_task();
                let variant_ok = match &self.blendfiles[i].1 {
                    Blend::Optimized(bf) => bf.is_over_grace_period(
                        now,
                        self.config.grace_period * 1000,
                    ),
                    _ => false,
                };
                gate && variant_ok && self.parent_done(id) && self.job_is_finished(id)
            },
            Option::None => false,
        };
        if !eligible {
            return ;
        }
        let ghost pre = *old(self);
        // Remove every task of the job.
        let mut remaining: Vec<Task> = Vec::new();
        core::mem::swap(&mut remaining, &mut self.tasks);
        let ghost drained = remaining@;
        let mut kept: Vec<Task> = Vec::new();
        let ghost mut done: int = 0;
        while remaining.len() > 0
            invariant
                0 <= done <= drained.len(),
                remaining@ == drained.subrange(done, drained.len() as int),
                kept@ == spec_remove_parent(drained.subrange(0, done), id@),
            decreases remaining@.len(),
        {
            let ghost pre_sub = drained.subrange(0, done);
            let t = remaining.remove(0);
            proof {
                assert(drained.subrange(done, drained.len() as int)[0] == drained[done]);
                assert(t == drained[done]);
                assert(remaining@ =~= drained.subrange(done + 1, drained.len() as int));
            }
            let keep = !t.parent_id.eq(id);
            if keep {
                kept.push(t);
            }
            proof {
                assert(drained.subrange(0, done + 1).drop_last() =~= pre_sub);
                assert(drained.subrange(0, done + 1).last() == drained[done]);
                assert(kept@ =~= spec_remove_parent(drained.subrange(0, done + 1), id@));
                done = done + 1;
            }
        }
        proof {
            assert(drained.subrange(0, drained.len() as int) =~= drained);
        }
        self.tasks = kept;
        // Erase the scene entry.
        match self.blend_index(id) {
            Option::Some(bi) => {
                let ghost blends0 = self.blendfiles@;
                let removed = self.blendfiles.remove(bi);
                proof {
                    assert forall|k: Seq<char>| #[trigger] assoc_find(self.blendfiles@, k) == (
                        if k == id@ {
                            Option::<Blend>::None
                        } else {
                            assoc_find(blends0, k)
                        }) by {
                        lemma_assoc_find_remove(blends0, bi as int, k);
                    }
                }
            },
            Option::None => {
                proof {
                    assert(false);
                }
            },
        }
        proof {
            let post = *self;
            lemma_remove_parent_membership(pre.tasks@, id@);
            lemma_remove_parent_distinct(pre.tasks@, id@);
            assert forall|j: int| 0 <= j < post.tasks@.len() implies {
                let tj = #[trigger] post.tasks@[j];
                &&& tj.wf()
                &&& tj.status != TaskStatus::Running
                &&& tj.delivery_tag is Some
                &&& (tj.status != TaskStatus::Finished ==> !post.acked@.contains(
                    tj.delivery_tag->0,
                ))
                &&& (tj.status == TaskStatus::Finished ==> post.acked@.contains(
                    tj.delivery_tag->0,
                ))
                &&& (post.current matches Option::Some(c) ==> tj.id@ != c.id@ && tj.delivery_tag
                    != c.delivery_tag)
                &&& (tj.scene_path is Some ==> match assoc_find(post.blendfiles@, tj.parent_id@) {
                    Option::Some(b) => !(b is Missing),
                    Option::None => false,
                })
            } by {
                let tj = post.tasks@[j];
                assert(pre.tasks@.contains(tj));
                let m = choose|m: int| 0 <= m < pre.tasks@.len() && pre.tasks@[m] == tj;
                assert(tj.parent_id@ != id@);
            }
            assert(post.wf());
            assert(Work::tasks_monotone(pre, post)) by {
                assert forall|tid: Seq<char>|
                    match (
                        #[trigger] pre.spec_task_status(tid),
                        #[trigger] post.spec_task_status(tid),
                    ) {
                        (Option::Some(a), Option::Some(b)) => a.can_reach(b),
                        _ => true,
                    } by {
                    lemma_remove_parent_find(pre.tasks@, id@, tid);
                    crate::work::lemma_task_find_is_match(pre.tasks@, tid);
                    if task_find(pre.tasks@, tid) is Some {
                        let t = task_find(pre.tasks@, tid)->0;
                        let m = choose|m: int|
                            0 <= m < pre.tasks@.len() && pre.tasks@[m] == t;
                        match pre.current {
                            Option::Some(c) => {
                                assert(pre.tasks@[m].id@ != c.id@);
                            },
                            Option::None => {},
                        }
                    }
                }
            }
            assert(Work::scenes_monotone(pre, post)) by {
                assert forall|sid: Seq<char>|
                    match (
                        #[trigger] pre.spec_scene_rank(sid),
                        #[trigger] post.spec_scene_rank(sid),
                    ) {
                        (Option::Some(a), Option::Some(b)) => a <= b,
                        _ => true,
                    } by {}
            }
        }
    }

    /// The frame files safe to delete: in independent mode while a task is
    /// held, every output path of every finished task whose frames were
    /// all uploaded.  Frame reclamation is deliberately separate from
    /// scene reclamation, so a failed upload never loses a frame.
    pub fn cleanup_frames(&self) -> (r: Vec<String>)
        ensures
            r.deep_view() == (if self.config.mode == crate::config::Mode::Independent && (
                self.tasks@.len() > 0 || self.current is Some) {
                spec_frames_to_clean(self.tasks@)
            } else {
                Seq::<Seq<char>>::empty()
            }),
    {
        let mut r: Vec<String> = Vec::new();
        if !(self.config.mode.is_independent() && self.has_task()) {
            proof {
                assert(r.deep_view() =~= Seq::<Seq<char>>::empty());
            }
            return r;
        }
        let mut i: usize = 0;
        while i < self.tasks.len()
            invariant
                0 <= i <= self.tasks@.len(),
                r.deep_view() == spec_frames_to_clean(self.tasks@.subrange(0, i as int)),
            decreases self.tasks@.len() - i,
        {
            let ghost pre_sub = self.tasks@.subrange(0, i as int);
            let t = &self.tasks[i];
            let cleanable = t.is_finished() && match &t.command {
                TaskCommand::Renderer(rc) => rc.all_uploaded(),
                _ => false,
            };
            if cleanable {
                match &self.tasks[i].command {
                    TaskCommand::Renderer(rc) => {
                        let ghost base = r.deep_view();
                        let ghost paths = spec_output_path_list(*rc);
                        let mut j: usize = 0;
                        while j < rc.outputs.len()
                            invariant
                                0 <= j <= rc.outputs@.len(),
                                paths == spec_output_path_list(*rc),
                                paths.len() == rc.outputs@.len(),
                                r.deep_view() == base + paths.subrange(0, j as int),
                            decreases rc.outputs@.len() - j,
                        {
                            let ghost d0 = r.deep_view();
                            let ghost r0 = r@;
                            r.push(rc.outputs[j].path.clone());
                            proof {
                                assert forall|k: int| 0 <= k < d0.len() implies r.deep_view()[k]
                                    == d0[k] by {
                                    assert(r@[k] == r0[k]);
                                }
                                assert(r@[r0.len() as int]@ == paths[j as int]);
                                assert(r.deep_view()[r0.len() as int] == paths[j as int]);
                                assert(r.deep_view() =~= d0.push(paths[j as int]));
                                assert(d0.push(paths[j as int]) =~= base + paths.subrange(
                                    0,
                                    j + 1,
                                ));
                            }
                            j = j + 1;
                        }
                        proof {
                            assert(paths.subrange(0, paths.len() as int) =~= paths);
                            assert(r.deep_view() =~= base + paths);
                        }
                    },
                    _ => {
                        proof {
                            assert(false);
                        }
                    },
                }
            }
            proof {
                assert(self.tasks@.subrange(0, i + 1).drop_last() =~= pre_sub);
                assert(self.tasks@.subrange(0, i + 1).last() == self.tasks@[i as int]);
                assert(r.deep_view() =~= spec_frames_to_clean(self.tasks@.subrange(0, i + 1)));
            }
            i = i + 1;
        }
        proof {
            assert(self.tasks@.subrange(0, self.tasks@.len() as int) =~= self.tasks@);
        }
        r
    }
}


/// The upload-before-reclaim law: a scene reclamation only fires for a
/// job every one of whose local tasks is terminal with every frame
/// uploaded, none of whose tasks is in flight, whose scene is optimized
/// and past the grace period, and which the coordinator reports finished.
pub proof fn lemma_upload_before_reclaim(w: Work, id: Seq<char>, b: Blend, now: u64)
    requires
        w.spec_reclaimable(id, b, now),
    ensures
        w.spec_parent_done(id),
        forall|i: int|
            0 <= i < w.tasks@.len() ==> ((#[trigger] w.tasks@[i]).parent_id@ == id
                ==> w.tasks@[i].spec_is_ended() && w.tasks@[i].command.spec_all_uploaded()),
        (w.current matches Option::Some(c) ==> c.parent_id@ != id),
        b is Optimized,
        w.spec_job_is_finished(id),
{
}

} // verus!
