//! The per-job scene-file record: where the file lies on disk, when it was
//! created and last used, how many frames it has rendered, and how long
//! each frame took.  All times are in milliseconds.

use vstd::prelude::*;
use crate::ratelimit::MAX_TIME_MS;

verus! {

/// The sum of the first `n` entries of `s`.
pub open spec fn seq_sum_prefix(s: Seq<u64>, n: int) -> int
    decreases n,
{
    if n <= 0 {
        0
    } else {
        seq_sum_prefix(s, n - 1) + s[n - 1]
    }
}

/// `s` with `x` inserted in front of its first entry not below `x`.
pub open spec fn insert_sorted(x: u64, s: Seq<u64>) -> Seq<u64>
    decreases s.len(),
{
    if s.len() == 0 {
        seq![x]
    } else if x <= s[0] {
        seq![x] + s
    } else {
        seq![s[0]] + insert_sorted(x, s.drop_first())
    }
}

/// `s` sorted ascending by insertion sort.
pub open spec fn sort_seq(s: Seq<u64>) -> Seq<u64>
    decreases s.len(),
{
    if s.len() == 0 {
        Seq::<u64>::empty()
    } else {
        insert_sorted(s[0], sort_seq(s.drop_first()))
    }
}

/// Inserting into a sequence lengthens it by one.
pub proof fn lemma_insert_sorted_len(x: u64, s: Seq<u64>)
    ensures
        insert_sorted(x, s).len() == s.len() + 1,
    decreases s.len(),
{
    if s.len() != 0 && !(x <= s[0]) {
        lemma_insert_sorted_len(x, s.drop_first());
    }
}

/// Sorting keeps the length.
pub proof fn lemma_sort_seq_len(s: Seq<u64>)
    ensures
        sort_seq(s).len() == s.len(),
    decreases s.len(),
{
    if s.len() != 0 {
        lemma_sort_seq_len(s.drop_first());
        lemma_insert_sorted_len(s[0], sort_seq(s.drop_first()));
    }
}

/// Tracks one scene file on disk and the statistics of the frames rendered
/// from it.
#[derive(Debug)]
pub struct Blendfile {
    /// Path of the scene file on disk.
    pub path: String,
    /// When the record was created.
    pub creation: u64,
    /// When a frame last finished (or the record was created).
    pub lastaccess: u64,
    /// How many frames have been rendered from this scene.
    pub frames_rendered: usize,
    /// How long each rendered frame took, in order.
    pub frame_durations: Vec<u64>,
}

impl Blendfile {
    /// The bounds every record satisfies: timestamps and durations within
    /// `MAX_TIME_MS`, and the frame count equal to the number of recorded
    /// durations.
    pub open spec fn wf(&self) -> bool {
        &&& self.creation <= MAX_TIME_MS
        &&& self.lastaccess <= MAX_TIME_MS
        &&& self.frames_rendered == self.frame_durations@.len()
        &&& forall|i: int|
            0 <= i < self.frame_durations@.len() ==> self.frame_durations@[i] <= MAX_TIME_MS
    }

    /// Create a record for the scene file at `path`, created and last
    /// accessed `now`.
    pub fn new(path: String, now: u64) -> (r: Self)
        requires
            now <= MAX_TIME_MS,
        ensures
            r.wf(),
            r.path == path,
            r.creation == now,
            r.lastaccess == now,
            r.frames_rendered == 0,
            r.frame_durations@ == Seq::<u64>::empty(),
    {
        Blendfile {
            path,
            creation: now,
            lastaccess: now,
            frames_rendered: 0,
            frame_durations: Vec::new(),
        }
    }

    /// Record a rendered frame at `now`: the time since the last access is
    /// appended to the durations, the access time moves to `now`, and the
    /// frame count grows by one.  A clock that moved backwards records a
    /// duration of zero.
    pub fn increment_frame(&mut self, now: u64)
        requires
            old(self).wf(),
            now <= MAX_TIME_MS,
        ensures
            final(self).wf(),
            final(self).path == old(self).path,
            final(self).creation == old(self).creation,
            final(self).lastaccess == now,
            final(self).frames_rendered == old(self).frames_rendered + 1,
            final(self).frame_durations@ == old(self).frame_durations@.push(
                if now >= old(self).lastaccess {
                    (now - old(self).lastaccess) as u64
                } else {
                    0u64
                },
            ),
    {
        let duration: u64 = if now >= self.lastaccess {
            now - self.lastaccess
        } else {
            0
        };
        self.frame_durations.push(duration);
        self.lastaccess = now;
        self.frames_rendered = self.frame_durations.len();
    }

    /// Milliseconds since the record was created; zero if the clock moved
    /// backwards.
    pub fn age(&self, now: u64) -> (r: u64)
        ensures
            r == if now >= self.creation {
                now - self.creation
            } else {
                0
            },
    {
        if now >= self.creation {
            now - self.creation
        } else {
            0
        }
    }

    /// Milliseconds since a frame last finished; zero if the clock moved
    /// backwards.
    pub fn since_last_access(&self, now: u64) -> (r: u64)
        ensures
            r == if now >= self.lastaccess {
                now - self.lastaccess
            } else {
                0
            },
    {
        if now >= self.lastaccess {
            now - self.lastaccess
        } else {
            0
        }
    }

    /// The duration of the last rendered frame, if any.
    pub fn last_frame_duration(&self) -> (r: Option<u64>)
        ensures
            match r {
                Option::Some(d) => self.frame_durations@.len() > 0 && d
                    == self.frame_durations@.last(),
                Option::None => self.frame_durations@.len() == 0,
            },
    {
        let n = self.frame_durations.len();
        if n == 0 {
            Option::None
        } else {
            Option::Some(self.frame_durations[n - 1])
        }
    }

    /// The average duration of a rendered frame, rounded down.
    pub fn average_duration(&self) -> (r: u64)
        requires
            self.wf(),
            self.frame_durations@.len() > 0,
        ensures
            r == seq_sum_prefix(self.frame_durations@, self.frame_durations@.len() as int)
                / self.frame_durations@.len() as int,
    {
        let ghost s = self.frame_durations@;
        let n = self.frame_durations.len();
        let mut sum: u128 = 0;
        let mut i: usize = 0;
        while i < n
            invariant
                0 <= i <= n,
                n == s.len(),
                s == self.frame_durations@,
                self.wf(),
                sum == seq_sum_prefix(s, i as int),
                sum <= i * MAX_TIME_MS,
            decreases n - i,
        {
            let d = self.frame_durations[i];
            proof {
                assert(d <= MAX_TIME_MS);
                assert((i + 1) * MAX_TIME_MS == i * MAX_TIME_MS + MAX_TIME_MS) by (nonlinear_arith);
                assert(i * MAX_TIME_MS <= (usize::MAX as int) * MAX_TIME_MS) by (nonlinear_arith)
                    requires
                        0 <= i <= usize::MAX as int,
                ;
            }
            sum = sum + (d as u128);
            i = i + 1;
        }
        let avg: u128 = sum / (n as u128);
        proof {
            assert((n as int) * MAX_TIME_MS / (n as int) == MAX_TIME_MS) by (nonlinear_arith)
                requires
                    1 <= n as int,
            ;
            vstd::arithmetic::div_mod::lemma_div_is_ordered(
                sum as int,
                (n as int) * MAX_TIME_MS,
                n as int,
            );
        }
        avg as u64
    }

    /// The median duration of a rendered frame: the middle entry of the
    /// durations sorted ascending (the upper of the two middles when the
    /// count is even).
    pub fn mean_duration(&self) -> (r: u64)
        requires
            self.frame_durations@.len() > 0,
        ensures
            r == sort_seq(self.frame_durations@)[self.frame_durations@.len() as int / 2],
    {
        let sorted = sort_vec(&self.frame_durations);
        proof {
            lemma_sort_seq_len(self.frame_durations@);
        }
        sorted[sorted.len() / 2]
    }

    /// Whether the time since the last access exceeds `grace_ms`.
    pub fn is_over_grace_period(&self, now: u64, grace_ms: u64) -> (r: bool)
        ensures
            r == ((if now >= self.lastaccess {
                now - self.lastaccess
            } else {
                0
            }) > grace_ms),
    {
        self.since_last_access(now) > grace_ms
    }
}

/// A copy of `v` with the elements from index one on.
fn tail_vec(v: &Vec<u64>) -> (r: Vec<u64>)
    requires
        v@.len() > 0,
    ensures
        r@ == v@.drop_first(),
{
    let mut r: Vec<u64> = Vec::new();
    let mut i: usize = 1;
    while i < v.len()
        invariant
            1 <= i <= v@.len(),
            r@ == v@.subrange(1, i as int),
        decreases v@.len() - i,
    {
        r.push(v[i]);
        proof {
            assert(r@ =~= v@.subrange(1, i + 1));
        }
        i = i + 1;
    }
    proof {
        assert(r@ =~= v@.drop_first());
    }
    r
}

/// A copy of `v` with `x` in front.
fn prepend_vec(x: u64, v: &Vec<u64>) -> (r: Vec<u64>)
    ensures
        r@ == seq![x] + v@,
{
    let mut r: Vec<u64> = Vec::new();
    r.push(x);
    let mut i: usize = 0;
    while i < v.len()
        invariant
            0 <= i <= v@.len(),
            r@ == seq![x] + v@.subrange(0, i as int),
        decreases v@.len() - i,
    {
        r.push(v[i]);
        proof {
            assert(r@ =~= seq![x] + v@.subrange(0, i + 1));
        }
        i = i + 1;
    }
    proof {
        assert(r@ =~= seq![x] + v@);
    }
    r
}

/// Insert `x` into the sorted vector `v` in front of its first entry not
/// below `x`.
fn insert_sorted_vec(x: u64, v: &Vec<u64>) -> (r: Vec<u64>)
    ensures
        r@ == insert_sorted(x, v@),
    decreases v@.len(),
{
    if v.len() == 0 {
        let mut r: Vec<u64> = Vec::new();
        r.push(x);
        proof {
            assert(r@ =~= insert_sorted(x, v@));
        }
        r
    } else if x <= v[0] {
        prepend_vec(x, v)
    } else {
        let rest = tail_vec(v);
        let t = insert_sorted_vec(x, &rest);
        prepend_vec(v[0], &t)
    }
}

/// A sorted copy of `v`.
pub fn sort_vec(v: &Vec<u64>) -> (r: Vec<u64>)
    ensures
        r@ == sort_seq(v@),
    decreases v@.len(),
{
    if v.len() == 0 {
        Vec::new()
    } else {
        let rest = tail_vec(v);
        let sorted = sort_vec(&rest);
        insert_sorted_vec(v[0], &sorted)
    }
}

} // verus!
