//! The optimization phase: every downloaded scene is run through the
//! renderer with the side-car script before tasks of its job may be
//! selected.  The caller spawns the renderer; the engine decides which
//! scenes to optimize, judges the script's output, and records success.

use vstd::prelude::*;
use crate::blend::Blend;
use crate::task::Task;
use crate::work::{Work, assoc_find, lemma_assoc_find_first, lemma_assoc_find_update};

verus! {

/// Whether a line of optimizer output carries the side-car script's JSON:
/// its first character after leading blanks is an opening brace.
pub open spec fn spec_json_line(s: Seq<char>) -> bool {
    exists|j: int|
        0 <= j < s.len() && #[trigger] s[j] == '{' && (forall|k: int|
            0 <= k < j ==> s[k] == ' ' || s[k] == '\t')
}

/// Whether a line's first character after leading blanks is an opening
/// brace.
pub fn line_is_json(s: &str) -> (r: bool)
    ensures
        r == spec_json_line(s@),
{
    let n = s.unicode_len();
    let mut i: usize = 0;
    while i < n
        invariant
            0 <= i <= n,
            n == s@.len(),
            forall|k: int| 0 <= k < i ==> s@[k] == ' ' || s@[k] == '\t',
        decreases n - i,
    {
        let c = s.get_char(i);
        if c == '{' {
            return true;
        }
        if c != ' ' && c != '\t' {
            proof {
                assert forall|j: int|
                    !(0 <= j < s@.len() && #[trigger] s@[j] == '{' && (forall|k: int|
                        0 <= k < j ==> s@[k] == ' ' || s@[k] == '\t')) by {
                    if 0 <= j < s@.len() && s@[j] == '{' {
                        if j > i {
                            assert(s@[i as int] == ' ' || s@[i as int] == '\t' || !(forall|k: int|
                                0 <= k < j ==> s@[k] == ' ' || s@[k] == '\t')) by {
                                assert(i < j);
                            }
                        }
                    }
                }
            }
            return false;
        }
        i = i + 1;
    }
    false
}

/// Whether the optimizer's standard output shows the side-car script ran:
/// at least one line carries its JSON.  Empty output means failure.
pub fn optimize_output_ok(lines: &Vec<String>) -> (r: bool)
    ensures
        r == exists|i: int|
            0 <= i < lines.deep_view().len() && spec_json_line(#[trigger] lines.deep_view()[i]),
{
    let mut i: usize = 0;
    while i < lines.len()
        invariant
            0 <= i <= lines@.len(),
            forall|j: int| 0 <= j < i ==> !spec_json_line((#[trigger] lines@[j])@),
        decreases lines@.len() - i,
    {
        if line_is_json(lines[i].as_str()) {
            proof {
                assert(spec_json_line(lines.deep_view()[i as int]));
            }
            return true;
        }
        i = i + 1;
    }
    proof {
        assert forall|j: int|
            0 <= j < lines.deep_view().len() implies !spec_json_line(
            #[trigger] lines.deep_view()[j],
        ) by {
            assert(lines.deep_view()[j] == (lines@[j])@);
        }
    }
    false
}

impl Work {
    /// Whether the scene of the parent job of `t` is ready for rendering.
    pub fn blendfile_is_optimized(&self, t: &Task) -> (r: bool)
        ensures
            r == match assoc_find(self.blendfiles@, t.parent_id@) {
                Option::Some(b) => b is Optimized,
                Option::None => false,
            },
    {
        match self.blend_index(&t.parent_id) {
            Option::Some(i) => self.blendfiles[i].1.is_optimized(),
            Option::None => false,
        }
    }

    /// Whether the scene of the parent job of `t` is on disk but not yet
    /// optimized.
    pub fn blendfile_is_downloaded(&self, t: &Task) -> (r: bool)
        ensures
            r == match assoc_find(self.blendfiles@, t.parent_id@) {
                Option::Some(b) => b is Downloaded,
                Option::None => false,
            },
    {
        match self.blend_index(&t.parent_id) {
            Option::Some(i) => self.blendfiles[i].1.is_downloaded(),
            Option::None => false,
        }
    }

    /// Whether no scene is available for the parent job of `t`.
    pub fn blendfile_is_none(&self, t: &Task) -> (r: bool)
        ensures
            r == match assoc_find(self.blendfiles@, t.parent_id@) {
                Option::Some(b) => b is Missing,
                Option::None => true,
            },
    {
        match self.blend_index(&t.parent_id) {
            Option::Some(i) => self.blendfiles[i].1.is_none(),
            Option::None => true,
        }
    }

    /// The scenes waiting for optimization: each downloaded scene's job
    /// id and path.  The caller runs the optimizer on each and reports
    /// back through `apply_optimize_result`.
    pub fn blendfiles_to_optimize(&self) -> (r: Vec<(String, String)>)
        requires
            self.wf(),
        ensures
            forall|k: int|
                0 <= k < r@.len() ==> (assoc_find(self.blendfiles@, (#[trigger] r@[k]).0@)
                    matches Option::Some(b) && b is Downloaded && b.spec_file().path@
                    == r@[k].1@),
            forall|i: int|
                0 <= i < self.blendfiles@.len() ==> ((#[trigger] self.blendfiles@[i]).1
                    is Downloaded ==> exists|k: int|
                    0 <= k < r@.len() && (#[trigger] r@[k]).0@ == self.blendfiles@[i].0@),
    {
        let mut r: Vec<(String, String)> = Vec::new();
        let mut i: usize = 0;
        while i < self.blendfiles.len()
            invariant
                self.wf(),
                0 <= i <= self.blendfiles@.len(),
                forall|k: int|
                    0 <= k < r@.len() ==> (assoc_find(self.blendfiles@, (#[trigger] r@[k]).0@)
                        matches Option::Some(b) && b is Downloaded && b.spec_file().path@
                        == r@[k].1@),
                forall|j: int|
                    0 <= j < i ==> ((#[trigger] self.blendfiles@[j]).1 is Downloaded ==> exists|
                        k: int,
                    |
                        0 <= k < r@.len() && (#[trigger] r@[k]).0@ == self.blendfiles@[j].0@),
            decreases self.blendfiles@.len() - i,
        {
            match &self.blendfiles[i].1 {
                Blend::Downloaded(bf) => {
                    let id = self.blendfiles[i].0.clone();
                    let path = bf.path.clone();
                    proof {
                        lemma_assoc_find_first(self.blendfiles@, id@, i as int);
                    }
                    let ghost r0 = r@;
                    r.push((id, path));
                    proof {
                        assert(forall|k: int| 0 <= k < r0.len() ==> r@[k] == r0[k]);
                        assert(r@[r0.len() as int].0@ == self.blendfiles@[i as int].0@);
                    }
                },
                _ => {},
            }
            i = i + 1;
        }
        r
    }

    /// Fold an optimizer run back in: on success a downloaded scene
    /// becomes `Optimized`, keeping its record; on failure, or for a
    /// scene not in the downloaded state, nothing changes and the scene
    /// is retried on a later tick.
    pub fn apply_optimize_result(&mut self, id: &String, ok: bool)
        requires
            old(self).wf(),
        ensures
            final(self).wf(),
            Work::tasks_monotone(*old(self), *final(self)),
            Work::scenes_monotone(*old(self), *final(self)),
            Work::acks_monotone(*old(self), *final(self)),
            *final(self) == (Work { blendfiles: final(self).blendfiles, ..*old(self) }),
            forall|k: Seq<char>|
                k != id@ ==> #[trigger] assoc_find(final(self).blendfiles@, k) == assoc_find(
                    old(self).blendfiles@,
                    k,
                ),
            ({
                let fire = ok && (assoc_find(old(self).blendfiles@, id@) matches Option::Some(b)
                    && b is Downloaded);
                if fire {
                    (assoc_find(final(self).blendfiles@, id@) matches Option::Some(b2)
                        && b2 is Optimized && b2.spec_file() == assoc_find(
                        old(self).blendfiles@,
                        id@,
                    )->0.spec_file())
                } else {
                    final(self).blendfiles@ == old(self).blendfiles@
                }
            }),
    {
        if !ok {
            return ;
        }
        let ghost pre = *old(self);
        match self.blend_index(id) {
            Option::Some(i) => {
                let ghost blends0 = self.blendfiles@;
                let entry = self.blendfiles.remove(i);
                match entry.1 {
                    Blend::Downloaded(bf) => {
                        self.blendfiles.insert(i, (entry.0, Blend::Optimized(bf)));
                    },
                    other => {
                        self.blendfiles.insert(i, (entry.0, other));
                    },
                }
                proof {
                    let e2 = self.blendfiles@[i as int];
                    assert(self.blendfiles@ =~= blends0.update(i as int, e2));
                    assert forall|k: Seq<char>| #[trigger] assoc_find(self.blendfiles@, k) == (
                        if k == blends0[i as int].0@ {
                            Option::Some(e2.1)
                        } else {
                            assoc_find(blends0, k)
                        }) by {
                        lemma_assoc_find_update(blends0, i as int, e2, k);
                    }
                    if e2 == blends0[i as int] {
                        assert(self.blendfiles@ =~= blends0);
                    }
                }
            },
            Option::None => {},
        }
    }
}

} // verus!
