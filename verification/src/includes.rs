//! Stepwise resolution of manifest includes.
//!
//! Loading a manifest is a dialogue: this crate decides which include file
//! is needed next and how its scripts merge, and the surrounding binary
//! reads and parses the files. Includes resolve depth first, in declaration
//! order, and merge first-writer-wins; a path that was already merged is
//! skipped, and a path that is still being resolved — a cycle — stops the
//! load with an error instead of recursing forever.

use vstd::prelude::*;

verus! {

use vstd::string::StringExecFns;
use crate::errors::RobinError;
use crate::errors::RobinErrorV;
use crate::manifest::RobinConfig;
use crate::manifest::spec_merge;
use crate::manifest::clone_strings;
use crate::strutil::str_eq;

/// One manifest whose includes are still being walked: its path, its
/// include list, and how many of them are dealt with.
pub struct IncludeFrame {
    pub path: String,
    pub pending: Vec<String>,
    pub next: usize,
}

/// The open includes a frame still has ahead of it.
pub open spec fn frame_work(f: IncludeFrame) -> int {
    if f.next <= f.pending@.len() {
        f.pending@.len() - f.next
    } else {
        0
    }
}

/// The open includes of all frames together.
pub open spec fn remaining_work(frames: Seq<IncludeFrame>) -> int
    decreases frames.len(),
{
    if frames.len() == 0 {
        0
    } else {
        remaining_work(frames.drop_last()) + frame_work(frames.last())
    }
}

pub proof fn lemma_remaining_work_nonneg(frames: Seq<IncludeFrame>)
    ensures
        remaining_work(frames) >= 0,
    decreases frames.len(),
{
    if frames.len() > 0 {
        lemma_remaining_work_nonneg(frames.drop_last());
    }
}

/// Whether some frame on the stack — a manifest still being resolved —
/// has the given path.
pub open spec fn frames_contain(frames: Seq<IncludeFrame>, p: Seq<char>) -> bool {
    exists|k: int| 0 <= k < frames.len() && (#[trigger] frames[k]).path@ == p
}

/// Whether some string of the list reads exactly `p`.
pub open spec fn paths_contain(paths: Seq<String>, p: Seq<char>) -> bool {
    exists|k: int| 0 <= k < paths.len() && (#[trigger] paths[k])@ == p
}

/// Every frame cursor stays in bounds, and every pending list has a
/// machine-representable length.
pub open spec fn frames_ok(frames: Seq<IncludeFrame>) -> bool {
    forall|k: int|
        0 <= k < frames.len() ==> (#[trigger] frames[k]).next <= frames[k].pending@.len()
            && frames[k].pending@.len() <= usize::MAX
}

/// What the walk owes next, read off a frame stack and the processed set.
pub ghost enum WalkNeed {
    /// Every remaining include is already merged: the walk is over.
    Finished,
    /// The next unprocessed include, depth first, is still being resolved.
    Cycle { path: Seq<char> },
    /// The next unprocessed include, depth first, must be loaded.
    Load { path: Seq<char> },
}

/// The stack with the deepest frame's cursor moved past one include.
pub open spec fn advance_top(frames: Seq<IncludeFrame>) -> Seq<IncludeFrame> {
    let top = frames.last();
    frames.drop_last().push(
        IncludeFrame { path: top.path, pending: top.pending, next: (top.next + 1) as usize },
    )
}

/// The walk's next obligation: exhausted frames close, includes already
/// merged are stepped over, and the first remaining include — in
/// declaration order within a frame, deepest frame first — is a cycle if
/// an open frame bears its path, and a load otherwise.
pub open spec fn next_need(frames: Seq<IncludeFrame>, processed: Seq<String>) -> WalkNeed
    decreases remaining_work(frames), frames.len(),
    when frames_ok(frames)
    via next_need_decreases
{
    if frames.len() == 0 {
        WalkNeed::Finished
    } else {
        let top = frames.last();
        if top.next >= top.pending@.len() {
            next_need(frames.drop_last(), processed)
        } else {
            let p = top.pending@[top.next as int]@;
            if frames_contain(frames, p) {
                WalkNeed::Cycle { path: p }
            } else if paths_contain(processed, p) {
                next_need(advance_top(frames), processed)
            } else {
                WalkNeed::Load { path: p }
            }
        }
    }
}

#[via_fn]
proof fn next_need_decreases(frames: Seq<IncludeFrame>, processed: Seq<String>) {
    lemma_advance_measures(frames);
}

/// The frame stack once the walk has settled on its next obligation:
/// exhausted top frames are popped and merged includes stepped over, and
/// the stack stands as it was when the obligation was found.
pub open spec fn settled_frames(frames: Seq<IncludeFrame>, processed: Seq<String>) -> Seq<
    IncludeFrame,
>
    decreases remaining_work(frames), frames.len(),
    when frames_ok(frames)
    via settled_frames_decreases
{
    if frames.len() == 0 {
        frames
    } else {
        let top = frames.last();
        if top.next >= top.pending@.len() {
            settled_frames(frames.drop_last(), processed)
        } else {
            let p = top.pending@[top.next as int]@;
            if frames_contain(frames, p) {
                frames
            } else if paths_contain(processed, p) {
                settled_frames(advance_top(frames), processed)
            } else {
                frames
            }
        }
    }
}

#[via_fn]
proof fn settled_frames_decreases(frames: Seq<IncludeFrame>, processed: Seq<String>) {
    lemma_advance_measures(frames);
}

/// The two recursions of the walk shrink their measure: closing a frame
/// keeps the open-include count and shortens the stack, and stepping over
/// a merged include lowers the open-include count by one.
proof fn lemma_advance_measures(frames: Seq<IncludeFrame>)
    requires
        frames_ok(frames),
    ensures
        remaining_work(frames) >= 0,
        frames.len() > 0 ==> remaining_work(frames.drop_last()) >= 0,
        frames.len() > 0 && frames.last().next < frames.last().pending@.len() ==> {
            &&& frames_ok(advance_top(frames))
            &&& remaining_work(advance_top(frames)) == remaining_work(frames) - 1
            &&& advance_top(frames).len() == frames.len()
        },
        frames.len() > 0 ==> frames_ok(frames.drop_last()),
        frames.len() > 0 && frames.last().next >= frames.last().pending@.len()
            ==> remaining_work(frames.drop_last()) == remaining_work(frames),
{
    lemma_remaining_work_nonneg(frames);
    if frames.len() > 0 {
        lemma_remaining_work_nonneg(frames.drop_last());
        assert(forall|k: int|
            0 <= k < frames.len() - 1 ==> #[trigger] frames.drop_last()[k] == frames[k]);
        if frames.last().next < frames.last().pending@.len() {
            let adv = advance_top(frames);
            assert(adv.drop_last() =~= frames.drop_last());
            assert(adv.last().next == frames.last().next + 1);
            assert(remaining_work(adv) == remaining_work(adv.drop_last()) + frame_work(
                adv.last(),
            ));
            assert(forall|k: int| 0 <= k < adv.len() - 1 ==> #[trigger] adv[k] == frames[k]);
        }
    }
}

/// A walk whose only frame has no include left owes nothing: the next
/// step finishes it.
pub proof fn lemma_no_pending_finishes(frames: Seq<IncludeFrame>, processed: Seq<String>)
    requires
        frames_ok(frames),
        frames.len() == 1,
        frames[0].next >= frames[0].pending@.len(),
    ensures
        next_need(frames, processed) == WalkNeed::Finished,
        settled_frames(frames, processed) == Seq::<IncludeFrame>::empty(),
{
    assert(frames.drop_last().len() == 0);
    assert(frames_ok(frames.drop_last()));
    assert(next_need(frames, processed) == next_need(frames.drop_last(), processed));
    assert(settled_frames(frames, processed) == settled_frames(frames.drop_last(), processed));
    assert(settled_frames(frames.drop_last(), processed) == frames.drop_last());
    assert(frames.drop_last() =~= Seq::<IncludeFrame>::empty());
}

/// The walking state of a manifest load: the depth-first stack of open
/// manifests, the paths already merged, and the merge so far.
pub struct IncludeResolver {
    pub frames: Vec<IncludeFrame>,
    pub processed: Vec<String>,
    pub merged: RobinConfig,
}

impl IncludeResolver {
    /// Frame cursors stay in bounds and the merge stays well formed.
    pub open spec fn wf(&self) -> bool {
        &&& self.merged.wf()
        &&& frames_ok(self.frames@)
    }

    /// The include path the resolver is waiting on, if any: the first open
    /// include of the deepest frame.
    pub open spec fn awaiting(&self) -> Option<Seq<char>> {
        if self.frames@.len() == 0 {
            None
        } else {
            let top = self.frames@.last();
            if top.next < top.pending@.len() {
                Some(top.pending@[top.next as int]@)
            } else {
                None
            }
        }
    }

    /// Every frame is closed: the walk is over.
    pub open spec fn finished(&self) -> bool {
        self.frames@.len() == 0
    }

    /// Start resolving at a loaded root manifest.
    pub fn begin(root_path: String, root: RobinConfig) -> (r: IncludeResolver)
        requires
            root.wf(),
        ensures
            r.wf(),
            r.merged == root,
            r.processed@.len() == 1,
            r.processed@[0] == root_path,
            r.frames@.len() == 1,
            r.frames@[0].path == root_path,
            r.frames@[0].pending.deep_view() == root.includes.deep_view(),
            r.frames@[0].next == 0,
    {
        let pending = clone_strings(&root.includes);
        let pl = pending.len();
        proof {
            assert(pending@.len() == pl);
        }
        let mut frames: Vec<IncludeFrame> = Vec::new();
        frames.push(IncludeFrame { path: root_path.clone(), pending, next: 0 });
        let mut processed: Vec<String> = Vec::new();
        processed.push(root_path);
        IncludeResolver { frames, processed, merged: root }
    }

    fn frames_have_path(&self, p: &str) -> (r: bool)
        ensures
            r == frames_contain(self.frames@, p@),
    {
        let n = self.frames.len();
        let mut k: usize = 0;
        while k < n
            invariant
                0 <= k <= n,
                n == self.frames@.len(),
                forall|m: int| 0 <= m < k ==> (#[trigger] self.frames@[m]).path@ != p@,
            decreases n - k,
        {
            if str_eq(self.frames[k].path.as_str(), p) {
                return true;
            }
            k = k + 1;
        }
        false
    }

    fn processed_has_path(&self, p: &str) -> (r: bool)
        ensures
            r == paths_contain(self.processed@, p@),
    {
        let n = self.processed.len();
        let mut k: usize = 0;
        while k < n
            invariant
                0 <= k <= n,
                n == self.processed@.len(),
                forall|m: int| 0 <= m < k ==> (#[trigger] self.processed@[m])@ != p@,
            decreases n - k,
        {
            if str_eq(self.processed[k].as_str(), p) {
                return true;
            }
            k = k + 1;
        }
        false
    }

    /// Advance to the next include that actually needs loading.
    ///
    /// Frames whose includes are all dealt with are closed, and includes
    /// already merged are skipped. The result is exactly what the old
    /// state owed: the next unprocessed include in depth-first declaration
    /// order, `Ok(None)` precisely when none remains, and a
    /// `CyclicInclude` error precisely when that include's path belongs to
    /// a manifest still being resolved — naming that very path. The merge
    /// and the processed set are untouched either way, and the frame stack
    /// settles deterministically.
    pub fn step(&mut self) -> (r: Result<Option<String>, RobinError>)
        requires
            old(self).wf(),
        ensures
            final(self).wf(),
            final(self).merged == old(self).merged,
            final(self).processed == old(self).processed,
            final(self).frames@ == settled_frames(old(self).frames@, old(self).processed@),
            match r {
                Ok(Some(p)) => {
                    &&& next_need(old(self).frames@, old(self).processed@) == (WalkNeed::Load {
                        path: p@,
                    })
                    &&& final(self).awaiting() == Some(p@)
                    &&& !paths_contain(final(self).processed@, p@)
                    &&& !frames_contain(final(self).frames@, p@)
                },
                Ok(None) => {
                    &&& next_need(old(self).frames@, old(self).processed@) == WalkNeed::Finished
                    &&& final(self).finished()
                },
                Err(e) => e@ matches RobinErrorV::CyclicInclude { path } && {
                    &&& next_need(old(self).frames@, old(self).processed@) == (WalkNeed::Cycle {
                        path,
                    })
                    &&& frames_contain(final(self).frames@, path)
                },
            },
    {
        let ghost pr = old(self).processed@;
        loop
            invariant
                self.wf(),
                self.merged == old(self).merged,
                self.processed == old(self).processed,
                pr == old(self).processed@,
                next_need(old(self).frames@, pr) == next_need(self.frames@, pr),
                settled_frames(old(self).frames@, pr) == settled_frames(self.frames@, pr),
            decreases remaining_work(self.frames@), self.frames@.len(),
        {
            proof {
                lemma_advance_measures(self.frames@);
            }
            let flen = self.frames.len();
            if flen == 0 {
                proof {
                    assert(next_need(self.frames@, pr) == WalkNeed::Finished);
                    assert(settled_frames(self.frames@, pr) == self.frames@);
                }
                return Ok(None);
            }
            let ghost oldframes = self.frames@;
            let pend_len = self.frames[flen - 1].pending.len();
            let nxt = self.frames[flen - 1].next;
            if nxt >= pend_len {
                self.frames.pop();
                proof {
                    assert(self.frames@ =~= oldframes.drop_last());
                    assert(next_need(oldframes, pr) == next_need(oldframes.drop_last(), pr));
                    assert(settled_frames(oldframes, pr) == settled_frames(
                        oldframes.drop_last(),
                        pr,
                    ));
                }
                continue ;
            }
            let is_cycle = {
                let p = self.frames[flen - 1].pending[nxt].as_str();
                self.frames_have_path(p)
            };
            if is_cycle {
                let p = self.frames[flen - 1].pending[nxt].clone();
                proof {
                    assert(next_need(oldframes, pr) == (WalkNeed::Cycle { path: p@ }));
                    assert(settled_frames(oldframes, pr) == oldframes);
                }
                return Err(RobinError::CyclicInclude { path: p });
            }
            let already = {
                let p = self.frames[flen - 1].pending[nxt].as_str();
                self.processed_has_path(p)
            };
            if already {
                let mut top = self.frames.pop().unwrap();
                top.next = top.next + 1;
                self.frames.push(top);
                proof {
                    assert(self.frames@ =~= advance_top(oldframes));
                    lemma_advance_measures(oldframes);
                    assert(next_need(oldframes, pr) == next_need(advance_top(oldframes), pr));
                    assert(settled_frames(oldframes, pr) == settled_frames(
                        advance_top(oldframes),
                        pr,
                    ));
                }
                continue ;
            }
            let p = self.frames[flen - 1].pending[nxt].clone();
            proof {
                assert(next_need(oldframes, pr) == (WalkNeed::Load { path: p@ }));
                assert(settled_frames(oldframes, pr) == oldframes);
            }
            return Ok(Some(p));
        }
    }

    /// Merge a loaded include into the walk: its scripts join the merge
    /// first-writer-wins, its path counts as processed, and its own
    /// includes are opened as the new deepest frame.
    pub fn supply(&mut self, path: String, loaded: RobinConfig)
        requires
            old(self).wf(),
            old(self).awaiting() == Some(path@),
        ensures
            final(self).wf(),
            final(self).merged.includes == old(self).merged.includes,
            final(self).merged.entries() == spec_merge(
                old(self).merged.entries(),
                loaded.entries(),
            ),
            final(self).processed@ == old(self).processed@.push(path),
            final(self).frames@.len() == old(self).frames@.len() + 1,
            final(self).frames@.last().path == path,
            final(self).frames@.last().pending.deep_view() == loaded.includes.deep_view(),
            final(self).frames@.last().next == 0,
            final(self).frames@[final(self).frames@.len() - 2].next == old(
                self,
            ).frames@.last().next + 1,
            final(self).frames@[final(self).frames@.len() - 2].path == old(
                self,
            ).frames@.last().path,
            final(self).frames@[final(self).frames@.len() - 2].pending == old(
                self,
            ).frames@.last().pending,
            forall|k: int|
                0 <= k < old(self).frames@.len() - 1 ==> #[trigger] final(self).frames@[k] == old(
                    self,
                ).frames@[k],
    {
        self.merged.merge_from(&loaded);
        let mut top = self.frames.pop().unwrap();
        let pl = top.pending.len();
        proof {
            assert(top.next < pl);
        }
        top.next = top.next + 1;
        self.frames.push(top);
        let pending = clone_strings(&loaded.includes);
        let npl = pending.len();
        proof {
            assert(pending@.len() == npl);
        }
        self.frames.push(IncludeFrame { path: path.clone(), pending, next: 0 });
        self.processed.push(path);
    }

    /// The fully merged manifest, once the walk is over.
    pub fn into_config(self) -> (r: RobinConfig)
        requires
            self.wf(),
            self.finished(),
        ensures
            r == self.merged,
            r.wf(),
    {
        self.merged
    }
}

} // verus!
