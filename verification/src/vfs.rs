//! Virtual file system: a canonical root directory plus purely lexical
//! translation between root-relative and absolute paths, with containment
//! checking. Filesystem access itself (canonicalization, existence checks,
//! directory creation and removal) is left to the caller; everything here is
//! lexical and total.

pub mod errors;
pub mod path;

use vstd::prelude::*;

use crate::vfs::errors::VfsError;
use crate::vfs::path::{
    names_only, norm_segs, spec_join, spec_normalize, spec_starts_with, is_normalized,
    lemma_norm_append, lemma_norm_segs_identity, lemma_norm_segs_shaped, PathView, SegView,
    Segment, VfsPath,
};

verus! {

/// A reference to a virtual file system: all operations are expressed
/// relative to `root`, which is kept anchored and normalized.
pub struct VirtualFileSystem {
    pub root: VfsPath,
}

/// A root is well formed when it is anchored and consists of named entries
/// only (no `.` or `..` segments).
pub open spec fn wf_root(r: PathView) -> bool {
    &&& r.anchored
    &&& names_only(r.segments)
}

/// Resolution of a path against a root. An anchored path is normalized; a
/// relative path is joined onto the root and normalized. Either way the
/// result must still lie under the root: leading `..` segments of a
/// relative input can reach above it, and such an input fails.
pub open spec fn spec_absolute(root: PathView, p: PathView) -> Option<PathView> {
    let n = if p.anchored {
        spec_normalize(p)
    } else {
        spec_normalize(spec_join(root, p))
    };
    if spec_starts_with(n, root) {
        Some(n)
    } else {
        None
    }
}

/// Translation of an anchored path to a root-relative one: resolve it, then
/// strip the root; an empty remainder reads as the current directory.
pub open spec fn spec_relative(root: PathView, p: PathView) -> Result<PathView, VfsError> {
    if !p.anchored {
        Err(VfsError::NotAbsoluteInput)
    } else {
        match spec_absolute(root, p) {
            None => Err(VfsError::OutOfScope),
            Some(a) => {
                let rest = a.segments.skip(root.segments.len() as int);
                Ok(
                    PathView {
                        anchored: false,
                        segments: if rest.len() == 0 {
                            seq![SegView::Cur]
                        } else {
                            rest
                        },
                    },
                )
            },
        }
    }
}

impl VirtualFileSystem {
    /// The stored root is anchored and normalized.
    pub open spec fn wf(&self) -> bool {
        wf_root(self.root@)
    }

    /// Creates a new virtual file system over an already canonical root.
    ///
    /// The caller resolves the candidate against the real filesystem first;
    /// this constructor accepts any anchored path, normalizes it and stores
    /// it as the root, and rejects an unanchored candidate.
    pub fn try_new(root: VfsPath) -> (r: Result<VirtualFileSystem, VfsError>)
        ensures
            root@.anchored ==> (match r {
                Ok(v) => v.root@ == spec_normalize(root@) && v.wf(),
                Err(_) => false,
            }),
            !root@.anchored ==> r == Err::<VirtualFileSystem, VfsError>(
                VfsError::NotAbsoluteInput,
            ),
    {
        if root.anchored {
            let normalized = root.normalize();
            proof {
                lemma_norm_segs_shaped(root@.segments, true);
            }
            Ok(VirtualFileSystem { root: normalized })
        } else {
            Err(VfsError::NotAbsoluteInput)
        }
    }

    /// Lexically collapses a path's `.` and `..` segments; never consults
    /// the filesystem and never fails.
    pub fn normalize(&self, path: &VfsPath) -> (r: VfsPath)
        ensures
            r@ == spec_normalize(path@),
    {
        path.normalize()
    }

    /// True when the path may belong to this virtual file system: every
    /// relative path does, an anchored one only under the root.
    pub fn contains(&self, path: &VfsPath) -> (r: bool)
        ensures
            r == (!path@.anchored || spec_starts_with(path@, self.root@)),
    {
        if path.anchored {
            path.starts_with(&self.root)
        } else {
            true
        }
    }

    /// Resolves a path to an anchored, normalized one. An anchored input is
    /// normalized; a relative input is joined onto the root and normalized.
    /// Either way the result must still lie under the root, so a relative
    /// input whose leading `..` segments reach above the root fails.
    pub fn absolute(&self, path: &VfsPath) -> (r: Option<VfsPath>)
        requires
            self.wf(),
        ensures
            match r {
                Some(a) => spec_absolute(self.root@, path@) == Some(a@),
                None => spec_absolute(self.root@, path@) is None,
            },
    {
        let n = if path.anchored {
            path.normalize()
        } else {
            let joined = self.root.join(path);
            joined.normalize()
        };
        if n.starts_with(&self.root) {
            Some(n)
        } else {
            None
        }
    }

    /// Translates an anchored path into one relative to the root: the
    /// resolved path with the root stripped, the current directory when
    /// nothing remains. Fails on an unanchored input, and on one that does
    /// not lie under the root.
    pub fn relative(&self, path: &VfsPath) -> (r: Result<VfsPath, VfsError>)
        requires
            self.wf(),
        ensures
            match r {
                Ok(q) => spec_relative(self.root@, path@) == Ok::<PathView, VfsError>(q@),
                Err(e) => spec_relative(self.root@, path@) == Err::<PathView, VfsError>(e),
            },
    {
        if !path.anchored {
            return Err(VfsError::NotAbsoluteInput);
        }
        match self.absolute(path) {
            None => Err(VfsError::OutOfScope),
            Some(a) => {
                let rootlen = self.root.segments.len();
                let mut rest: Vec<Segment> = Vec::new();
                let mut i: usize = rootlen;
                proof {
                    assert(spec_starts_with(a@, self.root@));
                }
                while i < a.segments.len()
                    invariant
                        rootlen <= i <= a.segments.len(),
                        rootlen == self.root.segments@.len(),
                        crate::vfs::path::segs_view(rest@) =~= a@.segments.subrange(
                            rootlen as int,
                            i as int,
                        ),
                    decreases a.segments.len() - i,
                {
                    let ghost r0 = rest@;
                    let seg = a.segments[i].clone();
                    rest.push(seg);
                    proof {
                        assert(crate::vfs::path::segs_view(rest@) =~= crate::vfs::path::segs_view(
                            r0,
                        ).push(a@.segments[i as int]));
                        assert(crate::vfs::path::segs_view(rest@) =~= a@.segments.subrange(
                            rootlen as int,
                            i + 1 as int,
                        ));
                    }
                    i += 1;
                }
                proof {
                    assert(a@.segments.subrange(rootlen as int, a@.segments.len() as int)
                        =~= a@.segments.skip(rootlen as int));
                }
                if rest.len() == 0 {
                    rest.push(Segment::CurDir);
                    let q = VfsPath { anchored: false, segments: rest };
                    assert(q@.segments =~= seq![SegView::Cur]);
                    Ok(q)
                } else {
                    Ok(VfsPath { anchored: false, segments: rest })
                }
            },
        }
    }

    /// Replaces the root by the resolution of `new_root`, all or nothing:
    /// on failure the root is exactly what it was.
    pub fn chroot(&mut self, new_root: &VfsPath) -> (r: bool)
        requires
            old(self).wf(),
        ensures
            match spec_absolute(old(self).root@, new_root@) {
                Some(a) => r && final(self).root@ == a,
                None => !r && final(self).root@ == old(self).root@,
            },
            final(self).wf(),
    {
        proof {
            lemma_absolute_wf(self.root@, new_root@);
        }
        match self.absolute(new_root) {
            Some(a) => {
                self.root = a;
                true
            },
            None => false,
        }
    }

    /// The resolution step shared by the directory operations: the absolute
    /// target of `path`, or `OutOfScope` when `path` does not lie under the
    /// root. No filesystem call is made.
    pub fn resolve(&self, path: &VfsPath) -> (r: Result<VfsPath, VfsError>)
        requires
            self.wf(),
        ensures
            match r {
                Ok(a) => spec_absolute(self.root@, path@) == Some(a@),
                Err(e) => spec_absolute(self.root@, path@) is None && e == VfsError::OutOfScope,
            },
    {
        match self.absolute(path) {
            Some(a) => Ok(a),
            None => Err(VfsError::OutOfScope),
        }
    }

    /// The `exists` decision: a path exists in the virtual file system
    /// exactly when it resolves and the filesystem reports the resolved
    /// path present. Resolution failure therefore always reads as absent.
    pub fn exists_given(&self, path: &VfsPath, on_disk: bool) -> (r: bool)
        requires
            self.wf(),
        ensures
            r == (spec_absolute(self.root@, path@) is Some && on_disk),
    {
        match self.absolute(path) {
            Some(_) => on_disk,
            None => false,
        }
    }
}

/// A successful resolution is anchored and consists of named entries only:
/// it can serve as a root again.
pub proof fn lemma_absolute_wf(root: PathView, p: PathView)
    requires
        wf_root(root),
    ensures
        spec_absolute(root, p) matches Some(a) ==> wf_root(a),
{
    if p.anchored {
        lemma_norm_segs_shaped(p.segments, true);
    } else {
        lemma_norm_segs_shaped(spec_join(root, p).segments, true);
    }
}

/// Anchoring: for every input, resolution either fails or returns an
/// anchored path that starts with the root.
pub proof fn lemma_absolute_anchored(root: PathView, p: PathView)
    requires
        wf_root(root),
    ensures
        spec_absolute(root, p) matches Some(a) ==> a.anchored && spec_starts_with(a, root),
{
}

/// A relative input that collapses to named entries alone never fails:
/// joined onto the root it stays under it.
pub proof fn lemma_absolute_relative_total(root: PathView, p: PathView)
    requires
        wf_root(root),
        !p.anchored,
        names_only(norm_segs(p.segments, false)),
    ensures
        spec_absolute(root, p) == Some(spec_normalize(spec_join(root, p))),
{
    let a = spec_normalize(spec_join(root, p));
    lemma_norm_append(root.segments, p.segments);
    assert(a.segments == root.segments + norm_segs(p.segments, false));
    assert(root.segments.is_prefix_of(a.segments)) by {
        assert(a.segments.take(root.segments.len() as int) =~= root.segments);
    }
}

/// Round trip: when a path resolves, the relative form of the resolved
/// path is normalized, and joining it back onto the root and normalizing
/// reproduces the resolved path.
pub proof fn lemma_round_trip(root: PathView, p: PathView, a: PathView)
    requires
        wf_root(root),
        spec_absolute(root, p) == Some(a),
    ensures
        spec_relative(root, a) matches Ok(q) && is_normalized(q) && spec_normalize(
            spec_join(root, q),
        ) == a,
{
    lemma_absolute_wf(root, p);
    assert(wf_root(a));
    // `a` is its own resolution: it is anchored, normalized and contained.
    lemma_norm_segs_identity(a.segments, true);
    assert(spec_normalize(a) =~= a);
    assert(spec_absolute(root, a) == Some(a));
    let rest = a.segments.skip(root.segments.len() as int);
    assert(names_only(rest)) by {
        assert(forall|i: int|
            0 <= i < rest.len() ==> rest[i] == a.segments[i + root.segments.len()]);
    }
    if rest.len() == 0 {
        let q = PathView { anchored: false, segments: seq![SegView::Cur] };
        assert(spec_relative(root, a) == Ok::<PathView, VfsError>(q));
        assert(norm_segs(q.segments, false) =~= norm_segs(q.segments.drop_last(), false));
        assert(q.segments.drop_last() =~= Seq::<SegView>::empty());
        assert(spec_normalize(q) =~= q);
        assert(spec_join(root, q).segments =~= a.segments.push(SegView::Cur));
        assert(norm_segs(a.segments.push(SegView::Cur), true) =~= norm_segs(
            a.segments.push(SegView::Cur).drop_last(),
            true,
        ));
        assert(a.segments.push(SegView::Cur).drop_last() =~= a.segments);
        assert(spec_normalize(spec_join(root, q)) =~= a);
    } else {
        let q = PathView { anchored: false, segments: rest };
        assert(spec_relative(root, a) == Ok::<PathView, VfsError>(q));
        assert(norm_segs(rest, false) =~= rest) by {
            lemma_norm_segs_identity(rest, false);
        }
        assert(spec_normalize(q) =~= q);
        lemma_norm_append(root.segments, rest);
        assert(spec_join(root, q).segments == root.segments + rest);
        assert(root.segments + rest =~= a.segments);
        assert(spec_normalize(spec_join(root, q)) =~= a);
    }
}

} // verus!
