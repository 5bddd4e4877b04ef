//! The path values that the virtual file system works on.
//!
//! A path is modelled as an anchor flag (whether the path starts at the
//! filesystem root) followed by a sequence of segments, where a segment is
//! the current directory (`.`), the parent directory (`..`), or a named
//! entry. Lexical normalization collapses `.` and `..` segments without
//! consulting a real filesystem.

use vstd::prelude::*;
use vstd::string::StringExecFns;
use vstd::string::StrSliceExecFns;

verus! {

/// One segment of a path: the current directory, the parent directory, or a
/// named entry. The anchor (leading `/`) is kept on [`VfsPath`] itself.
#[derive(Debug, PartialEq, Eq)]
pub enum Segment {
    CurDir,
    ParentDir,
    Entry(String),
}

/// Specification-level form of a [`Segment`]: a named entry is its characters.
pub enum SegView {
    Cur,
    Parent,
    Entry(Seq<char>),
}

impl View for Segment {
    type V = SegView;

    open spec fn view(&self) -> SegView {
        match self {
            Segment::CurDir => SegView::Cur,
            Segment::ParentDir => SegView::Parent,
            Segment::Entry(s) => SegView::Entry(s@),
        }
    }
}

impl Clone for Segment {
    fn clone(&self) -> (r: Self)
        ensures
            r@ == self@,
    {
        match self {
            Segment::CurDir => Segment::CurDir,
            Segment::ParentDir => Segment::ParentDir,
            Segment::Entry(s) => Segment::Entry(s.clone()),
        }
    }
}

/// A path value: possibly anchored, then a sequence of segments.
#[derive(Debug, PartialEq, Eq)]
pub struct VfsPath {
    pub anchored: bool,
    pub segments: Vec<Segment>,
}

/// Specification-level form of a [`VfsPath`].
#[verifier::ext_equal]
pub struct PathView {
    pub anchored: bool,
    pub segments: Seq<SegView>,
}

/// The view of a segment vector: each segment replaced by its view.
pub open spec fn segs_view(v: Seq<Segment>) -> Seq<SegView> {
    v.map_values(|s: Segment| s@)
}

impl View for VfsPath {
    type V = PathView;

    open spec fn view(&self) -> PathView {
        PathView { anchored: self.anchored, segments: segs_view(self.segments@) }
    }
}

impl Clone for VfsPath {
    fn clone(&self) -> (r: Self)
        ensures
            r@ == self@,
    {
        let segments = self.segments.clone();
        proof {
            assert forall|j: int| 0 <= j < segments@.len() implies segments@[j]@
                == self.segments@[j]@ by {
                assert(cloned::<Segment>(self.segments@[j], segments@[j]));
            }
            assert(segs_view(segments@) =~= segs_view(self.segments@));
        }
        let r = VfsPath { anchored: self.anchored, segments };
        assert(r@ =~= self@);
        r
    }
}

/// True on two segments exactly when their views agree.
pub fn seg_eq(a: &Segment, b: &Segment) -> (r: bool)
    ensures
        r == (a@ == b@),
{
    match (a, b) {
        (Segment::CurDir, Segment::CurDir) => true,
        (Segment::ParentDir, Segment::ParentDir) => true,
        (Segment::Entry(x), Segment::Entry(y)) => x.eq(y),
        _ => false,
    }
}

/// Lexical collapsing of a segment sequence, scanning left to right:
/// `.` is dropped; `..` cancels a preceding named entry, stays when the
/// result so far ends in `..` or is empty and unanchored, and is dropped at
/// the top of an anchored path (the anchor cannot be cancelled); named
/// entries are kept.
pub open spec fn norm_segs(segs: Seq<SegView>, anchored: bool) -> Seq<SegView>
    decreases segs.len(),
{
    if segs.len() == 0 {
        Seq::empty()
    } else {
        let acc = norm_segs(segs.drop_last(), anchored);
        match segs.last() {
            SegView::Cur => acc,
            SegView::Parent => {
                if acc.len() == 0 {
                    if anchored {
                        acc
                    } else {
                        acc.push(SegView::Parent)
                    }
                } else if acc.last() is Parent {
                    acc.push(SegView::Parent)
                } else {
                    acc.drop_last()
                }
            },
            SegView::Entry(n) => acc.push(SegView::Entry(n)),
        }
    }
}

/// Lexical normalization of a whole path: collapse the segments; an
/// unanchored path whose segments all cancel away becomes `.`.
pub open spec fn spec_normalize(p: PathView) -> PathView {
    let s = norm_segs(p.segments, p.anchored);
    PathView {
        anchored: p.anchored,
        segments: if !p.anchored && s.len() == 0 {
            seq![SegView::Cur]
        } else {
            s
        },
    }
}

/// The shape of collapsed segment sequences: no `.`, and `..` only as a
/// leading run (every segment before a `..` is itself `..`).
pub open spec fn shaped(s: Seq<SegView>) -> bool {
    &&& forall|i: int| 0 <= i < s.len() ==> !(s[i] is Cur)
    &&& forall|i: int, j: int| 0 <= i < j < s.len() && s[j] is Parent ==> s[i] is Parent
}

/// A collapsed anchored sequence contains named entries only.
pub open spec fn names_only(s: Seq<SegView>) -> bool {
    forall|i: int| 0 <= i < s.len() ==> s[i] is Entry
}

/// A path is in normal form exactly when normalizing it changes nothing.
pub open spec fn is_normalized(p: PathView) -> bool {
    spec_normalize(p) == p
}

/// Collapsing yields a shaped sequence; on an anchored path it yields named
/// entries only.
pub proof fn lemma_norm_segs_shaped(segs: Seq<SegView>, anchored: bool)
    ensures
        shaped(norm_segs(segs, anchored)),
        anchored ==> names_only(norm_segs(segs, anchored)),
    decreases segs.len(),
{
    if segs.len() > 0 {
        lemma_norm_segs_shaped(segs.drop_last(), anchored);
    }
}

/// Collapsing a sequence that is already shaped (and, when anchored, free of
/// `..`) changes nothing.
pub proof fn lemma_norm_segs_identity(segs: Seq<SegView>, anchored: bool)
    requires
        shaped(segs),
        anchored ==> names_only(segs),
    ensures
        norm_segs(segs, anchored) =~= segs,
    decreases segs.len(),
{
    if segs.len() > 0 {
        let front = segs.drop_last();
        assert(shaped(front)) by {
            assert(forall|i: int| 0 <= i < front.len() ==> front[i] == segs[i]);
        }
        lemma_norm_segs_identity(front, anchored);
        match segs.last() {
            SegView::Cur => {
                assert(!(segs[segs.len() - 1] is Cur));
            },
            SegView::Parent => {
                assert(segs[segs.len() - 1] is Parent);
                assert(forall|i: int| 0 <= i < segs.len() - 1 ==> segs[i] is Parent);
                if front.len() > 0 {
                    assert(front.last() is Parent);
                }
                assert(norm_segs(segs, anchored) =~= front.push(SegView::Parent));
                assert(segs =~= front.push(segs.last()));
            },
            SegView::Entry(n) => {
                assert(segs =~= front.push(segs.last()));
            },
        }
    }
}

/// Collapsing named entries followed by more segments: when the trailing
/// segments collapse to named entries on their own, they simply extend the
/// prefix; no `..` reaches into it.
pub proof fn lemma_norm_append(ra: Seq<SegView>, b: Seq<SegView>)
    requires
        names_only(ra),
        names_only(norm_segs(b, false)),
    ensures
        norm_segs(ra + b, true) =~= ra + norm_segs(b, false),
    decreases b.len(),
{
    if b.len() == 0 {
        assert(ra + b =~= ra);
        lemma_norm_segs_identity(ra, true);
    } else {
        let front = b.drop_last();
        let nf = norm_segs(front, false);
        let nb = norm_segs(b, false);
        lemma_norm_segs_shaped(front, false);
        match b.last() {
            SegView::Cur => {
                assert(nb == nf);
            },
            SegView::Entry(n) => {
                assert(nb == nf.push(SegView::Entry(n)));
                assert(nf =~= nb.drop_last());
            },
            SegView::Parent => {
                if nf.len() == 0 {
                    assert(nb == nf.push(SegView::Parent));
                    assert(nb[nb.len() - 1] is Parent);
                    assert(false);
                } else if nf.last() is Parent {
                    assert(nb == nf.push(SegView::Parent));
                    assert(nb[nb.len() - 1] is Parent);
                    assert(false);
                } else {
                    assert(nb == nf.drop_last());
                    assert(!(nf.last() is Cur));
                    assert(nf.last() is Entry);
                    assert forall|i: int| 0 <= i < nf.len() - 1 implies nf[i] is Entry by {
                        assert(nb[i] == nf[i]);
                        assert(nb[i] is Entry);
                    }
                }
            },
        }
        assert(names_only(nf));
        lemma_norm_append(ra, front);
        assert((ra + b).drop_last() =~= ra + front);
        assert((ra + b).last() == b.last());
        match b.last() {
            SegView::Cur => {
                assert(norm_segs(ra + b, true) == norm_segs(ra + front, true));
            },
            SegView::Entry(n) => {
                assert(norm_segs(ra + b, true) =~= (ra + nf).push(SegView::Entry(n)));
                assert((ra + nf).push(SegView::Entry(n)) =~= ra + nf.push(SegView::Entry(n)));
            },
            SegView::Parent => {
                assert((ra + nf).len() > 0);
                assert((ra + nf).last() == nf.last());
                assert(!((ra + nf).last() is Parent));
                assert(norm_segs(ra + b, true) =~= (ra + nf).drop_last());
                assert((ra + nf).drop_last() =~= ra + nf.drop_last());
            },
        }
    }
}

/// Normalization is idempotent: normalizing twice is normalizing once.
pub proof fn lemma_normalize_idempotent(p: PathView)
    ensures
        spec_normalize(spec_normalize(p)) == spec_normalize(p),
{
    let q = spec_normalize(p);
    lemma_norm_segs_shaped(p.segments, p.anchored);
    if !p.anchored && norm_segs(p.segments, p.anchored).len() == 0 {
        assert(q.segments =~= seq![SegView::Cur]);
        assert(norm_segs(q.segments, q.anchored) =~= norm_segs(
            q.segments.drop_last(),
            q.anchored,
        ));
        assert(q.segments.drop_last() =~= Seq::<SegView>::empty());
        assert(norm_segs(q.segments, q.anchored).len() == 0);
        assert(spec_normalize(q) =~= q);
    } else {
        lemma_norm_segs_identity(q.segments, q.anchored);
        assert(spec_normalize(q) =~= q);
    }
}

/// Concatenation of two paths: the anchor of the first, then the segments
/// of both in order.
pub open spec fn spec_join(a: PathView, b: PathView) -> PathView {
    PathView { anchored: a.anchored, segments: a.segments + b.segments }
}

/// Containment of one anchored path under another: both are anchored and
/// the prefix's segments open the other path.
pub open spec fn spec_starts_with(a: PathView, prefix: PathView) -> bool {
    &&& a.anchored
    &&& prefix.anchored
    &&& prefix.segments.is_prefix_of(a.segments)
}

/// The piece of text that reads as the current directory.
pub open spec fn is_cur_text(piece: Seq<char>) -> bool {
    piece.len() == 1 && piece[0] == '.'
}

/// The piece of text that reads as the parent directory.
pub open spec fn is_parent_text(piece: Seq<char>) -> bool {
    piece.len() == 2 && piece[0] == '.' && piece[1] == '.'
}

/// The segment a non-empty piece of text (no `/` inside) stands for.
pub open spec fn classify(piece: Seq<char>) -> SegView {
    if is_cur_text(piece) {
        SegView::Cur
    } else if is_parent_text(piece) {
        SegView::Parent
    } else {
        SegView::Entry(piece)
    }
}

/// Closes the pending piece of text: an empty piece is dropped, any other
/// becomes one more segment.
pub open spec fn flush(done: Seq<SegView>, pend: Seq<char>) -> Seq<SegView> {
    if pend.len() == 0 {
        done
    } else {
        done.push(classify(pend))
    }
}

/// The state after reading a prefix of the text: the segments already
/// closed by a `/`, and the piece still pending.
pub open spec fn parse_state(s: Seq<char>) -> (Seq<SegView>, Seq<char>)
    decreases s.len(),
{
    if s.len() == 0 {
        (Seq::empty(), Seq::empty())
    } else {
        let st = parse_state(s.drop_last());
        if s.last() == '/' {
            (flush(st.0, st.1), Seq::empty())
        } else {
            (st.0, st.1.push(s.last()))
        }
    }
}

/// The text split at `/` into segments, empty pieces dropped.
pub open spec fn split_segs(s: Seq<char>) -> Seq<SegView> {
    flush(parse_state(s).0, parse_state(s).1)
}

/// The path a piece of text stands for: a leading `/` anchors it, the rest
/// splits at `/` into segments.
pub open spec fn spec_parse(s: Seq<char>) -> PathView {
    let anchored = s.len() > 0 && s[0] == '/';
    let body = if anchored {
        s.skip(1)
    } else {
        s
    };
    PathView { anchored, segments: split_segs(body) }
}

/// The segment one non-empty piece of text stands for.
fn classify_piece(piece: &str) -> (g: Segment)
    ensures
        g@ == classify(piece@),
{
    let n = piece.unicode_len();
    if n == 1 && piece.get_char(0) == '.' {
        Segment::CurDir
    } else if n == 2 && piece.get_char(0) == '.' && piece.get_char(1) == '.' {
        Segment::ParentDir
    } else {
        Segment::Entry(piece.to_owned())
    }
}

/// The characters a single segment prints as.
pub open spec fn seg_chars(s: SegView) -> Seq<char> {
    match s {
        SegView::Cur => seq!['.'],
        SegView::Parent => seq!['.', '.'],
        SegView::Entry(n) => n,
    }
}

/// The characters a segment sequence prints as, separated by `/`.
pub open spec fn segs_text(segs: Seq<SegView>) -> Seq<char>
    decreases segs.len(),
{
    if segs.len() == 0 {
        Seq::empty()
    } else if segs.len() == 1 {
        seg_chars(segs[0])
    } else {
        segs_text(segs.drop_last()) + seq!['/'] + seg_chars(segs.last())
    }
}

/// The characters a whole path prints as: a leading `/` when anchored, then
/// the segments separated by `/`.
pub open spec fn spec_text(p: PathView) -> Seq<char> {
    if p.anchored {
        seq!['/'] + segs_text(p.segments)
    } else {
        segs_text(p.segments)
    }
}

impl VfsPath {
    /// Reads a path from text: a leading `/` anchors it; the rest splits at
    /// `/` into segments, empty pieces dropped, `.` and `..` recognized.
    pub fn parse(s: &str) -> (r: VfsPath)
        ensures
            r@ == spec_parse(s@),
    {
        let n = s.unicode_len();
        let anchored = n > 0 && s.get_char(0) == '/';
        let offset: usize = if anchored {
            1
        } else {
            0
        };
        let ghost body = if anchored {
            s@.skip(1)
        } else {
            s@
        };
        let mut segs: Vec<Segment> = Vec::new();
        let mut start: usize = offset;
        let mut i: usize = offset;
        while i < n
            invariant
                offset <= start <= i <= n,
                n == s@.len(),
                offset == (if anchored {
                    1usize
                } else {
                    0usize
                }),
                body == (if anchored {
                    s@.skip(1)
                } else {
                    s@
                }),
                segs_view(segs@) =~= parse_state(body.take(i - offset)).0,
                parse_state(body.take(i - offset)).1 =~= s@.subrange(start as int, i as int),
            decreases n - i,
        {
            let ghost k = i - offset;
            let ghost done = parse_state(body.take(k)).0;
            let ghost pend = parse_state(body.take(k)).1;
            proof {
                assert(body.take(k + 1).drop_last() =~= body.take(k));
                assert(body.take(k + 1).last() == s@[i as int]);
            }
            let c = s.get_char(i);
            if c == '/' {
                if i > start {
                    let piece = s.substring_char(start, i);
                    assert(piece@ =~= pend);
                    segs.push(classify_piece(piece));
                }
                start = i + 1;
                proof {
                    assert(segs_view(segs@) =~= flush(done, pend));
                    assert(parse_state(body.take(k + 1)).0 == flush(done, pend));
                    assert(parse_state(body.take(k + 1)).1 =~= s@.subrange(
                        start as int,
                        i + 1 as int,
                    ));
                }
            } else {
                proof {
                    assert(parse_state(body.take(k + 1)).0 == done);
                    assert(parse_state(body.take(k + 1)).1 =~= s@.subrange(
                        start as int,
                        i + 1 as int,
                    ));
                }
            }
            i += 1;
        }
        if n > start {
            let piece = s.substring_char(start, n);
            assert(piece@ =~= parse_state(body.take(n - offset)).1);
            segs.push(classify_piece(piece));
        }
        proof {
            assert(body.take(n - offset) =~= body);
            assert(segs_view(segs@) =~= split_segs(body));
        }
        let r = VfsPath { anchored, segments: segs };
        assert(r@ =~= spec_parse(s@));
        r
    }

    /// Lexically collapses `.` and `..` segments, without consulting a real
    /// filesystem; total, and idempotent by [`lemma_normalize_idempotent`].
    pub fn normalize(&self) -> (r: VfsPath)
        ensures
            r@ == spec_normalize(self@),
    {
        let mut out: Vec<Segment> = Vec::new();
        let mut i: usize = 0;
        while i < self.segments.len()
            invariant
                i <= self.segments.len(),
                segs_view(out@) =~= norm_segs(self@.segments.take(i as int), self.anchored),
            decreases self.segments.len() - i,
        {
            let ghost acc = segs_view(out@);
            let ghost out0 = out@;
            match &self.segments[i] {
                Segment::CurDir => {},
                Segment::ParentDir => {
                    if out.len() == 0 {
                        if !self.anchored {
                            out.push(Segment::ParentDir);
                        }
                    } else if matches!(out[out.len() - 1], Segment::ParentDir) {
                        out.push(Segment::ParentDir);
                    } else {
                        let _ = out.pop();
                    }
                },
                Segment::Entry(_) => out.push(self.segments[i].clone()),
            }
            proof {
                let segs = self@.segments;
                assert(segs.take(i + 1 as int).drop_last() =~= segs.take(i as int));
                assert(segs.take(i + 1 as int).last() == segs[i as int]);
                if out0.len() > 0 {
                    assert(acc[acc.len() - 1] == out0[out0.len() - 1]@);
                }
                assert(segs_view(out@) =~= norm_segs(
                    segs.take(i + 1 as int),
                    self.anchored,
                ));
            }
            i += 1;
        }
        proof {
            assert(self@.segments.take(self.segments@.len() as int) =~= self@.segments);
        }
        if !self.anchored && out.len() == 0 {
            out.push(Segment::CurDir);
            assert(segs_view(out@) =~= seq![SegView::Cur]);
        }
        let r = VfsPath { anchored: self.anchored, segments: out };
        assert(r@ =~= spec_normalize(self@));
        r
    }

    /// Appends the segments of `other` to this path, keeping this path's
    /// anchor.
    pub fn join(&self, other: &VfsPath) -> (r: VfsPath)
        ensures
            r@ == spec_join(self@, other@),
    {
        let mut joined = self.clone();
        let mut i: usize = 0;
        while i < other.segments.len()
            invariant
                i <= other.segments.len(),
                joined.anchored == self.anchored,
                segs_view(joined.segments@) =~= self@.segments + segs_view(
                    other.segments@.take(i as int),
                ),
            decreases other.segments.len() - i,
        {
            let ghost jold = joined.segments@;
            let seg = other.segments[i].clone();
            assert(seg@ == other.segments@[i as int]@);
            joined.segments.push(seg);
            proof {
                assert(joined.segments@ =~= jold.push(seg));
                assert(segs_view(jold.push(seg)) =~= segs_view(jold).push(seg@));
                assert(segs_view(other.segments@.take(i + 1 as int)) =~= segs_view(
                    other.segments@.take(i as int),
                ).push(other.segments@[i as int]@));
                assert(segs_view(joined.segments@) =~= self@.segments + segs_view(
                    other.segments@.take(i + 1 as int),
                ));
            }
            i += 1;
        }
        proof {
            assert(other.segments@.take(other.segments@.len() as int) =~= other.segments@);
            assert(joined@ =~= spec_join(self@, other@));
        }
        joined
    }

    /// True exactly when both paths are anchored and the segments of
    /// `prefix` are the first segments of this path.
    pub fn starts_with(&self, prefix: &VfsPath) -> (r: bool)
        ensures
            r == spec_starts_with(self@, prefix@),
    {
        if !self.anchored || !prefix.anchored {
            return false;
        }
        if prefix.segments.len() > self.segments.len() {
            assert(!prefix@.segments.is_prefix_of(self@.segments));
            return false;
        }
        let mut i: usize = 0;
        while i < prefix.segments.len()
            invariant
                i <= prefix.segments.len() <= self.segments.len(),
                forall|j: int| 0 <= j < i ==> prefix@.segments[j] == self@.segments[j],
            decreases prefix.segments.len() - i,
        {
            if !seg_eq(&prefix.segments[i], &self.segments[i]) {
                assert(prefix@.segments[i as int] != self@.segments[i as int]);
                assert(!prefix@.segments.is_prefix_of(self@.segments));
                return false;
            }
            i += 1;
        }
        assert(prefix@.segments =~= self@.segments.take(prefix@.segments.len() as int));
        true
    }

    /// Renders the path as text, segments separated by `/`.
    pub fn to_text(&self) -> (s: String)
        ensures
            s@ == spec_text(self@),
    {
        proof {
            reveal_strlit("/");
            reveal_strlit(".");
            reveal_strlit("..");
            reveal_strlit("");
        }
        let mut s = "".to_owned();
        if self.anchored {
            s.append("/");
        }
        let ghost anchor: Seq<char> = if self.anchored {
            seq!['/']
        } else {
            Seq::empty()
        };
        assert(s@ =~= anchor);
        let mut i: usize = 0;
        while i < self.segments.len()
            invariant
                i <= self.segments.len(),
                anchor == (if self.anchored {
                    seq!['/']
                } else {
                    Seq::<char>::empty()
                }),
                s@ =~= anchor + segs_text(self@.segments.take(i as int)),
            decreases self.segments.len() - i,
        {
            proof {
                reveal_strlit("/");
                reveal_strlit(".");
                reveal_strlit("..");
            }
            let ghost s0 = s@;
            if i > 0 {
                s.append("/");
            }
            let ghost s1 = s@;
            let ghost sv = self@.segments[i as int];
            match &self.segments[i] {
                Segment::CurDir => s.append("."),
                Segment::ParentDir => s.append(".."),
                Segment::Entry(n) => s.append(n.as_str()),
            }
            proof {
                assert(s@ =~= s1 + seg_chars(sv));
                let segs = self@.segments;
                assert(segs.take(i + 1 as int).drop_last() =~= segs.take(i as int));
                assert(segs.take(i + 1 as int).last() == segs[i as int]);
                if i > 0 {
                    assert(segs_text(segs.take(i + 1 as int)) == segs_text(segs.take(i as int))
                        + seq!['/'] + seg_chars(segs[i as int]));
                } else {
                    assert(segs_text(segs.take(1)) == seg_chars(segs[0]));
                }
                assert(s@ =~= anchor + segs_text(segs.take(i + 1 as int)));
            }
            i += 1;
        }
        proof {
            assert(self@.segments.take(self.segments@.len() as int) =~= self@.segments);
        }
        s
    }
}

} // verus!
