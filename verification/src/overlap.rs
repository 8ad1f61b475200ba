//! Pairwise overlap detection between route patterns.
//!
//! Two patterns overlap when some path could match both.  The check is
//! purely structural and conservative: walking both patterns position by
//! position, a pair is safe exactly when, before any catch-all is reached,
//! two literals disagree, or one pattern ends while the other still has
//! segments.  Everything else counts as an overlap.

use vstd::prelude::*;

use crate::pattern::{segs_match, Pattern, SegView};
use crate::text::{join_slashes, str_eq};

verus! {

/// Whether two patterns could both match some path, judged structurally.
pub open spec fn patterns_overlap(a: Seq<SegView>, b: Seq<SegView>) -> bool
    decreases a.len(),
{
    if a.len() > 0 && a[0] is CatchAll {
        true
    } else if b.len() > 0 && b[0] is CatchAll {
        true
    } else if a.len() == 0 || b.len() == 0 {
        a.len() == b.len()
    } else {
        match (a[0], b[0]) {
            (SegView::Literal(x), SegView::Literal(y)) => x == y && patterns_overlap(
                a.drop_first(),
                b.drop_first(),
            ),
            _ => patterns_overlap(a.drop_first(), b.drop_first()),
        }
    }
}

/// The structural walk, run on two parsed patterns.
#[verifier::loop_isolation(false)]
pub fn check_overlap(a: &Pattern, b: &Pattern) -> (r: bool)
    ensures
        r == patterns_overlap(a@, b@),
{
    let pa = a.segments();
    let pb = b.segments();
    let mut i: usize = 0;
    proof {
        assert(a@.skip(0) =~= a@);
        assert(b@.skip(0) =~= b@);
    }
    while i < pa.len() && i < pb.len()
        invariant
            i <= pa@.len(),
            i <= pb@.len(),
            patterns_overlap(a@, b@) == patterns_overlap(a@.skip(i as int), b@.skip(i as int)),
        decreases pa@.len() - i,
    {
        proof {
            assert(a@.skip(i as int)[0] == a@[i as int]);
            assert(b@.skip(i as int)[0] == b@[i as int]);
            assert(a@.skip(i as int).drop_first() =~= a@.skip(i + 1 as int));
            assert(b@.skip(i as int).drop_first() =~= b@.skip(i + 1 as int));
            assert(a@[i as int] == pa@[i as int]@);
            assert(b@[i as int] == pb@[i as int]@);
        }
        match (&pa[i], &pb[i]) {
            (crate::pattern::Segment::CatchAll(_), _) => {
                return true;
            },
            (_, crate::pattern::Segment::CatchAll(_)) => {
                return true;
            },
            (crate::pattern::Segment::Literal(x), crate::pattern::Segment::Literal(y)) => {
                if !str_eq(x.as_str(), y.as_str()) {
                    return false;
                }
            },
            _ => {
            },
        }
        i = i + 1;
    }
    proof {
        if i < pa.len() {
            assert(a@.skip(i as int)[0] == a@[i as int]);
            assert(a@[i as int] == pa@[i as int]@);
        }
        if i < pb.len() {
            assert(b@.skip(i as int)[0] == b@[i as int]);
            assert(b@[i as int] == pb@[i as int]@);
        }
    }
    if i < pa.len() {
        return pa[i].is_catch_all();
    }
    if i < pb.len() {
        return pb[i].is_catch_all();
    }
    true
}

/// Soundness of the structural check: two patterns that both match one
/// path are judged overlapping, so patterns the check clears can never
/// both match.
pub proof fn lemma_common_match_implies_overlap(
    a: Seq<SegView>,
    b: Seq<SegView>,
    s: Seq<Seq<char>>,
)
    requires
        segs_match(a, s),
        segs_match(b, s),
    ensures
        patterns_overlap(a, b),
    decreases a.len(),
{
    if a.len() == 0 {
        assert(s.len() == 0);
        assert(b.len() == 0 || !(segs_match(b, s))) by {
            if b.len() > 0 {
                match b[0] {
                    SegView::CatchAll(_) => {
                        assert(join_slashes(s).len() == 0);
                    },
                    _ => {
                    },
                }
            }
        }
    } else if a[0] is CatchAll {
    } else if b.len() > 0 && b[0] is CatchAll {
    } else {
        assert(s.len() > 0);
        assert(b.len() > 0);
        lemma_common_match_implies_overlap(a.drop_first(), b.drop_first(), s.drop_first());
    }
}

/// The structural walk does not depend on the order of its arguments.
pub proof fn lemma_overlap_symmetric(a: Seq<SegView>, b: Seq<SegView>)
    ensures
        patterns_overlap(a, b) == patterns_overlap(b, a),
    decreases a.len() + b.len(),
{
    if a.len() > 0 && b.len() > 0 {
        lemma_overlap_symmetric(a.drop_first(), b.drop_first());
    }
}

/// Patterns of equal length with no catch-all and no literal disagreement
/// are judged overlapping: some path could match both.
pub proof fn lemma_no_divergence_overlap(a: Seq<SegView>, b: Seq<SegView>)
    requires
        a.len() == b.len(),
        forall|i: int| 0 <= i < a.len() ==> !((#[trigger] a[i]) is CatchAll),
        forall|i: int| 0 <= i < b.len() ==> !((#[trigger] b[i]) is CatchAll),
        forall|i: int|
            0 <= i < a.len() ==> ((#[trigger] a[i]) matches SegView::Literal(x) ==> (b[i] matches
                SegView::Literal(y) ==> x == y)),
    ensures
        patterns_overlap(a, b),
    decreases a.len(),
{
    if a.len() > 0 {
        assert(forall|i: int|
            0 <= i < a.drop_first().len() ==> !((#[trigger] a.drop_first()[i]) is CatchAll));
        assert(forall|i: int|
            0 <= i < b.drop_first().len() ==> !((#[trigger] b.drop_first()[i]) is CatchAll));
        assert forall|i: int|
            0 <= i < a.drop_first().len() implies ((#[trigger] a.drop_first()[i]) matches
            SegView::Literal(x) ==> (b.drop_first()[i] matches SegView::Literal(y) ==> x
                == y)) by {
            assert(a.drop_first()[i] == a[i + 1]);
            assert(b.drop_first()[i] == b[i + 1]);
        }
        lemma_no_divergence_overlap(a.drop_first(), b.drop_first());
    }
}

/// A literal disagreement at a common position, before any catch-all, makes
/// a pair safe: the walk never judges it overlapping.
pub proof fn lemma_literal_divergence_no_overlap(a: Seq<SegView>, b: Seq<SegView>, i: int)
    requires
        0 <= i < a.len(),
        i < b.len(),
        a[i] matches SegView::Literal(x) && b[i] matches SegView::Literal(y) && x != y,
        forall|j: int| 0 <= j <= i ==> !(a[j] is CatchAll) && !(b[j] is CatchAll),
    ensures
        !patterns_overlap(a, b),
    decreases i,
{
    if i == 0 {
    } else {
        assert(a.drop_first()[i - 1] == a[i]);
        assert(b.drop_first()[i - 1] == b[i]);
        assert(forall|j: int|
            0 <= j <= i - 1 ==> !(#[trigger] a.drop_first()[j] is CatchAll) && !(
            #[trigger] b.drop_first()[j] is CatchAll));
        lemma_literal_divergence_no_overlap(a.drop_first(), b.drop_first(), i - 1);
    }
}

} // verus!
