//! Route path patterns.
//!
//! A pattern string is split on `/`; each piece is a literal, a placeholder
//! `{name}` binding exactly one non-empty path segment, or a terminal
//! catch-all `{name...}` binding the whole non-empty remainder of the path.

use vstd::prelude::*;

use crate::text::{join_path, join_slashes, split_path, split_slashes, str_eq};

verus! {

/// One piece of a pattern.
pub enum Segment {
    Literal(String),
    Placeholder(String),
    CatchAll(String),
}

/// The mathematical shape of a `Segment`.
pub enum SegView {
    Literal(Seq<char>),
    Placeholder(Seq<char>),
    CatchAll(Seq<char>),
}

impl View for Segment {
    type V = SegView;

    open spec fn view(&self) -> SegView {
        match self {
            Segment::Literal(t) => SegView::Literal(t@),
            Segment::Placeholder(n) => SegView::Placeholder(n@),
            Segment::CatchAll(n) => SegView::CatchAll(n@),
        }
    }
}

impl DeepView for Segment {
    type V = SegView;

    open spec fn deep_view(&self) -> SegView {
        self.view()
    }
}

impl Segment {
    /// Whether this segment is a catch-all.
    pub fn is_catch_all(&self) -> (b: bool)
        ensures
            b == (self@ is CatchAll),
    {
        match self {
            Segment::CatchAll(_) => true,
            _ => false,
        }
    }

    /// The bound name of a placeholder or catch-all, and `None` for a
    /// literal.
    fn binding_name(&self) -> (r: Option<String>)
        ensures
            match self@ {
                SegView::Literal(_) => r is None,
                SegView::Placeholder(n) => r matches Some(s) && s@ == n,
                SegView::CatchAll(n) => r matches Some(s) && s@ == n,
            },
    {
        match self {
            Segment::Literal(_) => None,
            Segment::Placeholder(n) => Some(n.clone()),
            Segment::CatchAll(n) => Some(n.clone()),
        }
    }
}

/// A piece of the form `{name...}`.
pub open spec fn is_catchall_chunk(c: Seq<char>) -> bool {
    c.len() >= 5 && c[0] == '{' && c[c.len() - 4] == '.' && c[c.len() - 3] == '.' && c[c.len()
        - 2] == '.' && c[c.len() - 1] == '}'
}

/// A piece of the form `{name}` that is not a catch-all.
pub open spec fn is_placeholder_chunk(c: Seq<char>) -> bool {
    !is_catchall_chunk(c) && c.len() >= 2 && c[0] == '{' && c[c.len() - 1] == '}'
}

/// The segment a single piece of a pattern string denotes.
pub open spec fn chunk_seg(c: Seq<char>) -> SegView {
    if is_catchall_chunk(c) {
        SegView::CatchAll(c.subrange(1, c.len() - 4))
    } else if is_placeholder_chunk(c) {
        SegView::Placeholder(c.subrange(1, c.len() - 1))
    } else {
        SegView::Literal(c)
    }
}

/// The segments a whole pattern string denotes.
pub open spec fn spec_pattern(s: Seq<char>) -> Seq<SegView> {
    split_slashes(s).map_values(|c: Seq<char>| chunk_seg(c))
}

/// A catch-all may only stand in the last position.
pub open spec fn catchall_terminal(p: Seq<SegView>) -> bool {
    forall|i: int| 0 <= i < p.len() - 1 ==> !(p[i] is CatchAll)
}

/// The bound names of a pattern, in order of appearance.
pub open spec fn pattern_names(p: Seq<SegView>) -> Seq<Seq<char>>
    decreases p.len(),
{
    if p.len() == 0 {
        Seq::<Seq<char>>::empty()
    } else {
        match p[0] {
            SegView::Literal(_) => pattern_names(p.drop_first()),
            SegView::Placeholder(n) => seq![n] + pattern_names(p.drop_first()),
            SegView::CatchAll(n) => seq![n] + pattern_names(p.drop_first()),
        }
    }
}

pub open spec fn unique_names(ns: Seq<Seq<char>>) -> bool {
    forall|i: int, j: int| 0 <= i < j < ns.len() ==> ns[i] != ns[j]
}

/// A well-formed pattern: the catch-all, if any, is terminal, and no bound
/// name repeats.
pub open spec fn pattern_wf(p: Seq<SegView>) -> bool {
    catchall_terminal(p) && unique_names(pattern_names(p))
}

/// Whether pattern `p` matches the path split `segs`: literals match their
/// segment exactly, a placeholder matches one non-empty segment, and a
/// catch-all matches the non-empty joined remainder.
pub open spec fn segs_match(p: Seq<SegView>, segs: Seq<Seq<char>>) -> bool
    decreases p.len(),
{
    if p.len() == 0 {
        segs.len() == 0
    } else {
        match p[0] {
            SegView::Literal(t) => segs.len() > 0 && segs[0] == t && segs_match(
                p.drop_first(),
                segs.drop_first(),
            ),
            SegView::Placeholder(_) => segs.len() > 0 && segs[0].len() > 0 && segs_match(
                p.drop_first(),
                segs.drop_first(),
            ),
            SegView::CatchAll(_) => join_slashes(segs).len() > 0,
        }
    }
}

/// The captured substrings of a match, one per bound name in order.
pub open spec fn captures_of(p: Seq<SegView>, segs: Seq<Seq<char>>) -> Seq<Seq<char>>
    decreases p.len(),
{
    if p.len() == 0 {
        Seq::<Seq<char>>::empty()
    } else {
        match p[0] {
            SegView::Literal(_) => captures_of(p.drop_first(), segs.drop_first()),
            SegView::Placeholder(_) => seq![segs[0]] + captures_of(
                p.drop_first(),
                segs.drop_first(),
            ),
            SegView::CatchAll(_) => seq![join_slashes(segs)],
        }
    }
}

/// A structural match holds one capture per bound name.
pub proof fn lemma_captures_len(p: Seq<SegView>, s: Seq<Seq<char>>)
    requires
        catchall_terminal(p),
        segs_match(p, s),
    ensures
        captures_of(p, s).len() == pattern_names(p).len(),
    decreases p.len(),
{
    if p.len() == 0 {
    } else {
        match p[0] {
            SegView::CatchAll(n) => {
                assert(p.len() == 1);
                assert(p.drop_first().len() == 0);
                assert(captures_of(p, s) =~= seq![join_slashes(s)]);
                assert(pattern_names(p.drop_first()) =~= Seq::<Seq<char>>::empty());
                assert(pattern_names(p) =~= seq![n]);
            },
            _ => {
                assert(forall|i: int|
                    0 <= i < p.drop_first().len() - 1 ==> !(#[trigger] p.drop_first()[i]
                        is CatchAll));
                lemma_captures_len(p.drop_first(), s.drop_first());
            },
        }
    }
}

/// Two segments agree structurally when they are literals with the same
/// text, or both bind (names aside) the same shape.
pub open spec fn seg_struct_eq(a: SegView, b: SegView) -> bool {
    match (a, b) {
        (SegView::Literal(x), SegView::Literal(y)) => x == y,
        (SegView::Placeholder(_), SegView::Placeholder(_)) => true,
        (SegView::CatchAll(_), SegView::CatchAll(_)) => true,
        _ => false,
    }
}

/// Structural equality of whole patterns: same length, segments agreeing
/// position by position, names ignored.
pub open spec fn pattern_struct_eq(p: Seq<SegView>, q: Seq<SegView>) -> bool {
    p.len() == q.len() && forall|i: int| 0 <= i < p.len() ==> seg_struct_eq(p[i], q[i])
}

pub proof fn lemma_struct_eq_reflexive(p: Seq<SegView>)
    ensures
        pattern_struct_eq(p, p),
{
    assert forall|i: int| 0 <= i < p.len() implies seg_struct_eq(p[i], p[i]) by {}
}

pub proof fn lemma_struct_eq_symmetric(p: Seq<SegView>, q: Seq<SegView>)
    requires
        pattern_struct_eq(p, q),
    ensures
        pattern_struct_eq(q, p),
{
    assert forall|i: int| 0 <= i < q.len() implies seg_struct_eq(q[i], p[i]) by {
        assert(seg_struct_eq(p[i], q[i]));
    }
}

pub proof fn lemma_struct_eq_transitive(p: Seq<SegView>, q: Seq<SegView>, r: Seq<SegView>)
    requires
        pattern_struct_eq(p, q),
        pattern_struct_eq(q, r),
    ensures
        pattern_struct_eq(p, r),
{
    assert forall|i: int| 0 <= i < p.len() implies seg_struct_eq(p[i], r[i]) by {
        assert(seg_struct_eq(p[i], q[i]));
        assert(seg_struct_eq(q[i], r[i]));
    }
}

/// Structurally equal patterns with the same bound names are equal.
pub proof fn lemma_struct_and_names_eq(p: Seq<SegView>, q: Seq<SegView>)
    requires
        pattern_struct_eq(p, q),
        pattern_names(p) == pattern_names(q),
    ensures
        p == q,
    decreases p.len(),
{
    if p.len() == 0 {
        assert(p =~= q);
    } else {
        assert(seg_struct_eq(p[0], q[0]));
        assert(forall|i: int|
            0 <= i < p.drop_first().len() ==> seg_struct_eq(
                #[trigger] p.drop_first()[i],
                q.drop_first()[i],
            ));
        match (p[0], q[0]) {
            (SegView::Literal(_), SegView::Literal(_)) => {
                lemma_struct_and_names_eq(p.drop_first(), q.drop_first());
            },
            _ => {
                let np = pattern_names(p.drop_first());
                let nq = pattern_names(q.drop_first());
                assert(np.len() == pattern_names(p).len() - 1);
                assert(nq.len() == pattern_names(q).len() - 1);
                assert(np =~= nq) by {
                    assert forall|k: int| 0 <= k < np.len() implies np[k] == nq[k] by {
                        assert(pattern_names(p)[k + 1] == np[k]);
                        assert(pattern_names(q)[k + 1] == nq[k]);
                    }
                }
                lemma_struct_and_names_eq(p.drop_first(), q.drop_first());
                match (p[0], q[0]) {
                    (SegView::Placeholder(n1), SegView::Placeholder(n2)) => {
                        assert(n1 == pattern_names(p)[0]);
                        assert(n2 == pattern_names(q)[0]);
                    },
                    (SegView::CatchAll(n1), SegView::CatchAll(n2)) => {
                        assert(n1 == pattern_names(p)[0]);
                        assert(n2 == pattern_names(q)[0]);
                    },
                    _ => {
                        assert(false);
                    },
                }
                assert(p[0] == q[0]);
            },
        }
        assert forall|i: int| 0 <= i < p.len() implies p[i] == q[i] by {
            if i > 0 {
                assert(p.drop_first()[i - 1] == q.drop_first()[i - 1]);
            }
        }
        assert(p =~= q);
    }
}

/// Why a pattern string is rejected.
#[derive(Clone, Copy, Debug, PartialEq, Eq, Structural)]
pub enum PatternError {
    /// A catch-all is followed by further segments.
    CatchAllNotTerminal,
    /// A placeholder or catch-all name appears twice.
    DuplicatePlaceholder,
}

/// A parsed, well-formed pattern.
pub struct Pattern {
    segs: Vec<Segment>,
}

impl View for Pattern {
    type V = Seq<SegView>;

    closed spec fn view(&self) -> Seq<SegView> {
        self.segs.deep_view()
    }
}

fn names_of(segs: &Vec<Segment>) -> (r: Vec<String>)
    ensures
        r.deep_view() == pattern_names(segs.deep_view()),
{
    let ghost p = segs.deep_view();
    let mut names: Vec<String> = Vec::new();
    let mut i: usize = 0;
    proof {
        assert(p.skip(0) =~= p);
        assert(names.deep_view() =~= Seq::<Seq<char>>::empty());
        assert(names.deep_view() + pattern_names(p) =~= pattern_names(p));
    }
    while i < segs.len()
        invariant
            i <= segs@.len(),
            p == segs.deep_view(),
            names.deep_view() + pattern_names(p.skip(i as int)) == pattern_names(p),
        decreases segs@.len() - i,
    {
        let ghost prev = names.deep_view();
        let ghost bname: Seq<char> = match p[i as int] {
            SegView::Literal(_) => Seq::<char>::empty(),
            SegView::Placeholder(n) => n,
            SegView::CatchAll(n) => n,
        };
        proof {
            assert(p.skip(i as int)[0] == p[i as int]);
            assert(p.skip(i as int).drop_first() =~= p.skip(i + 1 as int));
        }
        match segs[i].binding_name() {
            Some(n) => {
                names.push(n);
                proof {
                    assert(names.deep_view() =~= prev.push(bname));
                    assert(prev.push(bname) + pattern_names(p.skip(i + 1 as int)) =~= prev + (seq![
                        bname,
                    ] + pattern_names(p.skip(i + 1 as int))));
                }
            },
            None => {
            },
        }
        i = i + 1;
    }
    proof {
        assert(p.skip(p.len() as int) =~= Seq::<SegView>::empty());
        assert(names.deep_view() =~= pattern_names(p));
    }
    names
}

fn classify_chunk(chunk: String) -> (r: Segment)
    ensures
        r@ == chunk_seg(chunk@),
{
    let n = chunk.as_str().unicode_len();
    if n >= 5 && chunk.as_str().get_char(0) == '{' && chunk.as_str().get_char(n - 4) == '.'
        && chunk.as_str().get_char(n - 3) == '.' && chunk.as_str().get_char(n - 2) == '.'
        && chunk.as_str().get_char(n - 1) == '}' {
        let name = String::from_str(chunk.as_str().substring_char(1, n - 4));
        Segment::CatchAll(name)
    } else if n >= 2 && chunk.as_str().get_char(0) == '{' && chunk.as_str().get_char(n - 1)
        == '}' {
        let name = String::from_str(chunk.as_str().substring_char(1, n - 1));
        Segment::Placeholder(name)
    } else {
        Segment::Literal(chunk)
    }
}

impl Pattern {
    /// Parses a pattern string, rejecting a non-terminal catch-all and a
    /// repeated placeholder name.
    #[verifier::loop_isolation(false)]
    pub fn parse(path: &str) -> (r: Result<Pattern, PatternError>)
        ensures
            r is Ok <==> pattern_wf(spec_pattern(path@)),
            r matches Ok(p) ==> p@ == spec_pattern(path@),
            r matches Err(e) ==> ((e == PatternError::CatchAllNotTerminal) <==> !catchall_terminal(
                spec_pattern(path@),
            )),
            r matches Err(e) ==> ((e == PatternError::DuplicatePlaceholder) <==> (
            catchall_terminal(spec_pattern(path@)) && !unique_names(
                pattern_names(spec_pattern(path@)),
            ))),
    {
        let ghost sp = spec_pattern(path@);
        let chunks = split_path(path);
        let mut segs: Vec<Segment> = Vec::new();
        let mut k: usize = 0;
        proof {
            assert(segs.deep_view() =~= sp.take(0));
        }
        while k < chunks.len()
            invariant
                k <= chunks@.len(),
                chunks.deep_view() == split_slashes(path@),
                sp == spec_pattern(path@),
                segs.deep_view() == sp.take(k as int),
            decreases chunks@.len() - k,
        {
            let ghost prev = segs.deep_view();
            let piece = chunks[k].clone();
            let seg = classify_chunk(piece);
            segs.push(seg);
            proof {
                assert(sp[k as int] == chunk_seg(chunks.deep_view()[k as int]));
                assert(segs.deep_view() =~= prev.push(sp[k as int]));
                assert(segs.deep_view() =~= sp.take(k + 1 as int));
            }
            k = k + 1;
        }
        proof {
            assert(sp.take(sp.len() as int) =~= sp);
        }
        let nsegs = segs.len();
        let mut i: usize = 0;
        while i < nsegs
            invariant
                i <= nsegs == segs@.len(),
                segs.deep_view() == sp,
                forall|j: int| 0 <= j < i && j < nsegs - 1 ==> !(sp[j] is CatchAll),
            decreases nsegs - i,
        {
            if i + 1 < nsegs && segs[i].is_catch_all() {
                proof {
                    assert(sp[i as int] == segs@[i as int]@);
                    assert(!catchall_terminal(sp));
                }
                return Err(PatternError::CatchAllNotTerminal);
            }
            i = i + 1;
        }
        assert(catchall_terminal(sp));
        let names = names_of(&segs);
        let ghost ns = pattern_names(sp);
        let mut a: usize = 0;
        while a < names.len()
            invariant
                a <= names@.len(),
                names.deep_view() == ns,
                forall|x: int, y: int| 0 <= x < y < ns.len() && x < a ==> ns[x] != ns[y],
            decreases names@.len() - a,
        {
            let mut b: usize = a + 1;
            while b < names.len()
                invariant
                    a < b <= names@.len(),
                    names.deep_view() == ns,
                    forall|y: int| a < y < b ==> ns[a as int] != ns[y],
                decreases names@.len() - b,
            {
                if str_eq(names[a].as_str(), names[b].as_str()) {
                    proof {
                        assert(ns[a as int] == names@[a as int]@);
                        assert(ns[b as int] == names@[b as int]@);
                        assert(!unique_names(ns));
                    }
                    return Err(PatternError::DuplicatePlaceholder);
                }
                b = b + 1;
            }
            a = a + 1;
        }
        assert(unique_names(ns));
        Ok(Pattern { segs })
    }

    /// The parsed segments.
    pub fn segments(&self) -> (r: &Vec<Segment>)
        ensures
            r.deep_view() == self@,
    {
        &self.segs
    }

    /// The bound names, in order of appearance.
    pub fn placeholder_names(&self) -> (r: Vec<String>)
        ensures
            r.deep_view() == pattern_names(self@),
    {
        names_of(&self.segs)
    }

    /// How many values a match of this pattern captures.
    pub fn placeholder_count(&self) -> (r: usize)
        ensures
            r == pattern_names(self@).len(),
    {
        self.placeholder_names().len()
    }

    /// Matches a request path against this pattern, returning the captured
    /// substrings, one per bound name in order.
    #[verifier::loop_isolation(false)]
    pub fn matches(&self, path: &str) -> (r: Option<Vec<String>>)
        ensures
            r is Some <==> segs_match(self@, split_slashes(path@)),
            r matches Some(c) ==> c.deep_view() == captures_of(self@, split_slashes(path@)),
    {
        let parts = split_path(path);
        let ghost pp = self@;
        let ghost ss = split_slashes(path@);
        let mut caps: Vec<String> = Vec::new();
        let mut i: usize = 0;
        proof {
            assert(pp.skip(0) =~= pp);
            assert(ss.skip(0) =~= ss);
            assert(caps.deep_view() + captures_of(pp, ss) =~= captures_of(pp, ss));
        }
        while i < self.segs.len()
            invariant
                i <= self.segs@.len(),
                i <= parts@.len(),
                pp == self@,
                parts.deep_view() == ss,
                segs_match(pp, ss) <==> segs_match(pp.skip(i as int), ss.skip(i as int)),
                segs_match(pp, ss) ==> captures_of(pp, ss) == caps.deep_view() + captures_of(
                    pp.skip(i as int),
                    ss.skip(i as int),
                ),
            decreases self.segs@.len() - i,
        {
            proof {
                assert(pp.skip(i as int)[0] == pp[i as int]);
                assert(pp.skip(i as int).drop_first() =~= pp.skip(i + 1 as int));
                if i < ss.len() {
                    assert(ss.skip(i as int)[0] == ss[i as int]);
                    assert(ss.skip(i as int).drop_first() =~= ss.skip(i + 1 as int));
                }
            }
            proof {
                assert(pp[i as int] == self.segs@[i as int]@);
            }
            match &self.segs[i] {
                Segment::Literal(t) => {
                    if !(i < parts.len() && str_eq(t.as_str(), parts[i].as_str())) {
                        return None;
                    }
                },
                Segment::Placeholder(_) => {
                    if !(i < parts.len() && parts[i].as_str().unicode_len() > 0) {
                        return None;
                    }
                    let ghost prevc = caps.deep_view();
                    caps.push(parts[i].clone());
                    proof {
                        assert(caps.deep_view() =~= prevc.push(ss[i as int]));
                        assert(prevc.push(ss[i as int]) + captures_of(
                            pp.skip(i + 1 as int),
                            ss.skip(i + 1 as int),
                        ) =~= prevc + (seq![ss[i as int]] + captures_of(
                            pp.skip(i + 1 as int),
                            ss.skip(i + 1 as int),
                        )));
                    }
                },
                Segment::CatchAll(_) => {
                    let joined = join_path(&parts, i);
                    if joined.as_str().unicode_len() == 0 {
                        return None;
                    }
                    let ghost prevc = caps.deep_view();
                    caps.push(joined);
                    proof {
                        assert(caps.deep_view() =~= prevc.push(join_slashes(ss.skip(i as int))));
                        assert(captures_of(pp.skip(i as int), ss.skip(i as int)) =~= seq![
                            join_slashes(ss.skip(i as int)),
                        ]);
                        assert(prevc + seq![join_slashes(ss.skip(i as int))] =~= caps.deep_view());
                    }
                    return Some(caps);
                },
            }
            i = i + 1;
        }
        proof {
            assert(pp.skip(i as int) =~= Seq::<SegView>::empty());
        }
        if i == parts.len() {
            proof {
                assert(ss.skip(i as int).len() == 0);
                assert(captures_of(pp.skip(i as int), ss.skip(i as int)) =~= Seq::<
                    Seq<char>,
                >::empty());
                assert(caps.deep_view() + Seq::<Seq<char>>::empty() =~= caps.deep_view());
            }
            Some(caps)
        } else {
            None
        }
    }

    /// Structural equality with another pattern: equal length, literals with
    /// the same text, binders in the same positions; names are ignored.
    #[verifier::loop_isolation(false)]
    pub fn structurally_equal(&self, other: &Pattern) -> (r: bool)
        ensures
            r == pattern_struct_eq(self@, other@),
    {
        if self.segs.len() != other.segs.len() {
            return false;
        }
        let mut i: usize = 0;
        while i < self.segs.len()
            invariant
                i <= self.segs@.len(),
                self.segs@.len() == other.segs@.len(),
                forall|j: int| 0 <= j < i ==> seg_struct_eq(self@[j], other@[j]),
            decreases self.segs@.len() - i,
        {
            proof {
                assert(self@[i as int] == self.segs@[i as int]@);
                assert(other@[i as int] == other.segs@[i as int]@);
            }
            let ok = match (&self.segs[i], &other.segs[i]) {
                (Segment::Literal(x), Segment::Literal(y)) => str_eq(x.as_str(), y.as_str()),
                (Segment::Placeholder(_), Segment::Placeholder(_)) => true,
                (Segment::CatchAll(_), Segment::CatchAll(_)) => true,
                _ => false,
            };
            if !ok {
                return false;
            }
            i = i + 1;
        }
        true
    }
}

} // verus!
