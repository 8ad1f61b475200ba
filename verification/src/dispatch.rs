//! The request dispatcher: resolves a request against the table, starts
//! the construction pipeline for the selected variant, and carries the
//! fallback's method-merging rule.
//!
//! A wrong-method answer with a declared fallback retries against the
//! fallback variant; if the forwarded resolution also fails with a
//! wrong-method error, the two allowed lists are merged, outer methods
//! first.  Any other failure propagates unchanged.

use vstd::prelude::*;

use crate::decl::{spec_parses, spec_value_of};
use crate::error::{Error, ErrorKind};
use crate::method::{contains_method, spec_contains_method, HttpMethod};
use crate::pattern::{captures_of, segs_match};
use crate::pipeline::{
    event_answers, spec_assembled, spec_need, Constructed, Need, Pipeline, StageEvent, StepOutcome,
};
use crate::table::{
    lemma_method_variant, spec_method_variant, Resolution, RouteTable, VariantInfo,
};
use crate::text::split_slashes;

verus! {

/// A request part-way through construction: the pipeline state plus, for a
/// fallback retry after a wrong-method answer, the outer allowed methods.
pub struct Dispatch {
    pub pipeline: Pipeline,
    pub outer_allowed: Option<Vec<HttpMethod>>,
}

/// Where a request stands after `dispatch` or `step`.
pub enum DispatchStep {
    /// The request is settled: a constructed variant or a final error.
    Finished(Result<Constructed, Error>),
    /// An outside stage must run next; see `Dispatch::need`.
    Pending(Dispatch),
}

/// The merged allowed-method list: the outer methods in order, then each
/// inner method not already present.
pub open spec fn spec_merge_methods(
    outer: Seq<HttpMethod>,
    inner: Seq<HttpMethod>,
) -> Seq<HttpMethod>
    decreases inner.len(),
{
    if inner.len() == 0 {
        outer
    } else {
        let prev = spec_merge_methods(outer, inner.drop_last());
        if spec_contains_method(prev, inner.last()) {
            prev
        } else {
            prev.push(inner.last())
        }
    }
}

/// How a pipeline failure surfaces: a wrong-method error met during a
/// fallback retry has the outer methods merged in; everything else
/// propagates verbatim.
pub open spec fn spec_merged(outer: Option<Vec<HttpMethod>>, e0: Error, r: DispatchStep) -> bool {
    match outer {
        Some(ms) => {
            if e0.spec_kind() == ErrorKind::WrongMethod {
                &&& r matches DispatchStep::Finished(res)
                &&& res matches Err(e)
                &&& e.wf()
                &&& e.spec_kind() == ErrorKind::WrongMethod
                &&& e.spec_allowed() == spec_merge_methods(ms@, e0.spec_allowed())
            } else {
                r matches DispatchStep::Finished(res) && res matches Err(e) && e == e0
            }
        },
        None => r matches DispatchStep::Finished(res) && res matches Err(e) && e == e0,
    }
}

/// A pipeline that `Pipeline::start` just produced for this variant and
/// captures.
pub open spec fn spec_fresh(
    vi: VariantInfo,
    variant: usize,
    caps: Seq<Seq<char>>,
    p: Pipeline,
) -> bool {
    &&& p.variant == variant
    &&& p.has_query == vi.has_query
    &&& p.guard_count == vi.guard_count
    &&& p.has_body == vi.has_body
    &&& p.has_forward == vi.has_forward
    &&& p.query is None
    &&& p.guards@.len() == 0
    &&& p.path_values.deep_view().len() == caps.len()
    &&& forall|k: int|
        0 <= k < caps.len() ==> p.path_values.deep_view()[k] == spec_value_of(
            #[trigger] vi.path_tys@[k],
            caps[k],
        )
}

/// The step a pipeline state wraps to: finished at once when nothing is
/// left, pending otherwise.
pub open spec fn spec_wrap(p: Pipeline, outer: Option<Vec<HttpMethod>>, r: DispatchStep) -> bool {
    if spec_need(p) == Need::Done {
        r matches DispatchStep::Finished(res) && res matches Ok(c) && c == spec_assembled(
            p,
            None,
            None,
        )
    } else {
        r matches DispatchStep::Pending(d) && d.pipeline == p && d.outer_allowed == outer
    }
}

/// How construction of one variant begins: a path-parse failure settles the
/// request with a path-segment error; otherwise a fresh pipeline is
/// wrapped.
pub open spec fn spec_begun(
    vi: VariantInfo,
    variant: usize,
    caps: Seq<Seq<char>>,
    outer: Option<Vec<HttpMethod>>,
    r: DispatchStep,
) -> bool {
    if forall|k: int| 0 <= k < caps.len() ==> spec_parses(#[trigger] vi.path_tys@[k], caps[k]) {
        exists|p: Pipeline| #[trigger] spec_fresh(vi, variant, caps, p) && spec_wrap(p, outer, r)
    } else {
        r matches DispatchStep::Finished(res) && res matches Err(e) && e.wf() && e.spec_kind()
            == ErrorKind::PathSegment
    }
}

/// What `dispatch` does with each resolution: construct the matched
/// variant, settle wrong-method and no-match answers when no fallback is
/// declared, and otherwise begin the fallback, remembering the outer
/// allowed methods after a wrong-method answer.
pub open spec fn spec_dispatched(table: &RouteTable, res: Resolution, r: DispatchStep) -> bool {
    match res {
        Resolution::Matched { variant, captures } => spec_begun(
            table.variants@[variant as int],
            variant,
            captures.deep_view(),
            None,
            r,
        ),
        Resolution::WrongMethod { allowed } => match table.fallback {
            Some(f) => spec_begun(
                table.variants@[f as int],
                f,
                Seq::<Seq<char>>::empty(),
                Some(allowed),
                r,
            ),
            None => r matches DispatchStep::Finished(res2) && res2 matches Err(e) && e.wf()
                && e.spec_kind() == ErrorKind::WrongMethod && e.spec_allowed() == allowed@,
        },
        Resolution::NoMatch => match table.fallback {
            Some(f) => spec_begun(
                table.variants@[f as int],
                f,
                Seq::<Seq<char>>::empty(),
                None,
                r,
            ),
            None => r matches DispatchStep::Finished(res2) && res2 matches Err(e) && e.wf()
                && e.spec_kind() == ErrorKind::NoMatchingRoute,
        },
    }
}

/// The merged list is the union: a method stands in it exactly when one of
/// the two lists holds it.
pub proof fn lemma_merge_methods_union(
    outer: Seq<HttpMethod>,
    inner: Seq<HttpMethod>,
    m: HttpMethod,
)
    ensures
        spec_contains_method(spec_merge_methods(outer, inner), m) <==> (spec_contains_method(
            outer,
            m,
        ) || spec_contains_method(inner, m)),
    decreases inner.len(),
{
    if inner.len() == 0 {
    } else {
        let prev = spec_merge_methods(outer, inner.drop_last());
        lemma_merge_methods_union(outer, inner.drop_last(), m);
        assert(spec_contains_method(inner, m) <==> (spec_contains_method(inner.drop_last(), m)
            || inner.last() == m)) by {
            if spec_contains_method(inner, m) {
                let x = choose|x: int| 0 <= x < inner.len() && inner[x] == m;
                if x < inner.len() - 1 {
                    assert(inner.drop_last()[x] == m);
                }
            }
            if spec_contains_method(inner.drop_last(), m) {
                let x = choose|x: int| 0 <= x < inner.drop_last().len() && inner.drop_last()[x] == m;
                assert(inner[x] == m);
            }
        }
        if !spec_contains_method(prev, inner.last()) {
            assert(spec_contains_method(prev.push(inner.last()), m) <==> (spec_contains_method(
                prev,
                m,
            ) || inner.last() == m)) by {
                if spec_contains_method(prev.push(inner.last()), m) {
                    let x = choose|x: int|
                        0 <= x < prev.push(inner.last()).len() && prev.push(inner.last())[x] == m;
                    if x < prev.len() {
                        assert(prev[x] == m);
                    }
                }
                if spec_contains_method(prev, m) {
                    let x = choose|x: int| 0 <= x < prev.len() && prev[x] == m;
                    assert(prev.push(inner.last())[x] == m);
                }
                assert(prev.push(inner.last())[prev.len() as int] == inner.last());
            }
        } else {
            if inner.last() == m {
                assert(spec_contains_method(prev, m));
            }
        }
    }
}

/// The merge keeps the outer list as a prefix, in order.
pub proof fn lemma_merge_methods_prefix(outer: Seq<HttpMethod>, inner: Seq<HttpMethod>)
    ensures
        spec_merge_methods(outer, inner).len() >= outer.len(),
        forall|i: int|
            0 <= i < outer.len() ==> #[trigger] spec_merge_methods(outer, inner)[i] == outer[i],
    decreases inner.len(),
{
    if inner.len() > 0 {
        lemma_merge_methods_prefix(outer, inner.drop_last());
    }
}

/// The union of two allowed-method lists, outer order first.
#[verifier::loop_isolation(false)]
pub fn merge_methods(outer: Vec<HttpMethod>, inner: &Vec<HttpMethod>) -> (r: Vec<HttpMethod>)
    ensures
        r@ == spec_merge_methods(outer@, inner@),
{
    let ghost o = outer@;
    let mut out = outer;
    let mut j: usize = 0;
    proof {
        assert(inner@.take(0) =~= Seq::<HttpMethod>::empty());
    }
    while j < inner.len()
        invariant
            j <= inner@.len(),
            out@ == spec_merge_methods(o, inner@.take(j as int)),
        decreases inner@.len() - j,
    {
        proof {
            assert(inner@.take(j + 1 as int).drop_last() =~= inner@.take(j as int));
            assert(inner@.take(j + 1 as int).last() == inner@[j as int]);
        }
        if !contains_method(&out, inner[j]) {
            out.push(inner[j]);
        }
        j = j + 1;
    }
    proof {
        assert(inner@.take(inner@.len() as int) =~= inner@);
    }
    out
}

/// Applies the fallback's method-merging rule to a pipeline failure.
fn merge_error(outer: Option<Vec<HttpMethod>>, e0: Error) -> (r: Error)
    ensures
        spec_merged(outer, e0, DispatchStep::Finished(Err(r))),
{
    match outer {
        Some(ms) => {
            let merged = match e0.allowed_methods() {
                Some(inner) => Some(merge_methods(ms, inner)),
                None => None,
            };
            match merged {
                Some(list) => Error::wrong_method(list),
                None => e0,
            }
        },
        None => e0,
    }
}

/// Wraps a pipeline state: finished at once when nothing is left to do.
fn wrap(p: Pipeline, outer: Option<Vec<HttpMethod>>) -> (r: DispatchStep)
    ensures
        spec_wrap(p, outer, r),
{
    if p.need() == Need::Done {
        DispatchStep::Finished(Ok(p.finish()))
    } else {
        DispatchStep::Pending(Dispatch { pipeline: p, outer_allowed: outer })
    }
}

/// Begins construction for one variant with the given captures.
fn begin(
    info: &VariantInfo,
    variant: usize,
    captures: &Vec<String>,
    outer: Option<Vec<HttpMethod>>,
) -> (r: DispatchStep)
    requires
        info.path_tys@.len() == captures@.len(),
    ensures
        spec_begun(*info, variant, captures.deep_view(), outer, r),
{
    match Pipeline::start(info, variant, captures) {
        Ok(p) => {
            proof {
                assert forall|k: int|
                    0 <= k < captures.deep_view().len() implies p.path_values.deep_view()[k]
                    == spec_value_of(
                    #[trigger] info.path_tys@[k],
                    captures.deep_view()[k],
                ) by {
                    assert(p.path_values.deep_view()[k] == p.path_values@[k]@);
                }
                assert(spec_fresh(*info, variant, captures.deep_view(), p));
            }
            wrap(p, outer)
        },
        Err(e) => DispatchStep::Finished(Err(e)),
    }
}

/// Resolves one request against the table and begins construction: the
/// dispatcher's `Start` through `Construct` states in one call.  The
/// returned step is final for errors without a fallback; otherwise the
/// driver runs the requested outside stages through `Dispatch::step`.
#[verifier::rlimit(30)]
pub fn dispatch(table: &RouteTable, method: HttpMethod, path: &str) -> (r: DispatchStep)
    requires
        table.wf(),
    ensures
        exists|res: Resolution|
            #[trigger] table.resolution_matches(method, split_slashes(path@), res)
                && spec_dispatched(table, res, r),
{
    let ghost ss = split_slashes(path@);
    let res = table.resolve(method, path);
    let ghost gres = res;
    let r = match res {
        Resolution::Matched { variant, captures } => {
            proof {
                let i = choose|i: int|
                    0 <= i < table.sets@.len() && segs_match(
                        #[trigger] table.sets@[i].pattern@,
                        ss,
                    ) && table.sets@[i].spec_has_method(method) && variant == spec_method_variant(
                        table.sets@[i].entries@,
                        method,
                    ) && captures.deep_view() == captures_of(table.sets@[i].pattern@, ss);
                lemma_method_variant(table.sets@[i].entries@, method);
                crate::pattern::lemma_captures_len(table.sets@[i].pattern@, ss);
            }
            begin(&table.variants[variant], variant, &captures, None)
        },
        Resolution::WrongMethod { allowed } => {
            match table.fallback {
                Some(f) => {
                    let caps: Vec<String> = Vec::new();
                    proof {
                        assert(caps.deep_view() =~= Seq::<Seq<char>>::empty());
                    }
                    begin(&table.variants[f], f, &caps, Some(allowed))
                },
                None => DispatchStep::Finished(Err(Error::wrong_method(allowed))),
            }
        },
        Resolution::NoMatch => {
            match table.fallback {
                Some(f) => {
                    let caps: Vec<String> = Vec::new();
                    proof {
                        assert(caps.deep_view() =~= Seq::<Seq<char>>::empty());
                    }
                    begin(&table.variants[f], f, &caps, None)
                },
                None => DispatchStep::Finished(Err(Error::from_kind(ErrorKind::NoMatchingRoute))),
            }
        },
    };
    proof {
        assert(table.resolution_matches(method, ss, gres) && spec_dispatched(table, gres, r));
    }
    r
}

impl Dispatch {
    /// The outside work this request asks for next.
    pub fn need(&self) -> (r: Need)
        ensures
            r == spec_need(self.pipeline),
    {
        self.pipeline.need()
    }

    /// Feeds one stage outcome back in.  Successful stages advance or
    /// finish the pipeline; a failure settles the request, with the
    /// fallback's wrong-method merge applied.
    pub fn step(self, event: StageEvent) -> (r: DispatchStep)
        requires
            event_answers(spec_need(self.pipeline), event),
        ensures
            match event {
                StageEvent::Query(q) => match q {
                    Ok(tok) => spec_wrap(
                        Pipeline { query: Some(tok), ..self.pipeline },
                        self.outer_allowed,
                        r,
                    ),
                    Err(_) => (r matches DispatchStep::Finished(res) && res matches Err(e)
                        && e.wf() && e.spec_kind() == ErrorKind::QueryParam),
                },
                StageEvent::Guard(g) => match g {
                    Ok(tok) => exists|p2: Pipeline|
                        p2.guards@ == self.pipeline.guards@.push(tok) && (p2 == Pipeline {
                            guards: p2.guards,
                            ..self.pipeline
                        }) && #[trigger] spec_wrap(p2, self.outer_allowed, r),
                    Err(e0) => spec_merged(self.outer_allowed, e0, r),
                },
                StageEvent::Body(b) => match b {
                    Ok(tok) => (r matches DispatchStep::Finished(res) && res matches Ok(c) && c
                        == spec_assembled(self.pipeline, Some(tok), None)),
                    Err(_) => (r matches DispatchStep::Finished(res) && res matches Err(e)
                        && e.wf() && e.spec_kind() == ErrorKind::BadBody),
                },
                StageEvent::Forward(f) => match f {
                    Ok(c2) => (r matches DispatchStep::Finished(res) && res matches Ok(c) && c
                        == spec_assembled(self.pipeline, None, Some(c2))),
                    Err(e0) => spec_merged(self.outer_allowed, e0, r),
                },
            },
    {
        let outer = self.outer_allowed;
        match self.pipeline.step(event) {
            Ok(StepOutcome::Pending(p2)) => wrap(p2, outer),
            Ok(StepOutcome::Finished(c)) => DispatchStep::Finished(Ok(c)),
            Err(e0) => DispatchStep::Finished(Err(merge_error(outer, e0))),
        }
    }
}

} // verus!
