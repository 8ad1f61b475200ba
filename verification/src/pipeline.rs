//! The construction pipeline: the strictly sequential chain that builds
//! one selected variant.
//!
//! Stages run in a fixed order: path-bound fields are parsed from the
//! captures first, then the query decoder, then every guard in declaration
//! order, then the body decoder or the forward to a nested router, each an
//! outside operation whose outcome the driver hands back as an event.  The
//! first failure aborts the pipeline; later stages never run.

use vstd::prelude::*;

use crate::decl::{parse_path_value, spec_parses, spec_value_of, PathValView, PathValue};
use crate::error::{Error, ErrorKind};
use crate::table::VariantInfo;

verus! {

/// A fully assembled variant: the selected declaration position plus every
/// value the stages bound.  Decoded query, guard and body values are the
/// opaque tokens the driver's decoders handed back.
pub struct Constructed {
    pub variant: usize,
    pub path_values: Vec<PathValue>,
    pub query: Option<u64>,
    pub guards: Vec<u64>,
    pub body: Option<u64>,
    pub forward: Option<Box<Constructed>>,
}

/// The outside work the pipeline asks for next.
#[derive(Clone, Copy, Debug, PartialEq, Eq, Structural)]
pub enum Need {
    /// Decode the query string.
    Query,
    /// Run the guard at this position, guards counting from zero.
    Guard { index: usize },
    /// Decode the request body.
    Body,
    /// Resolve the forward target.
    Forward,
    /// Nothing is left to do.
    Done,
}

/// The outcome of one outside stage, handed back by the driver.  Query and
/// body decoders report their own failure text; a guard or a forwarded
/// resolution reports a full error of its own, which propagates verbatim.
pub enum StageEvent {
    Query(Result<u64, String>),
    Guard(Result<u64, Error>),
    Body(Result<u64, String>),
    Forward(Result<Box<Constructed>, Error>),
}

/// What a successful step leaves behind.
pub enum StepOutcome {
    /// More outside work is needed.
    Pending(Pipeline),
    /// The variant is fully assembled.
    Finished(Constructed),
}

/// The state of one variant's construction between stages.
pub struct Pipeline {
    pub variant: usize,
    pub has_query: bool,
    pub guard_count: usize,
    pub has_body: bool,
    pub has_forward: bool,
    pub path_values: Vec<PathValue>,
    pub query: Option<u64>,
    pub guards: Vec<u64>,
}

/// The next stage of a pipeline state, in the fixed order: query, guards
/// left to right, then body or forward.
pub open spec fn spec_need(p: Pipeline) -> Need {
    if p.has_query && p.query is None {
        Need::Query
    } else if p.guards@.len() < p.guard_count {
        Need::Guard { index: p.guards@.len() as usize }
    } else if p.has_body {
        Need::Body
    } else if p.has_forward {
        Need::Forward
    } else {
        Need::Done
    }
}

/// Whether an event answers the given need.
pub open spec fn event_answers(n: Need, event: StageEvent) -> bool {
    match event {
        StageEvent::Query(_) => n == Need::Query,
        StageEvent::Guard(_) => n is Guard,
        StageEvent::Body(_) => n == Need::Body,
        StageEvent::Forward(_) => n == Need::Forward,
    }
}

/// The value assembled from a finished pipeline state.
pub open spec fn spec_assembled(
    p: Pipeline,
    body: Option<u64>,
    forward: Option<Box<Constructed>>,
) -> Constructed {
    Constructed {
        variant: p.variant,
        path_values: p.path_values,
        query: p.query,
        guards: p.guards,
        body,
        forward,
    }
}

impl Pipeline {
    /// Stage one: parses each captured substring under the variant's field
    /// types.  The first failure aborts construction with a path-segment
    /// error; no partial value is exposed.
    #[verifier::loop_isolation(false)]
    pub fn start(info: &VariantInfo, variant: usize, captures: &Vec<String>) -> (r: Result<
        Pipeline,
        Error,
    >)
        requires
            info.path_tys@.len() == captures@.len(),
        ensures
            r is Ok <==> (forall|k: int|
                0 <= k < captures@.len() ==> spec_parses(
                    #[trigger] info.path_tys@[k],
                    captures.deep_view()[k],
                )),
            r matches Ok(p) ==> ({
                &&& p.variant == variant
                &&& p.has_query == info.has_query
                &&& p.guard_count == info.guard_count
                &&& p.has_body == info.has_body
                &&& p.has_forward == info.has_forward
                &&& p.query is None
                &&& p.guards@.len() == 0
                &&& p.path_values@.len() == captures@.len()
                &&& forall|k: int|
                    0 <= k < captures@.len() ==> (#[trigger] p.path_values@[k])@ == spec_value_of(
                        info.path_tys@[k],
                        captures.deep_view()[k],
                    )
            }),
            r matches Err(e) ==> e.wf() && e.spec_kind() == ErrorKind::PathSegment,
    {
        let mut vals: Vec<PathValue> = Vec::new();
        let mut k: usize = 0;
        while k < captures.len()
            invariant
                k <= captures@.len(),
                vals@.len() == k,
                forall|x: int|
                    0 <= x < k ==> spec_parses(
                        #[trigger] info.path_tys@[x],
                        captures.deep_view()[x],
                    ),
                forall|x: int|
                    0 <= x < k ==> (#[trigger] vals@[x])@ == spec_value_of(
                        info.path_tys@[x],
                        captures.deep_view()[x],
                    ),
            decreases captures@.len() - k,
        {
            proof {
                assert(captures.deep_view()[k as int] == captures@[k as int]@);
            }
            match parse_path_value(info.path_tys[k], captures[k].as_str()) {
                Some(v) => {
                    vals.push(v);
                },
                None => {
                    return Err(Error::from_kind(ErrorKind::PathSegment));
                },
            }
            k = k + 1;
        }
        Ok(
            Pipeline {
                variant,
                has_query: info.has_query,
                guard_count: info.guard_count,
                has_body: info.has_body,
                has_forward: info.has_forward,
                path_values: vals,
                query: None,
                guards: Vec::new(),
            },
        )
    }

    /// The outside work this pipeline asks for next.
    pub fn need(&self) -> (r: Need)
        ensures
            r == spec_need(*self),
    {
        if self.has_query && self.query.is_none() {
            Need::Query
        } else if self.guards.len() < self.guard_count {
            Need::Guard { index: self.guards.len() }
        } else if self.has_body {
            Need::Body
        } else if self.has_forward {
            Need::Forward
        } else {
            Need::Done
        }
    }

    /// Feeds the outcome of the requested stage back in.  A failing stage
    /// aborts the whole construction: a query failure becomes a
    /// query-parameter error, a body failure a body-decode error, and a
    /// guard or forward error propagates verbatim.
    pub fn step(self, event: StageEvent) -> (r: Result<StepOutcome, Error>)
        requires
            event_answers(spec_need(self), event),
        ensures
            match event {
                StageEvent::Query(q) => match q {
                    Ok(tok) => r matches Ok(o) && o matches StepOutcome::Pending(p2) && (p2
                        == Pipeline { query: Some(tok), ..self }),
                    Err(m) => r matches Err(e) && e.wf() && e.spec_kind() == ErrorKind::QueryParam
                        && e.spec_source() == Some(m@),
                },
                StageEvent::Guard(g) => match g {
                    Ok(tok) => r matches Ok(o) && o matches StepOutcome::Pending(p2) && ({
                        &&& p2.guards@ == self.guards@.push(tok)
                        &&& (p2 == Pipeline { guards: p2.guards, ..self })
                    }),
                    Err(e0) => r matches Err(e) && e == e0,
                },
                StageEvent::Body(b) => match b {
                    Ok(tok) => r matches Ok(o) && o matches StepOutcome::Finished(c) && c
                        == spec_assembled(self, Some(tok), None),
                    Err(m) => r matches Err(e) && e.wf() && e.spec_kind() == ErrorKind::BadBody
                        && e.spec_source() == Some(m@),
                },
                StageEvent::Forward(f) => match f {
                    Ok(c2) => r matches Ok(o) && o matches StepOutcome::Finished(c) && c
                        == spec_assembled(self, None, Some(c2)),
                    Err(e0) => r matches Err(e) && e == e0,
                },
            },
    {
        match event {
            StageEvent::Query(q) => match q {
                Ok(tok) => Ok(
                    StepOutcome::Pending(Pipeline { query: Some(tok), ..self }),
                ),
                Err(m) => Err(Error::from_kind_with_source(ErrorKind::QueryParam, m)),
            },
            StageEvent::Guard(g) => match g {
                Ok(tok) => {
                    let mut p2 = self;
                    p2.guards.push(tok);
                    Ok(StepOutcome::Pending(p2))
                },
                Err(e0) => Err(e0),
            },
            StageEvent::Body(b) => match b {
                Ok(tok) => Ok(
                    StepOutcome::Finished(
                        Constructed {
                            variant: self.variant,
                            path_values: self.path_values,
                            query: self.query,
                            guards: self.guards,
                            body: Some(tok),
                            forward: None,
                        },
                    ),
                ),
                Err(m) => Err(Error::from_kind_with_source(ErrorKind::BadBody, m)),
            },
            StageEvent::Forward(f) => match f {
                Ok(c2) => Ok(
                    StepOutcome::Finished(
                        Constructed {
                            variant: self.variant,
                            path_values: self.path_values,
                            query: self.query,
                            guards: self.guards,
                            body: None,
                            forward: Some(c2),
                        },
                    ),
                ),
                Err(e0) => Err(e0),
            },
        }
    }

    /// Assembles the final value once nothing is left to do.
    pub fn finish(self) -> (r: Constructed)
        requires
            spec_need(self) == Need::Done,
        ensures
            r == spec_assembled(self, None, None),
    {
        Constructed {
            variant: self.variant,
            path_values: self.path_values,
            query: self.query,
            guards: self.guards,
            body: None,
            forward: None,
        }
    }
}

} // verus!
