//! Error values: construction-time compile errors and runtime request
//! errors shaped for HTTP responses.

use vstd::prelude::*;

use crate::method::{spec_method_name, HttpMethod};

verus! {

/// Why a route table cannot be compiled.  Variant and route numbers refer
/// to positions in the declaration list.
#[derive(Clone, Copy, Debug, PartialEq, Eq, Structural)]
pub enum CompileError {
    /// A catch-all placeholder is followed by further segments.
    CatchAllNotTerminal { variant: usize, route: usize },
    /// A placeholder name appears twice in one pattern.
    DuplicatePlaceholder { variant: usize, route: usize },
    /// A placeholder does not name a declared path field.
    MissingPlaceholderField { variant: usize, route: usize },
    /// Routes on the same pattern disagree on placeholder names.
    DifferentPlaceholders { variant_a: usize, variant_b: usize },
    /// Two routes declare the same method on the same pattern.
    DuplicateRoute { variant_a: usize, variant_b: usize },
    /// Two patterns could both match one path.
    OverlappingRoutes { variant_a: usize, variant_b: usize },
    /// More than one variant declares a forward field without a route.
    MultipleFallbacks { variant_a: usize, variant_b: usize },
    /// One variant declares both a body field and a forward field.
    BodyAndForwardBothPresent { variant: usize },
}

/// The kind of a runtime request error.
#[derive(Clone, Copy, Debug, PartialEq, Eq, Structural)]
pub enum ErrorKind {
    /// A captured path segment did not parse to its field type.
    PathSegment,
    /// The query string did not decode.
    QueryParam,
    /// The request body did not decode.
    BadBody,
    /// A guard rejected the request.
    GuardFailed,
    /// The path is routed, but not for this method.
    WrongMethod,
    /// No pattern matches the path.
    NoMatchingRoute,
    /// An error carrying a bare status code.
    Other,
}

/// The status code each error kind maps to.  `Other` carries its own.
pub open spec fn spec_kind_status(k: ErrorKind) -> u16 {
    match k {
        ErrorKind::PathSegment => 404,
        ErrorKind::QueryParam => 400,
        ErrorKind::BadBody => 400,
        ErrorKind::GuardFailed => 400,
        ErrorKind::WrongMethod => 405,
        ErrorKind::NoMatchingRoute => 404,
        ErrorKind::Other => 400,
    }
}

/// A runtime request error, renderable as an HTTP response.
pub struct Error {
    kind: ErrorKind,
    status: u16,
    allowed: Vec<HttpMethod>,
    source: Option<String>,
}

/// The status line and `Allow` header of the response an error maps to.
pub struct ResponseParts {
    pub status: u16,
    pub allow: Option<String>,
}

/// The `Allow` header value: method names joined with `, `.
pub open spec fn spec_allow_header(ms: Seq<HttpMethod>) -> Seq<char>
    decreases ms.len(),
{
    if ms.len() == 0 {
        Seq::<char>::empty()
    } else if ms.len() == 1 {
        spec_method_name(ms[0])
    } else {
        spec_allow_header(ms.drop_last()) + ", "@ + spec_method_name(ms.last())
    }
}

/// The canonical status of a kind, as executable code.
pub fn kind_status(k: ErrorKind) -> (r: u16)
    ensures
        r == spec_kind_status(k),
{
    match k {
        ErrorKind::PathSegment => 404,
        ErrorKind::QueryParam => 400,
        ErrorKind::BadBody => 400,
        ErrorKind::GuardFailed => 400,
        ErrorKind::WrongMethod => 405,
        ErrorKind::NoMatchingRoute => 404,
        ErrorKind::Other => 400,
    }
}

impl Error {
    pub closed spec fn spec_kind(&self) -> ErrorKind {
        self.kind
    }

    pub closed spec fn spec_status(&self) -> u16 {
        self.status
    }

    pub closed spec fn spec_allowed(&self) -> Seq<HttpMethod> {
        self.allowed@
    }

    pub closed spec fn spec_source(&self) -> Option<Seq<char>> {
        match self.source {
            Some(ref s) => Some(s@),
            None => None,
        }
    }

    /// A well-formed error: the status is an error status agreeing with the
    /// kind, and only a wrong-method error lists allowed methods.
    pub open spec fn wf(&self) -> bool {
        &&& 400 <= self.spec_status() < 600
        &&& self.spec_kind() != ErrorKind::Other ==> self.spec_status() == spec_kind_status(
            self.spec_kind(),
        )
        &&& (self.spec_kind() == ErrorKind::WrongMethod <==> self.spec_status() == 405)
        &&& self.spec_kind() != ErrorKind::WrongMethod ==> self.spec_allowed().len() == 0
    }

    /// An error of the given kind, with its canonical status.
    pub fn from_kind(kind: ErrorKind) -> (r: Error)
        requires
            kind != ErrorKind::Other,
        ensures
            r.wf(),
            r.spec_kind() == kind,
            r.spec_status() == spec_kind_status(kind),
            r.spec_allowed().len() == 0,
            r.spec_source() is None,
    {
        Error { kind, status: kind_status(kind), allowed: Vec::new(), source: None }
    }

    /// An error of the given kind, recording the underlying failure.
    pub fn from_kind_with_source(kind: ErrorKind, source: String) -> (r: Error)
        requires
            kind != ErrorKind::Other,
        ensures
            r.wf(),
            r.spec_kind() == kind,
            r.spec_status() == spec_kind_status(kind),
            r.spec_allowed().len() == 0,
            r.spec_source() matches Some(s) && s == source@,
    {
        Error { kind, status: kind_status(kind), allowed: Vec::new(), source: Some(source) }
    }

    /// An error that carries just the given status code, which must be a
    /// client or server error status.
    pub fn from_status(status: u16) -> (r: Error)
        requires
            400 <= status < 600,
        ensures
            r.wf(),
            r.spec_status() == status,
            r.spec_kind() == (if status == 405 {
                ErrorKind::WrongMethod
            } else {
                ErrorKind::Other
            }),
            r.spec_allowed().len() == 0,
            r.spec_source() is None,
    {
        let kind = if status == 405 {
            ErrorKind::WrongMethod
        } else {
            ErrorKind::Other
        };
        Error { kind, status, allowed: Vec::new(), source: None }
    }

    /// An error with the given status code and the failure that caused it.
    pub fn with_source(status: u16, source: String) -> (r: Error)
        requires
            400 <= status < 600,
        ensures
            r.wf(),
            r.spec_status() == status,
            r.spec_kind() == (if status == 405 {
                ErrorKind::WrongMethod
            } else {
                ErrorKind::Other
            }),
            r.spec_allowed().len() == 0,
            r.spec_source() matches Some(s) && s == source@,
    {
        let kind = if status == 405 {
            ErrorKind::WrongMethod
        } else {
            ErrorKind::Other
        };
        Error { kind, status, allowed: Vec::new(), source: Some(source) }
    }

    /// A `405 Method Not Allowed` error listing the allowed methods.
    pub fn wrong_method(allowed_methods: Vec<HttpMethod>) -> (r: Error)
        ensures
            r.wf(),
            r.spec_kind() == ErrorKind::WrongMethod,
            r.spec_status() == 405,
            r.spec_allowed() == allowed_methods@,
            r.spec_source() is None,
    {
        Error { kind: ErrorKind::WrongMethod, status: 405, allowed: allowed_methods, source: None }
    }

    pub fn kind(&self) -> (r: ErrorKind)
        ensures
            r == self.spec_kind(),
    {
        self.kind
    }

    /// The HTTP status code that describes this error.
    pub fn http_status(&self) -> (r: u16)
        ensures
            r == self.spec_status(),
    {
        self.status
    }

    /// The allowed methods of a wrong-method error, and `None` for every
    /// other kind.
    pub fn allowed_methods(&self) -> (r: Option<&Vec<HttpMethod>>)
        ensures
            r is Some <==> self.spec_kind() == ErrorKind::WrongMethod,
            r matches Some(v) ==> v@ == self.spec_allowed(),
    {
        if self.kind == ErrorKind::WrongMethod {
            Some(&self.allowed)
        } else {
            None
        }
    }

    /// A description of the underlying failure, where one was recorded.
    pub fn source(&self) -> (r: Option<&String>)
        ensures
            r is Some <==> self.spec_source() is Some,
            r matches Some(s) ==> self.spec_source() == Some(s@),
    {
        match &self.source {
            Some(s) => Some(s),
            None => None,
        }
    }

    /// The response this error renders to: its status, and for a
    /// wrong-method error the mandatory `Allow` header.
    #[verifier::loop_isolation(false)]
    pub fn response(&self) -> (r: ResponseParts)
        ensures
            r.status == self.spec_status(),
            self.spec_status() == 405 ==> (r.allow matches Some(h) && h@ == spec_allow_header(
                self.spec_allowed(),
            )),
            self.spec_status() != 405 ==> r.allow is None,
    {
        if self.status == 405 {
            let mut header = String::new();
            let mut i: usize = 0;
            while i < self.allowed.len()
                invariant
                    i <= self.allowed@.len(),
                    header@ == spec_allow_header(self.allowed@.take(i as int)),
                decreases self.allowed@.len() - i,
            {
                proof {
                    assert(self.allowed@.take(i + 1 as int).drop_last() =~= self.allowed@.take(
                        i as int,
                    ));
                    assert(self.allowed@.take(i + 1 as int).last() == self.allowed@[i as int]);
                }
                if i > 0 {
                    header.append(", ");
                    proof {
                        reveal_strlit(", ");
                    }
                }
                header.append(self.allowed[i].as_str());
                proof {
                    if i == 0 {
                        assert(header@ =~= spec_method_name(self.allowed@[0]));
                    }
                }
                i = i + 1;
            }
            proof {
                assert(self.allowed@.take(self.allowed@.len() as int) =~= self.allowed@);
            }
            ResponseParts { status: self.status, allow: Some(header) }
        } else {
            ResponseParts { status: self.status, allow: None }
        }
    }
}

} // verus!
