use hyperdrive::decl::{FieldTy, PathField, PathValue, RouteDecl, VariantDecl};
use hyperdrive::dispatch::{dispatch, Dispatch, DispatchStep};
use hyperdrive::error::{Error, ErrorKind};
use hyperdrive::method::HttpMethod;
use hyperdrive::pipeline::{Constructed, Need, StageEvent};
use hyperdrive::table::RouteTable;

fn route(method: HttpMethod, path: &str) -> RouteDecl {
    RouteDecl {
        method,
        path: String::from(path),
    }
}

fn field(name: &str, ty: FieldTy) -> PathField {
    PathField {
        name: String::from(name),
        ty,
    }
}

fn variant(routes: Vec<RouteDecl>, path_fields: Vec<PathField>) -> VariantDecl {
    VariantDecl {
        routes,
        path_fields,
        has_query: false,
        guard_count: 0,
        has_body: false,
        has_forward: false,
    }
}

fn compiled(decls: &Vec<VariantDecl>) -> RouteTable {
    match RouteTable::compile(decls) {
        Ok(t) => t,
        Err(e) => panic!("declarations rejected: {:?}", e),
    }
}

fn finished_ok(step: DispatchStep) -> Constructed {
    match step {
        DispatchStep::Finished(Ok(c)) => c,
        DispatchStep::Finished(Err(e)) => panic!("request failed with status {}", e.http_status()),
        DispatchStep::Pending(_) => panic!("request unexpectedly pending"),
    }
}

fn finished_err(step: DispatchStep) -> Error {
    match step {
        DispatchStep::Finished(Err(e)) => e,
        DispatchStep::Finished(Ok(_)) => panic!("request unexpectedly constructed"),
        DispatchStep::Pending(_) => panic!("request unexpectedly pending"),
    }
}

fn pending(step: DispatchStep) -> Dispatch {
    match step {
        DispatchStep::Pending(d) => d,
        DispatchStep::Finished(_) => panic!("request unexpectedly settled"),
    }
}

#[test]
fn round_trip_integer_placeholder() {
    let decls = vec![variant(
        vec![route(HttpMethod::Get, "/users/{id}")],
        vec![field("id", FieldTy::Unsigned)],
    )];
    let t = compiled(&decls);
    let c = finished_ok(dispatch(&t, HttpMethod::Get, "/users/42"));
    assert_eq!(c.variant, 0);
    assert_eq!(c.path_values.len(), 1);
    assert!(matches!(c.path_values[0], PathValue::Uint(42)));
    assert!(c.query.is_none() && c.guards.is_empty() && c.body.is_none() && c.forward.is_none());
    // selection is structural; the parse failure surfaces only in the
    // pipeline, as a path-segment error with a not-found status
    let e = finished_err(dispatch(&t, HttpMethod::Get, "/users/abc"));
    assert_eq!(e.kind(), ErrorKind::PathSegment);
    assert_eq!(e.http_status(), 404);
}

#[test]
fn no_route_gives_not_found() {
    let decls = vec![variant(vec![route(HttpMethod::Get, "/a")], vec![])];
    let t = compiled(&decls);
    let e = finished_err(dispatch(&t, HttpMethod::Get, "/b"));
    assert_eq!(e.kind(), ErrorKind::NoMatchingRoute);
    assert_eq!(e.http_status(), 404);
}

#[test]
fn wrong_method_without_fallback() {
    let decls = vec![variant(vec![route(HttpMethod::Get, "/a")], vec![])];
    let t = compiled(&decls);
    let e = finished_err(dispatch(&t, HttpMethod::Post, "/a"));
    assert_eq!(e.kind(), ErrorKind::WrongMethod);
    assert_eq!(e.http_status(), 405);
    assert_eq!(e.allowed_methods(), Some(&vec![HttpMethod::Get]));
}

#[test]
fn guards_run_in_declaration_order() {
    let mut v = variant(vec![route(HttpMethod::Get, "/g")], vec![]);
    v.has_query = true;
    v.guard_count = 2;
    let t = compiled(&vec![v]);
    let d = pending(dispatch(&t, HttpMethod::Get, "/g"));
    assert_eq!(d.need(), Need::Query);
    let d = pending(d.step(StageEvent::Query(Ok(7))));
    assert_eq!(d.need(), Need::Guard { index: 0 });
    let d = pending(d.step(StageEvent::Guard(Ok(10))));
    assert_eq!(d.need(), Need::Guard { index: 1 });
    let c = finished_ok(d.step(StageEvent::Guard(Ok(11))));
    assert_eq!(c.query, Some(7));
    assert_eq!(c.guards, vec![10, 11]);
}

#[test]
fn guard_failure_short_circuits() {
    let mut v = variant(vec![route(HttpMethod::Get, "/g")], vec![]);
    v.guard_count = 2;
    let t = compiled(&vec![v]);
    let d = pending(dispatch(&t, HttpMethod::Get, "/g"));
    // the first guard rejects; its error propagates verbatim
    let e = finished_err(d.step(StageEvent::Guard(Err(Error::from_status(403)))));
    assert_eq!(e.http_status(), 403);
}

#[test]
fn query_failure_aborts() {
    let mut v = variant(vec![route(HttpMethod::Get, "/q")], vec![]);
    v.has_query = true;
    let t = compiled(&vec![v]);
    let d = pending(dispatch(&t, HttpMethod::Get, "/q"));
    let e = finished_err(d.step(StageEvent::Query(Err(String::from("bad pair")))));
    assert_eq!(e.kind(), ErrorKind::QueryParam);
    assert_eq!(e.http_status(), 400);
    assert_eq!(e.source(), Some(&String::from("bad pair")));
}

#[test]
fn body_decoding() {
    let mut v = variant(vec![route(HttpMethod::Post, "/b")], vec![]);
    v.has_body = true;
    let t = compiled(&vec![v]);
    let d = pending(dispatch(&t, HttpMethod::Post, "/b"));
    assert_eq!(d.need(), Need::Body);
    let c = finished_ok(d.step(StageEvent::Body(Ok(5))));
    assert_eq!(c.body, Some(5));

    let d = pending(dispatch(&t, HttpMethod::Post, "/b"));
    let e = finished_err(d.step(StageEvent::Body(Err(String::from("truncated")))));
    assert_eq!(e.kind(), ErrorKind::BadBody);
    assert_eq!(e.http_status(), 400);
}

#[test]
fn fallback_catches_no_match() {
    let mut f = variant(vec![], vec![]);
    f.has_forward = true;
    let decls = vec![variant(vec![route(HttpMethod::Get, "/x")], vec![]), f];
    let t = compiled(&decls);
    let d = pending(dispatch(&t, HttpMethod::Get, "/elsewhere"));
    assert_eq!(d.need(), Need::Forward);
    // the nested resolution constructs something
    let inner = Constructed {
        variant: 0,
        path_values: vec![],
        query: None,
        guards: vec![],
        body: None,
        forward: None,
    };
    let c = finished_ok(d.step(StageEvent::Forward(Ok(Box::new(inner)))));
    assert_eq!(c.variant, 1);
    assert!(c.forward.is_some());
}

#[test]
fn fallback_runs_its_own_guards_before_forwarding() {
    let mut f = variant(vec![], vec![]);
    f.has_forward = true;
    f.guard_count = 1;
    let t = compiled(&vec![variant(vec![route(HttpMethod::Get, "/x")], vec![]), f]);
    let d = pending(dispatch(&t, HttpMethod::Get, "/nowhere"));
    assert_eq!(d.need(), Need::Guard { index: 0 });
    let d = pending(d.step(StageEvent::Guard(Ok(3))));
    assert_eq!(d.need(), Need::Forward);
    let inner = Constructed {
        variant: 0,
        path_values: vec![],
        query: None,
        guards: vec![],
        body: None,
        forward: None,
    };
    let c = finished_ok(d.step(StageEvent::Forward(Ok(Box::new(inner)))));
    assert_eq!(c.guards, vec![3]);
    assert!(c.forward.is_some());
}

#[test]
fn fallback_merge() {
    // outer: GET /x plus a fallback that forwards to an inner router
    let mut f = variant(vec![], vec![]);
    f.has_forward = true;
    let outer = compiled(&vec![variant(vec![route(HttpMethod::Get, "/x")], vec![]), f]);
    // inner: PUT /x only
    let inner = compiled(&vec![variant(vec![route(HttpMethod::Put, "/x")], vec![])]);

    // POST /x: the outer table answers wrong-method {GET}, so the fallback
    // runs against the inner router, which rejects with {PUT}
    let d = pending(dispatch(&outer, HttpMethod::Post, "/x"));
    assert_eq!(d.need(), Need::Forward);
    let inner_err = finished_err(dispatch(&inner, HttpMethod::Post, "/x"));
    assert_eq!(inner_err.allowed_methods(), Some(&vec![HttpMethod::Put]));
    let e = finished_err(d.step(StageEvent::Forward(Err(inner_err))));
    assert_eq!(e.kind(), ErrorKind::WrongMethod);
    // outer methods first, then the inner ones
    assert_eq!(
        e.allowed_methods(),
        Some(&vec![HttpMethod::Get, HttpMethod::Put])
    );
}

#[test]
fn fallback_merge_deduplicates() {
    let mut f = variant(vec![], vec![]);
    f.has_forward = true;
    let outer = compiled(&vec![variant(vec![route(HttpMethod::Get, "/x")], vec![]), f]);
    let d = pending(dispatch(&outer, HttpMethod::Post, "/x"));
    let inner_err = Error::wrong_method(vec![HttpMethod::Get, HttpMethod::Put]);
    let e = finished_err(d.step(StageEvent::Forward(Err(inner_err))));
    assert_eq!(
        e.allowed_methods(),
        Some(&vec![HttpMethod::Get, HttpMethod::Put])
    );
}

#[test]
fn fallback_other_errors_propagate() {
    let mut f = variant(vec![], vec![]);
    f.has_forward = true;
    let outer = compiled(&vec![variant(vec![route(HttpMethod::Get, "/x")], vec![]), f]);
    let d = pending(dispatch(&outer, HttpMethod::Post, "/x"));
    let e = finished_err(d.step(StageEvent::Forward(Err(Error::from_status(500)))));
    assert_eq!(e.http_status(), 500);
}
