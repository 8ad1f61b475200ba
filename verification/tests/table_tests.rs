use hyperdrive::decl::{FieldTy, PathField, RouteDecl, VariantDecl};
use hyperdrive::error::CompileError;
use hyperdrive::method::HttpMethod;
use hyperdrive::table::{Resolution, RouteTable};

fn route(method: HttpMethod, path: &str) -> RouteDecl {
    RouteDecl {
        method,
        path: String::from(path),
    }
}

fn field(name: &str, ty: FieldTy) -> PathField {
    PathField {
        name: String::from(name),
        ty,
    }
}

fn variant(routes: Vec<RouteDecl>, path_fields: Vec<PathField>) -> VariantDecl {
    VariantDecl {
        routes,
        path_fields,
        has_query: false,
        guard_count: 0,
        has_body: false,
        has_forward: false,
    }
}

fn compile_err(decls: &Vec<VariantDecl>) -> CompileError {
    match RouteTable::compile(decls) {
        Ok(_) => panic!("declarations unexpectedly accepted"),
        Err(e) => e,
    }
}

fn compiled(decls: &Vec<VariantDecl>) -> RouteTable {
    match RouteTable::compile(decls) {
        Ok(t) => t,
        Err(e) => panic!("declarations rejected: {:?}", e),
    }
}

#[test]
fn disjoint_literals_compile() {
    // a differing literal at a common position makes a pair safe
    let decls = vec![
        variant(vec![route(HttpMethod::Get, "/a/{x}")], vec![field("x", FieldTy::Text)]),
        variant(vec![route(HttpMethod::Get, "/b/{y}")], vec![field("y", FieldTy::Text)]),
    ];
    compiled(&decls);
}

#[test]
fn overlap() {
    let decls = vec![
        variant(vec![route(HttpMethod::Get, "/0")], vec![]),
        variant(
            vec![route(HttpMethod::Get, "/{ph}")],
            vec![field("ph", FieldTy::Unsigned)],
        ),
    ];
    assert_eq!(compile_err(&decls), CompileError::OverlappingRoutes {
            variant_a: 0,
            variant_b: 1
        });
}

#[test]
fn overlap_with_catch_all() {
    let decls = vec![
        variant(vec![route(HttpMethod::Get, "/a/b")], vec![]),
        variant(
            vec![route(HttpMethod::Get, "/a/{rest...}")],
            vec![field("rest", FieldTy::Text)],
        ),
    ];
    assert!(matches!(
        compile_err(&decls),
        CompileError::OverlappingRoutes { .. }
    ));
}

#[test]
fn dup_routes() {
    let decls = vec![
        variant(
            vec![route(HttpMethod::Get, "/{ph}")],
            vec![field("ph", FieldTy::Unsigned)],
        ),
        variant(
            vec![route(HttpMethod::Get, "/{pl}")],
            vec![field("pl", FieldTy::Unsigned)],
        ),
    ];
    assert_eq!(compile_err(&decls), CompileError::DuplicateRoute {
            variant_a: 0,
            variant_b: 1
        });
}

#[test]
fn wrong_routes() {
    // one variant, two routes with different placeholder names
    let decls = vec![variant(
        vec![route(HttpMethod::Get, "/{ph}"), route(HttpMethod::Post, "/{pl}")],
        vec![field("ph", FieldTy::Text), field("pl", FieldTy::Text)],
    )];
    assert_eq!(compile_err(&decls), CompileError::DifferentPlaceholders {
            variant_a: 0,
            variant_b: 0
        });
}

#[test]
fn cross_variant_different_placeholders() {
    // same pattern, different method, diverging names
    let decls = vec![
        variant(
            vec![route(HttpMethod::Get, "/{ph}")],
            vec![field("ph", FieldTy::Text)],
        ),
        variant(
            vec![route(HttpMethod::Post, "/{pl}")],
            vec![field("pl", FieldTy::Text)],
        ),
    ];
    assert_eq!(compile_err(&decls), CompileError::DifferentPlaceholders {
            variant_a: 0,
            variant_b: 1
        });
}

#[test]
fn no_placeholder_field() {
    let decls = vec![variant(vec![route(HttpMethod::Get, "/{pl}")], vec![])];
    assert_eq!(compile_err(&decls), CompileError::MissingPlaceholderField {
            variant: 0,
            route: 0
        });
}

#[test]
fn dup_placeholder() {
    let decls = vec![variant(
        vec![route(HttpMethod::Get, "/{ph}/{ph}")],
        vec![field("ph", FieldTy::Unsigned)],
    )];
    assert_eq!(compile_err(&decls), CompileError::DuplicatePlaceholder {
            variant: 0,
            route: 0
        });
}

#[test]
fn catch_all_not_terminal_rejected_at_compile() {
    let decls = vec![variant(
        vec![route(HttpMethod::Get, "/a/{rest...}/b")],
        vec![field("rest", FieldTy::Text), field("b", FieldTy::Text)],
    )];
    assert_eq!(compile_err(&decls), CompileError::CatchAllNotTerminal {
            variant: 0,
            route: 0
        });
}

#[test]
fn body_and_forward() {
    let mut v = variant(vec![route(HttpMethod::Get, "/")], vec![]);
    v.has_body = true;
    v.has_forward = true;
    let decls = vec![v];
    assert_eq!(compile_err(&decls), CompileError::BodyAndForwardBothPresent { variant: 0 });
}

#[test]
fn multiple_fallback_routes() {
    let mut a = variant(vec![], vec![]);
    a.has_forward = true;
    let mut b = variant(vec![], vec![]);
    b.has_forward = true;
    let decls = vec![a, b];
    assert_eq!(compile_err(&decls), CompileError::MultipleFallbacks {
            variant_a: 0,
            variant_b: 1
        });
}

#[test]
fn shared_pattern_routes_by_method() {
    let decls = vec![
        variant(
            vec![route(HttpMethod::Get, "/users/{id}")],
            vec![field("id", FieldTy::Unsigned)],
        ),
        variant(
            vec![route(HttpMethod::Post, "/users/{id}")],
            vec![field("id", FieldTy::Unsigned)],
        ),
    ];
    let t = compiled(&decls);
    match t.resolve(HttpMethod::Get, "/users/3") {
        Resolution::Matched { variant, .. } => assert_eq!(variant, 0),
        _ => panic!("expected a match"),
    }
    match t.resolve(HttpMethod::Post, "/users/3") {
        Resolution::Matched { variant, .. } => assert_eq!(variant, 1),
        _ => panic!("expected a match"),
    }
}

#[test]
fn resolve_no_match() {
    let decls = vec![variant(vec![route(HttpMethod::Get, "/a")], vec![])];
    let t = compiled(&decls);
    assert!(matches!(t.resolve(HttpMethod::Get, "/b"), Resolution::NoMatch));
}

#[test]
fn wrong_method_static_allowed_list() {
    let decls = vec![
        variant(vec![route(HttpMethod::Get, "/a")], vec![]),
        variant(vec![route(HttpMethod::Put, "/a")], vec![]),
    ];
    let t = compiled(&decls);
    match t.resolve(HttpMethod::Post, "/a") {
        Resolution::WrongMethod { allowed } => {
            assert_eq!(allowed, vec![HttpMethod::Get, HttpMethod::Put]);
        }
        _ => panic!("expected a wrong-method answer"),
    }
}

#[test]
fn method_aggregation_excludes_unparseable() {
    // GET binds an unsigned field, POST a text field, on one pattern
    let decls = vec![
        variant(
            vec![route(HttpMethod::Get, "/items/{key}")],
            vec![field("key", FieldTy::Unsigned)],
        ),
        variant(
            vec![route(HttpMethod::Post, "/items/{key}")],
            vec![field("key", FieldTy::Text)],
        ),
    ];
    let t = compiled(&decls);
    // "abc" does not parse for GET's unsigned field, so GET is excluded
    match t.resolve(HttpMethod::Delete, "/items/abc") {
        Resolution::WrongMethod { allowed } => assert_eq!(allowed, vec![HttpMethod::Post]),
        _ => panic!("expected a wrong-method answer"),
    }
    // "42" parses for both
    match t.resolve(HttpMethod::Delete, "/items/42") {
        Resolution::WrongMethod { allowed } => {
            assert_eq!(allowed, vec![HttpMethod::Get, HttpMethod::Post]);
        }
        _ => panic!("expected a wrong-method answer"),
    }
}

#[test]
fn selection_is_structural() {
    // an unparseable capture still selects the route; parsing is deferred
    let decls = vec![variant(
        vec![route(HttpMethod::Get, "/users/{id}")],
        vec![field("id", FieldTy::Unsigned)],
    )];
    let t = compiled(&decls);
    match t.resolve(HttpMethod::Get, "/users/abc") {
        Resolution::Matched { variant, captures } => {
            assert_eq!(variant, 0);
            assert_eq!(captures, vec![String::from("abc")]);
        }
        _ => panic!("expected a structural match"),
    }
}

#[test]
fn resolve_is_deterministic() {
    let decls = vec![
        variant(
            vec![route(HttpMethod::Get, "/users/{id}")],
            vec![field("id", FieldTy::Unsigned)],
        ),
        variant(vec![route(HttpMethod::Get, "/about")], vec![]),
    ];
    let t = compiled(&decls);
    for path in ["/users/42", "/about", "/nowhere", "/users/x"] {
        let a = t.resolve(HttpMethod::Get, path);
        let b = t.resolve(HttpMethod::Get, path);
        match (a, b) {
            (
                Resolution::Matched {
                    variant: v1,
                    captures: c1,
                },
                Resolution::Matched {
                    variant: v2,
                    captures: c2,
                },
            ) => {
                assert_eq!(v1, v2);
                assert_eq!(c1, c2);
            }
            (
                Resolution::WrongMethod { allowed: a1 },
                Resolution::WrongMethod { allowed: a2 },
            ) => assert_eq!(a1, a2),
            (Resolution::NoMatch, Resolution::NoMatch) => {}
            _ => panic!("two resolutions of {} disagree", path),
        }
    }
}

#[test]
fn exactly_one_match() {
    // three disjoint routes: every path matches at most one set
    let decls = vec![
        variant(vec![route(HttpMethod::Get, "/a/b")], vec![]),
        variant(
            vec![route(HttpMethod::Get, "/a/{x}/c")],
            vec![field("x", FieldTy::Text)],
        ),
        variant(
            vec![route(HttpMethod::Get, "/d/{rest...}")],
            vec![field("rest", FieldTy::Text)],
        ),
    ];
    let t = compiled(&decls);
    for (path, want) in [
        ("/a/b", Some(0)),
        ("/a/b/c", Some(1)),
        ("/d/a/b", Some(2)),
        ("/a/b/c/d", None),
    ] {
        match (t.resolve(HttpMethod::Get, path), want) {
            (Resolution::Matched { variant, .. }, Some(v)) => assert_eq!(variant, v),
            (Resolution::NoMatch, None) => {}
            _ => panic!("unexpected resolution for {}", path),
        }
    }
}

#[test]
fn all_methods_in_declaration_order() {
    let decls = vec![
        variant(vec![route(HttpMethod::Put, "/a")], vec![]),
        variant(vec![route(HttpMethod::Get, "/a")], vec![]),
    ];
    let t = compiled(&decls);
    assert_eq!(t.sets.len(), 1);
    assert_eq!(
        t.sets[0].all_methods(),
        vec![HttpMethod::Put, HttpMethod::Get]
    );
    assert_eq!(t.sets[0].method_for(HttpMethod::Get), Some(1));
    assert_eq!(t.sets[0].method_for(HttpMethod::Put), Some(0));
    assert_eq!(t.sets[0].method_for(HttpMethod::Head), None);
}
