use hyperdrive::pattern::{Pattern, PatternError};

fn parse_err(s: &str) -> PatternError {
    match Pattern::parse(s) {
        Ok(_) => panic!("pattern {} unexpectedly accepted", s),
        Err(e) => e,
    }
}

fn parsed(s: &str) -> Pattern {
    match Pattern::parse(s) {
        Ok(p) => p,
        Err(e) => panic!("pattern {} rejected: {:?}", s, e),
    }
}

#[test]
fn literal_pattern_matches_exactly() {
    let p = parsed("/users/all");
    assert!(p.matches("/users/all").is_some());
    assert!(p.matches("/users/all/").is_none());
    assert!(p.matches("/users").is_none());
    assert!(p.matches("/users/ALL").is_none());
}

#[test]
fn root_pattern() {
    let p = parsed("/");
    assert!(p.matches("/").is_some());
    assert!(p.matches("").is_none());
    assert!(p.matches("/x").is_none());
}

#[test]
fn placeholder_captures_one_segment() {
    let p = parsed("/users/{id}");
    let caps = p.matches("/users/42").expect("should match");
    assert_eq!(caps.len(), 1);
    assert_eq!(caps[0], "42");
    // a placeholder never matches an empty segment
    assert!(p.matches("/users/").is_none());
    // nor more than one segment
    assert!(p.matches("/users/4/2").is_none());
}

#[test]
fn two_placeholders_capture_in_order() {
    let p = parsed("/users/{user}/posts/{post}");
    let caps = p.matches("/users/7/posts/9").expect("should match");
    assert_eq!(caps, vec![String::from("7"), String::from("9")]);
}

#[test]
fn catch_all_captures_joined_tail() {
    let p = parsed("/static/{path...}");
    let caps = p.matches("/static/css/site.css").expect("should match");
    assert_eq!(caps, vec![String::from("css/site.css")]);
    let caps = p.matches("/static/x").expect("should match");
    assert_eq!(caps, vec![String::from("x")]);
    // the tail must be non-empty
    assert!(p.matches("/static/").is_none());
    assert!(p.matches("/static").is_none());
    // an embedded empty segment still leaves a non-empty tail
    let caps = p.matches("/static//x").expect("should match");
    assert_eq!(caps, vec![String::from("/x")]);
}

#[test]
fn dup_placeholder_in_pattern() {
    assert_eq!(parse_err("/{ph}/{ph}"), PatternError::DuplicatePlaceholder);
}

#[test]
fn any_placeholder1() {
    assert_eq!(parse_err("/{ph}/{rest...}/"), PatternError::CatchAllNotTerminal);
}

#[test]
fn any_placeholder2() {
    assert_eq!(parse_err("/{rest...}/more/{stuff}"), PatternError::CatchAllNotTerminal);
}

#[test]
fn any_placeholder3() {
    assert_eq!(parse_err("/{rest...}/more/{stuff...}"), PatternError::CatchAllNotTerminal);
}

#[test]
fn catch_all_terminality() {
    // both ill-formed placements fail with the terminal-catch-all error
    assert_eq!(parse_err("/a/{rest...}/b"), PatternError::CatchAllNotTerminal);
    assert_eq!(parse_err("/a/{x}/{rest...}/{y}"), PatternError::CatchAllNotTerminal);
}

#[test]
fn placeholder_names_in_order() {
    let p = parsed("/a/{x}/b/{y}/{rest...}");
    assert_eq!(
        p.placeholder_names(),
        vec![String::from("x"), String::from("y"), String::from("rest")]
    );
    assert_eq!(p.placeholder_count(), 3);
}

#[test]
fn structural_equality_ignores_names() {
    let a = parsed("/u/{x}");
    let b = parsed("/u/{y}");
    let c = parsed("/v/{x}");
    let d = parsed("/u/{x...}");
    assert!(a.structurally_equal(&b));
    assert!(!a.structurally_equal(&c));
    assert!(!a.structurally_equal(&d));
}
