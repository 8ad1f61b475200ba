//! The compiled route table: route sets grouped by pattern, an optional
//! fallback variant, and the per-request `resolve` query.

use vstd::prelude::*;

use crate::decl::{
    field_ty_for, spec_field_ty, spec_is_fallback, spec_parses, FieldTy, PathFieldView,
    VariantDecl, VariantDeclView,
};
use crate::error::CompileError;
use crate::method::HttpMethod;
use crate::overlap::{
    check_overlap, lemma_common_match_implies_overlap, lemma_overlap_symmetric, patterns_overlap,
};
use crate::pattern::{
    captures_of, catchall_terminal, pattern_names, pattern_struct_eq, pattern_wf, segs_match,
    spec_pattern, unique_names, Pattern, PatternError, SegView,
};
use crate::text::split_slashes;

verus! {

/// One declared route inside a set: a method and the variant it selects.
#[derive(Clone, Copy, Debug)]
pub struct RouteEntry {
    pub method: HttpMethod,
    pub variant: usize,
}

/// All routes that share one pattern.
pub struct RouteSet {
    pub pattern: Pattern,
    /// The pattern's bound names, cached at compile time.
    pub names: Vec<String>,
    pub entries: Vec<RouteEntry>,
}

/// What the construction pipeline needs to know about one variant.
pub struct VariantInfo {
    /// The field types the pattern's placeholders bind to, in order.
    pub path_tys: Vec<FieldTy>,
    pub has_query: bool,
    pub guard_count: usize,
    pub has_body: bool,
    pub has_forward: bool,
}

/// The variant an entry list selects for a method; meaningful only when
/// some entry carries the method.
pub open spec fn spec_method_variant(entries: Seq<RouteEntry>, m: HttpMethod) -> usize
    decreases entries.len(),
{
    if entries.len() == 0 {
        0
    } else if entries[0].method == m {
        entries[0].variant
    } else {
        spec_method_variant(entries.drop_first(), m)
    }
}

/// When some entry carries the method, `spec_method_variant` names one such
/// entry's variant.
pub proof fn lemma_method_variant(entries: Seq<RouteEntry>, m: HttpMethod)
    requires
        exists|e: int| 0 <= e < entries.len() && entries[e].method == m,
    ensures
        exists|e: int|
            0 <= e < entries.len() && (#[trigger] entries[e]).method == m && entries[e].variant
                == spec_method_variant(entries, m),
    decreases entries.len(),
{
    if entries.len() > 0 {
        if entries[0].method == m {
            assert(entries[0].variant == spec_method_variant(entries, m));
        } else {
            let e0 = choose|e: int| 0 <= e < entries.len() && entries[e].method == m;
            assert(entries.drop_first()[e0 - 1].method == m);
            lemma_method_variant(entries.drop_first(), m);
            let e1 = choose|e: int|
                0 <= e < entries.drop_first().len() && (#[trigger] entries.drop_first()[e]).method
                    == m && entries.drop_first()[e].variant == spec_method_variant(
                    entries.drop_first(),
                    m,
                );
            assert(entries[e1 + 1].method == m && entries[e1 + 1].variant == spec_method_variant(
                entries,
                m,
            ));
        }
    }
}

impl RouteSet {
    /// Whether some entry carries the method.
    pub open spec fn spec_has_method(&self, m: HttpMethod) -> bool {
        exists|e: int| 0 <= e < self.entries@.len() && self.entries@[e].method == m
    }

    /// A well-formed set: a well-formed pattern, its names cached, at least
    /// one entry, and no method repeated.
    pub open spec fn wf(&self) -> bool {
        &&& pattern_wf(self.pattern@)
        &&& self.names.deep_view() == pattern_names(self.pattern@)
        &&& self.entries@.len() >= 1
        &&& forall|e1: int, e2: int|
            0 <= e1 < e2 < self.entries@.len() ==> self.entries@[e1].method
                != self.entries@[e2].method
    }

    /// The variant routed for a method on this set, if the method is
    /// declared here.
    #[verifier::loop_isolation(false)]
    pub fn method_for(&self, m: HttpMethod) -> (r: Option<usize>)
        ensures
            r is Some <==> self.spec_has_method(m),
            r matches Some(v) ==> v == spec_method_variant(self.entries@, m),
    {
        let ghost es = self.entries@;
        let mut e: usize = 0;
        proof {
            assert(es.skip(0) =~= es);
        }
        while e < self.entries.len()
            invariant
                e <= es.len(),
                forall|j: int| 0 <= j < e ==> es[j].method != m,
                spec_method_variant(es, m) == spec_method_variant(es.skip(e as int), m),
            decreases es.len() - e,
        {
            proof {
                assert(es.skip(e as int)[0] == es[e as int]);
                assert(es.skip(e as int).drop_first() =~= es.skip(e + 1 as int));
            }
            if self.entries[e].method == m {
                return Some(self.entries[e].variant);
            }
            e = e + 1;
        }
        None
    }

    /// Every method declared on this set, in declaration order.
    pub fn all_methods(&self) -> (r: Vec<HttpMethod>)
        ensures
            r@ == self.entries@.map_values(|e: RouteEntry| e.method),
    {
        let mut ms: Vec<HttpMethod> = Vec::new();
        let mut e: usize = 0;
        while e < self.entries.len()
            invariant
                e <= self.entries@.len(),
                ms@ =~= self.entries@.take(e as int).map_values(|en: RouteEntry| en.method),
            decreases self.entries@.len() - e,
        {
            ms.push(self.entries[e].method);
            proof {
                assert(self.entries@.take(e + 1 as int).drop_last() =~= self.entries@.take(
                    e as int,
                ));
            }
            e = e + 1;
        }
        proof {
            assert(self.entries@.take(self.entries@.len() as int) =~= self.entries@);
        }
        ms
    }
}

/// The answer to a `resolve` query.
pub enum Resolution {
    /// Exactly one pattern matches the path and carries the method; the
    /// captures are the placeholder substrings in order.
    Matched { variant: usize, captures: Vec<String> },
    /// A pattern matches the path, but not for this method; `allowed`
    /// lists the methods of the entries that accept the path's captures.
    WrongMethod { allowed: Vec<HttpMethod> },
    /// No pattern matches the path.
    NoMatch,
}

/// A compiled, immutable route table.
pub struct RouteTable {
    pub sets: Vec<RouteSet>,
    /// The variant selected when no pattern matches, if one was declared.
    pub fallback: Option<usize>,
    /// Per-variant construction data, indexed by declaration position.
    pub variants: Vec<VariantInfo>,
}

impl RouteTable {
    /// Whether the entry's variant accepts the captures: every capture
    /// parses under the variant's field type at that position.
    pub open spec fn spec_entry_accepts(&self, en: RouteEntry, caps: Seq<Seq<char>>) -> bool {
        &&& self.variants@[en.variant as int].path_tys@.len() == caps.len()
        &&& forall|k: int|
            0 <= k < caps.len() ==> spec_parses(
                #[trigger] self.variants@[en.variant as int].path_tys@[k],
                caps[k],
            )
    }

    /// The allowed methods reported by a wrong-method answer: the methods
    /// of the entries whose variants accept the captures, in entry order.
    pub open spec fn spec_allowed_methods(
        &self,
        entries: Seq<RouteEntry>,
        caps: Seq<Seq<char>>,
    ) -> Seq<HttpMethod>
        decreases entries.len(),
    {
        if entries.len() == 0 {
            Seq::<HttpMethod>::empty()
        } else {
            let rest = self.spec_allowed_methods(entries.drop_last(), caps);
            if self.spec_entry_accepts(entries.last(), caps) {
                rest.push(entries.last().method)
            } else {
                rest
            }
        }
    }

    /// A well-formed table: well-formed sets over distinct, pairwise
    /// non-overlapping patterns, entries pointing at known variants with
    /// matching placeholder counts, and a fallback that forwards and binds
    /// no path fields.
    pub open spec fn wf(&self) -> bool {
        &&& forall|i: int| 0 <= i < self.sets@.len() ==> (#[trigger] self.sets@[i]).wf()
        &&& forall|i: int, j: int|
            0 <= i < self.sets@.len() && 0 <= j < self.sets@.len() && i != j
                ==> !patterns_overlap(self.sets@[i].pattern@, self.sets@[j].pattern@)
        &&& forall|i: int, e: int|
            0 <= i < self.sets@.len() && 0 <= e < self.sets@[i].entries@.len() ==> {
                let en = #[trigger] self.sets@[i].entries@[e];
                &&& en.variant < self.variants@.len()
                &&& self.variants@[en.variant as int].path_tys@.len() == pattern_names(
                    self.sets@[i].pattern@,
                ).len()
            }
        &&& self.fallback matches Some(f) ==> f < self.variants@.len()
            && self.variants@[f as int].has_forward && self.variants@[f as int].path_tys@.len()
            == 0
    }

    /// Everything `resolve` promises of its answer, over the split path.
    pub open spec fn resolution_matches(
        &self,
        method: HttpMethod,
        ss: Seq<Seq<char>>,
        r: Resolution,
    ) -> bool {
        &&& (r is NoMatch <==> forall|i: int|
            0 <= i < self.sets@.len() ==> !segs_match(#[trigger] self.sets@[i].pattern@, ss))
        &&& (r is Matched <==> exists|i: int|
            0 <= i < self.sets@.len() && segs_match(#[trigger] self.sets@[i].pattern@, ss)
                && self.sets@[i].spec_has_method(method))
        &&& (r matches Resolution::Matched { variant, captures } ==> exists|i: int|
            0 <= i < self.sets@.len() && segs_match(#[trigger] self.sets@[i].pattern@, ss)
                && self.sets@[i].spec_has_method(method) && variant == spec_method_variant(
                self.sets@[i].entries@,
                method,
            ) && captures.deep_view() == captures_of(self.sets@[i].pattern@, ss))
        &&& (r matches Resolution::WrongMethod { allowed } ==> exists|i: int|
            0 <= i < self.sets@.len() && segs_match(#[trigger] self.sets@[i].pattern@, ss)
                && !self.sets@[i].spec_has_method(method) && allowed@ == self.spec_allowed_methods(
                self.sets@[i].entries@,
                captures_of(self.sets@[i].pattern@, ss),
            ))
    }

    /// At most one set matches any path: the overlap checker's soundness,
    /// restated on a whole table.
    pub proof fn lemma_at_most_one_match(&self, i: int, j: int, ss: Seq<Seq<char>>)
        requires
            self.wf(),
            0 <= i < self.sets@.len(),
            0 <= j < self.sets@.len(),
            segs_match(self.sets@[i].pattern@, ss),
            segs_match(self.sets@[j].pattern@, ss),
        ensures
            i == j,
    {
        if i != j {
            lemma_common_match_implies_overlap(
                self.sets@[i].pattern@,
                self.sets@[j].pattern@,
                ss,
            );
        }
    }

    /// Whether every capture parses under the variant's field types.
    #[verifier::loop_isolation(false)]
    fn entry_accepts(&self, en: RouteEntry, caps: &Vec<String>) -> (r: bool)
        requires
            en.variant < self.variants@.len(),
        ensures
            r == self.spec_entry_accepts(en, caps.deep_view()),
    {
        let tys = &self.variants[en.variant].path_tys;
        if tys.len() != caps.len() {
            return false;
        }
        let mut k: usize = 0;
        while k < caps.len()
            invariant
                k <= caps@.len(),
                forall|x: int|
                    0 <= x < k ==> spec_parses(
                        #[trigger] self.variants@[en.variant as int].path_tys@[x],
                        caps.deep_view()[x],
                    ),
            decreases caps@.len() - k,
        {
            if crate::decl::parse_path_value(tys[k], caps[k].as_str()).is_none() {
                return false;
            }
            k = k + 1;
        }
        true
    }

    /// The dynamic allowed-method list for a matched set.
    #[verifier::loop_isolation(false)]
    fn allowed_for(&self, si: usize, caps: &Vec<String>) -> (r: Vec<HttpMethod>)
        requires
            self.wf(),
            si < self.sets@.len(),
        ensures
            r@ == self.spec_allowed_methods(self.sets@[si as int].entries@, caps.deep_view()),
    {
        let ghost es = self.sets@[si as int].entries@;
        let mut allowed: Vec<HttpMethod> = Vec::new();
        let mut e: usize = 0;
        proof {
            assert(es.take(0) =~= Seq::<RouteEntry>::empty());
        }
        while e < self.sets[si].entries.len()
            invariant
                e <= es.len(),
                allowed@ == self.spec_allowed_methods(es.take(e as int), caps.deep_view()),
            decreases es.len() - e,
        {
            proof {
                assert(es.take(e + 1 as int).drop_last() =~= es.take(e as int));
                assert(es.take(e + 1 as int).last() == es[e as int]);
            }
            let en = self.sets[si].entries[e];
            if self.entry_accepts(en, caps) {
                allowed.push(en.method);
            }
            e = e + 1;
        }
        proof {
            assert(es.take(es.len() as int) =~= es);
        }
        allowed
    }

    /// Resolves a request: finds the unique set whose pattern matches the
    /// path, then routes by method.  Placeholder parsing never influences
    /// which set matches; it only shapes a wrong-method answer's allowed
    /// list, and is otherwise deferred to construction.
    #[verifier::loop_isolation(false)]
    pub fn resolve(&self, method: HttpMethod, path: &str) -> (r: Resolution)
        requires
            self.wf(),
        ensures
            self.resolution_matches(method, split_slashes(path@), r),
    {
        let ghost ss = split_slashes(path@);
        let mut si: usize = 0;
        while si < self.sets.len()
            invariant
                si <= self.sets@.len(),
                forall|i: int|
                    0 <= i < si ==> !segs_match(#[trigger] self.sets@[i].pattern@, ss),
            decreases self.sets@.len() - si,
        {
            match self.sets[si].pattern.matches(path) {
                Some(caps) => {
                    proof {
                        crate::pattern::lemma_captures_len(self.sets@[si as int].pattern@, ss);
                    }
                    match self.sets[si].method_for(method) {
                        Some(v) => {
                            return Resolution::Matched { variant: v, captures: caps };
                        },
                        None => {
                            let allowed = self.allowed_for(si, &caps);
                            proof {
                                assert forall|i: int|
                                    0 <= i < self.sets@.len() && segs_match(
                                        #[trigger] self.sets@[i].pattern@,
                                        ss,
                                    ) implies i == si as int by {
                                    self.lemma_at_most_one_match(i, si as int, ss);
                                }
                            }
                            return Resolution::WrongMethod { allowed };
                        },
                    }
                },
                None => {
                },
            }
            si = si + 1;
        }
        Resolution::NoMatch
    }
}

// ---------- declaration validity ----------

pub open spec fn valid_route_index(ds: Seq<VariantDeclView>, v: int, r: int) -> bool {
    0 <= v < ds.len() && 0 <= r < ds[v].routes.len()
}

/// The pattern the `r`-th route of the `v`-th declaration denotes.
pub open spec fn route_pat(ds: Seq<VariantDeclView>, v: int, r: int) -> Seq<SegView> {
    spec_pattern(ds[v].routes[r].path)
}

/// What must hold of one declaration on its own: body and forward do not
/// both appear, every route pattern is well formed, all routes bind the
/// same names in the same order, and each name is a declared field.
pub open spec fn variant_ok(d: VariantDeclView) -> bool {
    &&& !(d.has_body && d.has_forward)
    &&& forall|r: int|
        0 <= r < d.routes.len() ==> pattern_wf(spec_pattern((#[trigger] d.routes[r]).path))
    &&& forall|r: int|
        0 <= r < d.routes.len() ==> pattern_names(spec_pattern((#[trigger] d.routes[r]).path))
            == pattern_names(spec_pattern(d.routes[0].path))
    &&& forall|r: int, k: int|
        #![trigger pattern_names(spec_pattern(d.routes[r].path))[k]]
        0 <= r < d.routes.len() && 0 <= k < pattern_names(
            spec_pattern(d.routes[r].path),
        ).len() ==> spec_field_ty(d.path_fields, pattern_names(spec_pattern(d.routes[r].path))[k])
            is Some
}

/// Distinct routes on structurally equal patterns must differ in method and
/// agree on placeholder names.
pub open spec fn decls_grouping_ok(ds: Seq<VariantDeclView>) -> bool {
    forall|v1: int, r1: int, v2: int, r2: int|
        #![trigger route_pat(ds, v1, r1), route_pat(ds, v2, r2)]
        valid_route_index(ds, v1, r1) && valid_route_index(ds, v2, r2) && !(v1 == v2 && r1 == r2)
            && pattern_struct_eq(route_pat(ds, v1, r1), route_pat(ds, v2, r2)) ==> (
        ds[v1].routes[r1].method != ds[v2].routes[r2].method && pattern_names(
            route_pat(ds, v1, r1),
        ) == pattern_names(route_pat(ds, v2, r2)))
}

/// Routes on structurally distinct patterns must not overlap.
pub open spec fn decls_no_overlap(ds: Seq<VariantDeclView>) -> bool {
    forall|v1: int, r1: int, v2: int, r2: int|
        #![trigger route_pat(ds, v1, r1), route_pat(ds, v2, r2)]
        valid_route_index(ds, v1, r1) && valid_route_index(ds, v2, r2) && !pattern_struct_eq(
            route_pat(ds, v1, r1),
            route_pat(ds, v2, r2),
        ) ==> !patterns_overlap(route_pat(ds, v1, r1), route_pat(ds, v2, r2))
}

/// At most one declaration may be a fallback.
pub open spec fn decls_single_fallback(ds: Seq<VariantDeclView>) -> bool {
    forall|v1: int, v2: int|
        0 <= v1 < v2 < ds.len() ==> !(spec_is_fallback(#[trigger] ds[v1]) && spec_is_fallback(
            #[trigger] ds[v2],
        ))
}

/// Everything table compilation checks; compilation succeeds exactly when
/// this holds.
pub open spec fn decls_valid(ds: Seq<VariantDeclView>) -> bool {
    &&& forall|v: int| 0 <= v < ds.len() ==> variant_ok(#[trigger] ds[v])
    &&& decls_grouping_ok(ds)
    &&& decls_no_overlap(ds)
    &&& decls_single_fallback(ds)
}

/// The field types a name list binds to, in order.
pub open spec fn spec_tys_for(fields: Seq<PathFieldView>, names: Seq<Seq<char>>) -> Seq<FieldTy>
    decreases names.len(),
{
    if names.len() == 0 {
        Seq::<FieldTy>::empty()
    } else {
        spec_tys_for(fields, names.drop_last()).push(
            match spec_field_ty(fields, names.last()) {
                Some(t) => t,
                None => FieldTy::Text,
            },
        )
    }
}

pub proof fn lemma_tys_for_len(fields: Seq<PathFieldView>, names: Seq<Seq<char>>)
    ensures
        spec_tys_for(fields, names).len() == names.len(),
    decreases names.len(),
{
    if names.len() > 0 {
        lemma_tys_for_len(fields, names.drop_last());
    }
}

/// The placeholder field types of one declaration, read off its first
/// route.
pub open spec fn spec_variant_tys(d: VariantDeclView) -> Seq<FieldTy> {
    if d.routes.len() == 0 {
        Seq::<FieldTy>::empty()
    } else {
        spec_tys_for(d.path_fields, pattern_names(spec_pattern(d.routes[0].path)))
    }
}

/// Routes `r1` of `a` and `r2` of `b` disagree on placeholder names while
/// standing on the same pattern (or on one declaration).
pub open spec fn different_placeholders_at(
    ds: Seq<VariantDeclView>,
    a: usize,
    b: usize,
    r1: int,
    r2: int,
) -> bool {
    &&& valid_route_index(ds, a as int, r1)
    &&& valid_route_index(ds, b as int, r2)
    &&& (a == b || pattern_struct_eq(route_pat(ds, a as int, r1), route_pat(ds, b as int, r2)))
    &&& pattern_names(route_pat(ds, a as int, r1)) != pattern_names(route_pat(ds, b as int, r2))
}

/// Routes `r1` of `a` and `r2` of `b` declare the same method on one
/// pattern.
pub open spec fn duplicate_route_at(
    ds: Seq<VariantDeclView>,
    a: usize,
    b: usize,
    r1: int,
    r2: int,
) -> bool {
    &&& valid_route_index(ds, a as int, r1)
    &&& valid_route_index(ds, b as int, r2)
    &&& !(a == b && r1 == r2)
    &&& pattern_struct_eq(route_pat(ds, a as int, r1), route_pat(ds, b as int, r2))
    &&& ds[a as int].routes[r1].method == ds[b as int].routes[r2].method
}

/// Routes `r1` of `a` and `r2` of `b` stand on distinct patterns that could
/// both match one path.
pub open spec fn overlapping_routes_at(
    ds: Seq<VariantDeclView>,
    a: usize,
    b: usize,
    r1: int,
    r2: int,
) -> bool {
    &&& valid_route_index(ds, a as int, r1)
    &&& valid_route_index(ds, b as int, r2)
    &&& !pattern_struct_eq(route_pat(ds, a as int, r1), route_pat(ds, b as int, r2))
    &&& patterns_overlap(route_pat(ds, a as int, r1), route_pat(ds, b as int, r2))
}

/// Some placeholder of route `r` of declaration `v` names no declared
/// field.
pub open spec fn missing_field_cause(ds: Seq<VariantDeclView>, v: usize, r: usize) -> bool {
    &&& valid_route_index(ds, v as int, r as int)
    &&& exists|k: int|
        0 <= k < pattern_names(route_pat(ds, v as int, r as int)).len() && spec_field_ty(
            ds[v as int].path_fields,
            pattern_names(route_pat(ds, v as int, r as int))[k],
        ) is None
}

/// Some pair of routes of `a` and `b` disagrees on placeholder names.
pub open spec fn different_placeholders_cause(ds: Seq<VariantDeclView>, a: usize, b: usize) -> bool {
    exists|r1: int, r2: int| #[trigger] different_placeholders_at(ds, a, b, r1, r2)
}

/// Some pair of routes of `a` and `b` repeats a method on one pattern.
pub open spec fn duplicate_route_cause(ds: Seq<VariantDeclView>, a: usize, b: usize) -> bool {
    exists|r1: int, r2: int| #[trigger] duplicate_route_at(ds, a, b, r1, r2)
}

/// Some pair of routes of `a` and `b` stands on distinct overlapping
/// patterns.
pub open spec fn overlapping_routes_cause(ds: Seq<VariantDeclView>, a: usize, b: usize) -> bool {
    exists|r1: int, r2: int| #[trigger] overlapping_routes_at(ds, a, b, r1, r2)
}

/// The cause each compile error reports, in terms of the declarations.
pub open spec fn compile_error_cause(ds: Seq<VariantDeclView>, e: CompileError) -> bool {
    match e {
        CompileError::CatchAllNotTerminal { variant, route } => valid_route_index(
            ds,
            variant as int,
            route as int,
        ) && !catchall_terminal(route_pat(ds, variant as int, route as int)),
        CompileError::DuplicatePlaceholder { variant, route } => valid_route_index(
            ds,
            variant as int,
            route as int,
        ) && !unique_names(
            pattern_names(route_pat(ds, variant as int, route as int)),
        ),
        CompileError::MissingPlaceholderField { variant, route } => missing_field_cause(
            ds,
            variant,
            route,
        ),
        CompileError::DifferentPlaceholders { variant_a, variant_b } => different_placeholders_cause(
            ds,
            variant_a,
            variant_b,
        ),
        CompileError::DuplicateRoute { variant_a, variant_b } => duplicate_route_cause(
            ds,
            variant_a,
            variant_b,
        ),
        CompileError::OverlappingRoutes { variant_a, variant_b } => overlapping_routes_cause(
            ds,
            variant_a,
            variant_b,
        ),
        CompileError::MultipleFallbacks { variant_a, variant_b } => variant_a < variant_b
            && variant_b < ds.len() && spec_is_fallback(ds[variant_a as int]) && spec_is_fallback(
            ds[variant_b as int],
        ),
        CompileError::BodyAndForwardBothPresent { variant } => variant < ds.len()
            && ds[variant as int].has_body && ds[variant as int].has_forward,
    }
}

// ---------- compilation ----------

/// One declared route, flattened to its indexes.
#[derive(Clone, Copy)]
struct FlatRoute {
    variant: usize,
    route: usize,
    method: HttpMethod,
}

spec fn fpat(ds: Seq<VariantDeclView>, f: FlatRoute) -> Seq<SegView> {
    spec_pattern(ds[f.variant as int].routes[f.route as int].path)
}

spec fn flat_sound(ds: Seq<VariantDeclView>, flat: Seq<FlatRoute>) -> bool {
    forall|k: int|
        0 <= k < flat.len() ==> {
            let f = #[trigger] flat[k];
            &&& valid_route_index(ds, f.variant as int, f.route as int)
            &&& f.method == ds[f.variant as int].routes[f.route as int].method
        }
}

spec fn flat_has(flat: Seq<FlatRoute>, v: int, r: int) -> bool {
    exists|k: int|
        0 <= k < flat.len() && (#[trigger] flat[k]).variant == v && flat[k].route == r
}

spec fn flat_complete(ds: Seq<VariantDeclView>, flat: Seq<FlatRoute>) -> bool {
    forall|v: int, r: int| valid_route_index(ds, v, r) ==> #[trigger] flat_has(flat, v, r)
}

spec fn flat_lex(flat: Seq<FlatRoute>) -> bool {
    forall|k1: int, k2: int|
        #![trigger flat[k1], flat[k2]]
        0 <= k1 < k2 < flat.len() ==> (flat[k1].variant < flat[k2].variant || (flat[k1].variant
            == flat[k2].variant && flat[k1].route < flat[k2].route))
}

/// Per-variant validation for one declaration: body/forward exclusion,
/// pattern parsing, field coverage, and placeholder consistency.  Returns
/// the variant's construction data and its flattened routes.
#[verifier::loop_isolation(false)]
fn compile_variant(d: &VariantDecl, vi: usize) -> (r: Result<
    (VariantInfo, Vec<FlatRoute>),
    CompileError,
>)
    ensures
        r is Ok <==> variant_ok(d@),
        r matches Ok(t) ==> ({
            &&& t.0.path_tys@ == spec_variant_tys(d@)
            &&& t.0.has_query == d@.has_query
            &&& t.0.guard_count == d@.guard_count
            &&& t.0.has_body == d@.has_body
            &&& t.0.has_forward == d@.has_forward
            &&& t.1@.len() == d@.routes.len()
            &&& forall|k: int|
                0 <= k < t.1@.len() ==> #[trigger] t.1@[k] == (FlatRoute {
                    variant: vi,
                    route: k as usize,
                    method: d@.routes[k].method,
                })
        }),
        r matches Err(e) ==> match e {
            CompileError::BodyAndForwardBothPresent { variant } => variant == vi && d@.has_body
                && d@.has_forward,
            CompileError::CatchAllNotTerminal { variant, route } => variant == vi && route
                < d@.routes.len() && !catchall_terminal(spec_pattern(d@.routes[route as int].path)),
            CompileError::DuplicatePlaceholder { variant, route } => variant == vi && route
                < d@.routes.len() && catchall_terminal(spec_pattern(d@.routes[route as int].path))
                && !unique_names(pattern_names(spec_pattern(d@.routes[route as int].path))),
            CompileError::MissingPlaceholderField { variant, route } => variant == vi && route
                < d@.routes.len() && exists|k: int|
                0 <= k < pattern_names(spec_pattern(d@.routes[route as int].path)).len()
                    && spec_field_ty(
                    d@.path_fields,
                    pattern_names(spec_pattern(d@.routes[route as int].path))[k],
                ) is None,
            CompileError::DifferentPlaceholders { variant_a, variant_b } => variant_a == vi
                && variant_b == vi && exists|r1: int|
                0 < r1 < d@.routes.len() && pattern_names(
                    spec_pattern((#[trigger] d@.routes[r1]).path),
                ) != pattern_names(spec_pattern(d@.routes[0].path)),
            _ => false,
        },
{
    let ghost dv = d@;
    if d.has_body && d.has_forward {
        return Err(CompileError::BodyAndForwardBothPresent { variant: vi });
    }
    let mut names0: Vec<String> = Vec::new();
    let mut fr: Vec<FlatRoute> = Vec::new();
    proof {
        assert(names0.deep_view() =~= Seq::<Seq<char>>::empty());
    }
    let mut r: usize = 0;
    while r < d.routes.len()
        invariant
            r <= dv.routes.len(),
            forall|r0: int|
                0 <= r0 < r ==> pattern_wf(spec_pattern((#[trigger] dv.routes[r0]).path)),
            forall|r0: int|
                0 <= r0 < r ==> pattern_names(spec_pattern((#[trigger] dv.routes[r0]).path))
                    == pattern_names(spec_pattern(dv.routes[0].path)),
            forall|r0: int, k: int|
                #![trigger pattern_names(spec_pattern(dv.routes[r0].path))[k]]
                0 <= r0 < r && 0 <= k < pattern_names(spec_pattern(dv.routes[r0].path)).len()
                    ==> spec_field_ty(
                    dv.path_fields,
                    pattern_names(spec_pattern(dv.routes[r0].path))[k],
                ) is Some,
            r > 0 ==> names0.deep_view() == pattern_names(spec_pattern(dv.routes[0].path)),
            r == 0 ==> names0.deep_view() == Seq::<Seq<char>>::empty(),
            fr@.len() == r,
            forall|k: int|
                0 <= k < fr@.len() ==> #[trigger] fr@[k] == (FlatRoute {
                    variant: vi,
                    route: k as usize,
                    method: dv.routes[k].method,
                }),
        decreases dv.routes.len() - r,
    {
        proof {
            assert(dv.routes[r as int] == d.routes@[r as int]@);
        }
        match Pattern::parse(d.routes[r].path.as_str()) {
            Err(PatternError::CatchAllNotTerminal) => {
                return Err(CompileError::CatchAllNotTerminal { variant: vi, route: r });
            },
            Err(PatternError::DuplicatePlaceholder) => {
                return Err(CompileError::DuplicatePlaceholder { variant: vi, route: r });
            },
            Ok(p) => {
                let names = p.placeholder_names();
                let mut k: usize = 0;
                while k < names.len()
                    invariant
                        k <= names@.len(),
                        names.deep_view() == pattern_names(
                            spec_pattern(dv.routes[r as int].path),
                        ),
                        forall|x: int|
                            0 <= x < k ==> spec_field_ty(dv.path_fields, names.deep_view()[x])
                                is Some,
                    decreases names@.len() - k,
                {
                    proof {
                        assert(names.deep_view()[k as int] == names@[k as int]@);
                        assert(dv.path_fields == d.path_fields.deep_view());
                    }
                    if field_ty_for(&d.path_fields, names[k].as_str()).is_none() {
                        return Err(CompileError::MissingPlaceholderField { variant: vi, route: r });
                    }
                    k = k + 1;
                }
                if r == 0 {
                    names0 = names;
                } else {
                    if !crate::text::string_vecs_eq(&names0, &names) {
                        return Err(
                            CompileError::DifferentPlaceholders { variant_a: vi, variant_b: vi },
                        );
                    }
                }
                fr.push(FlatRoute { variant: vi, route: r, method: d.routes[r].method });
            },
        }
        r = r + 1;
    }
    let ghost vnames = if dv.routes.len() == 0 {
        Seq::<Seq<char>>::empty()
    } else {
        pattern_names(spec_pattern(dv.routes[0].path))
    };
    proof {
        assert(names0.deep_view() == vnames);
        assert(vnames.take(0) =~= Seq::<Seq<char>>::empty());
    }
    let mut tys: Vec<FieldTy> = Vec::new();
    let mut k: usize = 0;
    while k < names0.len()
        invariant
            k <= names0@.len(),
            names0.deep_view() == vnames,
            tys@ == spec_tys_for(dv.path_fields, vnames.take(k as int)),
        decreases names0@.len() - k,
    {
        proof {
            assert(vnames.take(k + 1 as int).drop_last() =~= vnames.take(k as int));
            assert(vnames.take(k + 1 as int).last() == vnames[k as int]);
            assert(names0.deep_view()[k as int] == names0@[k as int]@);
            if dv.routes.len() > 0 {
                assert(pattern_names(spec_pattern(dv.routes[0].path))[k as int]
                    == vnames[k as int]);
            }
        }
        match field_ty_for(&d.path_fields, names0[k].as_str()) {
            Some(t) => {
                tys.push(t);
            },
            None => {
                proof {
                    assert(false);
                }
                tys.push(FieldTy::Text);
            },
        }
        k = k + 1;
    }
    proof {
        assert(vnames.take(vnames.len() as int) =~= vnames);
        if dv.routes.len() == 0 {
            assert(spec_variant_tys(dv) =~= tys@);
        }
    }
    let info = VariantInfo {
        path_tys: tys,
        has_query: d.has_query,
        guard_count: d.guard_count,
        has_body: d.has_body,
        has_forward: d.has_forward,
    };
    Ok((info, fr))
}

/// Per-variant validation over the whole declaration list, plus the
/// flattening of all routes.
#[verifier::loop_isolation(false)]
fn check_variants(decls: &Vec<VariantDecl>) -> (r: Result<
    (Vec<VariantInfo>, Vec<FlatRoute>),
    CompileError,
>)
    ensures
        r is Ok <==> (forall|v: int|
            0 <= v < decls.deep_view().len() ==> variant_ok(#[trigger] decls.deep_view()[v])),
        r matches Ok(t) ==> ({
            let ds = decls.deep_view();
            &&& t.0@.len() == ds.len()
            &&& forall|v: int|
                0 <= v < ds.len() ==> {
                    let vi = #[trigger] t.0@[v];
                    &&& vi.path_tys@ == spec_variant_tys(ds[v])
                    &&& vi.has_query == ds[v].has_query
                    &&& vi.guard_count == ds[v].guard_count
                    &&& vi.has_body == ds[v].has_body
                    &&& vi.has_forward == ds[v].has_forward
                }
            &&& flat_sound(ds, t.1@)
            &&& flat_complete(ds, t.1@)
            &&& flat_lex(t.1@)
        }),
        r matches Err(e) ==> compile_error_cause(decls.deep_view(), e),
        r matches Err(e) ==> (e is CatchAllNotTerminal || e is DuplicatePlaceholder
            || e is MissingPlaceholderField || e is DifferentPlaceholders
            || e is BodyAndForwardBothPresent),
{
    let ghost ds = decls.deep_view();
    let mut vis: Vec<VariantInfo> = Vec::new();
    let mut flat: Vec<FlatRoute> = Vec::new();
    let mut v: usize = 0;
    while v < decls.len()
        invariant
            v <= ds.len(),
            vis@.len() == v,
            forall|x: int| 0 <= x < v ==> variant_ok(#[trigger] ds[x]),
            forall|x: int|
                0 <= x < v ==> {
                    let vi = #[trigger] vis@[x];
                    &&& vi.path_tys@ == spec_variant_tys(ds[x])
                    &&& vi.has_query == ds[x].has_query
                    &&& vi.guard_count == ds[x].guard_count
                    &&& vi.has_body == ds[x].has_body
                    &&& vi.has_forward == ds[x].has_forward
                },
            flat_sound(ds, flat@),
            flat_lex(flat@),
            forall|k: int| 0 <= k < flat@.len() ==> (#[trigger] flat@[k]).variant < v,
            forall|x: int, r0: int|
                0 <= x < v && 0 <= r0 < ds[x].routes.len() ==> #[trigger] flat_has(flat@, x, r0),
        decreases ds.len() - v,
    {
        proof {
            assert(ds[v as int] == decls@[v as int]@);
        }
        match compile_variant(&decls[v], v) {
            Err(e) => {
                proof {
                    match e {
                        CompileError::DifferentPlaceholders { variant_a, variant_b } => {
                            let r1 = choose|r1: int|
                                0 < r1 < ds[v as int].routes.len() && pattern_names(
                                    spec_pattern((#[trigger] ds[v as int].routes[r1]).path),
                                ) != pattern_names(spec_pattern(ds[v as int].routes[0].path));
                            assert(different_placeholders_at(ds, v, v, r1, 0));
                        },
                        _ => {},
                    }
                }
                return Err(e);
            },
            Ok((info, fr)) => {
                let ghost prev_flat = flat@;
                let mut k2: usize = 0;
                while k2 < fr.len()
                    invariant
                        k2 <= fr@.len(),
                        flat@ == prev_flat + fr@.take(k2 as int),
                    decreases fr@.len() - k2,
                {
                    flat.push(fr[k2]);
                    proof {
                        assert(flat@ =~= prev_flat + fr@.take(k2 + 1 as int));
                    }
                    k2 = k2 + 1;
                }
                proof {
                    assert(fr@.take(fr@.len() as int) =~= fr@);
                    assert(flat@ == prev_flat + fr@);
                    assert forall|x: int, r0: int|
                        0 <= x < v + 1 && 0 <= r0 < ds[x].routes.len() implies #[trigger] flat_has(
                        flat@,
                        x,
                        r0,
                    ) by {
                        if x < v {
                            assert(flat_has(prev_flat, x, r0));
                            let k0 = choose|k0: int|
                                0 <= k0 < prev_flat.len() && (#[trigger] prev_flat[k0]).variant
                                    == x && prev_flat[k0].route == r0;
                            assert(flat@[k0] == prev_flat[k0]);
                        } else {
                            assert(flat@[prev_flat.len() + r0] == fr@[r0]);
                        }
                    }
                }
                vis.push(info);
            },
        }
        v = v + 1;
    }
    Ok((vis, flat))
}

/// A parse that cannot fail: the pattern was already checked well formed.
fn parse_known(path: &str) -> (p: Pattern)
    requires
        pattern_wf(spec_pattern(path@)),
    ensures
        p@ == spec_pattern(path@),
{
    match Pattern::parse(path) {
        Ok(p) => p,
        Err(_) => {
            proof {
                assert(false);
            }
            unreached()
        },
    }
}

/// Linear scan for an entry carrying a method.
#[verifier::loop_isolation(false)]
fn find_entry_with_method(entries: &Vec<RouteEntry>, m: HttpMethod) -> (r: Option<usize>)
    ensures
        r matches Some(idx) ==> idx < entries@.len() && entries@[idx as int].method == m,
        r is None <==> forall|e: int| 0 <= e < entries@.len() ==> entries@[e].method != m,
{
    let mut e: usize = 0;
    while e < entries.len()
        invariant
            e <= entries@.len(),
            forall|j: int| 0 <= j < e ==> entries@[j].method != m,
        decreases entries@.len() - e,
    {
        if entries[e].method == m {
            return Some(e);
        }
        e = e + 1;
    }
    None
}

/// Route `k` shares the pattern class led by route `k1`.
spec fn member_of(ds: Seq<VariantDeclView>, flat: Seq<FlatRoute>, k1: int, k: int) -> bool {
    k1 <= k < flat.len() && pattern_struct_eq(fpat(ds, flat[k1]), fpat(ds, flat[k]))
}

/// Route `k` is the first of its pattern class.
spec fn is_leader(ds: Seq<VariantDeclView>, flat: Seq<FlatRoute>, k: int) -> bool {
    forall|k0: int|
        0 <= k0 < k ==> !pattern_struct_eq(fpat(ds, #[trigger] flat[k0]), fpat(ds, flat[k]))
}

/// Some route before `upto` shares route `k`'s pattern class and does not
/// come after it.
spec fn covered(ds: Seq<VariantDeclView>, flat: Seq<FlatRoute>, k: int, upto: int) -> bool {
    exists|k0: int|
        0 <= k0 < upto && k0 <= k && pattern_struct_eq(
            fpat(ds, #[trigger] flat[k0]),
            fpat(ds, flat[k]),
        )
}

/// Route `k` appears as an entry of some set with its own pattern.
spec fn in_sets(
    ds: Seq<VariantDeclView>,
    flat: Seq<FlatRoute>,
    sets: Seq<RouteSet>,
    k: int,
) -> bool {
    exists|i: int, e: int|
        #![auto]
        0 <= i < sets.len() && 0 <= e < sets[i].entries@.len() && sets[i].pattern@ == fpat(
            ds,
            flat[k],
        ) && sets[i].entries@[e].method == flat[k].method && sets[i].entries@[e].variant
            == flat[k].variant
}

/// Set `i` was created for a leader below `upto`.
spec fn set_led(
    ds: Seq<VariantDeclView>,
    flat: Seq<FlatRoute>,
    sets: Seq<RouteSet>,
    i: int,
    upto: int,
) -> bool {
    exists|k0: int|
        #![auto]
        0 <= k0 < upto && sets[i].pattern@ == fpat(ds, flat[k0]) && is_leader(ds, flat, k0)
}

proof fn lemma_duplicate_route_error(
    ds: Seq<VariantDeclView>,
    va: usize,
    vb: usize,
    r1: int,
    r2: int,
)
    requires
        duplicate_route_at(ds, va, vb, r1, r2),
    ensures
        compile_error_cause(ds, CompileError::DuplicateRoute { variant_a: va, variant_b: vb }),
        !decls_grouping_ok(ds),
{
    assert(exists|x1: int, x2: int|
        #[trigger] duplicate_route_at(ds, va, vb, x1, x2));
    if decls_grouping_ok(ds) {
        assert(pattern_struct_eq(route_pat(ds, va as int, r1), route_pat(ds, vb as int, r2)));
        assert(false);
    }
}

proof fn lemma_different_placeholders_error(
    ds: Seq<VariantDeclView>,
    va: usize,
    vb: usize,
    r1: int,
    r2: int,
)
    requires
        different_placeholders_at(ds, va, vb, r1, r2),
        !(va == vb && r1 == r2),
        pattern_struct_eq(route_pat(ds, va as int, r1), route_pat(ds, vb as int, r2)),
    ensures
        compile_error_cause(
            ds,
            CompileError::DifferentPlaceholders { variant_a: va, variant_b: vb },
        ),
        !decls_grouping_ok(ds),
{
    assert(exists|x1: int, x2: int|
        #[trigger] different_placeholders_at(ds, va, vb, x1, x2));
    if decls_grouping_ok(ds) {
        assert(pattern_names(route_pat(ds, va as int, r1)) == pattern_names(
            route_pat(ds, vb as int, r2),
        ));
        assert(false);
    }
}

/// Gathers into one route set every flat route whose pattern shares the
/// class that route `k1` leads, rejecting repeated methods and diverging
/// placeholder names.
#[verifier::loop_isolation(false)]
#[verifier::rlimit(30)]
fn collect_group(decls: &Vec<VariantDecl>, flat: &Vec<FlatRoute>, k1: usize) -> (r: Result<
    RouteSet,
    CompileError,
>)
    requires
        forall|v: int|
            0 <= v < decls.deep_view().len() ==> variant_ok(#[trigger] decls.deep_view()[v]),
        flat_sound(decls.deep_view(), flat@),
        flat_lex(flat@),
        k1 < flat@.len(),
    ensures
        r matches Ok(set) ==> ({
            let ds = decls.deep_view();
            &&& set.wf()
            &&& set.pattern@ == fpat(ds, flat@[k1 as int])
            &&& forall|k: int|
                member_of(ds, flat@, k1 as int, k) ==> fpat(ds, #[trigger] flat@[k])
                    == set.pattern@
            &&& forall|k: int|
                member_of(ds, flat@, k1 as int, k) ==> exists|e: int|
                    0 <= e < set.entries@.len() && (#[trigger] set.entries@[e]).method
                        == flat@[k].method && set.entries@[e].variant == flat@[k].variant
            &&& forall|e: int|
                #![trigger set.entries@[e]]
                0 <= e < set.entries@.len() ==> exists|k: int|
                    #![auto]
                    member_of(ds, flat@, k1 as int, k) && set.entries@[e].method
                        == flat@[k].method && set.entries@[e].variant == flat@[k].variant
            &&& forall|ka: int, kb: int|
                #![trigger flat@[ka], flat@[kb]]
                member_of(ds, flat@, k1 as int, ka) && member_of(ds, flat@, k1 as int, kb) && ka
                    != kb ==> flat@[ka].method != flat@[kb].method
        }),
        r matches Err(e) ==> compile_error_cause(decls.deep_view(), e) && (e is DuplicateRoute
            || e is DifferentPlaceholders),
        r matches Err(e) ==> !decls_grouping_ok(decls.deep_view()),
{
    let ghost ds = decls.deep_view();
    let f1 = flat[k1];
    proof {
        let ghost rt1 = decls@[f1.variant as int].routes@[f1.route as int];
        assert(ds[f1.variant as int].routes[f1.route as int] == rt1@);
    }
    let leader_pat = parse_known(decls[f1.variant].routes[f1.route].path.as_str());
    let leader_names = leader_pat.placeholder_names();
    let mut entries: Vec<RouteEntry> = Vec::new();
    let ghost ms = Seq::<int>::empty();
    let mut k2: usize = k1;
    while k2 < flat.len()
        invariant
            k1 <= k2 <= flat@.len(),
            leader_pat@ == fpat(ds, flat@[k1 as int]),
            leader_names.deep_view() == pattern_names(leader_pat@),
            entries@.len() == ms.len(),
            forall|idx: int|
                0 <= idx < ms.len() ==> k1 <= #[trigger] ms[idx] < k2 && member_of(
                    ds,
                    flat@,
                    k1 as int,
                    ms[idx],
                ),
            forall|idx: int|
                0 <= idx < ms.len() ==> (#[trigger] entries@[idx]).method
                    == flat@[ms[idx]].method && entries@[idx].variant == flat@[ms[idx]].variant,
            forall|k: int|
                k1 <= k < k2 && member_of(ds, flat@, k1 as int, k) ==> exists|idx: int|
                    0 <= idx < ms.len() && #[trigger] ms[idx] == k,
            forall|idx1: int, idx2: int|
                #![trigger ms[idx1], ms[idx2]]
                0 <= idx1 < idx2 < ms.len() ==> flat@[ms[idx1]].method != flat@[ms[idx2]].method,
            forall|k: int|
                member_of(ds, flat@, k1 as int, k) && k < k2 ==> fpat(ds, #[trigger] flat@[k])
                    == leader_pat@,
        decreases flat@.len() - k2,
    {
        let f2 = flat[k2];
        proof {
            let ghost rt2 = decls@[f2.variant as int].routes@[f2.route as int];
            assert(ds[f2.variant as int].routes[f2.route as int] == rt2@);
        }
        let p2 = parse_known(decls[f2.variant].routes[f2.route].path.as_str());
        if leader_pat.structurally_equal(&p2) {
            let nm2 = p2.placeholder_names();
            match find_entry_with_method(&entries, f2.method) {
                Some(idx) => {
                    let va = entries[idx].variant;
                    let ghost ka = ms[idx as int];
                    proof {
                        let ghost r1 = flat@[ka].route as int;
                        let ghost r2 = f2.route as int;
                        assert(va == flat@[ka].variant);
                        assert(duplicate_route_at(ds, va, f2.variant, r1, r2)) by {
                            crate::pattern::lemma_struct_eq_symmetric(
                                fpat(ds, flat@[k1 as int]),
                                fpat(ds, flat@[ka]),
                            );
                            crate::pattern::lemma_struct_eq_transitive(
                                fpat(ds, flat@[ka]),
                                fpat(ds, flat@[k1 as int]),
                                fpat(ds, flat@[k2 as int]),
                            );
                        }
                        lemma_duplicate_route_error(ds, va, f2.variant, r1, r2);
                    }
                    return Err(CompileError::DuplicateRoute { variant_a: va, variant_b: f2.variant });
                },
                None => {
                },
            }
            if !crate::text::string_vecs_eq(&leader_names, &nm2) {
                proof {
                    assert(different_placeholders_at(
                        ds,
                        f1.variant,
                        f2.variant,
                        f1.route as int,
                        f2.route as int,
                    ));
                    assert(flat@[k1 as int] == f1);
                    assert(flat@[k2 as int] == f2);
                    assert(!(f1.variant == f2.variant && f1.route == f2.route));
                    lemma_different_placeholders_error(
                        ds,
                        f1.variant,
                        f2.variant,
                        f1.route as int,
                        f2.route as int,
                    );
                }
                return Err(
                    CompileError::DifferentPlaceholders {
                        variant_a: f1.variant,
                        variant_b: f2.variant,
                    },
                );
            }
            proof {
                crate::pattern::lemma_struct_and_names_eq(
                    fpat(ds, flat@[k1 as int]),
                    fpat(ds, flat@[k2 as int]),
                );
            }
            let ghost prev_entries = entries@;
            let ghost prev_ms = ms;
            entries.push(RouteEntry { method: f2.method, variant: f2.variant });
            proof {
                ms = ms.push(k2 as int);
                assert(entries@ =~= prev_entries.push(
                    RouteEntry { method: f2.method, variant: f2.variant },
                ));
                assert forall|idx1: int, idx2: int|
                    #![trigger ms[idx1], ms[idx2]]
                    0 <= idx1 < idx2 < ms.len() implies flat@[ms[idx1]].method
                    != flat@[ms[idx2]].method by {
                    if idx2 == ms.len() - 1 {
                        assert(prev_entries[idx1].method == flat@[prev_ms[idx1]].method);
                        assert(prev_entries[idx1].method != f2.method);
                    }
                }
                assert forall|k: int|
                    k1 <= k < k2 + 1 && member_of(ds, flat@, k1 as int, k) implies exists|idx: int|
                    0 <= idx < ms.len() && #[trigger] ms[idx] == k by {
                    if k < k2 {
                        let idx = choose|idx: int|
                            0 <= idx < prev_ms.len() && #[trigger] prev_ms[idx] == k;
                        assert(ms[idx] == k);
                    } else {
                        assert(ms[ms.len() - 1] == k);
                    }
                }
            }
        } else {
            proof {
                assert(!member_of(ds, flat@, k1 as int, k2 as int));
            }
        }
        k2 = k2 + 1;
    }
    proof {
        assert(member_of(ds, flat@, k1 as int, k1 as int)) by {
            crate::pattern::lemma_struct_eq_reflexive(fpat(ds, flat@[k1 as int]));
        }
        assert(entries@.len() >= 1);
        assert forall|e1: int, e2: int|
            0 <= e1 < e2 < entries@.len() implies entries@[e1].method != entries@[e2].method by {
            assert(flat@[ms[e1]].method != flat@[ms[e2]].method);
        }
        assert forall|ka: int, kb: int|
            member_of(ds, flat@, k1 as int, ka) && member_of(ds, flat@, k1 as int, kb) && ka != kb
            implies flat@[ka].method != flat@[kb].method by {
            let idxa = choose|idx: int| 0 <= idx < ms.len() && #[trigger] ms[idx] == ka;
            let idxb = choose|idx: int| 0 <= idx < ms.len() && #[trigger] ms[idx] == kb;
            if idxa < idxb {
                assert(flat@[ms[idxa]].method != flat@[ms[idxb]].method);
            } else {
                assert(flat@[ms[idxb]].method != flat@[ms[idxa]].method);
            }
        }
        assert forall|k: int|
            member_of(ds, flat@, k1 as int, k) implies exists|e: int|
            0 <= e < entries@.len() && (#[trigger] entries@[e]).method == flat@[k].method
                && entries@[e].variant == flat@[k].variant by {
            let idx = choose|idx: int| 0 <= idx < ms.len() && #[trigger] ms[idx] == k;
            assert(entries@[idx].method == flat@[k].method);
            assert(entries@[idx].variant == flat@[k].variant);
        }
        assert forall|e: int| #![trigger entries@[e]] 0 <= e < entries@.len() implies exists|k: int|
            #![auto]
            member_of(ds, flat@, k1 as int, k) && entries@[e].method == flat@[k].method
                && entries@[e].variant == flat@[k].variant by {
            assert(member_of(ds, flat@, k1 as int, ms[e]));
            assert(entries@[e].method == flat@[ms[e]].method);
        }
    }
    Ok(RouteSet { pattern: leader_pat, names: leader_names, entries })
}

/// Set `i` holds entry `e` for some flat route whose pattern is the set's.
spec fn entry_from_flat(
    ds: Seq<VariantDeclView>,
    flat: Seq<FlatRoute>,
    sets: Seq<RouteSet>,
    i: int,
    e: int,
) -> bool {
    exists|k: int|
        #![auto]
        0 <= k < flat.len() && sets[i].pattern@ == fpat(ds, flat[k]) && sets[i].entries@[e].method
            == flat[k].method && sets[i].entries@[e].variant == flat[k].variant
}

/// Groups the flattened routes into route sets, one per pattern class, in
/// leader order.
#[verifier::loop_isolation(false)]
#[verifier::rlimit(80)]
fn build_sets(decls: &Vec<VariantDecl>, flat: &Vec<FlatRoute>) -> (r: Result<
    Vec<RouteSet>,
    CompileError,
>)
    requires
        forall|v: int|
            0 <= v < decls.deep_view().len() ==> variant_ok(#[trigger] decls.deep_view()[v]),
        flat_sound(decls.deep_view(), flat@),
        flat_lex(flat@),
    ensures
        r matches Ok(sets) ==> ({
            let ds = decls.deep_view();
            &&& forall|i: int| 0 <= i < sets@.len() ==> (#[trigger] sets@[i]).wf()
            &&& forall|i: int, j: int|
                0 <= i < sets@.len() && 0 <= j < sets@.len() && i != j ==> !pattern_struct_eq(
                    (#[trigger] sets@[i]).pattern@,
                    (#[trigger] sets@[j]).pattern@,
                )
            &&& forall|i: int, e: int|
                #![trigger sets@[i].entries@[e]]
                0 <= i < sets@.len() && 0 <= e < sets@[i].entries@.len() ==> entry_from_flat(
                    ds,
                    flat@,
                    sets@,
                    i,
                    e,
                )
            &&& forall|k: int| 0 <= k < flat@.len() ==> #[trigger] in_sets(ds, flat@, sets@, k)
            &&& forall|ka: int, kb: int|
                #![trigger flat@[ka], flat@[kb]]
                0 <= ka < flat@.len() && 0 <= kb < flat@.len() && ka != kb && pattern_struct_eq(
                    fpat(ds, flat@[ka]),
                    fpat(ds, flat@[kb]),
                ) ==> flat@[ka].method != flat@[kb].method
        }),
        r matches Err(e) ==> compile_error_cause(decls.deep_view(), e) && (e is DuplicateRoute
            || e is DifferentPlaceholders),
        r is Err ==> !decls_grouping_ok(decls.deep_view()),
{
    let ghost ds = decls.deep_view();
    let mut sets: Vec<RouteSet> = Vec::new();
    let mut k1: usize = 0;
    while k1 < flat.len()
        invariant
            k1 <= flat@.len(),
            forall|i: int| 0 <= i < sets@.len() ==> (#[trigger] sets@[i]).wf(),
            forall|i: int|
                0 <= i < sets@.len() ==> #[trigger] set_led(ds, flat@, sets@, i, k1 as int),
            forall|i: int, j: int|
                0 <= i < sets@.len() && 0 <= j < sets@.len() && i != j ==> !pattern_struct_eq(
                    (#[trigger] sets@[i]).pattern@,
                    (#[trigger] sets@[j]).pattern@,
                ),
            forall|i: int, e: int|
                #![trigger sets@[i].entries@[e]]
                0 <= i < sets@.len() && 0 <= e < sets@[i].entries@.len() ==> entry_from_flat(
                    ds,
                    flat@,
                    sets@,
                    i,
                    e,
                ),
            forall|k: int|
                0 <= k < flat@.len() && covered(ds, flat@, k, k1 as int) ==> #[trigger] in_sets(
                    ds,
                    flat@,
                    sets@,
                    k,
                ),
            forall|ka: int, kb: int|
                #![trigger flat@[ka], flat@[kb]]
                0 <= ka < flat@.len() && 0 <= kb < flat@.len() && ka != kb && covered(
                    ds,
                    flat@,
                    ka,
                    k1 as int,
                ) && pattern_struct_eq(fpat(ds, flat@[ka]), fpat(ds, flat@[kb]))
                    ==> flat@[ka].method != flat@[kb].method,
        decreases flat@.len() - k1,
    {
        let f1 = flat[k1];
        proof {
            let ghost rt1 = decls@[f1.variant as int].routes@[f1.route as int];
            assert(ds[f1.variant as int].routes[f1.route as int] == rt1@);
        }
        let p1 = parse_known(decls[f1.variant].routes[f1.route].path.as_str());
        let mut lead = true;
        let mut k0: usize = 0;
        while k0 < k1
            invariant
                k0 <= k1,
                p1@ == fpat(ds, flat@[k1 as int]),
                lead <==> (forall|x: int|
                    0 <= x < k0 ==> !pattern_struct_eq(
                        fpat(ds, #[trigger] flat@[x]),
                        fpat(ds, flat@[k1 as int]),
                    )),
            decreases k1 - k0,
        {
            let f0 = flat[k0];
            proof {
                let ghost rt0 = decls@[f0.variant as int].routes@[f0.route as int];
                assert(ds[f0.variant as int].routes[f0.route as int] == rt0@);
            }
            let p0 = parse_known(decls[f0.variant].routes[f0.route].path.as_str());
            if p0.structurally_equal(&p1) {
                lead = false;
            }
            k0 = k0 + 1;
        }
        if lead {
            assert(is_leader(ds, flat@, k1 as int));
            match collect_group(decls, flat, k1) {
                Err(e) => {
                    return Err(e);
                },
                Ok(set) => {
                    let ghost prev_sets = sets@;
                    sets.push(set);
                    proof {
                        let n = prev_sets.len() as int;
                        assert(sets@ =~= prev_sets.push(set));
                        assert(forall|i: int| 0 <= i < n ==> sets@[i] == prev_sets[i]);
                        assert forall|i: int|
                            0 <= i < sets@.len() implies #[trigger] set_led(
                            ds,
                            flat@,
                            sets@,
                            i,
                            k1 + 1 as int,
                        ) by {
                            if i < n {
                                assert(set_led(ds, flat@, prev_sets, i, k1 as int));
                                let kx = choose|kx: int|
                                    #![auto]
                                    0 <= kx < k1 && prev_sets[i].pattern@ == fpat(ds, flat@[kx])
                                        && is_leader(ds, flat@, kx);
                                assert(sets@[i].pattern@ == fpat(ds, flat@[kx]));
                            } else {
                                assert(sets@[i].pattern@ == fpat(ds, flat@[k1 as int]));
                            }
                        }
                        assert forall|i: int, j: int|
                            0 <= i < sets@.len() && 0 <= j < sets@.len() && i
                                != j implies !pattern_struct_eq(
                            (#[trigger] sets@[i]).pattern@,
                            (#[trigger] sets@[j]).pattern@,
                        ) by {
                            if i == n || j == n {
                                let o = if i == n {
                                    j
                                } else {
                                    i
                                };
                                assert(set_led(ds, flat@, prev_sets, o, k1 as int));
                                let kx = choose|kx: int|
                                    #![auto]
                                    0 <= kx < k1 && prev_sets[o].pattern@ == fpat(ds, flat@[kx])
                                        && is_leader(ds, flat@, kx);
                                if pattern_struct_eq(sets@[i].pattern@, sets@[j].pattern@) {
                                    if i == n {
                                        crate::pattern::lemma_struct_eq_symmetric(
                                            sets@[i].pattern@,
                                            sets@[j].pattern@,
                                        );
                                    }
                                    assert(pattern_struct_eq(
                                        fpat(ds, flat@[kx]),
                                        fpat(ds, flat@[k1 as int]),
                                    ));
                                }
                            }
                        }
                        assert forall|i: int, e: int|
                            #![trigger sets@[i].entries@[e]]
                            0 <= i < sets@.len() && 0 <= e
                                < sets@[i].entries@.len() implies entry_from_flat(
                            ds,
                            flat@,
                            sets@,
                            i,
                            e,
                        ) by {
                            if i < n {
                                assert(entry_from_flat(ds, flat@, prev_sets, i, e));
                                let k = choose|k: int|
                                    #![auto]
                                    0 <= k < flat@.len() && prev_sets[i].pattern@ == fpat(
                                        ds,
                                        flat@[k],
                                    ) && prev_sets[i].entries@[e].method == flat@[k].method
                                        && prev_sets[i].entries@[e].variant == flat@[k].variant;
                                assert(sets@[i].pattern@ == fpat(ds, flat@[k]));
                            } else {
                                let k = choose|k: int|
                                    #![auto]
                                    member_of(ds, flat@, k1 as int, k) && set.entries@[e].method
                                        == flat@[k].method && set.entries@[e].variant
                                        == flat@[k].variant;
                                assert(fpat(ds, flat@[k]) == set.pattern@);
                                assert(sets@[i].pattern@ == fpat(ds, flat@[k]));
                            }
                        }
                        assert forall|k: int|
                            0 <= k < flat@.len() && covered(
                                ds,
                                flat@,
                                k,
                                k1 + 1 as int,
                            ) implies #[trigger] in_sets(ds, flat@, sets@, k) by {
                            if covered(ds, flat@, k, k1 as int) {
                                assert(in_sets(ds, flat@, prev_sets, k));
                                let (i, e) = choose|i: int, e: int|
                                    #![auto]
                                    0 <= i < prev_sets.len() && 0 <= e
                                        < prev_sets[i].entries@.len() && prev_sets[i].pattern@
                                        == fpat(ds, flat@[k]) && prev_sets[i].entries@[e].method
                                        == flat@[k].method && prev_sets[i].entries@[e].variant
                                        == flat@[k].variant;
                                assert(sets@[i].pattern@ == fpat(ds, flat@[k]));
                                assert(in_sets(ds, flat@, sets@, k));
                            } else {
                                let kw = choose|kw: int|
                                    0 <= kw < k1 + 1 && kw <= k && pattern_struct_eq(
                                        fpat(ds, #[trigger] flat@[kw]),
                                        fpat(ds, flat@[k]),
                                    );
                                assert(kw == k1);
                                assert(member_of(ds, flat@, k1 as int, k));
                                let e = choose|e: int|
                                    0 <= e < set.entries@.len() && (#[trigger] set.entries@[e])
                                        .method == flat@[k].method && set.entries@[e].variant
                                        == flat@[k].variant;
                                assert(fpat(ds, flat@[k]) == set.pattern@);
                                assert(sets@[n].pattern@ == fpat(ds, flat@[k]));
                                assert(sets@[n].entries@[e].method == flat@[k].method);
                                assert(in_sets(ds, flat@, sets@, k));
                            }
                        }
                        assert forall|ka: int, kb: int|
                            #![trigger flat@[ka], flat@[kb]]
                            0 <= ka < flat@.len() && 0 <= kb < flat@.len() && ka != kb && covered(
                                ds,
                                flat@,
                                ka,
                                k1 + 1 as int,
                            ) && pattern_struct_eq(fpat(ds, flat@[ka]), fpat(ds, flat@[kb]))
                            implies flat@[ka].method != flat@[kb].method by {
                            if !covered(ds, flat@, ka, k1 as int) {
                                let kw = choose|kw: int|
                                    0 <= kw < k1 + 1 && kw <= ka && pattern_struct_eq(
                                        fpat(ds, #[trigger] flat@[kw]),
                                        fpat(ds, flat@[ka]),
                                    );
                                assert(kw == k1);
                                assert(member_of(ds, flat@, k1 as int, ka));
                                if kb >= k1 {
                                    crate::pattern::lemma_struct_eq_transitive(
                                        fpat(ds, flat@[k1 as int]),
                                        fpat(ds, flat@[ka]),
                                        fpat(ds, flat@[kb]),
                                    );
                                    assert(member_of(ds, flat@, k1 as int, kb));
                                } else {
                                    crate::pattern::lemma_struct_eq_symmetric(
                                        fpat(ds, flat@[ka]),
                                        fpat(ds, flat@[kb]),
                                    );
                                    assert(covered(ds, flat@, ka, k1 as int));
                                }
                            }
                        }
                    }
                },
            }
        } else {
            proof {
                assert forall|i: int|
                    0 <= i < sets@.len() implies #[trigger] set_led(
                    ds,
                    flat@,
                    sets@,
                    i,
                    k1 + 1 as int,
                ) by {
                    assert(set_led(ds, flat@, sets@, i, k1 as int));
                    let kx = choose|kx: int|
                        #![auto]
                        0 <= kx < k1 && sets@[i].pattern@ == fpat(ds, flat@[kx]) && is_leader(
                            ds,
                            flat@,
                            kx,
                        );
                    assert(0 <= kx < k1 + 1);
                }
                let kl = choose|x: int|
                    0 <= x < k1 && pattern_struct_eq(
                        fpat(ds, #[trigger] flat@[x]),
                        fpat(ds, flat@[k1 as int]),
                    );
                assert forall|k: int|
                    0 <= k < flat@.len() && covered(
                        ds,
                        flat@,
                        k,
                        k1 + 1 as int,
                    ) implies covered(ds, flat@, k, k1 as int) by {
                    let kw = choose|kw: int|
                        0 <= kw < k1 + 1 && kw <= k && pattern_struct_eq(
                            fpat(ds, #[trigger] flat@[kw]),
                            fpat(ds, flat@[k]),
                        );
                    if kw == k1 {
                        crate::pattern::lemma_struct_eq_transitive(
                            fpat(ds, flat@[kl]),
                            fpat(ds, flat@[k1 as int]),
                            fpat(ds, flat@[k]),
                        );
                        assert(kl < k1 && kl <= k);
                    }
                }
            }
        }
        k1 = k1 + 1;
    }
    proof {
        assert forall|k: int|
            0 <= k < flat@.len() implies covered(ds, flat@, k, flat@.len() as int) by {
            crate::pattern::lemma_struct_eq_reflexive(fpat(ds, flat@[k]));
        }
    }
    Ok(sets)
}

/// The fallback search: at most one variant may forward without a route.
#[verifier::loop_isolation(false)]
fn find_fallback(decls: &Vec<VariantDecl>) -> (r: Result<Option<usize>, CompileError>)
    ensures
        r is Ok <==> decls_single_fallback(decls.deep_view()),
        r matches Ok(o) ==> ({
            let ds = decls.deep_view();
            &&& (o is Some <==> exists|v: int|
                0 <= v < ds.len() && spec_is_fallback(#[trigger] ds[v]))
            &&& (o matches Some(f) ==> f < ds.len() && spec_is_fallback(ds[f as int]))
        }),
        r matches Err(e) ==> compile_error_cause(decls.deep_view(), e) && e is MultipleFallbacks,
{
    let ghost ds = decls.deep_view();
    let mut found: Option<usize> = None;
    let mut v: usize = 0;
    while v < decls.len()
        invariant
            v <= ds.len(),
            found is Some <==> exists|x: int| 0 <= x < v && spec_is_fallback(#[trigger] ds[x]),
            found matches Some(f) ==> f < v && spec_is_fallback(ds[f as int]),
            forall|x1: int, x2: int|
                0 <= x1 < x2 < v ==> !(spec_is_fallback(#[trigger] ds[x1]) && spec_is_fallback(
                    #[trigger] ds[x2],
                )),
        decreases ds.len() - v,
    {
        proof {
            assert(ds[v as int] == decls@[v as int]@);
        }
        if decls[v].has_forward && decls[v].routes.len() == 0 {
            match found {
                Some(f) => {
                    return Err(CompileError::MultipleFallbacks { variant_a: f, variant_b: v });
                },
                None => {
                    found = Some(v);
                },
            }
        }
        v = v + 1;
    }
    Ok(found)
}

/// The overlap phase: every pair of distinct sets must be structurally
/// safe.
#[verifier::loop_isolation(false)]
fn check_no_overlap(sets: &Vec<RouteSet>) -> (r: Result<(), CompileError>)
    requires
        forall|i: int| 0 <= i < sets@.len() ==> (#[trigger] sets@[i]).wf(),
    ensures
        r is Ok <==> (forall|i: int, j: int|
            0 <= i < j < sets@.len() ==> !patterns_overlap(
                (#[trigger] sets@[i]).pattern@,
                (#[trigger] sets@[j]).pattern@,
            )),
        r matches Err(e) ==> (e matches CompileError::OverlappingRoutes { variant_a, variant_b }
            && exists|i: int, j: int|
            #![auto]
            0 <= i < j < sets@.len() && patterns_overlap(sets@[i].pattern@, sets@[j].pattern@)
                && variant_a == sets@[i].entries@[0].variant && variant_b
                == sets@[j].entries@[0].variant),
{
    let mut i: usize = 0;
    while i < sets.len()
        invariant
            i <= sets@.len(),
            forall|x: int, y: int|
                0 <= x < y < sets@.len() && x < i ==> !patterns_overlap(
                    (#[trigger] sets@[x]).pattern@,
                    (#[trigger] sets@[y]).pattern@,
                ),
        decreases sets@.len() - i,
    {
        let mut j: usize = i + 1;
        while j < sets.len()
            invariant
                i < j <= sets@.len(),
                forall|y: int|
                    i < y < j ==> !patterns_overlap(
                        sets@[i as int].pattern@,
                        (#[trigger] sets@[y]).pattern@,
                    ),
            decreases sets@.len() - j,
        {
            if check_overlap(&sets[i].pattern, &sets[j].pattern) {
                let va = sets[i].entries[0].variant;
                let vb = sets[j].entries[0].variant;
                return Err(CompileError::OverlappingRoutes { variant_a: va, variant_b: vb });
            }
            j = j + 1;
        }
        i = i + 1;
    }
    Ok(())
}

impl RouteTable {
    /// Route `r` of declaration `v` is present: some set carries its
    /// pattern and an entry with its method, selecting variant `v`.
    pub open spec fn spec_route_in_table(&self, ds: Seq<VariantDeclView>, v: int, r: int) -> bool {
        exists|i: int, e: int|
            #![auto]
            0 <= i < self.sets@.len() && 0 <= e < self.sets@[i].entries@.len()
                && self.sets@[i].pattern@ == route_pat(ds, v, r) && self.sets@[i].entries@[e].method
                == ds[v].routes[r].method && self.sets@[i].entries@[e].variant == v
    }

    /// Entry `e` of set `i` stems from some declared route.
    pub open spec fn spec_entry_declared(&self, ds: Seq<VariantDeclView>, i: int, e: int) -> bool {
        exists|v: int, r: int|
            #![auto]
            valid_route_index(ds, v, r) && self.sets@[i].pattern@ == route_pat(ds, v, r)
                && self.sets@[i].entries@[e].method == ds[v].routes[r].method
                && self.sets@[i].entries@[e].variant == v
    }

    /// The table holds exactly the declared routes: every declared route is
    /// present, every entry is declared, the per-variant data mirrors the
    /// declarations, and the fallback is the declared fallback.
    pub open spec fn models(&self, ds: Seq<VariantDeclView>) -> bool {
        &&& self.variants@.len() == ds.len()
        &&& forall|v: int|
            0 <= v < ds.len() ==> {
                let vi = #[trigger] self.variants@[v];
                &&& vi.path_tys@ == spec_variant_tys(ds[v])
                &&& vi.has_query == ds[v].has_query
                &&& vi.guard_count == ds[v].guard_count
                &&& vi.has_body == ds[v].has_body
                &&& vi.has_forward == ds[v].has_forward
            }
        &&& forall|v: int, r: int|
            valid_route_index(ds, v, r) ==> #[trigger] self.spec_route_in_table(ds, v, r)
        &&& forall|i: int, e: int|
            0 <= i < self.sets@.len() && 0 <= e < self.sets@[i].entries@.len()
                ==> #[trigger] self.spec_entry_declared(ds, i, e)
        &&& ((exists|v: int| 0 <= v < ds.len() && spec_is_fallback(#[trigger] ds[v]))
            <==> self.fallback is Some)
        &&& (self.fallback matches Some(f) ==> f < ds.len() && spec_is_fallback(ds[f as int]))
    }

    /// Compiles a declaration list into a route table: pattern parsing and
    /// per-variant checks, route-set grouping, the pairwise overlap check,
    /// and fallback uniqueness, in that order.  Succeeds exactly on valid
    /// declaration lists; the table then holds exactly the declared routes.
    #[verifier::loop_isolation(false)]
    #[verifier::rlimit(100)]
    pub fn compile(decls: &Vec<VariantDecl>) -> (r: Result<RouteTable, CompileError>)
        ensures
            r is Ok <==> decls_valid(decls.deep_view()),
            r matches Ok(t) ==> t.wf() && t.models(decls.deep_view()),
            r matches Err(e) ==> compile_error_cause(decls.deep_view(), e),
            r matches Err(e) ==> ((e is DuplicateRoute || e is OverlappingRoutes
                || e is MultipleFallbacks) ==> forall|v: int|
                0 <= v < decls.deep_view().len() ==> variant_ok(#[trigger] decls.deep_view()[v])),
            r matches Err(e) ==> ((e is OverlappingRoutes || e is MultipleFallbacks)
                ==> decls_grouping_ok(decls.deep_view())),
    {
        let ghost ds = decls.deep_view();
        let parts = match check_variants(decls) {
            Ok(t) => t,
            Err(e) => {
                return Err(e);
            },
        };
        let variants = parts.0;
        let flat = parts.1;
        let sets = match build_sets(decls, &flat) {
            Ok(s) => s,
            Err(e) => {
                return Err(e);
            },
        };
        match check_no_overlap(&sets) {
            Ok(_) => {
            },
            Err(e) => {
                proof {
                    lemma_flat_grouping_ok(ds, flat@, sets@);
                    let (i, j) = choose|i: int, j: int|
                        #![auto]
                        0 <= i < j < sets@.len() && patterns_overlap(
                            sets@[i].pattern@,
                            sets@[j].pattern@,
                        ) && e->OverlappingRoutes_variant_a == sets@[i].entries@[0].variant
                            && e->OverlappingRoutes_variant_b == sets@[j].entries@[0].variant;
                    assert(entry_from_flat(ds, flat@, sets@, i, 0));
                    assert(entry_from_flat(ds, flat@, sets@, j, 0));
                    let ki = choose|k: int|
                        #![auto]
                        0 <= k < flat@.len() && sets@[i].pattern@ == fpat(ds, flat@[k])
                            && sets@[i].entries@[0].method == flat@[k].method
                            && sets@[i].entries@[0].variant == flat@[k].variant;
                    let kj = choose|k: int|
                        #![auto]
                        0 <= k < flat@.len() && sets@[j].pattern@ == fpat(ds, flat@[k])
                            && sets@[j].entries@[0].method == flat@[k].method
                            && sets@[j].entries@[0].variant == flat@[k].variant;
                    let va = flat@[ki].variant;
                    let vb = flat@[kj].variant;
                    let r1 = flat@[ki].route as int;
                    let r2 = flat@[kj].route as int;
                    assert(overlapping_routes_at(ds, va, vb, r1, r2));
                    assert(overlapping_routes_cause(ds, va, vb));
                    assert(!decls_no_overlap(ds)) by {
                        if decls_no_overlap(ds) {
                            assert(!patterns_overlap(
                                route_pat(ds, va as int, r1),
                                route_pat(ds, vb as int, r2),
                            ));
                            assert(false);
                        }
                    }
                }
                return Err(e);
            },
        }
        let fallback = match find_fallback(decls) {
            Ok(o) => o,
            Err(e) => {
                proof {
                    lemma_flat_grouping_ok(ds, flat@, sets@);
                }
                return Err(e);
            },
        };
        let t = RouteTable { sets, fallback, variants };
        proof {
            lemma_compile_ok(ds, flat@, t);
        }
        Ok(t)
    }
}

/// The grouped sets witness that the declarations group cleanly: distinct
/// routes on one pattern differ in method and agree on names.
#[verifier::rlimit(60)]
proof fn lemma_flat_grouping_ok(ds: Seq<VariantDeclView>, flat: Seq<FlatRoute>, sets: Seq<RouteSet>)
    requires
        flat_sound(ds, flat),
        flat_complete(ds, flat),
        flat_lex(flat),
        forall|i: int, j: int|
            0 <= i < sets.len() && 0 <= j < sets.len() && i != j ==> !pattern_struct_eq(
                (#[trigger] sets[i]).pattern@,
                (#[trigger] sets[j]).pattern@,
            ),
        forall|k: int| 0 <= k < flat.len() ==> #[trigger] in_sets(ds, flat, sets, k),
        forall|ka: int, kb: int|
            #![trigger flat[ka], flat[kb]]
            0 <= ka < flat.len() && 0 <= kb < flat.len() && ka != kb && pattern_struct_eq(
                fpat(ds, flat[ka]),
                fpat(ds, flat[kb]),
            ) ==> flat[ka].method != flat[kb].method,
    ensures
        decls_grouping_ok(ds),
{
    assert forall|v1: int, r1: int, v2: int, r2: int|
        #![trigger route_pat(ds, v1, r1), route_pat(ds, v2, r2)]
        valid_route_index(ds, v1, r1) && valid_route_index(ds, v2, r2) && !(v1 == v2 && r1 == r2)
            && pattern_struct_eq(route_pat(ds, v1, r1), route_pat(ds, v2, r2)) implies (
    ds[v1].routes[r1].method != ds[v2].routes[r2].method && pattern_names(route_pat(ds, v1, r1))
        == pattern_names(route_pat(ds, v2, r2))) by {
        assert(flat_has(flat, v1, r1));
        assert(flat_has(flat, v2, r2));
        let ka = choose|k: int|
            0 <= k < flat.len() && (#[trigger] flat[k]).variant == v1 && flat[k].route == r1;
        let kb = choose|k: int|
            0 <= k < flat.len() && (#[trigger] flat[k]).variant == v2 && flat[k].route == r2;
        assert(ka != kb);
        assert(fpat(ds, flat[ka]) == route_pat(ds, v1, r1));
        assert(fpat(ds, flat[kb]) == route_pat(ds, v2, r2));
        assert(flat[ka].method != flat[kb].method);
        assert(in_sets(ds, flat, sets, ka));
        assert(in_sets(ds, flat, sets, kb));
        let (i, ea) = choose|i: int, e: int|
            #![auto]
            0 <= i < sets.len() && 0 <= e < sets[i].entries@.len() && sets[i].pattern@ == fpat(
                ds,
                flat[ka],
            ) && sets[i].entries@[e].method == flat[ka].method && sets[i].entries@[e].variant
                == flat[ka].variant;
        let (j, eb) = choose|i: int, e: int|
            #![auto]
            0 <= i < sets.len() && 0 <= e < sets[i].entries@.len() && sets[i].pattern@ == fpat(
                ds,
                flat[kb],
            ) && sets[i].entries@[e].method == flat[kb].method && sets[i].entries@[e].variant
                == flat[kb].variant;
        if i != j {
            assert(!pattern_struct_eq(sets[i].pattern@, sets[j].pattern@));
            assert(false);
        }
        assert(fpat(ds, flat[ka]) == fpat(ds, flat[kb]));
    }
}

/// Everything the compile phases establish, packaged for the final table.
#[verifier::rlimit(100)]
proof fn lemma_compile_ok(ds: Seq<VariantDeclView>, flat: Seq<FlatRoute>, t: RouteTable)
    requires
        forall|v: int| 0 <= v < ds.len() ==> variant_ok(#[trigger] ds[v]),
        t.variants@.len() == ds.len(),
        forall|v: int|
            0 <= v < ds.len() ==> {
                let vi = #[trigger] t.variants@[v];
                &&& vi.path_tys@ == spec_variant_tys(ds[v])
                &&& vi.has_query == ds[v].has_query
                &&& vi.guard_count == ds[v].guard_count
                &&& vi.has_body == ds[v].has_body
                &&& vi.has_forward == ds[v].has_forward
            },
        flat_sound(ds, flat),
        flat_complete(ds, flat),
        flat_lex(flat),
        forall|i: int| 0 <= i < t.sets@.len() ==> (#[trigger] t.sets@[i]).wf(),
        forall|i: int, j: int|
            0 <= i < t.sets@.len() && 0 <= j < t.sets@.len() && i != j ==> !pattern_struct_eq(
                (#[trigger] t.sets@[i]).pattern@,
                (#[trigger] t.sets@[j]).pattern@,
            ),
        forall|i: int, e: int|
            #![trigger t.sets@[i].entries@[e]]
            0 <= i < t.sets@.len() && 0 <= e < t.sets@[i].entries@.len() ==> entry_from_flat(
                ds,
                flat,
                t.sets@,
                i,
                e,
            ),
        forall|k: int| 0 <= k < flat.len() ==> #[trigger] in_sets(ds, flat, t.sets@, k),
        forall|ka: int, kb: int|
            #![trigger flat[ka], flat[kb]]
            0 <= ka < flat.len() && 0 <= kb < flat.len() && ka != kb && pattern_struct_eq(
                fpat(ds, flat[ka]),
                fpat(ds, flat[kb]),
            ) ==> flat[ka].method != flat[kb].method,
        forall|i: int, j: int|
            0 <= i < j < t.sets@.len() ==> !patterns_overlap(
                (#[trigger] t.sets@[i]).pattern@,
                (#[trigger] t.sets@[j]).pattern@,
            ),
        decls_single_fallback(ds),
        (t.fallback is Some <==> exists|v: int| 0 <= v < ds.len() && spec_is_fallback(
            #[trigger] ds[v],
        )),
        t.fallback matches Some(f) ==> f < ds.len() && spec_is_fallback(ds[f as int]),
    ensures
        t.wf(),
        t.models(ds),
        decls_valid(ds),
{
    // pairwise non-overlap in both orders
    assert forall|i: int, j: int|
        0 <= i < t.sets@.len() && 0 <= j < t.sets@.len() && i != j implies !patterns_overlap(
        t.sets@[i].pattern@,
        t.sets@[j].pattern@,
    ) by {
        if j < i {
            lemma_overlap_symmetric(t.sets@[i].pattern@, t.sets@[j].pattern@);
        }
    }
    // entries point at known variants with matching placeholder counts
    assert forall|i: int, e: int|
        0 <= i < t.sets@.len() && 0 <= e < t.sets@[i].entries@.len() implies {
        let en = #[trigger] t.sets@[i].entries@[e];
        &&& en.variant < t.variants@.len()
        &&& t.variants@[en.variant as int].path_tys@.len() == pattern_names(
            t.sets@[i].pattern@,
        ).len()
    } by {
        assert(entry_from_flat(ds, flat, t.sets@, i, e));
        let k = choose|k: int|
            #![auto]
            0 <= k < flat.len() && t.sets@[i].pattern@ == fpat(ds, flat[k])
                && t.sets@[i].entries@[e].method == flat[k].method
                && t.sets@[i].entries@[e].variant == flat[k].variant;
        let v = flat[k].variant as int;
        let rr = flat[k].route as int;
        assert(valid_route_index(ds, v, rr));
        assert(variant_ok(ds[v]));
        assert(pattern_names(spec_pattern(ds[v].routes[rr].path)) == pattern_names(
            spec_pattern(ds[v].routes[0].path),
        ));
        lemma_tys_for_len(ds[v].path_fields, pattern_names(spec_pattern(ds[v].routes[0].path)));
    }
    assert(t.wf());
    // every declared route is present
    assert forall|v: int, r: int|
        valid_route_index(ds, v, r) implies #[trigger] t.spec_route_in_table(ds, v, r) by {
        assert(flat_has(flat, v, r));
        let k = choose|k: int|
            0 <= k < flat.len() && (#[trigger] flat[k]).variant == v && flat[k].route == r;
        assert(in_sets(ds, flat, t.sets@, k));
        let (i, e) = choose|i: int, e: int|
            #![auto]
            0 <= i < t.sets@.len() && 0 <= e < t.sets@[i].entries@.len() && t.sets@[i].pattern@
                == fpat(ds, flat[k]) && t.sets@[i].entries@[e].method == flat[k].method
                && t.sets@[i].entries@[e].variant == flat[k].variant;
        assert(0 <= i < t.sets@.len() && 0 <= e < t.sets@[i].entries@.len()
            && t.sets@[i].pattern@ == route_pat(ds, v, r) && t.sets@[i].entries@[e].method
            == ds[v].routes[r].method && t.sets@[i].entries@[e].variant == v);
    }
    // every entry is declared
    assert forall|i: int, e: int|
        0 <= i < t.sets@.len() && 0 <= e
            < t.sets@[i].entries@.len() implies #[trigger] t.spec_entry_declared(ds, i, e) by {
        assert(entry_from_flat(ds, flat, t.sets@, i, e));
        let k = choose|k: int|
            #![auto]
            0 <= k < flat.len() && t.sets@[i].pattern@ == fpat(ds, flat[k])
                && t.sets@[i].entries@[e].method == flat[k].method
                && t.sets@[i].entries@[e].variant == flat[k].variant;
        let v = flat[k].variant as int;
        let rr = flat[k].route as int;
        assert(valid_route_index(ds, v, rr) && t.sets@[i].pattern@ == route_pat(ds, v, rr)
            && t.sets@[i].entries@[e].method == ds[v].routes[rr].method
            && t.sets@[i].entries@[e].variant == v);
    }
    assert(t.models(ds));
    lemma_flat_grouping_ok(ds, flat, t.sets@);
    // the declarations are valid: no overlap across distinct patterns
    assert forall|v1: int, r1: int, v2: int, r2: int|
        #![trigger route_pat(ds, v1, r1), route_pat(ds, v2, r2)]
        valid_route_index(ds, v1, r1) && valid_route_index(ds, v2, r2) && !pattern_struct_eq(
            route_pat(ds, v1, r1),
            route_pat(ds, v2, r2),
        ) implies !patterns_overlap(route_pat(ds, v1, r1), route_pat(ds, v2, r2)) by {
        assert(flat_has(flat, v1, r1));
        assert(flat_has(flat, v2, r2));
        let ka = choose|k: int|
            0 <= k < flat.len() && (#[trigger] flat[k]).variant == v1 && flat[k].route == r1;
        let kb = choose|k: int|
            0 <= k < flat.len() && (#[trigger] flat[k]).variant == v2 && flat[k].route == r2;
        assert(in_sets(ds, flat, t.sets@, ka));
        assert(in_sets(ds, flat, t.sets@, kb));
        let (i, ea) = choose|i: int, e: int|
            #![auto]
            0 <= i < t.sets@.len() && 0 <= e < t.sets@[i].entries@.len() && t.sets@[i].pattern@
                == fpat(ds, flat[ka]) && t.sets@[i].entries@[e].method == flat[ka].method
                && t.sets@[i].entries@[e].variant == flat[ka].variant;
        let (j, eb) = choose|i: int, e: int|
            #![auto]
            0 <= i < t.sets@.len() && 0 <= e < t.sets@[i].entries@.len() && t.sets@[i].pattern@
                == fpat(ds, flat[kb]) && t.sets@[i].entries@[e].method == flat[kb].method
                && t.sets@[i].entries@[e].variant == flat[kb].variant;
        if i == j {
            crate::pattern::lemma_struct_eq_reflexive(t.sets@[i].pattern@);
            assert(false);
        }
        assert(!patterns_overlap(t.sets@[i].pattern@, t.sets@[j].pattern@)) by {
            if j < i {
                lemma_overlap_symmetric(t.sets@[i].pattern@, t.sets@[j].pattern@);
            }
        }
    }
    assert(decls_valid(ds));
}

/// When every entry accepts the captures, the allowed list is every
/// declared method, in order.
proof fn lemma_allowed_all_accept(t: &RouteTable, entries: Seq<RouteEntry>, caps: Seq<Seq<char>>)
    requires
        forall|e: int| 0 <= e < entries.len() ==> t.spec_entry_accepts(#[trigger] entries[e], caps),
    ensures
        t.spec_allowed_methods(entries, caps) == entries.map_values(|en: RouteEntry| en.method),
    decreases entries.len(),
{
    if entries.len() == 0 {
        assert(t.spec_allowed_methods(entries, caps) =~= entries.map_values(
            |en: RouteEntry| en.method,
        ));
    } else {
        assert(forall|e: int|
            0 <= e < entries.drop_last().len() ==> t.spec_entry_accepts(
                #[trigger] entries.drop_last()[e],
                caps,
            ));
        lemma_allowed_all_accept(t, entries.drop_last(), caps);
        assert(t.spec_entry_accepts(entries.last(), caps));
        assert(t.spec_allowed_methods(entries, caps) =~= entries.map_values(
            |en: RouteEntry| en.method,
        ));
    }
}

/// On a pattern without placeholders, a wrong-method answer's allowed list
/// is statically known: every method the set declares, in order.
pub proof fn lemma_allowed_static(t: &RouteTable, si: int)
    requires
        t.wf(),
        0 <= si < t.sets@.len(),
        pattern_names(t.sets@[si].pattern@).len() == 0,
    ensures
        t.spec_allowed_methods(t.sets@[si].entries@, Seq::<Seq<char>>::empty()) == t.sets@[si]
            .entries@.map_values(|en: RouteEntry| en.method),
{
    assert forall|e: int|
        0 <= e < t.sets@[si].entries@.len() implies t.spec_entry_accepts(
        #[trigger] t.sets@[si].entries@[e],
        Seq::<Seq<char>>::empty(),
    ) by {
        assert(t.sets@[si].entries@[e].variant < t.variants@.len());
    }
    lemma_allowed_all_accept(t, t.sets@[si].entries@, Seq::<Seq<char>>::empty());
}

/// Resolution is deterministic: any two answers that `resolve` could give
/// for one table, method and path agree.
pub proof fn lemma_resolve_deterministic(
    t: &RouteTable,
    method: HttpMethod,
    ss: Seq<Seq<char>>,
    r1: Resolution,
    r2: Resolution,
)
    requires
        t.wf(),
        t.resolution_matches(method, ss, r1),
        t.resolution_matches(method, ss, r2),
    ensures
        r1 is NoMatch <==> r2 is NoMatch,
        r1 is Matched <==> r2 is Matched,
        (r1 is Matched && r2 is Matched) ==> (r1->Matched_variant == r2->Matched_variant
            && r1->Matched_captures.deep_view() == r2->Matched_captures.deep_view()),
        (r1 is WrongMethod && r2 is WrongMethod) ==> r1->WrongMethod_allowed@
            == r2->WrongMethod_allowed@,
{
    if r1 is Matched && r2 is Matched {
        let i1 = choose|i: int|
            0 <= i < t.sets@.len() && segs_match(#[trigger] t.sets@[i].pattern@, ss)
                && t.sets@[i].spec_has_method(method) && r1->Matched_variant == spec_method_variant(
                t.sets@[i].entries@,
                method,
            ) && r1->Matched_captures.deep_view() == captures_of(t.sets@[i].pattern@, ss);
        let i2 = choose|i: int|
            0 <= i < t.sets@.len() && segs_match(#[trigger] t.sets@[i].pattern@, ss)
                && t.sets@[i].spec_has_method(method) && r2->Matched_variant == spec_method_variant(
                t.sets@[i].entries@,
                method,
            ) && r2->Matched_captures.deep_view() == captures_of(t.sets@[i].pattern@, ss);
        t.lemma_at_most_one_match(i1, i2, ss);
    }
    if r1 is WrongMethod && r2 is WrongMethod {
        let i1 = choose|i: int|
            0 <= i < t.sets@.len() && segs_match(#[trigger] t.sets@[i].pattern@, ss)
                && !t.sets@[i].spec_has_method(method) && r1->WrongMethod_allowed@
                == t.spec_allowed_methods(
                t.sets@[i].entries@,
                captures_of(t.sets@[i].pattern@, ss),
            );
        let i2 = choose|i: int|
            0 <= i < t.sets@.len() && segs_match(#[trigger] t.sets@[i].pattern@, ss)
                && !t.sets@[i].spec_has_method(method) && r2->WrongMethod_allowed@
                == t.spec_allowed_methods(
                t.sets@[i].entries@,
                captures_of(t.sets@[i].pattern@, ss),
            );
        t.lemma_at_most_one_match(i1, i2, ss);
    }
}

} // verus!
