//! Variant declarations: the data a front end hands to the table compiler.
//!
//! A variant declares zero or more `(method, path pattern)` routes, the
//! typed fields its placeholders bind to, and which construction stages it
//! uses: a query decoder, guards, and a body decoder or a forward to a
//! nested router.

use vstd::prelude::*;

use crate::method::HttpMethod;
use crate::text::{dec_value, parse_u64, parses_u64};

verus! {

/// The type a placeholder field parses into.
#[derive(Clone, Copy, Debug, PartialEq, Eq, Structural)]
pub enum FieldTy {
    /// Accepts any captured substring.
    Text,
    /// Accepts decimal numerals that fit in 64 bits.
    Unsigned,
}

/// Whether a captured substring parses under a field type.
pub open spec fn spec_parses(ty: FieldTy, s: Seq<char>) -> bool {
    match ty {
        FieldTy::Text => true,
        FieldTy::Unsigned => parses_u64(s),
    }
}

/// A path-bound value after parsing.
pub enum PathValue {
    Text(String),
    Uint(u64),
}

/// The mathematical shape of a `PathValue`.
pub enum PathValView {
    Text(Seq<char>),
    Uint(u64),
}

impl View for PathValue {
    type V = PathValView;

    open spec fn view(&self) -> PathValView {
        match self {
            PathValue::Text(s) => PathValView::Text(s@),
            PathValue::Uint(v) => PathValView::Uint(*v),
        }
    }
}

impl DeepView for PathValue {
    type V = PathValView;

    open spec fn deep_view(&self) -> PathValView {
        self.view()
    }
}

/// The value a capture parses to under a field type, when it parses.
pub open spec fn spec_value_of(ty: FieldTy, s: Seq<char>) -> PathValView {
    match ty {
        FieldTy::Text => PathValView::Text(s),
        FieldTy::Unsigned => PathValView::Uint(dec_value(s) as u64),
    }
}

/// Parses one captured substring under a field type.
pub fn parse_path_value(ty: FieldTy, s: &str) -> (r: Option<PathValue>)
    ensures
        r is Some <==> spec_parses(ty, s@),
        r matches Some(v) ==> v@ == spec_value_of(ty, s@),
{
    match ty {
        FieldTy::Text => Some(PathValue::Text(String::from_str(s))),
        FieldTy::Unsigned => {
            match parse_u64(s) {
                Some(v) => Some(PathValue::Uint(v)),
                None => None,
            }
        },
    }
}

/// A typed field a placeholder can bind to.
pub struct PathField {
    pub name: String,
    pub ty: FieldTy,
}

/// The mathematical shape of a `PathField`.
pub struct PathFieldView {
    pub name: Seq<char>,
    pub ty: FieldTy,
}

impl View for PathField {
    type V = PathFieldView;

    open spec fn view(&self) -> PathFieldView {
        PathFieldView { name: self.name@, ty: self.ty }
    }
}

impl DeepView for PathField {
    type V = PathFieldView;

    open spec fn deep_view(&self) -> PathFieldView {
        self.view()
    }
}

/// One declared route: a method and a path pattern string.
pub struct RouteDecl {
    pub method: HttpMethod,
    pub path: String,
}

/// The mathematical shape of a `RouteDecl`.
pub struct RouteDeclView {
    pub method: HttpMethod,
    pub path: Seq<char>,
}

impl View for RouteDecl {
    type V = RouteDeclView;

    open spec fn view(&self) -> RouteDeclView {
        RouteDeclView { method: self.method, path: self.path@ }
    }
}

impl DeepView for RouteDecl {
    type V = RouteDeclView;

    open spec fn deep_view(&self) -> RouteDeclView {
        self.view()
    }
}

/// One declared request variant.
pub struct VariantDecl {
    pub routes: Vec<RouteDecl>,
    pub path_fields: Vec<PathField>,
    pub has_query: bool,
    pub guard_count: usize,
    pub has_body: bool,
    pub has_forward: bool,
}

/// The mathematical shape of a `VariantDecl`.
pub struct VariantDeclView {
    pub routes: Seq<RouteDeclView>,
    pub path_fields: Seq<PathFieldView>,
    pub has_query: bool,
    pub guard_count: nat,
    pub has_body: bool,
    pub has_forward: bool,
}

impl View for VariantDecl {
    type V = VariantDeclView;

    open spec fn view(&self) -> VariantDeclView {
        VariantDeclView {
            routes: self.routes.deep_view(),
            path_fields: self.path_fields.deep_view(),
            has_query: self.has_query,
            guard_count: self.guard_count as nat,
            has_body: self.has_body,
            has_forward: self.has_forward,
        }
    }
}

impl DeepView for VariantDecl {
    type V = VariantDeclView;

    open spec fn deep_view(&self) -> VariantDeclView {
        self.view()
    }
}

/// A fallback variant declares a forward field and no route of its own.
pub open spec fn spec_is_fallback(v: VariantDeclView) -> bool {
    v.has_forward && v.routes.len() == 0
}

/// The type bound to `name`, read from the first field of that name.
pub open spec fn spec_field_ty(fields: Seq<PathFieldView>, name: Seq<char>) -> Option<FieldTy>
    decreases fields.len(),
{
    if fields.len() == 0 {
        None
    } else if fields[0].name == name {
        Some(fields[0].ty)
    } else {
        spec_field_ty(fields.drop_first(), name)
    }
}

/// Looks up the field a placeholder name binds to.
#[verifier::loop_isolation(false)]
pub fn field_ty_for(fields: &Vec<PathField>, name: &str) -> (r: Option<FieldTy>)
    ensures
        r == spec_field_ty(fields.deep_view(), name@),
{
    let ghost fs = fields.deep_view();
    let mut i: usize = 0;
    proof {
        assert(fs.skip(0) =~= fs);
    }
    while i < fields.len()
        invariant
            i <= fields@.len(),
            spec_field_ty(fs, name@) == spec_field_ty(fs.skip(i as int), name@),
        decreases fields@.len() - i,
    {
        proof {
            assert(fs.skip(i as int)[0] == fs[i as int]);
            assert(fs.skip(i as int).drop_first() =~= fs.skip(i + 1 as int));
            assert(fs[i as int] == fields@[i as int]@);
        }
        if crate::text::str_eq(fields[i].name.as_str(), name) {
            return Some(fields[i].ty);
        }
        i = i + 1;
    }
    proof {
        assert(fs.skip(fs.len() as int) =~= Seq::<PathFieldView>::empty());
    }
    None
}

} // verus!
