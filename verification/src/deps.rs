//! The dependency data model: a dependency declaration is either a bare
//! version string or a detailed record, and the version string used for
//! conflict detection is derived from either form.

use vstd::prelude::*;

verus! {

/// Profile settings carried into the generated build manifest.
#[derive(Clone, Copy, PartialEq, Eq, Structural, Debug)]
pub struct DepotProfile {
    pub opt_level: u32,
    pub debug: bool,
    pub debug_assertions: bool,
}

/// A dependency declaration with optional detail fields. Fields other than
/// `version` are carried through to the merged output untouched and are
/// never compared.
#[derive(Debug)]
pub struct DetailedDependency {
    pub version: Option<String>,
    pub path: Option<String>,
    pub git: Option<String>,
    pub branch: Option<String>,
    pub tag: Option<String>,
    pub rev: Option<String>,
    pub features: Option<Vec<String>>,
    pub optional: Option<bool>,
    pub default_features: Option<bool>,
}

/// A dependency declaration: either a bare version string or a detailed
/// record.
#[derive(Debug)]
pub enum Dependency {
    Simple(String),
    Detailed(DetailedDependency),
}

/// The version string a declaration resolves to for conflict purposes: the
/// bare string of a simple declaration, the `version` field of a detailed
/// one, and the empty string (the "unconstrained" sentinel) when that field
/// is absent.
pub open spec fn spec_version(d: Dependency) -> Seq<char> {
    match d {
        Dependency::Simple(v) => v@,
        Dependency::Detailed(det) => match det.version {
            Some(v) => v@,
            None => Seq::<char>::empty(),
        },
    }
}

/// Equality of two optional strings, by contents.
pub open spec fn opt_str_eq(a: Option<String>, b: Option<String>) -> bool {
    match (a, b) {
        (Some(x), Some(y)) => x@ == y@,
        (None, None) => true,
        _ => false,
    }
}

/// Equality of two detailed records, field by field, by contents.
pub open spec fn detailed_eq(a: DetailedDependency, b: DetailedDependency) -> bool {
    &&& opt_str_eq(a.version, b.version)
    &&& opt_str_eq(a.path, b.path)
    &&& opt_str_eq(a.git, b.git)
    &&& opt_str_eq(a.branch, b.branch)
    &&& opt_str_eq(a.tag, b.tag)
    &&& opt_str_eq(a.rev, b.rev)
    &&& match (a.features, b.features) {
        (Some(x), Some(y)) => x.deep_view() == y.deep_view(),
        (None, None) => true,
        _ => false,
    }
    &&& a.optional == b.optional
    &&& a.default_features == b.default_features
}

/// Equality of two dependency declarations, by contents.
pub open spec fn dep_eq(a: Dependency, b: Dependency) -> bool {
    match (a, b) {
        (Dependency::Simple(x), Dependency::Simple(y)) => x@ == y@,
        (Dependency::Detailed(x), Dependency::Detailed(y)) => detailed_eq(x, y),
        _ => false,
    }
}

/// Declarations equal by contents resolve to the same version string.
pub proof fn lemma_dep_eq_same_version(a: Dependency, b: Dependency)
    requires
        dep_eq(a, b),
    ensures
        spec_version(a) == spec_version(b),
{
}

pub fn get_version(d: &Dependency) -> (r: String)
    ensures
        r@ == spec_version(*d),
{
    match d {
        Dependency::Simple(version) => version.clone(),
        Dependency::Detailed(details) => match &details.version {
            Some(version) => version.clone(),
            None => String::new(),
        },
    }
}

fn dup_opt_string(v: &Option<String>) -> (r: Option<String>)
    ensures
        opt_str_eq(r, *v),
{
    match v {
        Some(s) => Some(s.clone()),
        None => None,
    }
}

fn dup_string_vec(v: &Vec<String>) -> (r: Vec<String>)
    ensures
        r.deep_view() == v.deep_view(),
{
    let mut out: Vec<String> = Vec::new();
    let mut i: usize = 0;
    while i < v.len()
        invariant
            0 <= i <= v@.len(),
            out@.len() == i,
            forall|k: int| 0 <= k < i ==> out@[k]@ == v@[k]@,
        decreases v@.len() - i,
    {
        out.push(v[i].clone());
        i = i + 1;
    }
    proof {
        assert(out.deep_view() =~= v.deep_view());
    }
    out
}

impl DetailedDependency {
    /// A copy of this record, equal to it by contents.
    pub fn dup(&self) -> (r: DetailedDependency)
        ensures
            detailed_eq(r, *self),
    {
        DetailedDependency {
            version: dup_opt_string(&self.version),
            path: dup_opt_string(&self.path),
            git: dup_opt_string(&self.git),
            branch: dup_opt_string(&self.branch),
            tag: dup_opt_string(&self.tag),
            rev: dup_opt_string(&self.rev),
            features: match &self.features {
                Some(fs) => Some(dup_string_vec(fs)),
                None => None,
            },
            optional: self.optional,
            default_features: self.default_features,
        }
    }
}

impl Dependency {
    /// A copy of this declaration, equal to it by contents.
    pub fn dup(&self) -> (r: Dependency)
        ensures
            dep_eq(r, *self),
    {
        match self {
            Dependency::Simple(v) => Dependency::Simple(v.clone()),
            Dependency::Detailed(det) => Dependency::Detailed(det.dup()),
        }
    }
}

} // verus!
