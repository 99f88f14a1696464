//! Per-directory manifest sources and the merger that unions them into the
//! consolidated dependency set of the generated build manifest.

use vstd::prelude::*;
use crate::deps::{Dependency, dep_eq, spec_version};

verus! {

/// No two entries carry the same dependency name.
pub open spec fn deps_unique(s: Seq<(String, Dependency)>) -> bool {
    forall|j: int, k: int| 0 <= j < k < s.len() ==> s[j].0@ != s[k].0@
}

/// Some entry carries this dependency name.
pub open spec fn deps_declare(s: Seq<(String, Dependency)>, name: Seq<char>) -> bool {
    exists|k: int| 0 <= k < s.len() && s[k].0@ == name
}

/// The index of the entry carrying this name (unique when `deps_unique`).
pub open spec fn deps_index_of(s: Seq<(String, Dependency)>, name: Seq<char>) -> int {
    choose|k: int| 0 <= k < s.len() && s[k].0@ == name
}

/// The declaration the entry with this name carries.
pub open spec fn deps_dep_of(s: Seq<(String, Dependency)>, name: Seq<char>) -> Dependency {
    s[deps_index_of(s, name)].1
}

/// The version string the entry with this name resolves to.
pub open spec fn deps_version_of(s: Seq<(String, Dependency)>, name: Seq<char>) -> Seq<char> {
    spec_version(deps_dep_of(s, name))
}

/// Finds the entry with the given dependency name.
pub fn find_dep_index(deps: &Vec<(String, Dependency)>, name: &String) -> (r: Option<usize>)
    requires
        deps_unique(deps@),
    ensures
        match r {
            Some(k) => {
                &&& 0 <= k < deps@.len()
                &&& deps@[k as int].0@ == name@
                &&& k as int == deps_index_of(deps@, name@)
                &&& deps_declare(deps@, name@)
            },
            None => !deps_declare(deps@, name@),
        },
{
    let mut i: usize = 0;
    while i < deps.len()
        invariant
            deps_unique(deps@),
            0 <= i <= deps@.len(),
            forall|k: int| 0 <= k < i ==> deps@[k].0@ != name@,
        decreases deps@.len() - i,
    {
        if deps[i].0 == *name {
            proof {
                assert(deps_declare(deps@, name@));
                let k = deps_index_of(deps@, name@);
                assert(0 <= k < deps@.len() && deps@[k].0@ == name@);
                assert(k == i as int);
            }
            return Some(i);
        }
        i = i + 1;
    }
    proof {
        assert forall|k: int| 0 <= k < deps@.len() implies deps@[k].0@ != name@ by {}
    }
    None
}

/// One per-directory manifest, identified by its originating directory's
/// base name and holding that directory's dependency declarations.
pub struct ManifestSource {
    pub id: String,
    pub deps: Vec<(String, Dependency)>,
}

impl ManifestSource {
    /// Dependency names are unique within one source.
    pub open spec fn wf(self) -> bool {
        deps_unique(self.deps@)
    }

    pub open spec fn declares(self, name: Seq<char>) -> bool {
        deps_declare(self.deps@, name)
    }

    pub open spec fn dep_of(self, name: Seq<char>) -> Dependency {
        deps_dep_of(self.deps@, name)
    }

    pub open spec fn version_of(self, name: Seq<char>) -> Seq<char> {
        deps_version_of(self.deps@, name)
    }
}

/// Every source is well formed and source identifiers are unique in the
/// workspace.
pub open spec fn sources_wf(ss: Seq<ManifestSource>) -> bool {
    &&& forall|i: int| 0 <= i < ss.len() ==> (#[trigger] ss[i]).wf()
    &&& forall|i: int, j: int| 0 <= i < j < ss.len() ==> ss[i].id@ != ss[j].id@
}

/// The consolidated dependency set of the generated build manifest.
pub struct DependencyManifest {
    pub dependencies: Vec<(String, Dependency)>,
}

impl DependencyManifest {
    pub open spec fn wf(self) -> bool {
        deps_unique(self.dependencies@)
    }

    pub open spec fn declares(self, name: Seq<char>) -> bool {
        deps_declare(self.dependencies@, name)
    }

    pub open spec fn dep_of(self, name: Seq<char>) -> Dependency {
        deps_dep_of(self.dependencies@, name)
    }

    pub open spec fn version_of(self, name: Seq<char>) -> Seq<char> {
        deps_version_of(self.dependencies@, name)
    }
}

/// The index of the last source declaring this name, or -1 when none does.
pub open spec fn last_declarer(ss: Seq<ManifestSource>, name: Seq<char>) -> int
    decreases ss.len(),
{
    if ss.len() == 0 {
        -1
    } else if ss.last().declares(name) {
        ss.len() - 1
    } else {
        last_declarer(ss.drop_last(), name)
    }
}

pub proof fn lemma_last_declarer(ss: Seq<ManifestSource>, name: Seq<char>)
    ensures
        -1 <= last_declarer(ss, name) < ss.len(),
        (exists|i: int| 0 <= i < ss.len() && (#[trigger] ss[i]).declares(name)) <==> 0
            <= last_declarer(ss, name) < ss.len(),
        0 <= last_declarer(ss, name) ==> ss[last_declarer(ss, name)].declares(name),
        forall|i: int|
            last_declarer(ss, name) < i < ss.len() ==> !(#[trigger] ss[i]).declares(name),
    decreases ss.len(),
{
    if ss.len() == 0 {
    } else if ss.last().declares(name) {
    } else {
        lemma_last_declarer(ss.drop_last(), name);
        assert(forall|i: int| 0 <= i < ss.len() - 1 ==> ss[i] == ss.drop_last()[i]);
    }
}

/// Unfolds `last_declarer` over a prefix extended by one source.
pub proof fn lemma_last_declarer_step(ss: Seq<ManifestSource>, i: int, name: Seq<char>)
    requires
        0 <= i < ss.len(),
    ensures
        last_declarer(ss.take(i + 1), name) == if ss[i].declares(name) {
            i
        } else {
            last_declarer(ss.take(i), name)
        },
{
    assert(ss.take(i + 1).last() == ss[i]);
    assert(ss.take(i + 1).drop_last() =~= ss.take(i));
}

/// What the merger has produced once the first `i` sources, and the first
/// `d` entries of source `i`, have been taken in.
pub open spec fn declared_before(
    ss: Seq<ManifestSource>,
    i: int,
    d: int,
    name: Seq<char>,
) -> bool {
    (exists|i2: int| 0 <= i2 < i && (#[trigger] ss[i2]).declares(name)) || (i < ss.len()
        && deps_declare(ss[i].deps@.take(d), name))
}

/// The declaration the merged set is to carry for `name` at that point: the
/// latest one taken in.
pub open spec fn expected_dep(
    ss: Seq<ManifestSource>,
    i: int,
    d: int,
    name: Seq<char>,
) -> Dependency {
    if i < ss.len() && deps_declare(ss[i].deps@.take(d), name) {
        deps_dep_of(ss[i].deps@, name)
    } else {
        ss[last_declarer(ss.take(i), name)].dep_of(name)
    }
}

/// The merged set unions all sources' declarations; for each name the
/// carried declaration is, by contents, the one of the last source
/// declaring that name.
pub open spec fn merge_post(ss: Seq<ManifestSource>, m: DependencyManifest) -> bool {
    &&& m.wf()
    &&& forall|name: Seq<char>|
        #[trigger] m.declares(name) <==> declared_before(ss, ss.len() as int, 0, name)
    &&& forall|name: Seq<char>|
        #[trigger] m.declares(name) ==> dep_eq(
            m.dep_of(name),
            ss[last_declarer(ss, name)].dep_of(name),
        )
}

/// Unions all per-source declarations into one consolidated set,
/// last-writer-wins per dependency name.
pub fn merge_manifests(sources: &Vec<ManifestSource>) -> (r: DependencyManifest)
    requires
        forall|i: int| 0 <= i < sources@.len() ==> (#[trigger] sources@[i]).wf(),
    ensures
        merge_post(sources@, r),
{
    let ghost ss = sources@;
    let mut out: Vec<(String, Dependency)> = Vec::new();
    let mut i: usize = 0;
    while i < sources.len()
        invariant
            ss == sources@,
            forall|i2: int| 0 <= i2 < ss.len() ==> (#[trigger] ss[i2]).wf(),
            0 <= i <= ss.len(),
            deps_unique(out@),
            forall|name: Seq<char>|
                #[trigger] deps_declare(out@, name) <==> declared_before(ss, i as int, 0, name),
            forall|name: Seq<char>|
                #[trigger] deps_declare(out@, name) ==> dep_eq(
                    deps_dep_of(out@, name),
                    expected_dep(ss, i as int, 0, name),
                ),
        decreases ss.len() - i,
    {
        let mut d: usize = 0;
        proof {
            assert(ss[i as int].deps@.take(0) =~= Seq::<(String, Dependency)>::empty());
        }
        while d < sources[i].deps.len()
            invariant
                ss == sources@,
                forall|i2: int| 0 <= i2 < ss.len() ==> (#[trigger] ss[i2]).wf(),
                0 <= i < ss.len(),
                0 <= d <= ss[i as int].deps@.len(),
                deps_unique(out@),
                forall|name: Seq<char>|
                    #[trigger] deps_declare(out@, name) <==> declared_before(
                        ss,
                        i as int,
                        d as int,
                        name,
                    ),
                forall|name: Seq<char>|
                    #[trigger] deps_declare(out@, name) ==> dep_eq(
                        deps_dep_of(out@, name),
                        expected_dep(ss, i as int, d as int, name),
                    ),
            decreases ss[i as int].deps@.len() - d,
        {
            let ghost old_out = out@;
            let ghost nm = ss[i as int].deps@[d as int].0@;
            let pair = &sources[i].deps[d];
            let c = pair.1.dup();
            let nmc = pair.0.clone();
            let ghost gdep = c;
            proof {
                assert(ss[i as int].deps@[d as int].0@ == nm);
                assert(deps_declare(ss[i as int].deps@, nm));
                assert(deps_index_of(ss[i as int].deps@, nm) == d as int) by {
                    let k = deps_index_of(ss[i as int].deps@, nm);
                    assert(0 <= k < ss[i as int].deps@.len() && ss[i as int].deps@[k].0@ == nm);
                }
            }
            match find_dep_index(&out, &pair.0) {
                Some(pos) => {
                    out.remove(pos);
                    out.push((nmc, c));
                    proof {
                        let removed = old_out.remove(deps_index_of(old_out, nm));
                        assert(out@.drop_last() =~= removed);
                        assert forall|k: int| 0 <= k < out@.len() - 1 implies out@[k].0@ != nm
                        by {
                            let p = deps_index_of(old_out, nm);
                            if k < p {
                                assert(removed[k] == old_out[k]);
                            } else {
                                assert(removed[k] == old_out[k + 1]);
                            }
                        }
                    }
                },
                None => {
                    out.push((nmc, c));
                    proof {
                        assert(out@.drop_last() =~= old_out);
                        assert forall|k: int| 0 <= k < out@.len() - 1 implies out@[k].0@ != nm
                        by {
                            assert(out@[k] == old_out[k]);
                            if out@[k].0@ == nm {
                                assert(deps_declare(old_out, nm));
                            }
                        }
                    }
                },
            }
            proof {
                lemma_merge_entry_update(ss, i as int, d as int, old_out, out@, gdep);
            }
            d = d + 1;
        }
        proof {
            lemma_merge_source_finish(ss, i as int, out@);
        }
        i = i + 1;
    }
    proof {
        assert(ss.take(ss.len() as int) =~= ss);
    }
    DependencyManifest { dependencies: out }
}

/// After replacing or appending the entry for the `d`-th name of source
/// `i`, the merged set is the one expected at position `(i, d + 1)`.
proof fn lemma_merge_entry_update(
    ss: Seq<ManifestSource>,
    i: int,
    d: int,
    old_out: Seq<(String, Dependency)>,
    new_out: Seq<(String, Dependency)>,
    c: Dependency,
)
    requires
        forall|i2: int| 0 <= i2 < ss.len() ==> (#[trigger] ss[i2]).wf(),
        0 <= i < ss.len(),
        0 <= d < ss[i].deps@.len(),
        deps_unique(old_out),
        forall|name: Seq<char>|
            #[trigger] deps_declare(old_out, name) <==> declared_before(ss, i, d, name),
        forall|name: Seq<char>|
            #[trigger] deps_declare(old_out, name) ==> dep_eq(
                deps_dep_of(old_out, name),
                expected_dep(ss, i, d, name),
            ),
        dep_eq(c, ss[i].deps@[d].1),
        new_out.len() > 0,
        new_out.last().0@ == ss[i].deps@[d].0@,
        new_out.last().1 == c,
        forall|k: int| 0 <= k < new_out.len() - 1 ==> new_out[k].0@ != ss[i].deps@[d].0@,
        deps_declare(old_out, ss[i].deps@[d].0@) ==> new_out.drop_last() =~= old_out.remove(
            deps_index_of(old_out, ss[i].deps@[d].0@),
        ),
        !deps_declare(old_out, ss[i].deps@[d].0@) ==> new_out.drop_last() =~= old_out,
    ensures
        deps_unique(new_out),
        forall|name: Seq<char>|
            #[trigger] deps_declare(new_out, name) <==> declared_before(ss, i, d + 1, name),
        forall|name: Seq<char>|
            #[trigger] deps_declare(new_out, name) ==> dep_eq(
                deps_dep_of(new_out, name),
                expected_dep(ss, i, d + 1, name),
            ),
{
    let nm = ss[i].deps@[d].0@;
    let rest = new_out.drop_last();
    // Every old entry other than the one named `nm` survives with its value.
    assert forall|name: Seq<char>| name != nm implies (deps_declare(rest, name) <==> deps_declare(
        old_out,
        name,
    )) by {
        if deps_declare(old_out, nm) {
            let p = deps_index_of(old_out, nm);
            let removed = old_out.remove(p);
            if deps_declare(removed, name) {
                let k = choose|k: int| 0 <= k < removed.len() && removed[k].0@ == name;
                if k < p {
                    assert(old_out[k].0@ == name);
                } else {
                    assert(old_out[k + 1].0@ == name);
                }
            }
            if deps_declare(old_out, name) {
                let k = choose|k: int| 0 <= k < old_out.len() && old_out[k].0@ == name;
                if k < p {
                    assert(removed[k].0@ == name);
                } else {
                    assert(k != p);
                    assert(removed[k - 1].0@ == name);
                }
            }
        }
    }
    assert forall|name: Seq<char>| name != nm && deps_declare(rest, name) implies deps_dep_of(
        rest,
        name,
    ) == deps_dep_of(old_out, name) by {
        let k = deps_index_of(rest, name);
        assert(0 <= k < rest.len() && rest[k].0@ == name);
        if deps_declare(old_out, nm) {
            let p = deps_index_of(old_out, nm);
            if k < p {
                assert(old_out[k].0@ == name);
                assert(deps_index_of(old_out, name) == k);
            } else {
                assert(old_out[k + 1].0@ == name);
                assert(deps_index_of(old_out, name) == k + 1);
            }
        } else {
            assert(old_out[k].0@ == name);
            assert(deps_index_of(old_out, name) == k);
        }
    }
    // Uniqueness of the new set.
    assert forall|j: int, k: int| 0 <= j < k < new_out.len() implies new_out[j].0@
        != new_out[k].0@ by {
        if k == new_out.len() - 1 {
            assert(new_out[j].0@ != nm);
        } else {
            assert(rest[j] == new_out[j]);
            assert(rest[k] == new_out[k]);
            if rest[j].0@ == rest[k].0@ {
                assert(deps_unique(rest)) by {
                    if deps_declare(old_out, nm) {
                        lemma_remove_keeps_unique(old_out, deps_index_of(old_out, nm));
                    }
                }
            }
        }
    }
    // Declarations and values for each name.
    assert forall|name: Seq<char>| #[trigger] deps_declare(new_out, name) implies declared_before(
        ss,
        i,
        d + 1,
        name,
    ) by {
        if name == nm {
            assert(ss[i].deps@.take(d + 1)[d].0@ == nm);
            assert(deps_declare(ss[i].deps@.take(d + 1), nm));
        } else {
            let k = choose|k: int| 0 <= k < new_out.len() && new_out[k].0@ == name;
            assert(k < new_out.len() - 1);
            assert(rest[k].0@ == name);
            assert(deps_declare(old_out, name));
            assert(declared_before(ss, i, d, name));
            if i < ss.len() && deps_declare(ss[i].deps@.take(d), name) {
                let t = choose|t: int|
                    0 <= t < ss[i].deps@.take(d).len() && (#[trigger] ss[i].deps@.take(d)[t]).0@
                        == name;
                assert(ss[i].deps@.take(d + 1)[t].0@ == name);
            }
        }
    }
    assert forall|name: Seq<char>| declared_before(ss, i, d + 1, name) implies deps_declare(
        new_out,
        name,
    ) by {
        if name == nm {
            assert(new_out.last().0@ == nm);
        } else {
            if deps_declare(ss[i].deps@.take(d + 1), name) {
                let t = choose|t: int|
                    0 <= t < ss[i].deps@.take(d + 1).len() && (#[trigger] ss[i].deps@.take(d
                        + 1)[t]).0@ == name;
                assert(t != d);
                assert(ss[i].deps@.take(d)[t].0@ == name);
            }
            assert(declared_before(ss, i, d, name));
            assert(deps_declare(old_out, name));
            assert(deps_declare(rest, name));
            let k = choose|k: int| 0 <= k < rest.len() && rest[k].0@ == name;
            assert(new_out[k].0@ == name);
        }
    }
    assert forall|name: Seq<char>| #[trigger] deps_declare(new_out, name) implies dep_eq(
        deps_dep_of(new_out, name),
        expected_dep(ss, i, d + 1, name),
    ) by {
        if name == nm {
            assert(deps_index_of(new_out, nm) == new_out.len() - 1) by {
                let k = deps_index_of(new_out, nm);
                assert(0 <= k < new_out.len() && new_out[k].0@ == nm);
            }
            assert(deps_dep_of(new_out, nm) == c);
            assert(deps_index_of(ss[i].deps@, nm) == d) by {
                let k = deps_index_of(ss[i].deps@, nm);
                assert(0 <= k < ss[i].deps@.len() && ss[i].deps@[k].0@ == nm);
            }
            assert(ss[i].deps@.take(d + 1)[d].0@ == nm);
            assert(deps_declare(ss[i].deps@.take(d + 1), nm));
            assert(expected_dep(ss, i, d + 1, nm) == ss[i].deps@[d].1);
        } else {
            let k = choose|k: int| 0 <= k < new_out.len() && new_out[k].0@ == name;
            assert(k < new_out.len() - 1);
            assert(rest[k].0@ == name);
            assert(deps_declare(rest, name));
            assert(deps_dep_of(new_out, name) == deps_dep_of(rest, name)) by {
                let k2 = deps_index_of(new_out, name);
                assert(0 <= k2 < new_out.len() && new_out[k2].0@ == name);
                assert(k2 < new_out.len() - 1);
                assert(rest[k2].0@ == name);
                assert(deps_index_of(rest, name) == k2) by {
                    let k3 = deps_index_of(rest, name);
                    assert(0 <= k3 < rest.len() && rest[k3].0@ == name);
                    assert(deps_unique(new_out));
                }
            }
            assert(deps_declare(old_out, name));
            assert(expected_dep(ss, i, d + 1, name) == expected_dep(ss, i, d, name)) by {
                if deps_declare(ss[i].deps@.take(d + 1), name) {
                    let t = choose|t: int|
                        0 <= t < ss[i].deps@.take(d + 1).len() && (#[trigger] ss[i].deps@.take(d
                            + 1)[t]).0@ == name;
                    assert(t != d);
                    assert(ss[i].deps@.take(d)[t].0@ == name);
                } else if deps_declare(ss[i].deps@.take(d), name) {
                    let t = choose|t: int|
                        0 <= t < ss[i].deps@.take(d).len() && (#[trigger] ss[i].deps@.take(d)[t]).0@
                            == name;
                    assert(ss[i].deps@.take(d + 1)[t].0@ == name);
                }
            }
        }
    }
}

/// Removing an entry keeps the remaining names unique.
proof fn lemma_remove_keeps_unique(s: Seq<(String, Dependency)>, p: int)
    requires
        deps_unique(s),
        0 <= p < s.len(),
    ensures
        deps_unique(s.remove(p)),
{
    let r = s.remove(p);
    assert forall|j: int, k: int| 0 <= j < k < r.len() implies r[j].0@ != r[k].0@ by {
        if j < p {
            assert(r[j] == s[j]);
        } else {
            assert(r[j] == s[j + 1]);
        }
        if k < p {
            assert(r[k] == s[k]);
        } else {
            assert(r[k] == s[k + 1]);
        }
    }
}

/// Once every entry of source `i` is taken in, the merged set is the one
/// expected at the start of source `i + 1`.
proof fn lemma_merge_source_finish(ss: Seq<ManifestSource>, i: int, out: Seq<(String, Dependency)>)
    requires
        forall|i2: int| 0 <= i2 < ss.len() ==> (#[trigger] ss[i2]).wf(),
        0 <= i < ss.len(),
        forall|name: Seq<char>|
            #[trigger] deps_declare(out, name) <==> declared_before(
                ss,
                i,
                ss[i].deps@.len() as int,
                name,
            ),
        forall|name: Seq<char>|
            #[trigger] deps_declare(out, name) ==> dep_eq(
                deps_dep_of(out, name),
                expected_dep(ss, i, ss[i].deps@.len() as int, name),
            ),
    ensures
        forall|name: Seq<char>|
            #[trigger] deps_declare(out, name) <==> declared_before(ss, i + 1, 0, name),
        forall|name: Seq<char>|
            #[trigger] deps_declare(out, name) ==> dep_eq(
                deps_dep_of(out, name),
                expected_dep(ss, i + 1, 0, name),
            ),
{
    let full = ss[i].deps@.len() as int;
    assert(ss[i].deps@.take(full) =~= ss[i].deps@);
    if i + 1 < ss.len() {
        assert(ss[i + 1].deps@.take(0) =~= Seq::<(String, Dependency)>::empty());
    }
    assert forall|name: Seq<char>| #[trigger] deps_declare(out, name) implies declared_before(
        ss,
        i + 1,
        0,
        name,
    ) by {
        assert(declared_before(ss, i, full, name));
        if deps_declare(ss[i].deps@.take(full), name) {
            assert(ss[i].declares(name));
        }
    }
    assert forall|name: Seq<char>| declared_before(ss, i + 1, 0, name) implies deps_declare(
        out,
        name,
    ) by {
        let i2 = choose|i2: int| 0 <= i2 < i + 1 && ss[i2].declares(name);
        if i2 == i {
            assert(deps_declare(ss[i].deps@.take(full), name));
        }
        assert(declared_before(ss, i, full, name));
    }
    assert forall|name: Seq<char>| #[trigger] deps_declare(out, name) implies dep_eq(
        deps_dep_of(out, name),
        expected_dep(ss, i + 1, 0, name),
    ) by {
        lemma_last_declarer_step(ss, i, name);
        if ss[i].declares(name) {
            assert(deps_declare(ss[i].deps@.take(full), name));
            assert(expected_dep(ss, i, full, name) == deps_dep_of(ss[i].deps@, name));
            assert(last_declarer(ss.take(i + 1), name) == i);
            assert(expected_dep(ss, i + 1, 0, name) == ss[i].dep_of(name));
        } else {
            assert(!deps_declare(ss[i].deps@.take(full), name));
            assert(expected_dep(ss, i, full, name) == ss[last_declarer(ss.take(i), name)].dep_of(
                name,
            ));
            assert(expected_dep(ss, i + 1, 0, name) == ss[last_declarer(ss.take(i + 1), name)].dep_of(
                name,
            ));
        }
    }
}


/// No two sources, in any order, declare a dependency name with differing
/// version strings.
pub open spec fn no_conflicts(ss: Seq<ManifestSource>) -> bool {
    forall|i: int, j: int, name: Seq<char>|
        #![trigger ss[i].version_of(name), ss[j].version_of(name)]
        0 <= i < ss.len() && 0 <= j < ss.len() && ss[i].declares(name) && ss[j].declares(name)
            ==> ss[i].version_of(name) == ss[j].version_of(name)
}

/// With no conflicts, the merged version of any declared dependency name is
/// the single version string shared by all sources declaring it: merging is
/// deterministic in the version values although the carrying source is the
/// last one in iteration order.
pub proof fn lemma_merge_version_agrees(
    ss: Seq<ManifestSource>,
    m: DependencyManifest,
    name: Seq<char>,
    i: int,
)
    requires
        merge_post(ss, m),
        no_conflicts(ss),
        0 <= i < ss.len(),
        ss[i].declares(name),
    ensures
        m.declares(name),
        m.version_of(name) == ss[i].version_of(name),
{
    lemma_last_declarer(ss, name);
    let li = last_declarer(ss, name);
    assert(declared_before(ss, ss.len() as int, 0, name));
    assert(m.declares(name));
    assert(dep_eq(m.dep_of(name), ss[li].dep_of(name)));
    crate::deps::lemma_dep_eq_same_version(m.dep_of(name), ss[li].dep_of(name));
    assert(ss[li].version_of(name) == ss[i].version_of(name));
}

/// Merging is commutative and idempotent in the resulting version values:
/// two merges over source lists that agree on every declared version — in
/// particular, permutations or repetitions of one conflict-free list —
/// carry the same version for any name both declare.
pub proof fn lemma_merge_order_insensitive(
    ss1: Seq<ManifestSource>,
    ss2: Seq<ManifestSource>,
    m1: DependencyManifest,
    m2: DependencyManifest,
    name: Seq<char>,
)
    requires
        merge_post(ss1, m1),
        merge_post(ss2, m2),
        no_conflicts(ss1 + ss2),
        m1.declares(name),
        m2.declares(name),
    ensures
        m1.version_of(name) == m2.version_of(name),
{
    assert(no_conflicts(ss1)) by {
        assert forall|i: int, j: int, n: Seq<char>|
            0 <= i < ss1.len() && 0 <= j < ss1.len() && ss1[i].declares(n) && ss1[j].declares(n)
            implies #[trigger] ss1[i].version_of(n) == #[trigger] ss1[j].version_of(n) by {
            assert((ss1 + ss2)[i] == ss1[i]);
            assert((ss1 + ss2)[j] == ss1[j]);
            assert((ss1 + ss2)[i].version_of(n) == (ss1 + ss2)[j].version_of(n));
        }
    }
    assert(no_conflicts(ss2)) by {
        assert forall|i: int, j: int, n: Seq<char>|
            0 <= i < ss2.len() && 0 <= j < ss2.len() && ss2[i].declares(n) && ss2[j].declares(n)
            implies #[trigger] ss2[i].version_of(n) == #[trigger] ss2[j].version_of(n) by {
            assert((ss1 + ss2)[ss1.len() + i] == ss2[i]);
            assert((ss1 + ss2)[ss1.len() + j] == ss2[j]);
            assert((ss1 + ss2)[ss1.len() + i].version_of(n) == (ss1 + ss2)[ss1.len()
                + j].version_of(n));
        }
    }
    lemma_last_declarer(ss1, name);
    lemma_last_declarer(ss2, name);
    let l1 = last_declarer(ss1, name);
    let l2 = last_declarer(ss2, name);
    assert(0 <= l1 < ss1.len()) by {
        if !(exists|i: int| 0 <= i < ss1.len() && (#[trigger] ss1[i]).declares(name)) {
            assert(!declared_before(ss1, ss1.len() as int, 0, name));
        }
    }
    assert(0 <= l2 < ss2.len()) by {
        if !(exists|i: int| 0 <= i < ss2.len() && (#[trigger] ss2[i]).declares(name)) {
            assert(!declared_before(ss2, ss2.len() as int, 0, name));
        }
    }
    crate::deps::lemma_dep_eq_same_version(m1.dep_of(name), ss1[l1].dep_of(name));
    crate::deps::lemma_dep_eq_same_version(m2.dep_of(name), ss2[l2].dep_of(name));
    assert((ss1 + ss2)[l1] == ss1[l1]);
    assert((ss1 + ss2)[ss1.len() + l2] == ss2[l2]);
    assert((ss1 + ss2)[l1].version_of(name) == (ss1 + ss2)[ss1.len() + l2].version_of(name));
}

} // verus!
