//! The conflict detector: finds dependency names that distinct manifest
//! sources declare with differing version strings, and reports each such
//! pair exactly once, in canonical order.

use vstd::prelude::*;
use crate::deps::get_version;
use crate::manifest::{
    ManifestSource,
    sources_wf,
    find_dep_index,
    deps_declare,
    deps_index_of,
};
use crate::text::{lex_le, str_le, lemma_lex_le_total, lemma_lex_le_trans, lemma_lex_le_refl};

verus! {

/// One reported conflict: a dependency name two manifests declare with
/// differing version strings. The two sides stand in canonical
/// (lexicographic) order of manifest identifier, which both deduplicates
/// symmetric reporting and makes the output order reproducible.
#[derive(Debug)]
pub struct ConflictRecord {
    pub name: String,
    pub manifest_a: String,
    pub manifest_b: String,
    pub version_a: String,
    pub version_b: String,
}

impl ConflictRecord {
    /// What identifies a record: the dependency name and the two manifest
    /// identifiers.
    pub open spec fn key(self) -> (Seq<char>, Seq<char>, Seq<char>) {
        (self.name@, self.manifest_a@, self.manifest_b@)
    }
}

/// Manifests `x` and `y` declare `name` with differing version strings.
pub open spec fn conflicting(x: ManifestSource, y: ManifestSource, name: Seq<char>) -> bool {
    x.declares(name) && y.declares(name) && x.version_of(name) != y.version_of(name)
}

/// `r` reports the conflict between `x` and `y` on `name`, with the side
/// whose manifest identifier is lexicographically smaller placed first.
pub open spec fn is_record_for(
    r: ConflictRecord,
    x: ManifestSource,
    y: ManifestSource,
    name: Seq<char>,
) -> bool {
    &&& r.name@ == name
    &&& if lex_le(x.id@, y.id@) {
        r.manifest_a@ == x.id@ && r.manifest_b@ == y.id@ && r.version_a@ == x.version_of(name)
            && r.version_b@ == y.version_of(name)
    } else {
        r.manifest_a@ == y.id@ && r.manifest_b@ == x.id@ && r.version_a@ == y.version_of(name)
            && r.version_b@ == x.version_of(name)
    }
}

/// Record `k` of `rs` reports the conflict of some pair of sources.
pub open spec fn reported(ss: Seq<ManifestSource>, rs: Seq<ConflictRecord>, k: int) -> bool {
    exists|i: int, j: int|
        #![trigger conflicting(ss[i], ss[j], rs[k].name@)]
        0 <= i < j < ss.len() && conflicting(ss[i], ss[j], rs[k].name@) && is_record_for(
            rs[k],
            ss[i],
            ss[j],
            rs[k].name@,
        )
}

/// Some record of `rs` reports the conflict of sources `i` and `j` on
/// `name`.
pub open spec fn has_record_for(
    ss: Seq<ManifestSource>,
    rs: Seq<ConflictRecord>,
    i: int,
    j: int,
    name: Seq<char>,
) -> bool {
    exists|k: int|
        #![trigger rs[k]]
        0 <= k < rs.len() && is_record_for(rs[k], ss[i], ss[j], name)
}

/// No two records carry the same name and manifest pair.
pub open spec fn distinct_keys(rs: Seq<ConflictRecord>) -> bool {
    forall|k1: int, k2: int|
        0 <= k1 < k2 < rs.len() ==> (#[trigger] rs[k1]).key() != (#[trigger] rs[k2]).key()
}

/// Records sorted by their first manifest identifier.
pub open spec fn sorted_by_first(rs: Seq<ConflictRecord>) -> bool {
    forall|k1: int, k2: int|
        0 <= k1 <= k2 < rs.len() ==> lex_le(
            (#[trigger] rs[k1]).manifest_a@,
            (#[trigger] rs[k2]).manifest_a@,
        )
}

/// What the conflict detector returns: a sound, complete, duplicate-free
/// and sorted report of every conflict among the sources.
pub open spec fn detector_post(ss: Seq<ManifestSource>, rs: Seq<ConflictRecord>) -> bool {
    &&& forall|k: int| 0 <= k < rs.len() ==> #[trigger] reported(ss, rs, k)
    &&& forall|i: int, j: int, name: Seq<char>|
        0 <= i < j < ss.len() && #[trigger] conflicting(ss[i], ss[j], name) ==> has_record_for(
            ss,
            rs,
            i,
            j,
            name,
        )
    &&& distinct_keys(rs)
    &&& sorted_by_first(rs)
}

/// Sources with equal identifiers are the same source.
proof fn lemma_id_identifies(ss: Seq<ManifestSource>, a: int, b: int)
    requires
        sources_wf(ss),
        0 <= a < ss.len(),
        0 <= b < ss.len(),
        ss[a].id@ == ss[b].id@,
    ensures
        a == b,
{
    if a < b {
        assert(ss[a].id@ != ss[b].id@);
    } else if b < a {
        assert(ss[b].id@ != ss[a].id@);
    }
}

/// Records with equal keys report the conflict of the same pair on the
/// same name.
proof fn lemma_key_identifies(
    ss: Seq<ManifestSource>,
    r1: ConflictRecord,
    r2: ConflictRecord,
    i1: int,
    j1: int,
    n1: Seq<char>,
    i2: int,
    j2: int,
    n2: Seq<char>,
)
    requires
        sources_wf(ss),
        0 <= i1 < j1 < ss.len(),
        0 <= i2 < j2 < ss.len(),
        is_record_for(r1, ss[i1], ss[j1], n1),
        is_record_for(r2, ss[i2], ss[j2], n2),
        r1.key() == r2.key(),
    ensures
        i1 == i2 && j1 == j2 && n1 == n2,
{
    assert(r1.name@ == r2.name@);
    if lex_le(ss[i1].id@, ss[j1].id@) {
        if lex_le(ss[i2].id@, ss[j2].id@) {
            lemma_id_identifies(ss, i1, i2);
            lemma_id_identifies(ss, j1, j2);
        } else {
            lemma_id_identifies(ss, i1, j2);
            lemma_id_identifies(ss, j1, i2);
        }
    } else {
        if lex_le(ss[i2].id@, ss[j2].id@) {
            lemma_id_identifies(ss, j1, i2);
            lemma_id_identifies(ss, i1, j2);
        } else {
            lemma_id_identifies(ss, j1, j2);
            lemma_id_identifies(ss, i1, i2);
        }
    }
}

/// The scan has visited pair `(i2, j2)` together with `name` once the scan
/// position stands at source `i`, partner `j`, entry `d`.
pub open spec fn pair_visited(
    ss: Seq<ManifestSource>,
    i: int,
    j: int,
    d: int,
    i2: int,
    j2: int,
    name: Seq<char>,
) -> bool {
    ||| i2 < i
    ||| (i2 == i && j2 < j)
    ||| (i2 == i && j2 == j && exists|t: int|
        0 <= t < d && (#[trigger] ss[i2].deps@[t]).0@ == name)
}

/// Record `k` of `out` reports the conflict of a pair the scan has already
/// visited.
pub open spec fn reported_visited(
    ss: Seq<ManifestSource>,
    i: int,
    j: int,
    d: int,
    out: Seq<ConflictRecord>,
    k: int,
) -> bool {
    exists|i2: int, j2: int, name: Seq<char>|
        #![trigger conflicting(ss[i2], ss[j2], name)]
        0 <= i2 < j2 < ss.len() && pair_visited(ss, i, j, d, i2, j2, name) && conflicting(
            ss[i2],
            ss[j2],
            name,
        ) && is_record_for(out[k], ss[i2], ss[j2], name)
}

/// The collecting scan's invariant: sound with provenance, complete over
/// the visited pairs, and duplicate-free.
pub open spec fn collect_inv(
    ss: Seq<ManifestSource>,
    i: int,
    j: int,
    d: int,
    out: Seq<ConflictRecord>,
) -> bool {
    &&& forall|k: int| 0 <= k < out.len() ==> #[trigger] reported_visited(ss, i, j, d, out, k)
    &&& forall|i2: int, j2: int, name: Seq<char>|
        0 <= i2 < j2 < ss.len() && #[trigger] conflicting(ss[i2], ss[j2], name) && pair_visited(
            ss,
            i,
            j,
            d,
            i2,
            j2,
            name,
        ) ==> has_record_for(ss, out, i2, j2, name)
    &&& distinct_keys(out)
}

/// The visited pairs at scan position `a` are visited at position `b` too,
/// and the conflicting pairs visited at `b` were already visited at `a`:
/// the invariant carries over between the positions.
#[verifier::spinoff_prover]
#[verifier::rlimit(80)]
proof fn lemma_collect_inv_reframe(
    ss: Seq<ManifestSource>,
    ia: int,
    ja: int,
    da: int,
    ib: int,
    jb: int,
    db: int,
    out: Seq<ConflictRecord>,
)
    requires
        sources_wf(ss),
        collect_inv(ss, ia, ja, da, out),
        forall|i2: int, j2: int, name: Seq<char>|
            #![trigger pair_visited(ss, ia, ja, da, i2, j2, name)]
            0 <= i2 < j2 < ss.len() ==> (pair_visited(ss, ia, ja, da, i2, j2, name)
                ==> pair_visited(ss, ib, jb, db, i2, j2, name)),
        forall|i2: int, j2: int, name: Seq<char>|
            #![trigger pair_visited(ss, ib, jb, db, i2, j2, name)]
            0 <= i2 < j2 < ss.len() && conflicting(ss[i2], ss[j2], name) ==> (pair_visited(
                ss,
                ib,
                jb,
                db,
                i2,
                j2,
                name,
            ) ==> pair_visited(ss, ia, ja, da, i2, j2, name)),
    ensures
        collect_inv(ss, ib, jb, db, out),
{
    assert forall|k: int| 0 <= k < out.len() implies #[trigger] reported_visited(
        ss,
        ib,
        jb,
        db,
        out,
        k,
    ) by {
        assert(reported_visited(ss, ia, ja, da, out, k));
        let (i2, j2, name) = choose|i2: int, j2: int, name: Seq<char>|
            #![trigger conflicting(ss[i2], ss[j2], name)]
            0 <= i2 < j2 < ss.len() && pair_visited(ss, ia, ja, da, i2, j2, name) && conflicting(
                ss[i2],
                ss[j2],
                name,
            ) && is_record_for(out[k], ss[i2], ss[j2], name);
        assert(pair_visited(ss, ib, jb, db, i2, j2, name));
        assert(is_record_for(out[k], ss[i2], ss[j2], name));
    }
    assert forall|i2: int, j2: int, name: Seq<char>|
        0 <= i2 < j2 < ss.len() && #[trigger] conflicting(ss[i2], ss[j2], name) && pair_visited(
            ss,
            ib,
            jb,
            db,
            i2,
            j2,
            name,
        ) implies has_record_for(ss, out, i2, j2, name) by {
        assert(pair_visited(ss, ia, ja, da, i2, j2, name));
    }
}

/// A record about to be collected for the entry at hand carries a key no
/// earlier record carries: its pair and name were not visited yet.
#[verifier::spinoff_prover]
#[verifier::rlimit(60)]
proof fn lemma_push_keeps_distinct(
    ss: Seq<ManifestSource>,
    i: int,
    j: int,
    d: int,
    out: Seq<ConflictRecord>,
    rec: ConflictRecord,
)
    requires
        sources_wf(ss),
        0 <= i < j < ss.len(),
        0 <= d < ss[i].deps@.len(),
        deps_index_of(ss[i].deps@, ss[i].deps@[d].0@) == d,
        forall|k: int| 0 <= k < out.len() ==> #[trigger] reported_visited(ss, i, j, d, out, k),
        is_record_for(rec, ss[i], ss[j], ss[i].deps@[d].0@),
    ensures
        forall|k: int| 0 <= k < out.len() ==> (#[trigger] out[k]).key() != rec.key(),
{
    let nm = ss[i].deps@[d].0@;
    assert forall|k: int| 0 <= k < out.len() implies (#[trigger] out[k]).key() != rec.key() by {
        if out[k].key() == rec.key() {
            assert(reported_visited(ss, i, j, d, out, k));
            let (i2, j2, name) = choose|i2: int, j2: int, name: Seq<char>|
                #![trigger conflicting(ss[i2], ss[j2], name)]
                0 <= i2 < j2 < ss.len() && pair_visited(ss, i, j, d, i2, j2, name) && conflicting(
                    ss[i2],
                    ss[j2],
                    name,
                ) && is_record_for(out[k], ss[i2], ss[j2], name);
            lemma_key_identifies(ss, out[k], rec, i2, j2, name, i, j, nm);
            let t = choose|t: int| 0 <= t < d && (#[trigger] ss[i2].deps@[t]).0@ == nm;
            assert(ss[i].deps@[t].0@ == ss[i].deps@[d].0@);
            assert(false);
        }
    }
}

/// Entry `d` of source `i` has been handled against partner `j`: the
/// invariant advances by one entry.
#[verifier::spinoff_prover]
#[verifier::rlimit(80)]
proof fn lemma_collect_step(
    ss: Seq<ManifestSource>,
    i: int,
    j: int,
    d: int,
    old_out: Seq<ConflictRecord>,
    out: Seq<ConflictRecord>,
)
    requires
        sources_wf(ss),
        0 <= i < j < ss.len(),
        0 <= d < ss[i].deps@.len(),
        collect_inv(ss, i, j, d, old_out),
        conflicting(ss[i], ss[j], ss[i].deps@[d].0@) ==> {
            &&& out.len() == old_out.len() + 1
            &&& out.drop_last() =~= old_out
            &&& is_record_for(out.last(), ss[i], ss[j], ss[i].deps@[d].0@)
            &&& forall|k: int|
                0 <= k < old_out.len() ==> (#[trigger] old_out[k]).key() != out.last().key()
        },
        !conflicting(ss[i], ss[j], ss[i].deps@[d].0@) ==> out == old_out,
    ensures
        collect_inv(ss, i, j, d + 1, out),
{
    let nm = ss[i].deps@[d].0@;
    // Soundness with provenance.
    assert forall|k: int| 0 <= k < out.len() implies #[trigger] reported_visited(
        ss,
        i,
        j,
        d + 1,
        out,
        k,
    ) by {
        if conflicting(ss[i], ss[j], nm) && k == out.len() - 1 {
            assert(pair_visited(ss, i, j, d + 1, i, j, nm)) by {
                assert((ss[i].deps@[d]).0@ == nm);
            }
            assert(is_record_for(out[k], ss[i], ss[j], nm));
            assert(conflicting(ss[i], ss[j], nm));
        } else {
            assert(out[k] == old_out[k]);
            assert(reported_visited(ss, i, j, d, old_out, k));
            let (i2, j2, name) = choose|i2: int, j2: int, name: Seq<char>|
                #![trigger conflicting(ss[i2], ss[j2], name)]
                0 <= i2 < j2 < ss.len() && pair_visited(ss, i, j, d, i2, j2, name) && conflicting(
                    ss[i2],
                    ss[j2],
                    name,
                ) && is_record_for(old_out[k], ss[i2], ss[j2], name);
            assert(pair_visited(ss, i, j, d + 1, i2, j2, name));
            assert(is_record_for(out[k], ss[i2], ss[j2], name));
        }
    }
    // Completeness over the enlarged visited set.
    assert forall|i2: int, j2: int, name: Seq<char>|
        0 <= i2 < j2 < ss.len() && #[trigger] conflicting(ss[i2], ss[j2], name) && pair_visited(
            ss,
            i,
            j,
            d + 1,
            i2,
            j2,
            name,
        ) implies has_record_for(ss, out, i2, j2, name) by {
        if pair_visited(ss, i, j, d, i2, j2, name) {
            assert(has_record_for(ss, old_out, i2, j2, name));
            let k = choose|k: int|
                #![trigger old_out[k]]
                0 <= k < old_out.len() && is_record_for(old_out[k], ss[i2], ss[j2], name);
            assert(out[k] == old_out[k]);
            assert(is_record_for(out[k], ss[i2], ss[j2], name));
        } else {
            assert(i2 == i && j2 == j);
            let t = choose|t: int| 0 <= t < d + 1 && (#[trigger] ss[i2].deps@[t]).0@ == name;
            assert(t == d);
            assert(name == nm);
            assert(conflicting(ss[i], ss[j], nm));
            let k = out.len() - 1;
            assert(is_record_for(out[k], ss[i2], ss[j2], name));
        }
    }
    // Distinct keys.
    assert forall|k1: int, k2: int| 0 <= k1 < k2 < out.len() implies (#[trigger] out[k1]).key()
        != (#[trigger] out[k2]).key() by {
        if conflicting(ss[i], ss[j], nm) {
            assert(out[k1] == old_out[k1]);
            if k2 < out.len() - 1 {
                assert(out[k2] == old_out[k2]);
            }
        }
    }
}

/// Scans every unordered pair of distinct sources for dependency names
/// declared with differing versions and collects one canonical record for
/// each, in scan order.
#[verifier::rlimit(60)]
fn collect_conflicts(sources: &Vec<ManifestSource>) -> (r: Vec<ConflictRecord>)
    requires
        sources_wf(sources@),
    ensures
        collect_inv(sources@, sources@.len() as int, sources@.len() as int + 1, 0, r@),
{
    let ghost ss = sources@;
    let mut out: Vec<ConflictRecord> = Vec::new();
    let mut i: usize = 0;
    while i < sources.len()
        invariant
            ss == sources@,
            sources_wf(ss),
            0 <= i <= ss.len(),
            collect_inv(ss, i as int, i as int + 1, 0, out@),
        decreases ss.len() - i,
    {
        let mut j: usize = i + 1;
        while j < sources.len()
            invariant
                ss == sources@,
                sources_wf(ss),
                0 <= i < ss.len(),
                i < j <= ss.len(),
                collect_inv(ss, i as int, j as int, 0, out@),
            decreases ss.len() - j,
        {
            let mut d: usize = 0;
            while d < sources[i].deps.len()
                invariant
                    ss == sources@,
                    sources_wf(ss),
                    0 <= i < ss.len(),
                    i < j < ss.len(),
                    0 <= d <= ss[i as int].deps@.len(),
                    collect_inv(ss, i as int, j as int, d as int, out@),
                decreases ss[i as int].deps@.len() - d,
            {
                let ghost old_out = out@;
                let ghost nm = ss[i as int].deps@[d as int].0@;
                proof {
                    assert(deps_declare(ss[i as int].deps@, nm));
                    assert(deps_index_of(ss[i as int].deps@, nm) == d as int) by {
                        let k = deps_index_of(ss[i as int].deps@, nm);
                        assert(0 <= k < ss[i as int].deps@.len() && ss[i as int].deps@[k].0@
                            == nm);
                    }
                }
                let pair = &sources[i].deps[d];
                let found = find_dep_index(&sources[j].deps, &pair.0);
                match found {
                    Some(pos) => {
                        let va = get_version(&pair.1);
                        let vb = get_version(&sources[j].deps[pos].1);
                        proof {
                            assert(va@ == ss[i as int].version_of(nm));
                            assert(vb@ == ss[j as int].version_of(nm));
                        }
                        if va == vb {
                            proof {
                                assert(!conflicting(ss[i as int], ss[j as int], nm));
                            }
                        } else {
                            let rec = if str_le(sources[i].id.as_str(), sources[j].id.as_str()) {
                                ConflictRecord {
                                    name: pair.0.clone(),
                                    manifest_a: sources[i].id.clone(),
                                    manifest_b: sources[j].id.clone(),
                                    version_a: va,
                                    version_b: vb,
                                }
                            } else {
                                ConflictRecord {
                                    name: pair.0.clone(),
                                    manifest_a: sources[j].id.clone(),
                                    manifest_b: sources[i].id.clone(),
                                    version_a: vb,
                                    version_b: va,
                                }
                            };
                            let ghost grec = rec;
                            proof {
                                assert(conflicting(ss[i as int], ss[j as int], nm));
                                assert(is_record_for(grec, ss[i as int], ss[j as int], nm));
                                lemma_push_keeps_distinct(
                                    ss,
                                    i as int,
                                    j as int,
                                    d as int,
                                    old_out,
                                    grec,
                                );
                            }
                            out.push(rec);
                        }
                    },
                    None => {
                        proof {
                            assert(!ss[j as int].declares(nm));
                            assert(!conflicting(ss[i as int], ss[j as int], nm));
                        }
                    },
                }
                proof {
                    lemma_collect_step(ss, i as int, j as int, d as int, old_out, out@);
                }
                d = d + 1;
            }
            proof {
                lemma_collect_inv_reframe(
                    ss,
                    i as int,
                    j as int,
                    ss[i as int].deps@.len() as int,
                    i as int,
                    j as int + 1,
                    0,
                    out@,
                );
            }
            j = j + 1;
        }
        proof {
            lemma_collect_inv_reframe(
                ss,
                i as int,
                ss.len() as int,
                0,
                i as int + 1,
                i as int + 2,
                0,
                out@,
            );
        }
        i = i + 1;
    }
    out
}

/// Swapping two neighbouring records changes the sequence but not its
/// multiset.
proof fn lemma_swap_adjacent(s: Seq<ConflictRecord>, j: int)
    requires
        1 <= j < s.len(),
    ensures
        ({
            let t = s.remove(j).insert(j - 1, s[j]);
            &&& t.len() == s.len()
            &&& t[j - 1] == s[j]
            &&& t[j] == s[j - 1]
            &&& forall|k: int| 0 <= k < s.len() && k != j - 1 && k != j ==> t[k] == s[k]
            &&& t.to_multiset() == s.to_multiset()
        }),
{
    broadcast use vstd::seq_lib::group_to_multiset_ensures;
    broadcast use vstd::multiset::group_multiset_axioms;

    let r = s.remove(j);
    let t = r.insert(j - 1, s[j]);
    r.insert_ensures(j - 1, s[j]);
    assert forall|k: int| 0 <= k < s.len() && k != j - 1 && k != j implies t[k] == s[k] by {
        if k < j - 1 {
            assert(t[k] == r[k]);
        } else {
            assert(t[k] == r[k - 1]);
        }
    }
    assert(t[j - 1] == s[j]);
    assert(t[j] == r[j - 1]);
    assert(r[j - 1] == s[j - 1]);
    assert(r.to_multiset() =~= s.to_multiset().remove(s[j]));
    assert(t.remove(j - 1) =~= r);
    assert(r.to_multiset() =~= t.to_multiset().remove(t[j - 1]));
    assert(s.contains(s[j]));
    assert(t.contains(s[j])) by {
        assert(t[j - 1] == s[j]);
    }
    assert forall|y: ConflictRecord| t.to_multiset().count(y) == s.to_multiset().count(y) by {
        assert(s.to_multiset().count(s[j]) > 0);
        assert(t.to_multiset().count(s[j]) > 0);
        if y == s[j] {
            assert(s.to_multiset().remove(s[j]).count(y) == s.to_multiset().count(y) - 1);
            assert(t.to_multiset().remove(s[j]).count(y) == t.to_multiset().count(y) - 1);
        } else {
            assert(s.to_multiset().remove(s[j]).count(y) == s.to_multiset().count(y));
            assert(t.to_multiset().remove(s[j]).count(y) == t.to_multiset().count(y));
        }
    }
    assert(t.to_multiset() =~= s.to_multiset());
}

/// Sorts the records by their first manifest identifier (insertion sort;
/// the order of records sharing that identifier is unspecified).
#[verifier::rlimit(60)]
fn sort_records(v: Vec<ConflictRecord>) -> (r: Vec<ConflictRecord>)
    ensures
        r@.len() == v@.len(),
        r@.to_multiset() == v@.to_multiset(),
        sorted_by_first(r@),
{
    let ghost orig = v@;
    let mut v = v;
    if v.len() == 0 {
        return v;
    }
    proof {
        lemma_lex_le_refl(v@[0].manifest_a@);
    }
    let mut i: usize = 1;
    while i < v.len()
        invariant
            1 <= i <= v@.len(),
            v@.len() == orig.len(),
            v@.to_multiset() == orig.to_multiset(),
            forall|k1: int, k2: int|
                0 <= k1 <= k2 < i ==> lex_le(
                    (#[trigger] v@[k1]).manifest_a@,
                    (#[trigger] v@[k2]).manifest_a@,
                ),
        decreases v@.len() - i,
    {
        let mut jj: usize = i;
        while jj > 0 && !str_le(v[jj - 1].manifest_a.as_str(), v[jj].manifest_a.as_str())
            invariant
                0 <= jj <= i < v@.len(),
                v@.len() == orig.len(),
                v@.to_multiset() == orig.to_multiset(),
                forall|k1: int, k2: int|
                    0 <= k1 <= k2 <= i && k1 != jj && k2 != jj ==> lex_le(
                        (#[trigger] v@[k1]).manifest_a@,
                        (#[trigger] v@[k2]).manifest_a@,
                    ),
                forall|k: int|
                    jj < k <= i ==> lex_le(
                        v@[jj as int].manifest_a@,
                        (#[trigger] v@[k]).manifest_a@,
                    ),
            decreases jj,
        {
            let ghost old_v = v@;
            proof {
                lemma_lex_le_total(old_v[jj as int - 1].manifest_a@, old_v[jj as int].manifest_a@);
            }
            let x = v.remove(jj);
            v.insert(jj - 1, x);
            proof {
                lemma_swap_adjacent(old_v, jj as int);
                assert(v@ == old_v.remove(jj as int).insert(jj as int - 1, old_v[jj as int]));
            }
            jj = jj - 1;
        }
        proof {
            let vv = v@;
            assert forall|k1: int, k2: int| 0 <= k1 <= k2 <= i implies lex_le(
                (#[trigger] vv[k1]).manifest_a@,
                (#[trigger] vv[k2]).manifest_a@,
            ) by {
                if k1 == k2 {
                    lemma_lex_le_refl(vv[k1].manifest_a@);
                } else if k2 == jj {
                    assert(jj > 0);
                    assert(k1 <= jj - 1);
                    if k1 < jj - 1 {
                        lemma_lex_le_trans(
                            vv[k1].manifest_a@,
                            vv[jj as int - 1].manifest_a@,
                            vv[jj as int].manifest_a@,
                        );
                    }
                } else if k1 == jj {
                }
            }
        }
        i = i + 1;
    }
    v
}

/// Carries the collecting scan's guarantees over to the sorted output.
#[verifier::spinoff_prover]
#[verifier::rlimit(100)]
proof fn lemma_detector_transfer(
    ss: Seq<ManifestSource>,
    c: Seq<ConflictRecord>,
    rs: Seq<ConflictRecord>,
)
    requires
        sources_wf(ss),
        collect_inv(ss, ss.len() as int, ss.len() as int + 1, 0, c),
        rs.len() == c.len(),
        rs.to_multiset() == c.to_multiset(),
        sorted_by_first(rs),
    ensures
        detector_post(ss, rs),
{
    broadcast use vstd::seq_lib::group_to_multiset_ensures;

    assert forall|x: ConflictRecord| rs.contains(x) implies c.contains(x) by {
        assert(rs.to_multiset().count(x) > 0);
    }
    assert forall|x: ConflictRecord| c.contains(x) implies rs.contains(x) by {
        assert(c.to_multiset().count(x) > 0);
    }
    // Soundness.
    assert forall|k: int| 0 <= k < rs.len() implies #[trigger] reported(ss, rs, k) by {
        let x = rs[k];
        assert(rs.contains(x));
        let k2 = choose|k2: int| 0 <= k2 < c.len() && c[k2] == x;
        assert(reported_visited(ss, ss.len() as int, ss.len() as int + 1, 0, c, k2));
        let (i2, j2, name) = choose|i2: int, j2: int, name: Seq<char>|
            #![trigger conflicting(ss[i2], ss[j2], name)]
            0 <= i2 < j2 < ss.len() && pair_visited(
                ss,
                ss.len() as int,
                ss.len() as int + 1,
                0,
                i2,
                j2,
                name,
            ) && conflicting(ss[i2], ss[j2], name) && is_record_for(c[k2], ss[i2], ss[j2], name);
        assert(x.name@ == name);
        assert(conflicting(ss[i2], ss[j2], rs[k].name@) && is_record_for(
            rs[k],
            ss[i2],
            ss[j2],
            rs[k].name@,
        ));
    }
    // Completeness.
    assert forall|i: int, j: int, name: Seq<char>|
        0 <= i < j < ss.len() && #[trigger] conflicting(ss[i], ss[j], name) implies has_record_for(
        ss,
        rs,
        i,
        j,
        name,
    ) by {
        assert(pair_visited(ss, ss.len() as int, ss.len() as int + 1, 0, i, j, name));
        assert(has_record_for(ss, c, i, j, name));
        let k2 = choose|k2: int|
            #![trigger c[k2]]
            0 <= k2 < c.len() && is_record_for(c[k2], ss[i], ss[j], name);
        let x = c[k2];
        assert(c.contains(x));
        let k = choose|k: int| 0 <= k < rs.len() && rs[k] == x;
        assert(is_record_for(rs[k], ss[i], ss[j], name));
    }
    // No duplicate keys.
    assert(c.no_duplicates()) by {
        assert forall|a1: int, a2: int| 0 <= a1 < a2 < c.len() implies c[a1] != c[a2] by {
            if c[a1] == c[a2] {
                assert(c[a1].key() == c[a2].key());
            }
        }
    }
    c.lemma_multiset_has_no_duplicates();
    rs.lemma_multiset_has_no_duplicates_conv();
    assert forall|k1: int, k2: int| 0 <= k1 < k2 < rs.len() implies (#[trigger] rs[k1]).key() != (
    #[trigger] rs[k2]).key() by {
        if rs[k1].key() == rs[k2].key() {
            assert(rs[k1] != rs[k2]);
            assert(rs.contains(rs[k1]));
            assert(rs.contains(rs[k2]));
            let a1 = choose|a1: int| 0 <= a1 < c.len() && c[a1] == rs[k1];
            let a2 = choose|a2: int| 0 <= a2 < c.len() && c[a2] == rs[k2];
            assert(c[a1] != c[a2]);
            assert(c[a1].key() == c[a2].key());
        }
    }
}

/// Finds every dependency name that two distinct sources declare with
/// differing version strings. The output holds exactly one canonically
/// ordered record per conflicting pair and name, sorted by first manifest
/// identifier.
pub fn detect_conflicts(sources: &Vec<ManifestSource>) -> (r: Vec<ConflictRecord>)
    requires
        sources_wf(sources@),
    ensures
        detector_post(sources@, r@),
{
    let collected = collect_conflicts(sources);
    let ghost c = collected@;
    let sorted = sort_records(collected);
    proof {
        lemma_detector_transfer(sources@, c, sorted@);
    }
    sorted
}

/// Two manifests that agree on a dependency's version are never reported
/// for that name: no record in the detector's output reads as a conflict
/// of that pair on that name.
pub proof fn lemma_agreeing_pair_never_reported(
    ss: Seq<ManifestSource>,
    rs: Seq<ConflictRecord>,
    i: int,
    j: int,
    name: Seq<char>,
    k: int,
)
    requires
        sources_wf(ss),
        detector_post(ss, rs),
        0 <= i < j < ss.len(),
        ss[i].declares(name),
        ss[j].declares(name),
        ss[i].version_of(name) == ss[j].version_of(name),
        0 <= k < rs.len(),
    ensures
        !is_record_for(rs[k], ss[i], ss[j], name),
{
    if is_record_for(rs[k], ss[i], ss[j], name) {
        assert(rs[k].name@ == name);
        assert(reported(ss, rs, k));
        let (i2, j2) = choose|i2: int, j2: int|
            #![trigger conflicting(ss[i2], ss[j2], rs[k].name@)]
            0 <= i2 < j2 < ss.len() && conflicting(ss[i2], ss[j2], rs[k].name@) && is_record_for(
                rs[k],
                ss[i2],
                ss[j2],
                rs[k].name@,
            );
        lemma_key_identifies(ss, rs[k], rs[k], i2, j2, name, i, j, name);
        assert(conflicting(ss[i], ss[j], name));
        assert(false);
    }
}

/// A conflicting pair is reported exactly once — one record, whatever the
/// iteration order — and that record's sides stand in canonical order of
/// manifest identifier.
pub proof fn lemma_conflict_reported_exactly_once(
    ss: Seq<ManifestSource>,
    rs: Seq<ConflictRecord>,
    i: int,
    j: int,
    name: Seq<char>,
)
    requires
        sources_wf(ss),
        detector_post(ss, rs),
        0 <= i < j < ss.len(),
        conflicting(ss[i], ss[j], name),
    ensures
        has_record_for(ss, rs, i, j, name),
        forall|k1: int, k2: int|
            0 <= k1 < rs.len() && 0 <= k2 < rs.len() && is_record_for(
                #[trigger] rs[k1],
                ss[i],
                ss[j],
                name,
            ) && is_record_for(#[trigger] rs[k2], ss[i], ss[j], name) ==> k1 == k2,
        forall|k: int|
            0 <= k < rs.len() && is_record_for(#[trigger] rs[k], ss[i], ss[j], name) ==> lex_le(
                rs[k].manifest_a@,
                rs[k].manifest_b@,
            ),
{
    assert forall|k1: int, k2: int|
        0 <= k1 < rs.len() && 0 <= k2 < rs.len() && is_record_for(
            #[trigger] rs[k1],
            ss[i],
            ss[j],
            name,
        ) && is_record_for(#[trigger] rs[k2], ss[i], ss[j], name) implies k1 == k2 by {
        assert(rs[k1].key() == rs[k2].key());
        if k1 < k2 {
            assert(rs[k1].key() != rs[k2].key());
        } else if k2 < k1 {
            assert(rs[k2].key() != rs[k1].key());
        }
    }
    assert forall|k: int|
        0 <= k < rs.len() && is_record_for(#[trigger] rs[k], ss[i], ss[j], name) implies lex_le(
        rs[k].manifest_a@,
        rs[k].manifest_b@,
    ) by {
        if lex_le(ss[i].id@, ss[j].id@) {
        } else {
            lemma_lex_le_total(ss[i].id@, ss[j].id@);
        }
    }
}

} // verus!
