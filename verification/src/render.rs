//! Rendering: the generated build manifest document, the conflict report
//! lines, and the parse-error diagnostic. Each rendered text is pinned
//! exactly by a specification-level counterpart.

use vstd::prelude::*;
use crate::deps::{Dependency, DetailedDependency, DepotProfile};
use crate::manifest::DependencyManifest;
use crate::conflict::ConflictRecord;
use crate::text::{dec_rep, u32_dec, spec_bool_str, bool_str};

verus! {

/// A quoted TOML basic string.
pub open spec fn spec_quoted(s: Seq<char>) -> Seq<char> {
    "\""@ + s + "\""@
}

fn push_quoted(out: &mut String, s: &String)
    ensures
        final(out)@ == old(out)@ + spec_quoted(s@),
{
    out.append("\"");
    out.append(s.as_str());
    out.append("\"");
}

/// One `key = "value"` line.
pub open spec fn spec_str_line(key: Seq<char>, v: Seq<char>) -> Seq<char> {
    key + " = "@ + spec_quoted(v) + "\n"@
}

/// One `key = "value"` line when the field is present, nothing otherwise.
pub open spec fn spec_opt_str_line(key: Seq<char>, v: Option<String>) -> Seq<char> {
    match v {
        Some(s) => spec_str_line(key, s@),
        None => Seq::<char>::empty(),
    }
}

/// One `key = flag` line when the field is present, nothing otherwise.
pub open spec fn spec_opt_bool_line(key: Seq<char>, v: Option<bool>) -> Seq<char> {
    match v {
        Some(b) => key + " = "@ + spec_bool_str(b) + "\n"@,
        None => Seq::<char>::empty(),
    }
}

/// The bracketed list of quoted feature names.
pub open spec fn spec_feature_list(fs: Seq<String>) -> Seq<char>
    decreases fs.len(),
{
    if fs.len() == 0 {
        Seq::<char>::empty()
    } else if fs.len() == 1 {
        spec_quoted(fs[0]@)
    } else {
        spec_feature_list(fs.drop_last()) + ", "@ + spec_quoted(fs.last()@)
    }
}

/// The `features = [...]` line when the field is present.
pub open spec fn spec_features_line(v: Option<Vec<String>>) -> Seq<char> {
    match v {
        Some(fs) => "features = ["@ + spec_feature_list(fs@) + "]\n"@,
        None => Seq::<char>::empty(),
    }
}

/// The body lines of one detailed dependency's section: each present field
/// on its own line, absent fields omitted.
pub open spec fn spec_detailed_body(det: DetailedDependency) -> Seq<char> {
    spec_opt_str_line("version"@, det.version) + spec_opt_str_line("path"@, det.path)
        + spec_opt_str_line("git"@, det.git) + spec_opt_str_line("branch"@, det.branch)
        + spec_opt_str_line("tag"@, det.tag) + spec_opt_str_line("rev"@, det.rev)
        + spec_features_line(det.features) + spec_opt_bool_line("optional"@, det.optional)
        + spec_opt_bool_line("default_features"@, det.default_features)
}

/// The simple `name = "version"` lines of the dependency section, in entry
/// order: one per bare-string declaration.
pub open spec fn spec_simple_lines(s: Seq<(String, Dependency)>) -> Seq<char>
    decreases s.len(),
{
    if s.len() == 0 {
        Seq::<char>::empty()
    } else {
        spec_simple_lines(s.drop_last()) + match s.last().1 {
            Dependency::Simple(v) => spec_str_line(s.last().0@, v@),
            Dependency::Detailed(_) => Seq::<char>::empty(),
        }
    }
}

/// The `[dependencies.name]` sections of the detailed declarations, in
/// entry order.
pub open spec fn spec_detailed_sections(s: Seq<(String, Dependency)>) -> Seq<char>
    decreases s.len(),
{
    if s.len() == 0 {
        Seq::<char>::empty()
    } else {
        spec_detailed_sections(s.drop_last()) + match s.last().1 {
            Dependency::Simple(_) => Seq::<char>::empty(),
            Dependency::Detailed(det) => "[dependencies."@ + s.last().0@ + "]\n"@
                + spec_detailed_body(det),
        }
    }
}

/// The whole dependency part: the `[dependencies]` header, the simple
/// lines, then one section per detailed declaration (sections must follow
/// the plain keys of their parent table).
pub open spec fn spec_dependency_part(s: Seq<(String, Dependency)>) -> Seq<char> {
    "[dependencies]\n"@ + spec_simple_lines(s) + spec_detailed_sections(s)
}

/// The generated manifest document: a banner marking it machine-made, the
/// package and library sections naming the build output, the profile
/// section, and the dependency part.
pub open spec fn spec_manifest_doc(profile: DepotProfile, s: Seq<(String, Dependency)>) -> Seq<
    char,
> {
    "#ATTENTION: This file is automatically generated. Don't modify it unless your life is terrible, or you wish it to be so.\n"@
        + "[package]\nname = \"cargoproject\"\nversion = \"0.0.1\"\nauthors = [ \"automatically generated\" ]\n\n"@
        + "[lib]\nname = \"cargoproject\"\ncrate_type = [\"lib\"]\nplugin = true\n\n"@
        + "[profile.dev]\nopt-level = "@ + dec_rep(profile.opt_level as nat) + "\ndebug = "@
        + spec_bool_str(profile.debug) + "\ndebug_assertions = "@ + spec_bool_str(
        profile.debug_assertions,
    ) + "\n\n"@ + spec_dependency_part(s)
}

fn push_opt_str_line(out: &mut String, key: &'static str, v: &Option<String>)
    ensures
        final(out)@ == old(out)@ + spec_opt_str_line(key@, *v),
{
    match v {
        Some(s) => {
            out.append(key);
            out.append(" = ");
            push_quoted(out, s);
            out.append("\n");
        },
        None => {},
    }
}

fn push_opt_bool_line(out: &mut String, key: &'static str, v: &Option<bool>)
    ensures
        final(out)@ == old(out)@ + spec_opt_bool_line(key@, *v),
{
    match v {
        Some(b) => {
            out.append(key);
            out.append(" = ");
            out.append(bool_str(*b));
            out.append("\n");
        },
        None => {},
    }
}

fn push_features_line(out: &mut String, v: &Option<Vec<String>>)
    ensures
        final(out)@ == old(out)@ + spec_features_line(*v),
{
    match v {
        Some(fs) => {
            out.append("features = [");
            let mut i: usize = 0;
            while i < fs.len()
                invariant
                    0 <= i <= fs@.len(),
                    out@ == old(out)@ + "features = ["@ + spec_feature_list(fs@.take(i as int)),
                decreases fs@.len() - i,
            {
                if i > 0 {
                    out.append(", ");
                }
                push_quoted(out, &fs[i]);
                proof {
                    assert(fs@.take(i as int + 1).drop_last() =~= fs@.take(i as int));
                    assert(fs@.take(i as int + 1).last() == fs@[i as int]);
                }
                i = i + 1;
            }
            proof {
                assert(fs@.take(fs@.len() as int) =~= fs@);
            }
            out.append("]\n");
        },
        None => {},
    }
}

fn push_detailed_section(out: &mut String, name: &String, det: &DetailedDependency)
    ensures
        final(out)@ == old(out)@ + "[dependencies."@ + name@ + "]\n"@ + spec_detailed_body(*det),
{
    out.append("[dependencies.");
    out.append(name.as_str());
    out.append("]\n");
    push_opt_str_line(out, "version", &det.version);
    push_opt_str_line(out, "path", &det.path);
    push_opt_str_line(out, "git", &det.git);
    push_opt_str_line(out, "branch", &det.branch);
    push_opt_str_line(out, "tag", &det.tag);
    push_opt_str_line(out, "rev", &det.rev);
    push_features_line(out, &det.features);
    push_opt_bool_line(out, "optional", &det.optional);
    push_opt_bool_line(out, "default_features", &det.default_features);
}

/// Renders the generated build manifest document for the consolidated
/// dependency set.
#[verifier::rlimit(60)]
pub fn render_manifest(profile: &DepotProfile, merged: &DependencyManifest) -> (r: String)
    ensures
        r@ == spec_manifest_doc(*profile, merged.dependencies@),
{
    let deps = &merged.dependencies;
    let mut out = String::new();
    out.append(
        "#ATTENTION: This file is automatically generated. Don't modify it unless your life is terrible, or you wish it to be so.\n",
    );
    out.append(
        "[package]\nname = \"cargoproject\"\nversion = \"0.0.1\"\nauthors = [ \"automatically generated\" ]\n\n",
    );
    out.append("[lib]\nname = \"cargoproject\"\ncrate_type = [\"lib\"]\nplugin = true\n\n");
    out.append("[profile.dev]\nopt-level = ");
    let lvl = u32_dec(profile.opt_level);
    out.append(lvl.as_str());
    out.append("\ndebug = ");
    out.append(bool_str(profile.debug));
    out.append("\ndebug_assertions = ");
    out.append(bool_str(profile.debug_assertions));
    out.append("\n\n");
    out.append("[dependencies]\n");
    let ghost before_simple = out@;
    let mut i: usize = 0;
    while i < deps.len()
        invariant
            out@ == before_simple + spec_simple_lines(deps@.take(i as int)),
            0 <= i <= deps@.len(),
        decreases deps@.len() - i,
    {
        match &deps[i].1 {
            Dependency::Simple(v) => {
                out.append(deps[i].0.as_str());
                out.append(" = ");
                push_quoted(&mut out, v);
                out.append("\n");
            },
            Dependency::Detailed(_) => {},
        }
        proof {
            assert(deps@.take(i as int + 1).drop_last() =~= deps@.take(i as int));
            assert(deps@.take(i as int + 1).last() == deps@[i as int]);
        }
        i = i + 1;
    }
    proof {
        assert(deps@.take(deps@.len() as int) =~= deps@);
    }
    let ghost before_detailed = out@;
    let mut i: usize = 0;
    while i < deps.len()
        invariant
            out@ == before_detailed + spec_detailed_sections(deps@.take(i as int)),
            0 <= i <= deps@.len(),
        decreases deps@.len() - i,
    {
        match &deps[i].1 {
            Dependency::Detailed(det) => {
                let name = deps[i].0.clone();
                push_detailed_section(&mut out, &name, det);
            },
            Dependency::Simple(_) => {},
        }
        proof {
            assert(deps@.take(i as int + 1).drop_last() =~= deps@.take(i as int));
            assert(deps@.take(i as int + 1).last() == deps@[i as int]);
        }
        i = i + 1;
    }
    proof {
        assert(deps@.take(deps@.len() as int) =~= deps@);
    }
    out
}

/// How one side of a conflict reads: the unconstrained sentinel is shown
/// as "uses the latest available version", an explicit version as a
/// requirement.
pub open spec fn spec_conflict_side(version: Seq<char>, name: Seq<char>) -> Seq<char> {
    if version.len() == 0 {
        "uses the latest available version of "@ + name
    } else {
        "requires "@ + version + " of "@ + name
    }
}

/// The report line for one conflict, naming both directions explicitly.
pub open spec fn spec_conflict_line(c: ConflictRecord) -> Seq<char> {
    "ERROR: Version mismatch: \""@ + c.manifest_a@ + "\" "@ + spec_conflict_side(
        c.version_a@,
        c.name@,
    ) + ", while \""@ + c.manifest_b@ + "\" "@ + spec_conflict_side(c.version_b@, c.name@) + "."@
}

fn push_conflict_side(out: &mut String, version: &String, name: &String)
    ensures
        final(out)@ == old(out)@ + spec_conflict_side(version@, name@),
{
    if version.as_str().unicode_len() == 0 {
        out.append("uses the latest available version of ");
        out.append(name.as_str());
        proof {
            assert(version@ =~= Seq::<char>::empty());
        }
    } else {
        out.append("requires ");
        out.append(version.as_str());
        out.append(" of ");
        out.append(name.as_str());
    }
}

/// Renders the report line shown to the operator for one conflict.
pub fn format_conflict_line(c: &ConflictRecord) -> (r: String)
    ensures
        r@ == spec_conflict_line(*c),
{
    let mut out = String::new();
    out.append("ERROR: Version mismatch: \"");
    out.append(c.manifest_a.as_str());
    out.append("\" ");
    push_conflict_side(&mut out, &c.version_a, &c.name);
    out.append(", while \"");
    out.append(c.manifest_b.as_str());
    out.append("\" ");
    push_conflict_side(&mut out, &c.version_b, &c.name);
    out.append(".");
    out
}

/// The diagnostic for a document that failed to parse: the path, the
/// one-based start position, the end position when the span covers more
/// than a point, and the parser's description.
pub open spec fn spec_parse_error(
    path: Seq<char>,
    lo_line: u32,
    lo_col: u32,
    hi_line: u32,
    hi_col: u32,
    desc: Seq<char>,
) -> Seq<char> {
    "could not parse input TOML\n"@ + path + ":"@ + dec_rep((lo_line + 1) as nat) + ":"@ + dec_rep(
        (lo_col + 1) as nat,
    ) + (if lo_line != hi_line || lo_col != hi_col {
        "-"@ + dec_rep((hi_line + 1) as nat) + ":"@ + dec_rep((hi_col + 1) as nat)
    } else {
        Seq::<char>::empty()
    }) + " "@ + desc + "\n"@
}

/// Renders the fatal diagnostic for a document parse failure, with
/// one-based line and column numbers and the span's end when it differs
/// from its start.
pub fn format_parse_error(
    path: &String,
    lo_line: u32,
    lo_col: u32,
    hi_line: u32,
    hi_col: u32,
    desc: &String,
) -> (r: String)
    requires
        lo_line < 0xffff_ffff,
        lo_col < 0xffff_ffff,
        hi_line < 0xffff_ffff,
        hi_col < 0xffff_ffff,
    ensures
        r@ == spec_parse_error(path@, lo_line, lo_col, hi_line, hi_col, desc@),
{
    let mut out = String::new();
    out.append("could not parse input TOML\n");
    out.append(path.as_str());
    out.append(":");
    let n = u32_dec(lo_line + 1);
    out.append(n.as_str());
    out.append(":");
    let n = u32_dec(lo_col + 1);
    out.append(n.as_str());
    if lo_line != hi_line || lo_col != hi_col {
        out.append("-");
        let n = u32_dec(hi_line + 1);
        out.append(n.as_str());
        out.append(":");
        let n = u32_dec(hi_col + 1);
        out.append(n.as_str());
    }
    out.append(" ");
    out.append(desc.as_str());
    out.append("\n");
    out
}


/// The first position of `c` in `s`, or the length when it is absent.
pub open spec fn find_char(s: Seq<char>, c: char) -> int
    decreases s.len(),
{
    if s.len() == 0 {
        0
    } else if s[0] == c {
        0
    } else {
        1 + find_char(s.skip(1), c)
    }
}

pub proof fn lemma_find_char_bounds(s: Seq<char>, c: char)
    ensures
        0 <= find_char(s, c) <= s.len(),
        find_char(s, c) < s.len() ==> s[find_char(s, c)] == c,
        forall|k: int| 0 <= k < find_char(s, c) ==> s[k] != c,
    decreases s.len(),
{
    if s.len() == 0 {
    } else if s[0] == c {
    } else {
        lemma_find_char_bounds(s.skip(1), c);
        assert forall|k: int| 0 <= k < find_char(s, c) implies s[k] != c by {
            if k > 0 {
                assert(s.skip(1)[k - 1] == s[k]);
            }
        }
    }
}

/// In a concatenation whose first part lacks `c`, the first `c` lies in
/// the second part.
pub proof fn lemma_find_char_concat(a: Seq<char>, b: Seq<char>, c: char)
    requires
        forall|k: int| 0 <= k < a.len() ==> a[k] != c,
    ensures
        find_char(a + b, c) == a.len() + find_char(b, c),
    decreases a.len(),
{
    if a.len() == 0 {
        assert(a + b =~= b);
    } else {
        assert((a + b)[0] == a[0]);
        assert((a + b).skip(1) =~= a.skip(1) + b);
        assert forall|k: int| 0 <= k < a.skip(1).len() implies a.skip(1)[k] != c by {
            assert(a.skip(1)[k] == a[k + 1]);
        }
        lemma_find_char_concat(a.skip(1), b, c);
    }
}

/// A bare dependency name: nonempty, without the characters the line
/// grammar reserves.
pub open spec fn wf_dep_name(s: Seq<char>) -> bool {
    s.len() > 0 && forall|k: int| 0 <= k < s.len() ==> s[k] != ' ' && s[k] != '\n' && s[k] != '"'
}

/// A version string a quoted line can carry back unchanged.
pub open spec fn wf_version(s: Seq<char>) -> bool {
    forall|k: int| 0 <= k < s.len() ==> s[k] != '"' && s[k] != '\n'
}

/// Parses one `name = "version"` line back into its pair.
pub open spec fn spec_parse_dep_line(line: Seq<char>) -> Option<(Seq<char>, Seq<char>)> {
    let sp = find_char(line, ' ');
    if sp == 0 || sp + 4 > line.len() {
        None
    } else if line[sp + 1] != '=' || line[sp + 2] != ' ' || line[sp + 3] != '"' {
        None
    } else {
        let rest = line.skip(sp + 4);
        let q = find_char(rest, '"');
        if q != rest.len() - 1 {
            None
        } else {
            Some((line.take(sp), rest.take(q)))
        }
    }
}

/// Parses the simple lines of a dependency section back into name and
/// version pairs, one per line.
pub open spec fn spec_parse_dep_lines(s: Seq<char>) -> Option<Seq<(Seq<char>, Seq<char>)>>
    decreases s.len(),
{
    if s.len() == 0 {
        Some(Seq::empty())
    } else {
        let nl = find_char(s, '\n');
        if nl < 0 || nl >= s.len() {
            None
        } else {
            match spec_parse_dep_line(s.take(nl)) {
                None => None,
                Some(p) => match spec_parse_dep_lines(s.skip(nl + 1)) {
                    None => None,
                    Some(rest) => Some(seq![p] + rest),
                },
            }
        }
    }
}

/// The name and version pairs of the bare-string declarations, in entry
/// order.
pub open spec fn spec_simple_pairs(s: Seq<(String, Dependency)>) -> Seq<(Seq<char>, Seq<char>)>
    decreases s.len(),
{
    if s.len() == 0 {
        Seq::empty()
    } else {
        spec_simple_pairs(s.drop_last()) + match s.last().1 {
            Dependency::Simple(v) => seq![(s.last().0@, v@)],
            Dependency::Detailed(_) => Seq::empty(),
        }
    }
}

/// Every bare-string declaration has a well-formed name and version.
pub open spec fn wf_simple_deps(s: Seq<(String, Dependency)>) -> bool {
    forall|k: int|
        0 <= k < s.len() ==> match (#[trigger] s[k]).1 {
            Dependency::Simple(v) => wf_dep_name(s[k].0@) && wf_version(v@),
            Dependency::Detailed(_) => true,
        }
}

/// One rendered line parses back to its pair.
#[verifier::spinoff_prover]
#[verifier::rlimit(100)]
proof fn lemma_line_round_trip(name: Seq<char>, v: Seq<char>)
    requires
        wf_dep_name(name),
        wf_version(v),
    ensures
        ({
            let line = name + " = "@ + spec_quoted(v);
            &&& forall|k: int| 0 <= k < line.len() ==> line[k] != '\n'
            &&& spec_parse_dep_line(line) == Some((name, v))
        }),
{
    reveal_strlit(" = ");
    reveal_strlit("\"");
    let mid = " = "@;
    let line = name + mid + spec_quoted(v);
    assert(mid.len() == 3 && mid[0] == ' ' && mid[1] == '=' && mid[2] == ' ');
    assert("\""@.len() == 1 && "\""@[0] == '"');
    assert(line.len() == name.len() + 5 + v.len());
    assert forall|k: int| 0 <= k < line.len() implies line[k] != '\n' by {
        if k < name.len() {
            assert(line[k] == name[k]);
        } else if k < name.len() + 3 {
            assert(line[k] == mid[k - name.len()]);
        } else if k == name.len() + 3 {
            assert(line[k] == '"');
        } else if k < name.len() + 4 + v.len() {
            assert(line[k] == v[k - name.len() - 4]);
        } else {
            assert(line[k] == '"');
        }
    }
    assert(find_char(line, ' ') == name.len()) by {
        let tail = mid + spec_quoted(v);
        assert(line =~= name + tail);
        lemma_find_char_concat(name, tail, ' ');
        assert(tail[0] == ' ');
        assert(find_char(tail, ' ') == 0);
    }
    let sp = name.len() as int;
    assert(line[sp + 1] == '=' && line[sp + 2] == ' ' && line[sp + 3] == '"');
    let rest = line.skip(sp + 4);
    assert(rest =~= v + "\""@);
    assert forall|k: int| 0 <= k < v.len() implies v[k] != '"' by {}
    lemma_find_char_concat(v, "\""@, '"');
    assert(find_char(rest, '"') == v.len());
    assert(rest.take(v.len() as int) =~= v);
    assert(line.take(sp) =~= name);
}

/// Rendering the bare-string declarations and parsing the lines back
/// reproduces exactly their name-to-version pairs: the generated document
/// round-trips. (The declarations rendered as their own sections are
/// parsed by the document parser, not by this line parser.)
#[verifier::spinoff_prover]
#[verifier::rlimit(100)]
pub proof fn lemma_simple_section_round_trip(s: Seq<(String, Dependency)>)
    requires
        wf_simple_deps(s),
    ensures
        spec_parse_dep_lines(spec_simple_lines(s)) == Some(spec_simple_pairs(s)),
    decreases s.len(),
{
    reveal_strlit("\n");
    if s.len() == 0 {
    } else {
        lemma_simple_section_round_trip(s.drop_last());
        assert(wf_simple_deps(s.drop_last())) by {
            assert forall|k: int| 0 <= k < s.drop_last().len() implies match (#[trigger] s.drop_last()[k]).1 {
                Dependency::Simple(v) => wf_dep_name(s.drop_last()[k].0@) && wf_version(v@),
                Dependency::Detailed(_) => true,
            } by {
                assert(s.drop_last()[k] == s[k]);
            }
        }
        match s.last().1 {
            Dependency::Detailed(_) => {
                assert(spec_simple_lines(s) =~= spec_simple_lines(s.drop_last()));
                assert(spec_simple_pairs(s) =~= spec_simple_pairs(s.drop_last()));
            },
            Dependency::Simple(v) => {
                let name = s.last().0@;
                assert(wf_dep_name(name) && wf_version(v@));
                lemma_line_round_trip(name, v@);
                let line = name + " = "@ + spec_quoted(v@);
                assert("\n"@.len() == 1 && "\n"@[0] == '\n');
                assert(spec_str_line(name, v@) =~= line + "\n"@);
                lemma_parse_lines_append(spec_simple_lines(s.drop_last()), line, (name, v@), spec_simple_pairs(s.drop_last()));
                assert(spec_simple_lines(s) =~= (spec_simple_lines(s.drop_last()) + line) + "\n"@);
                assert(spec_simple_pairs(s) =~= spec_simple_pairs(s.drop_last()).push((name, v@)));
                assert(spec_parse_dep_lines(spec_simple_lines(s)) == Some(spec_simple_pairs(s)));
            },
        }
    }
}

/// Appending one well-formed line extends what the parser returns by its
/// pair.
#[verifier::spinoff_prover]
#[verifier::rlimit(100)]
proof fn lemma_parse_lines_append(
    prefix: Seq<char>,
    line: Seq<char>,
    pair: (Seq<char>, Seq<char>),
    parsed: Seq<(Seq<char>, Seq<char>)>,
)
    requires
        spec_parse_dep_lines(prefix) == Some(parsed),
        spec_parse_dep_line(line) == Some(pair),
        forall|k: int| 0 <= k < line.len() ==> line[k] != '\n',
    ensures
        spec_parse_dep_lines(prefix + line + "\n"@) == Some(parsed.push(pair)),
    decreases prefix.len(),
{
    reveal_strlit("\n");
    assert("\n"@.len() == 1 && "\n"@[0] == '\n');
    let whole = prefix + line + "\n"@;
    if prefix.len() == 0 {
        assert(whole =~= line + "\n"@);
        lemma_find_char_concat(line, "\n"@, '\n');
        let nl = find_char(whole, '\n');
        assert(nl == line.len());
        assert(whole.take(nl) =~= line);
        assert(whole.skip(nl + 1) =~= Seq::<char>::empty());
        assert(spec_parse_dep_lines(whole.skip(nl + 1)) == Some(Seq::<(Seq<char>, Seq<char>)>::empty()));
        assert(spec_parse_dep_lines(whole) == Some(seq![pair] + Seq::<(Seq<char>, Seq<char>)>::empty()));
        assert(seq![pair] + Seq::<(Seq<char>, Seq<char>)>::empty() =~= parsed.push(pair));
    } else {
        // The prefix itself starts with a parsed line; peel it and recurse.
        let nl0 = find_char(prefix, '\n');
        lemma_find_char_bounds(prefix, '\n');
        assert(nl0 < prefix.len());
        let p0 = spec_parse_dep_line(prefix.take(nl0));
        assert(p0.is_some());
        let rest0 = spec_parse_dep_lines(prefix.skip(nl0 + 1));
        assert(rest0.is_some());
        assert(parsed == Some(seq![p0.unwrap()] + rest0.unwrap()).unwrap());
        assert forall|k: int| 0 <= k < prefix.take(nl0).len() implies prefix.take(nl0)[k] != '\n' by {
            assert(prefix.take(nl0)[k] == prefix[k]);
        }
        lemma_find_char_concat(prefix.take(nl0), prefix.skip(nl0) + line + "\n"@, '\n');
        assert(whole =~= prefix.take(nl0) + (prefix.skip(nl0) + line + "\n"@));
        assert((prefix.skip(nl0) + line + "\n"@)[0] == '\n') by {
            assert(prefix.skip(nl0)[0] == prefix[nl0]);
        }
        let nl = find_char(whole, '\n');
        assert(nl == nl0);
        assert(whole.take(nl) =~= prefix.take(nl0));
        assert(whole.skip(nl + 1) =~= prefix.skip(nl0 + 1) + line + "\n"@);
        lemma_parse_lines_append(prefix.skip(nl0 + 1), line, pair, rest0.unwrap());
        assert(spec_parse_dep_lines(whole) == Some(seq![p0.unwrap()] + rest0.unwrap().push(pair)));
        assert(seq![p0.unwrap()] + rest0.unwrap().push(pair) =~= parsed.push(pair));
    }
}

} // verus!
