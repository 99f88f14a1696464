use depot::conflict::{detect_conflicts, ConflictRecord};
use depot::deps::{get_version, Dependency, DepotProfile, DetailedDependency};
use depot::manifest::{merge_manifests, DependencyManifest, ManifestSource};
use depot::orchestrate::{plan_build, prepare_build, restore_steps, BuildStep, DepotError, WorkspaceConfig};
use depot::render::{format_conflict_line, format_parse_error, render_manifest};
use depot::text::{str_le, u32_dec};

fn detailed(version: Option<&str>) -> DetailedDependency {
    DetailedDependency {
        version: version.map(|v| v.to_string()),
        path: None,
        git: None,
        branch: None,
        tag: None,
        rev: None,
        features: None,
        optional: None,
        default_features: None,
    }
}

fn source(id: &str, deps: Vec<(&str, Dependency)>) -> ManifestSource {
    ManifestSource {
        id: id.to_string(),
        deps: deps.into_iter().map(|(n, d)| (n.to_string(), d)).collect(),
    }
}

fn config() -> WorkspaceConfig {
    WorkspaceConfig {
        name: "proj".to_string(),
        out_dir: "out".to_string(),
        dirs: vec![],
        profile: DepotProfile { opt_level: 3, debug: false, debug_assertions: false },
    }
}

#[test]
fn version_of_simple_declaration() {
    let d = Dependency::Simple("1.2.3".to_string());
    assert_eq!(get_version(&d), "1.2.3");
}

#[test]
fn version_of_detailed_declaration() {
    let d = Dependency::Detailed(detailed(Some("0.9")));
    assert_eq!(get_version(&d), "0.9");
}

#[test]
fn version_of_unconstrained_detailed_declaration() {
    let d = Dependency::Detailed(detailed(None));
    assert_eq!(get_version(&d), "");
}

#[test]
fn decimal_rendering() {
    assert_eq!(u32_dec(0), "0");
    assert_eq!(u32_dec(7), "7");
    assert_eq!(u32_dec(42), "42");
    assert_eq!(u32_dec(4294967295), "4294967295");
}

#[test]
fn lexicographic_order() {
    assert!(str_le("a", "b"));
    assert!(!str_le("b", "a"));
    assert!(str_le("", "a"));
    assert!(str_le("abc", "abc"));
    assert!(str_le("abc", "abd"));
    assert!(str_le("ab", "abc"));
    assert!(!str_le("abc", "ab"));
}

#[test]
fn agreeing_sources_yield_no_conflict() {
    let sources = vec![
        source("lib1", vec![("foo", Dependency::Simple("1.0".to_string()))]),
        source("lib2", vec![("foo", Dependency::Simple("1.0".to_string()))]),
    ];
    let conflicts = detect_conflicts(&sources);
    assert_eq!(conflicts.len(), 0);
    let merged = merge_manifests(&sources);
    assert_eq!(merged.dependencies.len(), 1);
    assert_eq!(merged.dependencies[0].0, "foo");
    assert_eq!(get_version(&merged.dependencies[0].1), "1.0");
}

#[test]
fn differing_sources_yield_one_conflict() {
    let sources = vec![
        source("lib1", vec![("foo", Dependency::Simple("1.0".to_string()))]),
        source("lib2", vec![("foo", Dependency::Simple("2.0".to_string()))]),
    ];
    let conflicts = detect_conflicts(&sources);
    assert_eq!(conflicts.len(), 1);
    let c = &conflicts[0];
    assert_eq!(c.name, "foo");
    assert_eq!(c.manifest_a, "lib1");
    assert_eq!(c.manifest_b, "lib2");
    assert_eq!(c.version_a, "1.0");
    assert_eq!(c.version_b, "2.0");
    // The run aborts before merge and build.
    let r = prepare_build(&config(), &sources, false);
    match r {
        Err(DepotError::DependencyConflict(recs)) => assert_eq!(recs.len(), 1),
        _ => panic!("a conflicted workspace must be rejected"),
    }
}

#[test]
fn conflict_is_canonical_whatever_the_input_order() {
    let sources = vec![
        source("lib2", vec![("foo", Dependency::Simple("2.0".to_string()))]),
        source("lib1", vec![("foo", Dependency::Simple("1.0".to_string()))]),
    ];
    let conflicts = detect_conflicts(&sources);
    assert_eq!(conflicts.len(), 1);
    let c = &conflicts[0];
    assert_eq!(c.manifest_a, "lib1");
    assert_eq!(c.manifest_b, "lib2");
    assert_eq!(c.version_a, "1.0");
    assert_eq!(c.version_b, "2.0");
}

#[test]
fn unconstrained_version_reads_as_latest_available() {
    let sources = vec![
        source("lib1", vec![("foo", Dependency::Simple("".to_string()))]),
        source("lib2", vec![("foo", Dependency::Simple("1.0".to_string()))]),
    ];
    let conflicts = detect_conflicts(&sources);
    assert_eq!(conflicts.len(), 1);
    let line = format_conflict_line(&conflicts[0]);
    assert_eq!(
        line,
        "ERROR: Version mismatch: \"lib1\" uses the latest available version of foo, \
         while \"lib2\" requires 1.0 of foo."
    );
}

#[test]
fn conflicts_sorted_by_first_manifest() {
    let sources = vec![
        source("c", vec![("x", Dependency::Simple("1".to_string())), ("y", Dependency::Simple("1".to_string()))]),
        source("b", vec![("x", Dependency::Simple("2".to_string()))]),
        source("a", vec![("y", Dependency::Simple("3".to_string()))]),
    ];
    let conflicts = detect_conflicts(&sources);
    assert_eq!(conflicts.len(), 2);
    assert!(conflicts[0].manifest_a <= conflicts[1].manifest_a);
    assert_eq!(conflicts[0].manifest_a, "a");
    assert_eq!(conflicts[1].manifest_a, "b");
}

#[test]
fn merge_unions_and_last_writer_wins() {
    let sources = vec![
        source("lib1", vec![
            ("foo", Dependency::Simple("1.0".to_string())),
            ("bar", Dependency::Simple("0.1".to_string())),
        ]),
        source("lib2", vec![("baz", Dependency::Detailed(detailed(Some("2.0"))))]),
    ];
    let merged = merge_manifests(&sources);
    assert_eq!(merged.dependencies.len(), 3);
    let mut names: Vec<String> = merged.dependencies.iter().map(|p| p.0.clone()).collect();
    names.sort();
    assert_eq!(names, vec!["bar", "baz", "foo"]);
}

#[test]
fn bootstrap_plan_scaffolds_then_builds() {
    let cfg = config();
    let steps = plan_build(&cfg, "MANIFEST".to_string(), false);
    assert_eq!(steps.len(), 7);
    assert!(matches!(&steps[0], BuildStep::CreateDir(d) if d == "out/proj"));
    assert!(
        matches!(&steps[1], BuildStep::ScaffoldProject { parent, project }
            if parent == "out/proj" && project == "proj-cargoproject")
    );
    assert!(
        matches!(&steps[2], BuildStep::Rename { from, to }
            if from == "out/proj/proj-cargoproject" && to == "out/proj/.proj-cargoproject")
    );
    assert!(
        matches!(&steps[3], BuildStep::WriteManifestFile { path, content }
            if path == "out/proj/.proj-cargoproject/Cargo.toml" && content == "MANIFEST")
    );
    assert!(
        matches!(&steps[4], BuildStep::RunBuild { working_dir }
            if working_dir == "out/proj/.proj-cargoproject")
    );
    assert!(
        matches!(&steps[5], BuildStep::Rename { from, to }
            if from == "out/proj/.proj-cargoproject/target/debug/deps" && to == "out/proj/deps")
    );
    assert!(
        matches!(&steps[6], BuildStep::Rename { from, to }
            if from == "out/proj/.proj-cargoproject/target/debug/native" && to == "out/proj/native")
    );
}

#[test]
fn incremental_plan_overwrites_and_round_trips_artifacts() {
    let cfg = config();
    let steps = plan_build(&cfg, "MANIFEST".to_string(), true);
    assert_eq!(steps.len(), 6);
    assert!(
        matches!(&steps[0], BuildStep::WriteManifestFile { path, content }
            if path == "out/proj/.proj-cargoproject/Cargo.toml" && content == "MANIFEST")
    );
    assert!(
        matches!(&steps[1], BuildStep::Rename { from, to }
            if from == "out/proj/deps" && to == "out/proj/.proj-cargoproject/target/debug/deps")
    );
    assert!(
        matches!(&steps[2], BuildStep::Rename { from, to }
            if from == "out/proj/native" && to == "out/proj/.proj-cargoproject/target/debug/native")
    );
    assert!(
        matches!(&steps[3], BuildStep::RunBuild { working_dir }
            if working_dir == "out/proj/.proj-cargoproject")
    );
    assert!(
        matches!(&steps[4], BuildStep::Rename { from, to }
            if from == "out/proj/.proj-cargoproject/target/debug/deps" && to == "out/proj/deps")
    );
    assert!(
        matches!(&steps[5], BuildStep::Rename { from, to }
            if from == "out/proj/.proj-cargoproject/target/debug/native" && to == "out/proj/native")
    );
}

#[test]
fn restoration_moves_artifacts_back() {
    let cfg = config();
    let steps = restore_steps(&cfg);
    assert_eq!(steps.len(), 2);
    assert!(
        matches!(&steps[0], BuildStep::Rename { from, to }
            if from == "out/proj/.proj-cargoproject/target/debug/deps" && to == "out/proj/deps")
    );
    assert!(
        matches!(&steps[1], BuildStep::Rename { from, to }
            if from == "out/proj/.proj-cargoproject/target/debug/native" && to == "out/proj/native")
    );
}

#[test]
fn rendered_manifest_text_is_exact() {
    let profile = DepotProfile { opt_level: 3, debug: false, debug_assertions: false };
    let merged = DependencyManifest {
        dependencies: vec![("foo".to_string(), Dependency::Simple("1.0".to_string()))],
    };
    let text = render_manifest(&profile, &merged);
    let expected = "#ATTENTION: This file is automatically generated. Don't modify it unless your life is terrible, or you wish it to be so.\n\
[package]\nname = \"cargoproject\"\nversion = \"0.0.1\"\nauthors = [ \"automatically generated\" ]\n\n\
[lib]\nname = \"cargoproject\"\ncrate_type = [\"lib\"]\nplugin = true\n\n\
[profile.dev]\nopt-level = 3\ndebug = false\ndebug_assertions = false\n\n\
[dependencies]\nfoo = \"1.0\"\n";
    assert_eq!(text, expected);
}

#[test]
fn rendered_manifest_reparses_to_the_same_versions() {
    let profile = DepotProfile { opt_level: 2, debug: true, debug_assertions: true };
    let mut det = detailed(Some("0.4"));
    det.path = Some("../somewhere".to_string());
    det.features = Some(vec!["a".to_string(), "b".to_string()]);
    det.optional = Some(true);
    let merged = DependencyManifest {
        dependencies: vec![
            ("foo".to_string(), Dependency::Simple("1.0".to_string())),
            ("bar".to_string(), Dependency::Detailed(det)),
        ],
    };
    let text = render_manifest(&profile, &merged);
    let table: toml::Table = toml::from_str(&text).expect("the generated document must be valid");
    let deps = table["dependencies"].as_table().expect("a dependencies table");
    assert_eq!(deps["foo"].as_str(), Some("1.0"));
    let bar = deps["bar"].as_table().expect("a detailed dependency table");
    assert_eq!(bar["version"].as_str(), Some("0.4"));
    assert_eq!(bar["path"].as_str(), Some("../somewhere"));
    assert_eq!(bar["optional"].as_bool(), Some(true));
    let features: Vec<&str> =
        bar["features"].as_array().unwrap().iter().map(|v| v.as_str().unwrap()).collect();
    assert_eq!(features, vec!["a", "b"]);
    let profile_dev = table["profile"].as_table().unwrap()["dev"].as_table().unwrap();
    assert_eq!(profile_dev["opt-level"].as_integer(), Some(2));
    assert_eq!(profile_dev["debug"].as_bool(), Some(true));
}

#[test]
fn prepared_build_carries_manifest_and_plan() {
    let sources = vec![
        source("lib1", vec![("foo", Dependency::Simple("1.0".to_string()))]),
        source("lib2", vec![("foo", Dependency::Simple("1.0".to_string()))]),
    ];
    let r = prepare_build(&config(), &sources, true);
    let prep = match r {
        Ok(p) => p,
        Err(_) => panic!("a clean workspace must be accepted"),
    };
    assert_eq!(prep.merged.dependencies.len(), 1);
    assert!(prep.manifest_text.contains("foo = \"1.0\""));
    assert_eq!(prep.steps.len(), 6);
}

#[test]
fn parse_error_diagnostic_is_exact() {
    let msg = format_parse_error(&"dir/Dependencies.toml".to_string(), 2, 4, 2, 4, &"expected a value".to_string());
    assert_eq!(msg, "could not parse input TOML\ndir/Dependencies.toml:3:5 expected a value\n");
    let msg = format_parse_error(&"Depot.toml".to_string(), 0, 0, 1, 7, &"unterminated string".to_string());
    assert_eq!(msg, "could not parse input TOML\nDepot.toml:1:1-2:8 unterminated string\n");
}

#[test]
fn conflict_line_names_both_directions() {
    let c = ConflictRecord {
        name: "foo".to_string(),
        manifest_a: "alpha".to_string(),
        manifest_b: "beta".to_string(),
        version_a: "1.0".to_string(),
        version_b: "2.0".to_string(),
    };
    assert_eq!(
        format_conflict_line(&c),
        "ERROR: Version mismatch: \"alpha\" requires 1.0 of foo, while \"beta\" requires 2.0 of foo."
    );
}

#[test]
fn merge_of_disjoint_and_shared_names_is_union() {
    let sources = vec![
        source("a", vec![("x", Dependency::Simple("1".to_string()))]),
        source("b", vec![("x", Dependency::Simple("1".to_string())), ("y", Dependency::Simple("2".to_string()))]),
    ];
    let merged = merge_manifests(&sources);
    assert_eq!(merged.dependencies.len(), 2);
    for (name, dep) in &merged.dependencies {
        match name.as_str() {
            "x" => assert_eq!(get_version(dep), "1"),
            "y" => assert_eq!(get_version(dep), "2"),
            _ => panic!("unexpected dependency name"),
        }
    }
}

#[test]
fn merge_is_order_insensitive_in_versions() {
    let forward = vec![
        source("a", vec![("x", Dependency::Simple("1".to_string())), ("y", Dependency::Simple("2".to_string()))]),
        source("b", vec![("x", Dependency::Simple("1".to_string())), ("z", Dependency::Simple("3".to_string()))]),
    ];
    let backward = vec![
        source("b", vec![("x", Dependency::Simple("1".to_string())), ("z", Dependency::Simple("3".to_string()))]),
        source("a", vec![("x", Dependency::Simple("1".to_string())), ("y", Dependency::Simple("2".to_string()))]),
    ];
    let m1 = merge_manifests(&forward);
    let m2 = merge_manifests(&backward);
    let versions = |m: &DependencyManifest| {
        let mut v: Vec<(String, String)> =
            m.dependencies.iter().map(|p| (p.0.clone(), get_version(&p.1))).collect();
        v.sort();
        v
    };
    assert_eq!(versions(&m1), versions(&m2));
}
