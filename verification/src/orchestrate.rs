//! The build-artifact orchestrator: decides bootstrap-vs-incremental mode
//! and plans the filesystem and build-tool steps that bracket the external
//! build invocation. The plan is a value; running it — creating
//! directories, renaming, spawning the build tool — is the caller's part.

use vstd::prelude::*;
use crate::deps::DepotProfile;
use crate::manifest::{ManifestSource, DependencyManifest, sources_wf, merge_post, merge_manifests};
use crate::conflict::{ConflictRecord, detector_post, detect_conflicts};
use crate::render::{spec_manifest_doc, render_manifest};

verus! {

/// The workspace configuration, loaded once at startup and immutable for
/// the run.
pub struct WorkspaceConfig {
    pub name: String,
    pub out_dir: String,
    pub dirs: Vec<String>,
    pub profile: DepotProfile,
}

/// Joins two path components with a separator.
pub open spec fn spec_path_join(a: Seq<char>, b: Seq<char>) -> Seq<char> {
    a + "/"@ + b
}

fn path_join(a: &String, b: &str) -> (r: String)
    ensures
        r@ == spec_path_join(a@, b@),
{
    let mut out = String::new();
    out.append(a.as_str());
    out.append("/");
    out.append(b);
    out
}

impl WorkspaceConfig {
    /// The stable project directory: `<out-dir>/<name>`.
    pub open spec fn spec_depot_dir(self) -> Seq<char> {
        spec_path_join(self.out_dir@, self.name@)
    }

    /// The scaffolded project's name: `<name>-cargoproject`.
    pub open spec fn spec_project_name(self) -> Seq<char> {
        self.name@ + "-cargoproject"@
    }

    /// The hidden directory's name: `.<name>-cargoproject`.
    pub open spec fn spec_hidden_name(self) -> Seq<char> {
        "."@ + self.spec_project_name()
    }

    /// The hidden build-tool project directory under the stable one.
    pub open spec fn spec_hidden_dir(self) -> Seq<char> {
        spec_path_join(self.spec_depot_dir(), self.spec_hidden_name())
    }

    /// The generated manifest's path inside the hidden directory.
    pub open spec fn spec_manifest_path(self) -> Seq<char> {
        spec_path_join(self.spec_hidden_dir(), "Cargo.toml"@)
    }

    /// An artifact directory under the hidden project's build tree.
    pub open spec fn spec_hidden_artifact(self, sub: Seq<char>) -> Seq<char> {
        spec_path_join(self.spec_hidden_dir(), "target/debug/"@ + sub)
    }

    /// An artifact directory under the stable project directory.
    pub open spec fn spec_stable_artifact(self, sub: Seq<char>) -> Seq<char> {
        spec_path_join(self.spec_depot_dir(), sub)
    }

    pub fn depot_dir(&self) -> (r: String)
        ensures
            r@ == self.spec_depot_dir(),
    {
        path_join(&self.out_dir, self.name.as_str())
    }

    pub fn project_name(&self) -> (r: String)
        ensures
            r@ == self.spec_project_name(),
    {
        let mut out = String::new();
        out.append(self.name.as_str());
        out.append("-cargoproject");
        out
    }

    pub fn hidden_name(&self) -> (r: String)
        ensures
            r@ == self.spec_hidden_name(),
    {
        let mut out = String::new();
        out.append(".");
        out.append(self.name.as_str());
        out.append("-cargoproject");
        out
    }

    pub fn hidden_dir(&self) -> (r: String)
        ensures
            r@ == self.spec_hidden_dir(),
    {
        let d = self.depot_dir();
        let h = self.hidden_name();
        path_join(&d, h.as_str())
    }

    pub fn manifest_path(&self) -> (r: String)
        ensures
            r@ == self.spec_manifest_path(),
    {
        let h = self.hidden_dir();
        path_join(&h, "Cargo.toml")
    }

    fn hidden_artifact(&self, sub: &str) -> (r: String)
        ensures
            r@ == self.spec_hidden_artifact(sub@),
    {
        let h = self.hidden_dir();
        let mut tail = String::new();
        tail.append("target/debug/");
        tail.append(sub);
        path_join(&h, tail.as_str())
    }

    fn stable_artifact(&self, sub: &str) -> (r: String)
        ensures
            r@ == self.spec_stable_artifact(sub@),
    {
        let d = self.depot_dir();
        path_join(&d, sub)
    }
}

/// One step of the build lifecycle, for the caller to run in order. Any
/// step failing is fatal; a failure of `RunBuild` in the incremental mode
/// should still be followed by the restoration steps, best effort.
#[derive(Debug)]
pub enum BuildStep {
    /// Create this directory.
    CreateDir(String),
    /// Run the build tool's "create project" subcommand in `parent`,
    /// scaffolding `project`.
    ScaffoldProject { parent: String, project: String },
    /// Rename `from` to `to`.
    Rename { from: String, to: String },
    /// Write `content` to the file at `path`, replacing what was there.
    WriteManifestFile { path: String, content: String },
    /// Run the build tool's build subcommand with this working directory.
    RunBuild { working_dir: String },
}

/// The steps that move the artifact directories out of the hidden project
/// directory to the stable path.
pub open spec fn spec_moves_out(cfg: WorkspaceConfig, steps: Seq<BuildStep>, at: int) -> bool {
    &&& steps[at] matches BuildStep::Rename { from, to } && from@ == cfg.spec_hidden_artifact(
        "deps"@,
    ) && to@ == cfg.spec_stable_artifact("deps"@)
    &&& steps[at + 1] matches BuildStep::Rename { from, to } && from@ == cfg.spec_hidden_artifact(
        "native"@,
    ) && to@ == cfg.spec_stable_artifact("native"@)
}

/// The incremental plan: overwrite the generated manifest, move the
/// artifact directories into the hidden project, build there, move them
/// back.
pub open spec fn spec_existing_plan(
    cfg: WorkspaceConfig,
    text: Seq<char>,
    steps: Seq<BuildStep>,
) -> bool {
    &&& steps.len() == 6
    &&& steps[0] matches BuildStep::WriteManifestFile { path, content } && path@
        == cfg.spec_manifest_path() && content@ == text
    &&& steps[1] matches BuildStep::Rename { from, to } && from@ == cfg.spec_stable_artifact(
        "deps"@,
    ) && to@ == cfg.spec_hidden_artifact("deps"@)
    &&& steps[2] matches BuildStep::Rename { from, to } && from@ == cfg.spec_stable_artifact(
        "native"@,
    ) && to@ == cfg.spec_hidden_artifact("native"@)
    &&& steps[3] matches BuildStep::RunBuild { working_dir } && working_dir@
        == cfg.spec_hidden_dir()
    &&& spec_moves_out(cfg, steps, 4)
}

/// The bootstrap plan: create the stable directory, scaffold the project,
/// rename it into the hidden name, write the generated manifest, build,
/// move the artifact directories out.
pub open spec fn spec_new_plan(cfg: WorkspaceConfig, text: Seq<char>, steps: Seq<BuildStep>) -> bool {
    &&& steps.len() == 7
    &&& steps[0] matches BuildStep::CreateDir(d) && d@ == cfg.spec_depot_dir()
    &&& steps[1] matches BuildStep::ScaffoldProject { parent, project } && parent@
        == cfg.spec_depot_dir() && project@ == cfg.spec_project_name()
    &&& steps[2] matches BuildStep::Rename { from, to } && from@ == spec_path_join(
        cfg.spec_depot_dir(),
        cfg.spec_project_name(),
    ) && to@ == cfg.spec_hidden_dir()
    &&& steps[3] matches BuildStep::WriteManifestFile { path, content } && path@
        == cfg.spec_manifest_path() && content@ == text
    &&& steps[4] matches BuildStep::RunBuild { working_dir } && working_dir@
        == cfg.spec_hidden_dir()
    &&& spec_moves_out(cfg, steps, 5)
}

/// Plans the build lifecycle. The mode is selected by whether the hidden
/// project's generated manifest already exists on disk: present means
/// incremental, absent means bootstrap.
pub fn plan_build(cfg: &WorkspaceConfig, manifest_text: String, manifest_exists: bool) -> (steps:
    Vec<BuildStep>)
    ensures
        manifest_exists ==> spec_existing_plan(*cfg, manifest_text@, steps@),
        !manifest_exists ==> spec_new_plan(*cfg, manifest_text@, steps@),
{
    let mut steps: Vec<BuildStep> = Vec::new();
    if manifest_exists {
        steps.push(BuildStep::WriteManifestFile { path: cfg.manifest_path(), content: manifest_text });
        steps.push(
            BuildStep::Rename { from: cfg.stable_artifact("deps"), to: cfg.hidden_artifact("deps") },
        );
        steps.push(
            BuildStep::Rename {
                from: cfg.stable_artifact("native"),
                to: cfg.hidden_artifact("native"),
            },
        );
        steps.push(BuildStep::RunBuild { working_dir: cfg.hidden_dir() });
        steps.push(
            BuildStep::Rename { from: cfg.hidden_artifact("deps"), to: cfg.stable_artifact("deps") },
        );
        steps.push(
            BuildStep::Rename {
                from: cfg.hidden_artifact("native"),
                to: cfg.stable_artifact("native"),
            },
        );
    } else {
        steps.push(BuildStep::CreateDir(cfg.depot_dir()));
        steps.push(BuildStep::ScaffoldProject { parent: cfg.depot_dir(), project: cfg.project_name() });
        let d = cfg.depot_dir();
        let p = cfg.project_name();
        steps.push(BuildStep::Rename { from: path_join(&d, p.as_str()), to: cfg.hidden_dir() });
        steps.push(BuildStep::WriteManifestFile { path: cfg.manifest_path(), content: manifest_text });
        steps.push(BuildStep::RunBuild { working_dir: cfg.hidden_dir() });
        steps.push(
            BuildStep::Rename { from: cfg.hidden_artifact("deps"), to: cfg.stable_artifact("deps") },
        );
        steps.push(
            BuildStep::Rename {
                from: cfg.hidden_artifact("native"),
                to: cfg.stable_artifact("native"),
            },
        );
    }
    steps
}

/// The restoration steps to run, best effort, when the incremental build
/// fails after the artifact directories were moved into the hidden
/// project: they move the directories back to the stable path, so that a
/// failed build does not leave the workspace in the moved-in state.
pub fn restore_steps(cfg: &WorkspaceConfig) -> (steps: Vec<BuildStep>)
    ensures
        steps@.len() == 2,
        spec_moves_out(*cfg, steps@, 0),
{
    let mut steps: Vec<BuildStep> = Vec::new();
    steps.push(
        BuildStep::Rename { from: cfg.hidden_artifact("deps"), to: cfg.stable_artifact("deps") },
    );
    steps.push(
        BuildStep::Rename {
            from: cfg.hidden_artifact("native"),
            to: cfg.stable_artifact("native"),
        },
    );
    steps
}

/// The error kinds of a run. Every one is fatal: the run aborts, nothing
/// is retried or rolled back.
#[derive(Debug)]
pub enum DepotError {
    /// An input document was malformed; the payload is the rendered
    /// diagnostic with path and span.
    DocumentParse(String),
    /// Dependency version conflicts were found; the run must not build.
    DependencyConflict(Vec<ConflictRecord>),
    /// A filesystem create, rename or write failed; the payload names it.
    Filesystem(String),
    /// The external build tool failed to spawn or returned failure.
    ExternalTool(String),
}

/// What a prepared run holds: the consolidated dependency set, the
/// rendered manifest document, and the planned steps.
pub struct PreparedBuild {
    pub merged: DependencyManifest,
    pub manifest_text: String,
    pub steps: Vec<BuildStep>,
}

/// Detects conflicts, and on a clean workspace merges the sources, renders
/// the generated manifest and plans the build; a conflicted workspace is
/// rejected with the full record list and nothing is planned.
pub fn prepare_build(
    cfg: &WorkspaceConfig,
    sources: &Vec<ManifestSource>,
    manifest_exists: bool,
) -> (r: Result<PreparedBuild, DepotError>)
    requires
        sources_wf(sources@),
    ensures
        match r {
            Ok(p) => {
                &&& forall|i: int, j: int, name: Seq<char>|
                    0 <= i < j < sources@.len() ==> !crate::conflict::conflicting(
                        sources@[i],
                        sources@[j],
                        name,
                    )
                &&& merge_post(sources@, p.merged)
                &&& p.manifest_text@ == spec_manifest_doc(cfg.profile, p.merged.dependencies@)
                &&& manifest_exists ==> spec_existing_plan(*cfg, p.manifest_text@, p.steps@)
                &&& !manifest_exists ==> spec_new_plan(*cfg, p.manifest_text@, p.steps@)
            },
            Err(e) => {
                &&& e matches DepotError::DependencyConflict(recs)
                &&& detector_post(sources@, recs@)
                &&& recs@.len() > 0
                &&& exists|i: int, j: int, name: Seq<char>|
                    0 <= i < j < sources@.len() && #[trigger] crate::conflict::conflicting(
                        sources@[i],
                        sources@[j],
                        name,
                    )
            },
        },
{
    let conflicts = detect_conflicts(sources);
    if conflicts.len() != 0 {
        proof {
            assert(crate::conflict::reported(sources@, conflicts@, 0));
        }
        return Err(DepotError::DependencyConflict(conflicts));
    }
    proof {
        assert forall|i: int, j: int, name: Seq<char>|
            0 <= i < j < sources@.len() implies !crate::conflict::conflicting(
            sources@[i],
            sources@[j],
            name,
        ) by {
            if crate::conflict::conflicting(sources@[i], sources@[j], name) {
                assert(crate::conflict::has_record_for(sources@, conflicts@, i, j, name));
                let k = choose|k: int|
                    #![trigger conflicts@[k]]
                    0 <= k < conflicts@.len() && crate::conflict::is_record_for(
                        conflicts@[k],
                        sources@[i],
                        sources@[j],
                        name,
                    );
                assert(false);
            }
        }
    }
    let merged = merge_manifests(sources);
    let manifest_text = render_manifest(&cfg.profile, &merged);
    let steps = plan_build(cfg, manifest_text.clone(), manifest_exists);
    Ok(PreparedBuild { merged, manifest_text, steps })
}

} // verus!
