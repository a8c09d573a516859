use vstd::prelude::*;
use vstd::string::StrSliceExecFns;
use crate::subst::{inert, inert_values, ph_names, placeholder_free, replace_vars, subst, VarTable};
use crate::toml_read::{
    item_array_len, item_get, item_index, item_str, item_table_keys, parse_toml, spec_array_len,
    spec_get, spec_index, spec_str, spec_table_keys, toml_parses, toml_root,
};

verus! {

// The build manifest: its typed model, and a parser that reads TOML text
// into the model and resolves `%{...}` variables in every variable-bearing
// field against the manifest's own version and a staging directory path.

/// Why manifest text was rejected.
#[derive(Debug)]
pub enum ParseError {
    /// The text is not structured as the manifest schema asks.
    Format(String),
    /// The license field is not a valid SPDX expression.
    License(String),
    /// A placeholder names a variable that is not defined; the name is held.
    Variable(String),
}

/// Package identity.
#[derive(Debug)]
pub struct Info {
    pub name: String,
    pub version: String,
    pub description: String,
    /// A license expression of the SPDX grammar, kept as its text.
    pub license: String,
}

/// Names of packages this one depends on; not resolved here.
#[derive(Debug)]
pub struct Dependencies {
    pub required: Vec<String>,
    pub optional: Vec<String>,
    pub build: Vec<String>,
}

/// One fetchable input and its integrity checksum.
#[derive(Debug)]
pub struct Source {
    pub url: String,
    pub checksum: String,
}

/// Which interpreter runs a command step.
#[derive(Debug, PartialEq, Eq, Structural, Clone, Copy)]
pub enum Runner {
    Shell,
}

/// One unit of build work: run a command, or relocate a file.
#[derive(Debug)]
pub enum StepVariant {
    Command { runner: Runner, command: String },
    Move { path: String },
}

/// A named build step.
#[derive(Debug)]
pub struct Step {
    pub name: String,
    pub variant: StepVariant,
}

/// The parsed build manifest; after `parse` returns, every variable-bearing
/// field has been substituted.
#[derive(Debug)]
pub struct Package {
    pub info: Info,
    pub dependencies: Option<Dependencies>,
    pub sources: Vec<Source>,
    pub steps: Vec<Step>,
    pub directories: Vec<(String, String)>,
}

impl Runner {
    /// The name a manifest writes this runner as.
    pub fn name(&self) -> (r: &'static str)
        ensures
            r@ == "shell"@,
    {
        "shell"
    }

    /// The invocation template this runner executes a command with: the
    /// program, and the flag after which the command string follows as one
    /// argument. The caller builds and spawns the process.
    pub fn invocation(&self) -> (r: (&'static str, &'static str))
        ensures
            r.0@ == "/bin/sh"@,
            r.1@ == "-c"@,
    {
        match self {
            Runner::Shell => ("/bin/sh", "-c"),
        }
    }
}

impl core::str::FromStr for Runner {
    type Err = ();

    fn from_str(s: &str) -> (r: Result<Runner, ()>)
        ensures
            r is Ok <==> s@ == "shell"@,
            r matches Ok(v) ==> v == Runner::Shell,
    {
        if crate::subst::str_eq(s, "shell") {
            Ok(Runner::Shell)
        } else {
            Err(())
        }
    }
}

/// Whether the text is a valid SPDX license expression: a function of the
/// text alone.
pub uninterp spec fn spdx_valid(s: Seq<char>) -> bool;

/// Relies on spdx's `Expression::parse`: whether the text is a valid SPDX
/// license expression.
#[verifier::external_body]
fn license_ok(s: &str) -> (r: bool)
    ensures
        r == spdx_valid(s@),
{
    match spdx::Expression::parse(s) {
        Ok(_) => true,
        Err(_) => false,
    }
}

// ---------- the raw shape read off the TOML tree ----------

/// The `info` table as read, before required fields are enforced.
pub struct RawInfo {
    pub name: Option<String>,
    pub version: Option<String>,
    pub description: Option<String>,
    pub license: Option<String>,
}

/// One `sources` entry as read.
pub struct RawSource {
    pub url: Option<String>,
    pub checksum: Option<String>,
}

/// One `steps` entry as read; the variant is told apart by which fields are
/// present.
pub struct RawStep {
    pub name: Option<String>,
    pub runner: Option<String>,
    pub command: Option<String>,
    pub path: Option<String>,
}

/// The whole manifest as read, before the schema is enforced and variables
/// are resolved.
pub struct RawManifest {
    pub info: RawInfo,
    pub dependencies: Option<Dependencies>,
    pub sources: Vec<RawSource>,
    pub steps: Vec<RawStep>,
    pub directories: Vec<(String, String)>,
}

// ---------- the raw shape at the specification level ----------

pub struct RawInfoV {
    pub name: Option<Seq<char>>,
    pub version: Option<Seq<char>>,
    pub description: Option<Seq<char>>,
    pub license: Option<Seq<char>>,
}

pub struct RawSourceV {
    pub url: Option<Seq<char>>,
    pub checksum: Option<Seq<char>>,
}

pub struct RawStepV {
    pub name: Option<Seq<char>>,
    pub runner: Option<Seq<char>>,
    pub command: Option<Seq<char>>,
    pub path: Option<Seq<char>>,
}

pub struct DependenciesV {
    pub required: Seq<Seq<char>>,
    pub optional: Seq<Seq<char>>,
    pub build: Seq<Seq<char>>,
}

pub struct RawManifestV {
    pub info: RawInfoV,
    pub dependencies: Option<DependenciesV>,
    pub sources: Seq<RawSourceV>,
    pub steps: Seq<RawStepV>,
    pub directories: Seq<(Seq<char>, Seq<char>)>,
}

pub open spec fn strs_view(v: Seq<String>) -> Seq<Seq<char>> {
    v.map_values(|s: String| s@)
}

pub open spec fn sources_view(v: Seq<RawSource>) -> Seq<RawSourceV> {
    v.map_values(|s: RawSource| s@)
}

pub open spec fn steps_view(v: Seq<RawStep>) -> Seq<RawStepV> {
    v.map_values(|s: RawStep| s@)
}

pub open spec fn dirs_view(v: Seq<(String, String)>) -> Seq<(Seq<char>, Seq<char>)> {
    v.map_values(|p: (String, String)| (p.0@, p.1@))
}

pub open spec fn deps_view(o: Option<Dependencies>) -> Option<DependenciesV> {
    match o {
        Some(d) => Some(d@),
        None => None,
    }
}

impl View for RawInfo {
    type V = RawInfoV;

    open spec fn view(&self) -> RawInfoV {
        RawInfoV {
            name: self.name.deep_view(),
            version: self.version.deep_view(),
            description: self.description.deep_view(),
            license: self.license.deep_view(),
        }
    }
}

impl View for RawSource {
    type V = RawSourceV;

    open spec fn view(&self) -> RawSourceV {
        RawSourceV { url: self.url.deep_view(), checksum: self.checksum.deep_view() }
    }
}

impl View for RawStep {
    type V = RawStepV;

    open spec fn view(&self) -> RawStepV {
        RawStepV {
            name: self.name.deep_view(),
            runner: self.runner.deep_view(),
            command: self.command.deep_view(),
            path: self.path.deep_view(),
        }
    }
}

impl View for Dependencies {
    type V = DependenciesV;

    open spec fn view(&self) -> DependenciesV {
        DependenciesV {
            required: strs_view(self.required@),
            optional: strs_view(self.optional@),
            build: strs_view(self.build@),
        }
    }
}

impl View for RawManifest {
    type V = RawManifestV;

    open spec fn view(&self) -> RawManifestV {
        RawManifestV {
            info: self.info@,
            dependencies: deps_view(self.dependencies),
            sources: sources_view(self.sources@),
            steps: steps_view(self.steps@),
            directories: dirs_view(self.directories@),
        }
    }
}

// ---------- the schema, as specification ----------

/// The variable table a manifest is resolved with: its own version and the
/// staging directory path.
pub open spec fn spec_var_table(version: Seq<char>, pkgdir: Seq<char>) -> Map<
    Seq<char>,
    Seq<char>,
> {
    Map::empty().insert("version"@, version).insert("pkgdir"@, pkgdir)
}

pub open spec fn raw_source_ok(s: RawSourceV, vt: Map<Seq<char>, Seq<char>>) -> bool {
    &&& s.url is Some
    &&& s.checksum is Some
    &&& subst(s.url->Some_0, vt) is Some
}

/// The step names a command: `runner` and `command` are present and the
/// runner is the shell.
pub open spec fn step_is_command(s: RawStepV) -> bool {
    s.runner is Some && s.command is Some && s.runner->Some_0 == "shell"@
}

/// The step names a relocation: it is no command, and `path` is present.
pub open spec fn step_is_move(s: RawStepV) -> bool {
    !step_is_command(s) && s.path is Some
}

pub open spec fn raw_step_ok(s: RawStepV, vt: Map<Seq<char>, Seq<char>>) -> bool {
    &&& s.name is Some
    &&& step_is_command(s) || step_is_move(s)
    &&& step_is_command(s) ==> subst(s.command->Some_0, vt) is Some
    &&& step_is_move(s) ==> subst(s.path->Some_0, vt) is Some
}

/// The required `info` fields are present, with a non-empty name and version.
pub open spec fn info_complete(iv: RawInfoV) -> bool {
    &&& iv.name matches Some(n) && n.len() > 0
    &&& iv.version matches Some(v) && v.len() > 0
    &&& iv.description is Some
    &&& iv.license is Some
}

/// The raw manifest is well-shaped: required fields present, and every step
/// either a command or a relocation. Says nothing of the license text or of
/// the placeholders.
pub open spec fn shape_ok(rv: RawManifestV) -> bool {
    &&& info_complete(rv.info)
    &&& forall|i: int|
        0 <= i < rv.sources.len() ==> (#[trigger] rv.sources[i]).url is Some
            && rv.sources[i].checksum is Some
    &&& forall|i: int|
        0 <= i < rv.steps.len() ==> (#[trigger] rv.steps[i]).name is Some && (step_is_command(
            rv.steps[i],
        ) || step_is_move(rv.steps[i]))
}

/// `n` occurs as a placeholder name in some variable-bearing field of the
/// raw manifest.
pub open spec fn names_a_placeholder(rv: RawManifestV, n: Seq<char>) -> bool {
    ||| exists|i: int|
        #![trigger rv.sources[i]]
        {
            &&& 0 <= i < rv.sources.len()
            &&& rv.sources[i].url matches Some(u)
            &&& ph_names(u).contains(n)
        }
    ||| exists|i: int|
        #![trigger rv.steps[i]]
        {
            &&& 0 <= i < rv.steps.len()
            &&& rv.steps[i].command matches Some(c)
            &&& ph_names(c).contains(n)
        }
    ||| exists|i: int|
        #![trigger rv.steps[i]]
        {
            &&& 0 <= i < rv.steps.len()
            &&& rv.steps[i].path matches Some(p)
            &&& ph_names(p).contains(n)
        }
}

/// The raw manifest builds: well-shaped, the license valid, and every
/// placeholder of every variable-bearing field defined.
pub open spec fn raw_ok(rv: RawManifestV, pkgdir: Seq<char>) -> bool {
    &&& info_complete(rv.info)
    &&& rv.info.license matches Some(l) && spdx_valid(l)
    &&& forall|i: int|
        0 <= i < rv.sources.len() ==> raw_source_ok(
            #[trigger] rv.sources[i],
            spec_var_table(rv.info.version->Some_0, pkgdir),
        )
    &&& forall|i: int|
        0 <= i < rv.steps.len() ==> raw_step_ok(
            #[trigger] rv.steps[i],
            spec_var_table(rv.info.version->Some_0, pkgdir),
        )
}

/// How a built step relates to its raw entry.
pub open spec fn step_built(out: Step, s: RawStepV, vt: Map<Seq<char>, Seq<char>>) -> bool {
    &&& out.name@ == s.name->Some_0
    &&& step_is_command(s) ==> (out.variant matches StepVariant::Command { runner, command }
        && runner == Runner::Shell && Some(command@) == subst(s.command->Some_0, vt))
    &&& step_is_move(s) ==> (out.variant matches StepVariant::Move { path } && Some(path@)
        == subst(s.path->Some_0, vt))
}

/// How a built package relates to the raw manifest it came from.
pub open spec fn package_built(p: Package, rv: RawManifestV, pkgdir: Seq<char>) -> bool {
    let vt = spec_var_table(rv.info.version->Some_0, pkgdir);
    &&& p.info.name@ == rv.info.name->Some_0
    &&& p.info.version@ == rv.info.version->Some_0
    &&& p.info.description@ == rv.info.description->Some_0
    &&& p.info.license@ == rv.info.license->Some_0
    &&& deps_view(p.dependencies) == rv.dependencies
    &&& dirs_view(p.directories@) == rv.directories
    &&& p.sources.len() == rv.sources.len()
    &&& forall|i: int|
        0 <= i < rv.sources.len() ==> {
            &&& (#[trigger] p.sources[i]).checksum@ == rv.sources[i].checksum->Some_0
            &&& Some(p.sources[i].url@) == subst(rv.sources[i].url->Some_0, vt)
        }
    &&& p.steps.len() == rv.steps.len()
    &&& forall|i: int| 0 <= i < rv.steps.len() ==> step_built(#[trigger] p.steps[i], rv.steps[i], vt)
}

/// The keys of a directory map are pairwise distinct.
pub open spec fn distinct_keys(ds: Seq<(Seq<char>, Seq<char>)>) -> bool {
    forall|i: int, j: int| 0 <= i < j < ds.len() ==> (#[trigger] ds[i]).0 != (#[trigger] ds[j]).0
}

/// Every variable-bearing field of the step is free of placeholders.
pub open spec fn step_resolved(s: Step) -> bool {
    match s.variant {
        StepVariant::Command { command, .. } => placeholder_free(command@),
        StepVariant::Move { path } => placeholder_free(path@),
    }
}

/// Law: a built package holds no unresolved placeholder — every source url,
/// command and move path is placeholder-free — provided the version and the
/// staging path are inert (non-empty, without `%`, `{` or `}`).
pub proof fn lemma_package_resolved(p: Package, rv: RawManifestV, pkgdir: Seq<char>)
    requires
        raw_ok(rv, pkgdir),
        package_built(p, rv, pkgdir),
        inert(rv.info.version->Some_0),
        inert(pkgdir),
    ensures
        forall|i: int| 0 <= i < p.sources.len() ==> placeholder_free((#[trigger] p.sources[i]).url@),
        forall|i: int| 0 <= i < p.steps.len() ==> step_resolved(#[trigger] p.steps[i]),
{
    let vt = spec_var_table(rv.info.version->Some_0, pkgdir);
    assert(inert_values(vt)) by {
        assert forall|k: Seq<char>| vt.dom().contains(k) implies inert(#[trigger] vt[k]) by {
            if k == "pkgdir"@ {
                assert(vt[k] == pkgdir);
            } else {
                assert(k == "version"@);
                assert(vt[k] == rv.info.version->Some_0);
            }
        }
    }
    assert forall|i: int| 0 <= i < p.sources.len() implies placeholder_free(
        (#[trigger] p.sources[i]).url@,
    ) by {
        crate::subst::lemma_subst_result_free(rv.sources[i].url->Some_0, vt, p.sources[i].url@);
    }
    assert forall|i: int| 0 <= i < p.steps.len() implies step_resolved(#[trigger] p.steps[i]) by {
        if step_is_command(rv.steps[i]) {
            match p.steps[i].variant {
                StepVariant::Command { command, .. } => {
                    crate::subst::lemma_subst_result_free(rv.steps[i].command->Some_0, vt, command@);
                },
                StepVariant::Move { .. } => {
                    assert(false);
                },
            }
        } else {
            match p.steps[i].variant {
                StepVariant::Move { path } => {
                    crate::subst::lemma_subst_result_free(rv.steps[i].path->Some_0, vt, path@);
                },
                StepVariant::Command { .. } => {
                    assert(false);
                },
            }
        }
    }
}

// ---------- building the model from the raw shape ----------

fn missing(what: &str) -> (r: ParseError)
    ensures
        r is Format,
{
    let mut m = what.to_owned();
    m.append(" is missing or not the expected type");
    ParseError::Format(m)
}

/// Enforce the schema on a raw manifest and resolve every variable-bearing
/// field: `%{...}` in each source url, each command, each move path.
#[verifier::loop_isolation(false)]
pub fn build_package(raw: RawManifest, pkgdir: &str) -> (r: Result<Package, ParseError>)
    ensures
        r is Ok <==> raw_ok(raw@, pkgdir@),
        r matches Ok(p) ==> package_built(p, raw@, pkgdir@),
        !info_complete(raw@.info) ==> r matches Err(ParseError::Format(_)),
        r matches Err(ParseError::Format(_)) ==> !shape_ok(raw@),
        r matches Err(ParseError::License(l)) ==> raw@.info.license == Some(l@) && !spdx_valid(l@),
        r matches Err(ParseError::Variable(n)) ==> !spec_var_table(
            raw@.info.version->Some_0,
            pkgdir@,
        ).dom().contains(n@) && names_a_placeholder(raw@, n@),
{
    let RawManifest { info: rinfo, dependencies, sources: rsources, steps: rsteps, directories } =
        raw;
    let name = match rinfo.name {
        Some(n) => n,
        None => { return Err(missing("info.name")); },
    };
    let version = match rinfo.version {
        Some(v) => v,
        None => { return Err(missing("info.version")); },
    };
    let description = match rinfo.description {
        Some(d) => d,
        None => { return Err(missing("info.description")); },
    };
    let license = match rinfo.license {
        Some(l) => l,
        None => { return Err(missing("info.license")); },
    };
    if name.as_str().unicode_len() == 0 {
        return Err(missing("a non-empty info.name"));
    }
    if version.as_str().unicode_len() == 0 {
        return Err(missing("a non-empty info.version"));
    }
    if !license_ok(license.as_str()) {
        return Err(ParseError::License(license));
    }
    let mut vt = VarTable::new();
    vt.insert("version", version.as_str());
    vt.insert("pkgdir", pkgdir);
    let ghost vtv = spec_var_table(version@, pkgdir@);
    proof {
        assert(vt@ == vtv);
    }
    let mut sources: Vec<Source> = Vec::new();
    let mut i: usize = 0;
    while i < rsources.len()
        invariant
            0 <= i <= rsources.len(),
            vt@ == vtv,
            sources.len() == i,
            forall|k: int| 0 <= k < i ==> raw_source_ok(#[trigger] sources_view(rsources@)[k], vtv),
            forall|k: int|
                0 <= k < i ==> {
                    &&& (#[trigger] sources@[k]).checksum@ == sources_view(
                        rsources@,
                    )[k].checksum->Some_0
                    &&& Some(sources@[k].url@) == subst(
                        sources_view(rsources@)[k].url->Some_0,
                        vtv,
                    )
                },
        decreases rsources.len() - i,
    {
        let rs = &rsources[i];
        proof {
            assert(sources_view(rsources@)[i as int] == rsources@[i as int]@);
        }
        let url = match &rs.url {
            Some(u) => u.clone(),
            None => {
                proof {
                    assert(!raw_source_ok(raw@.sources[i as int], vtv));
                    assert(!raw_ok(raw@, pkgdir@));
                    assert(!shape_ok(raw@));
                }
                return Err(missing("sources.url"));
            },
        };
        let checksum = match &rs.checksum {
            Some(c) => c.clone(),
            None => {
                proof {
                    assert(!raw_source_ok(raw@.sources[i as int], vtv));
                    assert(!raw_ok(raw@, pkgdir@));
                    assert(!shape_ok(raw@));
                }
                return Err(missing("sources.checksum"));
            },
        };
        let resolved = match replace_vars(url.as_str(), &vt) {
            Ok(u) => u,
            Err(n) => {
                proof {
                    assert(!raw_source_ok(raw@.sources[i as int], vtv));
                    assert(!raw_ok(raw@, pkgdir@));
                    assert(raw@.sources[i as int].url matches Some(uu) && ph_names(uu).contains(
                        n@,
                    ));
                    assert(names_a_placeholder(raw@, n@));
                }
                return Err(ParseError::Variable(n));
            },
        };
        sources.push(Source { url: resolved, checksum });
        i += 1;
    }
    let mut steps: Vec<Step> = Vec::new();
    let mut i: usize = 0;
    while i < rsteps.len()
        invariant
            0 <= i <= rsteps.len(),
            vt@ == vtv,
            steps.len() == i,
            forall|k: int| 0 <= k < i ==> raw_step_ok(#[trigger] steps_view(rsteps@)[k], vtv),
            forall|k: int|
                0 <= k < i ==> step_built(steps@[k], #[trigger] steps_view(rsteps@)[k], vtv),
        decreases rsteps.len() - i,
    {
        let rstep = &rsteps[i];
        proof {
            assert(steps_view(rsteps@)[i as int] == rsteps@[i as int]@);
        }
        let sname = match &rstep.name {
            Some(n) => n.clone(),
            None => {
                proof {
                    assert(!raw_step_ok(raw@.steps[i as int], vtv));
                    assert(!raw_ok(raw@, pkgdir@));
                    assert(!shape_ok(raw@));
                }
                return Err(missing("steps.name"));
            },
        };
        let mut built: Option<StepVariant> = None;
        if let Some(rn) = &rstep.runner {
            if let Some(c) = &rstep.command {
                if crate::subst::str_eq(rn.as_str(), "shell") {
                    let command = match replace_vars(c.as_str(), &vt) {
                        Ok(x) => x,
                        Err(n) => {
                            proof {
                                assert(step_is_command(raw@.steps[i as int]));
                                assert(!raw_step_ok(raw@.steps[i as int], vtv));
                                assert(!raw_ok(raw@, pkgdir@));
                                assert(raw@.steps[i as int].command matches Some(cc) && ph_names(
                                    cc,
                                ).contains(n@));
                                assert(names_a_placeholder(raw@, n@));
                            }
                            return Err(ParseError::Variable(n));
                        },
                    };
                    built = Some(StepVariant::Command { runner: Runner::Shell, command });
                }
            }
        }
        if built.is_none() {
            proof {
                assert(!step_is_command(raw@.steps[i as int]));
            }
            if let Some(p) = &rstep.path {
                let path = match replace_vars(p.as_str(), &vt) {
                    Ok(x) => x,
                    Err(n) => {
                        proof {
                            assert(step_is_move(raw@.steps[i as int]));
                            assert(!raw_step_ok(raw@.steps[i as int], vtv));
                            assert(!raw_ok(raw@, pkgdir@));
                            assert(raw@.steps[i as int].path matches Some(pp) && ph_names(
                                pp,
                            ).contains(n@));
                            assert(names_a_placeholder(raw@, n@));
                        }
                        return Err(ParseError::Variable(n));
                    },
                };
                built = Some(StepVariant::Move { path });
            } else {
                proof {
                    assert(!raw_step_ok(raw@.steps[i as int], vtv));
                    assert(!raw_ok(raw@, pkgdir@));
                    assert(!shape_ok(raw@));
                }
                return Err(missing("a step's runner and command, or its path"));
            }
        }
        let variant = match built {
            Some(v) => v,
            None => { return Err(missing("a step variant")); },
        };
        steps.push(Step { name: sname, variant });
        i += 1;
    }
    Ok(
        Package {
            info: Info { name, version, description, license },
            dependencies,
            sources,
            steps,
            directories,
        },
    )
}

// ---------- reading the raw shape off the TOML tree, as specification ----------

/// One string field of a table node: the outer `None` is a type error, the
/// inner option is presence.
pub open spec fn spec_str_field(t: toml_edit::Item, key: Seq<char>) -> Option<Option<Seq<char>>> {
    match spec_get(t, key) {
        None => Some(None),
        Some(it) => match spec_str(it) {
            Some(s) => Some(Some(s)),
            None => None,
        },
    }
}

pub open spec fn str_elem_at(arr: toml_edit::Item, i: int) -> Option<Seq<char>> {
    match spec_index(arr, i) {
        None => None,
        Some(e) => spec_str(e),
    }
}

pub open spec fn str_elems(arr: toml_edit::Item, n: int) -> Option<Seq<Seq<char>>>
    decreases n,
{
    if n <= 0 {
        Some(Seq::empty())
    } else {
        match str_elems(arr, n - 1) {
            None => None,
            Some(pre) => match str_elem_at(arr, n - 1) {
                None => None,
                Some(x) => Some(pre.push(x)),
            },
        }
    }
}

pub open spec fn source_at(arr: toml_edit::Item, i: int) -> Option<RawSourceV> {
    match spec_index(arr, i) {
        None => None,
        Some(e) => match spec_str_field(e, "url"@) {
            None => None,
            Some(url) => match spec_str_field(e, "checksum"@) {
                None => None,
                Some(checksum) => Some(RawSourceV { url, checksum }),
            },
        },
    }
}

pub open spec fn source_elems(arr: toml_edit::Item, n: int) -> Option<Seq<RawSourceV>>
    decreases n,
{
    if n <= 0 {
        Some(Seq::empty())
    } else {
        match source_elems(arr, n - 1) {
            None => None,
            Some(pre) => match source_at(arr, n - 1) {
                None => None,
                Some(x) => Some(pre.push(x)),
            },
        }
    }
}

pub open spec fn step_at(arr: toml_edit::Item, i: int) -> Option<RawStepV> {
    match spec_index(arr, i) {
        None => None,
        Some(e) => match spec_str_field(e, "name"@) {
            None => None,
            Some(name) => match spec_str_field(e, "runner"@) {
                None => None,
                Some(runner) => match spec_str_field(e, "command"@) {
                    None => None,
                    Some(command) => match spec_str_field(e, "path"@) {
                        None => None,
                        Some(path) => Some(RawStepV { name, runner, command, path }),
                    },
                },
            },
        },
    }
}

pub open spec fn step_elems(arr: toml_edit::Item, n: int) -> Option<Seq<RawStepV>>
    decreases n,
{
    if n <= 0 {
        Some(Seq::empty())
    } else {
        match step_elems(arr, n - 1) {
            None => None,
            Some(pre) => match step_at(arr, n - 1) {
                None => None,
                Some(x) => Some(pre.push(x)),
            },
        }
    }
}

pub open spec fn dir_at(dt: toml_edit::Item, keys: Seq<Seq<char>>, i: int) -> Option<
    (Seq<char>, Seq<char>),
> {
    match spec_get(dt, keys[i]) {
        None => None,
        Some(it) => match spec_str(it) {
            None => None,
            Some(v) => Some((keys[i], v)),
        },
    }
}

pub open spec fn dir_elems(dt: toml_edit::Item, keys: Seq<Seq<char>>, n: int) -> Option<
    Seq<(Seq<char>, Seq<char>)>,
>
    decreases n,
{
    if n <= 0 {
        Some(Seq::empty())
    } else {
        match dir_elems(dt, keys, n - 1) {
            None => None,
            Some(pre) => match dir_at(dt, keys, n - 1) {
                None => None,
                Some(x) => Some(pre.push(x)),
            },
        }
    }
}

pub open spec fn spec_info(root: toml_edit::Item) -> Option<RawInfoV> {
    match spec_get(root, "info"@) {
        None => Some(RawInfoV { name: None, version: None, description: None, license: None }),
        Some(it) => match spec_str_field(it, "name"@) {
            None => None,
            Some(name) => match spec_str_field(it, "version"@) {
                None => None,
                Some(version) => match spec_str_field(it, "description"@) {
                    None => None,
                    Some(description) => match spec_str_field(it, "license"@) {
                        None => None,
                        Some(license) => Some(RawInfoV { name, version, description, license }),
                    },
                },
            },
        },
    }
}

pub open spec fn spec_string_list(t: toml_edit::Item, key: Seq<char>) -> Option<Seq<Seq<char>>> {
    match spec_get(t, key) {
        None => Some(Seq::empty()),
        Some(arr) => match spec_array_len(arr) {
            None => None,
            Some(n) => str_elems(arr, n),
        },
    }
}

pub open spec fn spec_dependencies(root: toml_edit::Item) -> Option<Option<DependenciesV>> {
    match spec_get(root, "dependencies"@) {
        None => Some(None),
        Some(dt) => match spec_string_list(dt, "required"@) {
            None => None,
            Some(required) => match spec_string_list(dt, "optional"@) {
                None => None,
                Some(optional) => match spec_string_list(dt, "build"@) {
                    None => None,
                    Some(build) => Some(Some(DependenciesV { required, optional, build })),
                },
            },
        },
    }
}

pub open spec fn spec_sources(root: toml_edit::Item) -> Option<Seq<RawSourceV>> {
    match spec_get(root, "sources"@) {
        None => Some(Seq::empty()),
        Some(st) => match spec_array_len(st) {
            None => None,
            Some(n) => source_elems(st, n),
        },
    }
}

pub open spec fn spec_steps(root: toml_edit::Item) -> Option<Seq<RawStepV>> {
    match spec_get(root, "steps"@) {
        None => Some(Seq::empty()),
        Some(st) => match spec_array_len(st) {
            None => None,
            Some(n) => step_elems(st, n),
        },
    }
}

pub open spec fn spec_directories(root: toml_edit::Item) -> Option<Seq<(Seq<char>, Seq<char>)>> {
    match spec_get(root, "directories"@) {
        None => Some(Seq::empty()),
        Some(dt) => match spec_table_keys(dt) {
            None => None,
            Some(ks) => dir_elems(dt, ks, ks.len() as int),
        },
    }
}

/// The raw manifest the TOML tree holds: `None` when the tree does not fit
/// the manifest shape.
pub open spec fn spec_extract(root: toml_edit::Item) -> Option<RawManifestV> {
    match spec_info(root) {
        None => None,
        Some(info) => match spec_dependencies(root) {
            None => None,
            Some(dependencies) => match spec_sources(root) {
                None => None,
                Some(sources) => match spec_steps(root) {
                    None => None,
                    Some(steps) => match spec_directories(root) {
                        None => None,
                        Some(directories) => Some(
                            RawManifestV { info, dependencies, sources, steps, directories },
                        ),
                    },
                },
            },
        },
    }
}

proof fn lemma_str_elems_none(arr: toml_edit::Item, j: int, n: int)
    requires
        str_elems(arr, j) is None,
        j <= n,
    ensures
        str_elems(arr, n) is None,
    decreases n - j,
{
    if j < n {
        lemma_str_elems_none(arr, j, n - 1);
    }
}

proof fn lemma_source_elems_none(arr: toml_edit::Item, j: int, n: int)
    requires
        source_elems(arr, j) is None,
        j <= n,
    ensures
        source_elems(arr, n) is None,
    decreases n - j,
{
    if j < n {
        lemma_source_elems_none(arr, j, n - 1);
    }
}

proof fn lemma_step_elems_none(arr: toml_edit::Item, j: int, n: int)
    requires
        step_elems(arr, j) is None,
        j <= n,
    ensures
        step_elems(arr, n) is None,
    decreases n - j,
{
    if j < n {
        lemma_step_elems_none(arr, j, n - 1);
    }
}

proof fn lemma_dir_elems_none(dt: toml_edit::Item, keys: Seq<Seq<char>>, j: int, n: int)
    requires
        dir_elems(dt, keys, j) is None,
        j <= n,
    ensures
        dir_elems(dt, keys, n) is None,
    decreases n - j,
{
    if j < n {
        lemma_dir_elems_none(dt, keys, j, n - 1);
    }
}

// ---------- reading the raw shape off the TOML tree ----------

/// The string under `key`, `Ok(None)` when absent, an error when present but
/// not a string.
fn get_str_field(table: &toml_edit::Item, key: &str) -> (r: Result<Option<String>, ParseError>)
    ensures
        r matches Ok(o) ==> spec_str_field(*table, key@) == Some(o.deep_view()),
        r is Err <==> spec_str_field(*table, key@) is None,
        r matches Err(e) ==> e is Format,
{
    match item_get(table, key) {
        None => Ok(None),
        Some(it) => match item_str(it) {
            Some(s) => Ok(Some(s)),
            None => Err(missing(key)),
        },
    }
}

/// The list of strings under `key`, empty when absent.
#[verifier::loop_isolation(false)]
fn get_string_list(table: &toml_edit::Item, key: &str) -> (r: Result<Vec<String>, ParseError>)
    ensures
        r matches Ok(v) ==> spec_string_list(*table, key@) == Some(strs_view(v@)),
        r is Err <==> spec_string_list(*table, key@) is None,
        r matches Err(e) ==> e is Format,
{
    let arr = match item_get(table, key) {
        None => {
            proof {
                assert(strs_view(Seq::<String>::empty()) =~= Seq::<Seq<char>>::empty());
            }
            return Ok(Vec::new());
        },
        Some(a) => a,
    };
    let n = match item_array_len(arr) {
        Some(n) => n,
        None => { return Err(missing(key)); },
    };
    let mut out: Vec<String> = Vec::new();
    let mut i: usize = 0;
    while i < n
        invariant
            0 <= i <= n,
            out@.len() == i,
            str_elems(*arr, i as int) == Some(strs_view(out@)),
        decreases n - i,
    {
        let elem = match item_index(arr, i) {
            Some(e) => e,
            None => {
                proof {
                    lemma_str_elems_none(*arr, i as int + 1, n as int);
                }
                return Err(missing(key));
            },
        };
        match item_str(elem) {
            Some(s) => {
                let ghost old_out = out@;
                out.push(s);
                proof {
                    assert(strs_view(out@) =~= strs_view(old_out).push(out@.last()@));
                }
            },
            None => {
                proof {
                    lemma_str_elems_none(*arr, i as int + 1, n as int);
                }
                return Err(missing(key));
            },
        }
        i += 1;
    }
    Ok(out)
}

/// Read the manifest's raw shape off the parsed TOML tree; the schema is
/// enforced afterwards by `build_package`.
#[verifier::loop_isolation(false)]
fn extract_manifest(root: &toml_edit::Item) -> (r: Result<RawManifest, ParseError>)
    ensures
        r is Ok <==> spec_extract(*root) is Some,
        r matches Ok(raw) ==> Some(raw@) == spec_extract(*root) && distinct_keys(raw@.directories),
        r matches Err(e) ==> e is Format,
{
    let info: RawInfo = match item_get(root, "info") {
        None => RawInfo { name: None, version: None, description: None, license: None },
        Some(it) => {
            let name = match get_str_field(it, "name") {
                Ok(o) => o,
                Err(e) => { return Err(e); },
            };
            let version = match get_str_field(it, "version") {
                Ok(o) => o,
                Err(e) => { return Err(e); },
            };
            let description = match get_str_field(it, "description") {
                Ok(o) => o,
                Err(e) => { return Err(e); },
            };
            let license = match get_str_field(it, "license") {
                Ok(o) => o,
                Err(e) => { return Err(e); },
            };
            RawInfo { name, version, description, license }
        },
    };
    proof {
        assert(spec_info(*root) == Some(info@));
    }
    let dependencies: Option<Dependencies> = match item_get(root, "dependencies") {
        None => None,
        Some(dt) => {
            let required = match get_string_list(dt, "required") {
                Ok(v) => v,
                Err(e) => { return Err(e); },
            };
            let optional = match get_string_list(dt, "optional") {
                Ok(v) => v,
                Err(e) => { return Err(e); },
            };
            let build = match get_string_list(dt, "build") {
                Ok(v) => v,
                Err(e) => { return Err(e); },
            };
            Some(Dependencies { required, optional, build })
        },
    };
    proof {
        assert(spec_dependencies(*root) == Some(deps_view(dependencies)));
    }
    let mut sources: Vec<RawSource> = Vec::new();
    if let Some(st) = item_get(root, "sources") {
        let n = match item_array_len(st) {
            Some(n) => n,
            None => { return Err(missing("sources")); },
        };
        let mut i: usize = 0;
        while i < n
            invariant
                0 <= i <= n,
                sources@.len() == i,
                source_elems(*st, i as int) == Some(sources_view(sources@)),
            decreases n - i,
        {
            let elem = match item_index(st, i) {
                Some(e) => e,
                None => {
                    proof {
                        lemma_source_elems_none(*st, i as int + 1, n as int);
                    }
                    return Err(missing("sources"));
                },
            };
            let url = match get_str_field(elem, "url") {
                Ok(o) => o,
                Err(e) => {
                    proof {
                        lemma_source_elems_none(*st, i as int + 1, n as int);
                    }
                    return Err(e);
                },
            };
            let checksum = match get_str_field(elem, "checksum") {
                Ok(o) => o,
                Err(e) => {
                    proof {
                        lemma_source_elems_none(*st, i as int + 1, n as int);
                    }
                    return Err(e);
                },
            };
            let ghost old_sources = sources@;
            sources.push(RawSource { url, checksum });
            proof {
                assert(sources_view(sources@) =~= sources_view(old_sources).push(
                    sources@.last()@,
                ));
            }
            i += 1;
        }
    }
    proof {
        assert(spec_sources(*root) == Some(sources_view(sources@)));
    }
    let mut steps: Vec<RawStep> = Vec::new();
    if let Some(st) = item_get(root, "steps") {
        let n = match item_array_len(st) {
            Some(n) => n,
            None => { return Err(missing("steps")); },
        };
        let mut i: usize = 0;
        while i < n
            invariant
                0 <= i <= n,
                steps@.len() == i,
                step_elems(*st, i as int) == Some(steps_view(steps@)),
            decreases n - i,
        {
            let elem = match item_index(st, i) {
                Some(e) => e,
                None => {
                    proof {
                        lemma_step_elems_none(*st, i as int + 1, n as int);
                    }
                    return Err(missing("steps"));
                },
            };
            let name = match get_str_field(elem, "name") {
                Ok(o) => o,
                Err(e) => {
                    proof {
                        lemma_step_elems_none(*st, i as int + 1, n as int);
                    }
                    return Err(e);
                },
            };
            let runner = match get_str_field(elem, "runner") {
                Ok(o) => o,
                Err(e) => {
                    proof {
                        lemma_step_elems_none(*st, i as int + 1, n as int);
                    }
                    return Err(e);
                },
            };
            let command = match get_str_field(elem, "command") {
                Ok(o) => o,
                Err(e) => {
                    proof {
                        lemma_step_elems_none(*st, i as int + 1, n as int);
                    }
                    return Err(e);
                },
            };
            let path = match get_str_field(elem, "path") {
                Ok(o) => o,
                Err(e) => {
                    proof {
                        lemma_step_elems_none(*st, i as int + 1, n as int);
                    }
                    return Err(e);
                },
            };
            let ghost old_steps = steps@;
            steps.push(RawStep { name, runner, command, path });
            proof {
                assert(steps_view(steps@) =~= steps_view(old_steps).push(steps@.last()@));
            }
            i += 1;
        }
    }
    proof {
        assert(spec_steps(*root) == Some(steps_view(steps@)));
    }
    let mut directories: Vec<(String, String)> = Vec::new();
    let mut dirs_present = false;
    if let Some(dt) = item_get(root, "directories") {
        dirs_present = true;
        let keys = match item_table_keys(dt) {
            Some(ks) => ks,
            None => { return Err(missing("directories")); },
        };
        let ghost ksv = keys.deep_view();
        let mut i: usize = 0;
        while i < keys.len()
            invariant
                0 <= i <= keys.len(),
                directories@.len() == i,
                dir_elems(*dt, ksv, i as int) == Some(dirs_view(directories@)),
                forall|k: int| 0 <= k < i ==> (#[trigger] directories@[k]).0@ == ksv[k],
            decreases keys.len() - i,
        {
            let key = keys[i].clone();
            proof {
                assert(key@ == ksv[i as int]);
            }
            let value = match item_get(dt, key.as_str()) {
                None => {
                    proof {
                        lemma_dir_elems_none(*dt, ksv, i as int + 1, ksv.len() as int);
                    }
                    return Err(missing("directories"));
                },
                Some(it) => match item_str(it) {
                    Some(s) => s,
                    None => {
                        proof {
                            lemma_dir_elems_none(*dt, ksv, i as int + 1, ksv.len() as int);
                        }
                        return Err(missing("directories"));
                    },
                },
            };
            let ghost old_dirs = directories@;
            directories.push((key, value));
            proof {
                assert(dirs_view(directories@) =~= dirs_view(old_dirs).push(
                    (directories@.last().0@, directories@.last().1@),
                ));
            }
            i += 1;
        }
        proof {
            assert forall|a: int, b: int|
                0 <= a < b < dirs_view(directories@).len() implies (#[trigger] dirs_view(
                directories@,
            )[a]).0 != (#[trigger] dirs_view(directories@)[b]).0 by {
                assert(dirs_view(directories@)[a].0 == directories@[a].0@);
                assert(dirs_view(directories@)[b].0 == directories@[b].0@);
                assert(keys@[a]@ != keys@[b]@);
                assert(ksv[a] == keys@[a]@ && ksv[b] == keys@[b]@);
            }
        }
    }
    proof {
        if !dirs_present {
            assert(dirs_view(directories@) =~= Seq::<(Seq<char>, Seq<char>)>::empty());
        }
        assert(spec_directories(*root) == Some(dirs_view(directories@)));
        assert(distinct_keys(dirs_view(directories@)));
    }
    let raw = RawManifest { info, dependencies, sources, steps, directories };
    proof {
        assert(Some(raw@) == spec_extract(*root));
    }
    Ok(raw)
}

impl Package {
    /// Parse manifest text: deserialize the TOML shape, enforce the schema,
    /// and resolve `%{...}` variables in every source url, command and move
    /// path against the manifest's own `version` and the given staging
    /// directory path `pkgdir`. Succeeds exactly when the text parses as
    /// TOML, fits the manifest shape, carries a valid SPDX license, and
    /// every placeholder is defined.
    pub fn parse(s: &str, pkgdir: &str) -> (r: Result<Package, ParseError>)
        ensures
            r is Ok <==> ({
                &&& toml_parses(s@)
                &&& spec_extract(toml_root(s@)) matches Some(rv)
                &&& raw_ok(rv, pkgdir@)
            }),
            r matches Ok(p) ==> package_built(p, spec_extract(toml_root(s@))->Some_0, pkgdir@)
                && distinct_keys(dirs_view(p.directories@)) && spdx_valid(p.info.license@)
                && p.info.name@.len() > 0 && p.info.version@.len() > 0,
            !toml_parses(s@) ==> r matches Err(ParseError::Format(_)),
            toml_parses(s@) && spec_extract(toml_root(s@)) is None ==> r matches Err(
                ParseError::Format(_),
            ),
            ({
                &&& toml_parses(s@)
                &&& spec_extract(toml_root(s@)) matches Some(rv)
                &&& !info_complete(rv.info)
            }) ==> r matches Err(ParseError::Format(_)),
            r matches Err(ParseError::License(l)) ==> !spdx_valid(l@),
            r matches Err(ParseError::Variable(n)) ==> n@ != "version"@ && n@ != "pkgdir"@
                && names_a_placeholder(spec_extract(toml_root(s@))->Some_0, n@),
    {
        let root = match parse_toml(s) {
            Ok(root) => root,
            Err(m) => { return Err(ParseError::Format(m)); },
        };
        let raw = match extract_manifest(&root) {
            Ok(raw) => raw,
            Err(e) => { return Err(e); },
        };
        match build_package(raw, pkgdir) {
            Ok(p) => Ok(p),
            Err(e) => Err(e),
        }
    }
}

} // verus!
