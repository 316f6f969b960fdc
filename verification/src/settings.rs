//! The settings of the program.
use crate::failure::{failure, Failure};
use crate::identifier;
use crate::identifier::validate_catalog;
use crate::init_db;
use crate::paths;
use crate::report;
use crate::report::{no_lines, say, warn, Line, LineView};
use crate::system_info;
use crate::system_info::{
    estimate_ram_usage, format_bytes, threads_per_instance, ResolvedEmbeddingConfig,
};
use crate::text;
use vstd::prelude::*;

verus! {

/// Bytes that are sent at once, where nothing else is set: 30 MB.
pub const DEFAULT_MAX_UPLOAD_BYTES: usize = 30 * 1024 * 1024;

/// The only type of catalog that is supported.
pub const MONOREPO: &'static str = "monorepo";

/// Settings of an upload server.
#[derive(Debug)]
pub struct QdrantConfig {
    /// Where the server is.
    pub url: Option<String>,
    /// Name of the collection.
    pub collection: String,
    /// Most bytes that are sent at once.
    pub max_upload_bytes: Option<usize>,
}

impl QdrantConfig {
    /// Most bytes that are sent at once.
    pub fn get_max_upload_bytes(&self) -> (r: usize)
        ensures
            r == match self.max_upload_bytes {
                Some(n) => n,
                None => DEFAULT_MAX_UPLOAD_BYTES,
            },
    {
        match self.max_upload_bytes {
            Some(n) => n,
            None => DEFAULT_MAX_UPLOAD_BYTES,
        }
    }
}

/// Settings of a catalog.
#[derive(Debug)]
pub struct CatalogConfig {
    /// Type of the catalog.
    pub catalog_type: String,
    /// Directory that is crawled.
    pub path: String,
}

/// What a [`CatalogConfig`] stands for.
pub struct CatalogConfigView {
    pub catalog_type: Seq<char>,
    pub path: Seq<char>,
}

impl View for CatalogConfig {
    type V = CatalogConfigView;

    open spec fn view(&self) -> CatalogConfigView {
        CatalogConfigView { catalog_type: self.catalog_type@, path: self.path@ }
    }
}

impl Clone for CatalogConfig {
    fn clone(&self) -> (r: Self)
        ensures
            r@ == self@,
    {
        CatalogConfig { catalog_type: self.catalog_type.clone(), path: self.path.clone() }
    }
}

/// The message for a type of catalog that is not supported.
pub open spec fn unsupported_type(catalog_type: Seq<char>) -> Seq<char> {
    "Unsupported catalog type '"@ + catalog_type + "'. Supported types: "@ + MONOREPO@
}

impl CatalogConfig {
    /// Checks that the type is supported.
    pub fn validate(&self) -> (r: Result<(), Failure>)
        ensures
            match r {
                Ok(_) => self.catalog_type@ == MONOREPO@,
                Err(e) => self.catalog_type@ != MONOREPO@ && e@ == unsupported_type(
                    self.catalog_type@,
                ),
            },
    {
        if !text::same(self.catalog_type.as_str(), MONOREPO) {
            let mut message = text::around(
                "Unsupported catalog type '",
                self.catalog_type.as_str(),
                "'. Supported types: ",
            );
            message.append(MONOREPO);
            return Err(failure(message));
        }
        Ok(())
    }
}

/// A number that is given, or left to be chosen.
#[derive(Debug, Clone, Copy, PartialEq, Eq, Structural)]
pub enum EmbeddingSizeValue {
    Auto,
    Exact(usize),
}

impl EmbeddingSizeValue {
    /// The value that a word stands for.
    pub fn from_text(s: &str) -> (r: Result<EmbeddingSizeValue, Failure>)
        ensures
            match r {
                Ok(v) => s@ == "auto"@ && v == EmbeddingSizeValue::Auto,
                Err(e) => s@ != "auto"@ && e@ == "expected \"auto\" or an integer >= 1"@,
            },
    {
        if text::same(s, "auto") {
            Ok(EmbeddingSizeValue::Auto)
        } else {
            Err(failure("expected \"auto\" or an integer >= 1".to_owned()))
        }
    }

    /// The value that a number stands for.
    pub fn from_u64(v: u64) -> (r: Result<EmbeddingSizeValue, Failure>)
        ensures
            match r {
                Ok(x) => v >= 1 && x == EmbeddingSizeValue::Exact(v as usize),
                Err(e) => v == 0 && e@ == "integer must be >= 1"@,
            },
    {
        if v >= 1 {
            Ok(EmbeddingSizeValue::Exact(v as usize))
        } else {
            Err(failure("integer must be >= 1".to_owned()))
        }
    }

    /// The value that a signed number stands for.
    pub fn from_i64(v: i64) -> (r: Result<EmbeddingSizeValue, Failure>)
        ensures
            match r {
                Ok(x) => v >= 1 && x == EmbeddingSizeValue::Exact(v as usize),
                Err(e) => v < 1 && e@ == "integer must be >= 1"@,
            },
    {
        if v >= 1 {
            Ok(EmbeddingSizeValue::Exact(v as usize))
        } else {
            Err(failure("integer must be >= 1".to_owned()))
        }
    }
}

/// Settings of the embedding model.
#[derive(Debug, Clone, Copy)]
pub struct EmbeddingModelConfig {
    /// Number of model instances.
    pub model_instances: EmbeddingSizeValue,
    /// Threads of each instance.
    pub threads_per_instance: EmbeddingSizeValue,
}

impl Default for EmbeddingModelConfig {
    fn default() -> (r: Self)
        ensures
            r.model_instances == EmbeddingSizeValue::Auto,
            r.threads_per_instance == EmbeddingSizeValue::Auto,
    {
        EmbeddingModelConfig {
            model_instances: EmbeddingSizeValue::Auto,
            threads_per_instance: EmbeddingSizeValue::Auto,
        }
    }
}

/// The settings of the program.
#[derive(Debug)]
pub struct Config {
    /// Settings of an upload server.
    pub qdrant: QdrantConfig,
    /// The catalogs with their names.
    pub catalogs: Vec<(String, CatalogConfig)>,
    /// Settings of the embedding model.
    pub embedding_model: EmbeddingModelConfig,
    /// Directory of the database, where one is set.
    pub database_path: Option<String>,
}

/// What named catalogs stand for.
pub open spec fn catalog_views(catalogs: Seq<(String, CatalogConfig)>) -> Seq<
    (Seq<char>, CatalogConfigView),
> {
    catalogs.map_values(|c: (String, CatalogConfig)| (c.0@, c.1@))
}

/// The first catalog with a name, from a position on.
pub open spec fn catalog_named(
    catalogs: Seq<(Seq<char>, CatalogConfigView)>,
    name: Seq<char>,
    from: int,
) -> Option<CatalogConfigView>
    decreases catalogs.len() - from,
{
    if from >= catalogs.len() {
        None
    } else if catalogs[from].0 == name {
        Some(catalogs[from].1)
    } else {
        catalog_named(catalogs, name, from + 1)
    }
}

/// Position of the first catalog with a name.
pub fn find_catalog(catalogs: &Vec<(String, CatalogConfig)>, name: &str) -> (r: Option<usize>)
    ensures
        match r {
            Some(k) => k < catalogs@.len() && catalog_named(
                catalog_views(catalogs@),
                name@,
                0,
            ) == Some(catalogs@[k as int].1@),
            None => catalog_named(catalog_views(catalogs@), name@, 0) is None,
        },
{
    let n: usize = catalogs.len();
    let ghost all = catalog_views(catalogs@);
    for i in 0..n
        invariant
            n == catalogs@.len(),
            all == catalog_views(catalogs@),
            catalog_named(all, name@, i as int) == catalog_named(all, name@, 0),
    {
        assert(all[i as int] == (catalogs@[i as int].0@, catalogs@[i as int].1@));
        if text::same(catalogs[i].0.as_str(), name) {
            return Some(i);
        }
    }
    None
}

/// What is wrong with a catalog, if something is.
pub open spec fn catalog_fault(name: Seq<char>, catalog: CatalogConfigView) -> Option<Seq<char>> {
    match identifier::catalog_error(name) {
        Some(e) => Some("Invalid catalog name '"@ + name + "' in config: "@ + e.shown()),
        None => if catalog.catalog_type != MONOREPO@ {
            Some("Invalid catalog '"@ + name + "': "@ + unsupported_type(catalog.catalog_type))
        } else {
            None
        },
    }
}

/// What is wrong with the first faulty catalog from the given one on.
pub open spec fn catalogs_fault(
    catalogs: Seq<(Seq<char>, CatalogConfigView)>,
    from: int,
) -> Option<Seq<char>>
    decreases catalogs.len() - from,
{
    if from >= catalogs.len() {
        None
    } else {
        match catalog_fault(catalogs[from].0, catalogs[from].1) {
            Some(e) => Some(e),
            None => catalogs_fault(catalogs, from + 1),
        }
    }
}

fn check_catalog(name: &str, catalog: &CatalogConfig) -> (r: Result<(), Failure>)
    ensures
        match r {
            Ok(_) => catalog_fault(name@, catalog@) is None,
            Err(e) => catalog_fault(name@, catalog@) == Some(e@),
        },
{
    if let Err(e) = validate_catalog(name) {
        let mut message = text::around("Invalid catalog name '", name, "' in config: ");
        message.append(e.to_string().as_str());
        return Err(failure(message));
    }
    if let Err(e) = catalog.validate() {
        let mut message = text::around("Invalid catalog '", name, "': ");
        message.append(e.message.as_str());
        return Err(failure(message));
    }
    Ok(())
}

impl Config {
    /// Checks the names and the types of the catalogs.
    pub fn validate(&self) -> (r: Result<(), Failure>)
        ensures
            match r {
                Ok(_) => catalogs_fault(catalog_views(self.catalogs@), 0) is None,
                Err(e) => catalogs_fault(catalog_views(self.catalogs@), 0) == Some(e@),
            },
    {
        let n: usize = self.catalogs.len();
        let ghost all = catalog_views(self.catalogs@);
        for i in 0..n
            invariant
                n == self.catalogs@.len(),
                all == catalog_views(self.catalogs@),
                catalogs_fault(all, i as int) == catalogs_fault(all, 0),
        {
            let entry = &self.catalogs[i];
            assert(all[i as int] == (entry.0@, entry.1@));
            check_catalog(entry.0.as_str(), &entry.1)?;
        }
        Ok(())
    }
}

/// The directory of the database: the one that is set, or else the one in the tool's home.
pub open spec fn database_path(set: Option<Seq<char>>, tool_home: Seq<char>) -> Seq<char> {
    match set {
        Some(path) => path,
        None => paths::joined(tool_home, init_db::DEFAULT_DATABASE@),
    }
}

/// The directory of the database, see [`database_path`].
pub fn resolve_database_path(config: &Config, tool_home: &str) -> (r: String)
    ensures
        r@ == database_path(text::view_opt(config.database_path), tool_home@),
{
    match &config.database_path {
        Some(path) => path.clone(),
        None => paths::join_path(tool_home, init_db::DEFAULT_DATABASE),
    }
}

/// Where no directory is set for the database, it can be made whatever exists: its parent is
/// the tool's home.
pub proof fn default_database_needs_no_parent(tool_home: Seq<char>, parent_exists: bool)
    ensures
        init_db::is_default(database_path(None, tool_home), tool_home),
        !init_db::lacks_parent(database_path(None, tool_home), tool_home, parent_exists),
{
    reveal_strlit("default-db");
    reveal_strlit(".");
    paths::joining_adds_a_component(tool_home, init_db::DEFAULT_DATABASE@);
}

/// Settings are accepted exactly where every catalog has a valid name and a supported type.
pub proof fn accepted_catalogs(catalogs: Seq<(Seq<char>, CatalogConfigView)>)
    ensures
        catalogs_fault(catalogs, 0) is None <==> (forall|i: int|
            0 <= i < catalogs.len() ==> {
                &&& identifier::catalog_error(#[trigger] catalogs[i].0) is None
                &&& catalogs[i].1.catalog_type == MONOREPO@
            }),
{
    lemma_accepted_from(catalogs, 0);
}

proof fn lemma_accepted_from(catalogs: Seq<(Seq<char>, CatalogConfigView)>, from: int)
    requires
        0 <= from <= catalogs.len(),
    ensures
        catalogs_fault(catalogs, from) is None <==> (forall|i: int|
            from <= i < catalogs.len() ==> {
                &&& identifier::catalog_error(#[trigger] catalogs[i].0) is None
                &&& catalogs[i].1.catalog_type == MONOREPO@
            }),
    decreases catalogs.len() - from,
{
    if from < catalogs.len() {
        lemma_accepted_from(catalogs, from + 1);
        let fault = catalog_fault(catalogs[from].0, catalogs[from].1);
    }
}

/// The choice for one instance, where nothing is known of the machine's memory.
pub open spec fn fallback(threads: usize) -> ResolvedEmbeddingConfig {
    ResolvedEmbeddingConfig {
        model_instances: 1,
        threads_per_instance: threads,
        total_ram: 0,
        available_ram: 0,
        estimated_ram_usage: system_info::ram_usage(1) as u64,
        cgroup_limited: false,
    }
}

/// A choice that was given, with what is known of the machine's memory.
pub open spec fn given(
    instances: usize,
    threads: usize,
    detected: Result<ResolvedEmbeddingConfig, String>,
) -> ResolvedEmbeddingConfig {
    ResolvedEmbeddingConfig {
        model_instances: instances,
        threads_per_instance: threads,
        total_ram: match detected {
            Ok(d) => d.total_ram,
            Err(_) => 0,
        },
        available_ram: match detected {
            Ok(d) => d.available_ram,
            Err(_) => 0,
        },
        estimated_ram_usage: system_info::ram_usage(instances as int) as u64,
        cgroup_limited: match detected {
            Ok(d) => d.cgroup_limited,
            Err(_) => false,
        },
    }
}

/// What the settings of the model come to. What is given is kept; of the rest, `detected` is
/// what was chosen for the machine, or why nothing was.
pub open spec fn resolved(
    config: EmbeddingModelConfig,
    detected: Result<ResolvedEmbeddingConfig, String>,
    physical_cores: usize,
    logical_cores: usize,
) -> ResolvedEmbeddingConfig {
    match (config.model_instances, config.threads_per_instance) {
        (EmbeddingSizeValue::Auto, EmbeddingSizeValue::Auto) => match detected {
            Ok(d) => d,
            Err(_) => fallback(logical_cores),
        },
        (EmbeddingSizeValue::Auto, EmbeddingSizeValue::Exact(threads)) => match detected {
            Ok(d) => ResolvedEmbeddingConfig { threads_per_instance: threads, ..d },
            Err(_) => fallback(threads),
        },
        (EmbeddingSizeValue::Exact(instances), EmbeddingSizeValue::Auto) => given(
            instances,
            system_info::threads_for(physical_cores as int, instances as int) as usize,
            detected,
        ),
        (EmbeddingSizeValue::Exact(instances), EmbeddingSizeValue::Exact(threads)) => given(
            instances,
            threads,
            detected,
        ),
    }
}

/// What is said where nothing was chosen for the machine.
pub open spec fn fallback_lines(reason: Seq<char>, threads: usize) -> Seq<LineView> {
    seq![
        LineView::Warning("Warning: Failed to auto-detect embedding config: "@ + reason),
        LineView::Warning(
            "Using fallback: 1 instance × "@ + text::decimal(threads as nat) + " threads"@,
        ),
    ]
}

/// What is said of what the settings of the model come to.
pub open spec fn resolution_lines(
    config: EmbeddingModelConfig,
    detected: Result<ResolvedEmbeddingConfig, String>,
    physical_cores: usize,
    logical_cores: usize,
) -> Seq<LineView> {
    match (config.model_instances, config.threads_per_instance) {
        (EmbeddingSizeValue::Auto, EmbeddingSizeValue::Auto) => match detected {
            Ok(d) => {
                let first = seq![
                    LineView::Out(
                        "Auto-detected embedding config: "@ + text::decimal(
                            d.model_instances as nat,
                        ) + " instances × "@ + text::decimal(d.threads_per_instance as nat)
                            + " threads"@,
                    ),
                ];
                if d.cgroup_limited {
                    first.push(
                        LineView::Out(
                            "  (Cgroup memory limit detected: "@ + system_info::shown_bytes(
                                d.total_ram,
                            ) + ")"@,
                        ),
                    )
                } else {
                    first
                }
            },
            Err(e) => fallback_lines(e@, logical_cores),
        },
        (EmbeddingSizeValue::Auto, EmbeddingSizeValue::Exact(threads)) => match detected {
            Ok(d) => seq![
                LineView::Out(
                    "Auto-detected model instances: "@ + text::decimal(d.model_instances as nat)
                        + " (using explicit "@ + text::decimal(threads as nat)
                        + " threads/instance)"@,
                ),
            ],
            Err(e) => fallback_lines(e@, threads),
        },
        (EmbeddingSizeValue::Exact(instances), EmbeddingSizeValue::Auto) => seq![
            LineView::Out(
                "Using explicit "@ + text::decimal(instances as nat)
                    + " model instances (auto-detected "@ + text::decimal(
                    system_info::threads_for(physical_cores as int, instances as int) as nat,
                ) + " threads/instance)"@,
            ),
        ],
        (EmbeddingSizeValue::Exact(instances), EmbeddingSizeValue::Exact(threads)) => seq![
            LineView::Out(
                "Using explicit config: "@ + text::decimal(instances as nat) + " instances × "@
                    + text::decimal(threads as nat) + " threads/instance"@,
            ),
        ],
    }
}

fn two_numbers(a: &str, m: usize, b: &str, n: usize, c: &str) -> (r: String)
    ensures
        r@ == a@ + text::decimal(m as nat) + b@ + text::decimal(n as nat) + c@,
{
    let mut out = text::around_number(a, m as u64, b);
    text::push_decimal(&mut out, n as u64);
    out.append(c);
    out
}

fn fall_back(lines: &mut Vec<Line>, reason: &str, threads: usize) -> (r: ResolvedEmbeddingConfig)
    requires
        report::line_views(old(lines)@) == Seq::<LineView>::empty(),
    ensures
        r == fallback(threads),
        report::line_views(final(lines)@) == fallback_lines(reason@, threads),
{
    warn(lines, text::around("Warning: Failed to auto-detect embedding config: ", reason, ""));
    warn(lines, text::around_number("Using fallback: 1 instance × ", threads as u64, " threads"));
    proof {
        let first = "Warning: Failed to auto-detect embedding config: "@ + reason@;
        reveal_strlit("");
        assert(first + ""@ =~= first);
        assert(report::line_views(lines@) =~= fallback_lines(reason@, threads));
    }
    ResolvedEmbeddingConfig {
        model_instances: 1,
        threads_per_instance: threads,
        total_ram: 0,
        available_ram: 0,
        estimated_ram_usage: estimate_ram_usage(1),
        cgroup_limited: false,
    }
}

fn as_given(
    instances: usize,
    threads: usize,
    detected: &Result<ResolvedEmbeddingConfig, String>,
) -> (r: ResolvedEmbeddingConfig)
    ensures
        r == given(instances, threads, *detected),
{
    let (total_ram, available_ram, cgroup_limited) = match detected {
        Ok(d) => (d.total_ram, d.available_ram, d.cgroup_limited),
        Err(_) => (0u64, 0u64, false),
    };
    ResolvedEmbeddingConfig {
        model_instances: instances,
        threads_per_instance: threads,
        total_ram,
        available_ram,
        estimated_ram_usage: estimate_ram_usage(instances),
        cgroup_limited,
    }
}

/// Resolves the settings of the model, given what was chosen for the machine, and says what
/// they come to.
pub fn resolve_embedding_config(
    config: &EmbeddingModelConfig,
    detected: &Result<ResolvedEmbeddingConfig, String>,
    physical_cores: usize,
    logical_cores: usize,
) -> (r: (ResolvedEmbeddingConfig, Vec<Line>))
    requires
        config.threads_per_instance is Auto ==> config.model_instances
            != EmbeddingSizeValue::Exact(0),
    ensures
        r.0 == resolved(*config, *detected, physical_cores, logical_cores),
        report::line_views(r.1@) == resolution_lines(
            *config,
            *detected,
            physical_cores,
            logical_cores,
        ),
{
    let mut lines = no_lines();
    let choice = match (config.model_instances, config.threads_per_instance) {
        (EmbeddingSizeValue::Auto, EmbeddingSizeValue::Auto) => match detected {
            Ok(d) => {
                say(
                    &mut lines,
                    two_numbers(
                        "Auto-detected embedding config: ",
                        d.model_instances,
                        " instances × ",
                        d.threads_per_instance,
                        " threads",
                    ),
                );
                if d.cgroup_limited {
                    say(
                        &mut lines,
                        text::around(
                            "  (Cgroup memory limit detected: ",
                            format_bytes(d.total_ram).as_str(),
                            ")",
                        ),
                    );
                }
                *d
            },
            Err(e) => fall_back(&mut lines, e.as_str(), logical_cores),
        },
        (EmbeddingSizeValue::Auto, EmbeddingSizeValue::Exact(threads)) => match detected {
            Ok(d) => {
                say(
                    &mut lines,
                    two_numbers(
                        "Auto-detected model instances: ",
                        d.model_instances,
                        " (using explicit ",
                        threads,
                        " threads/instance)",
                    ),
                );
                ResolvedEmbeddingConfig { threads_per_instance: threads, ..*d }
            },
            Err(e) => fall_back(&mut lines, e.as_str(), threads),
        },
        (EmbeddingSizeValue::Exact(instances), EmbeddingSizeValue::Auto) => {
            let threads: usize = threads_per_instance(physical_cores, instances);
            say(
                &mut lines,
                two_numbers(
                    "Using explicit ",
                    instances,
                    " model instances (auto-detected ",
                    threads,
                    " threads/instance)",
                ),
            );
            as_given(instances, threads, detected)
        },
        (EmbeddingSizeValue::Exact(instances), EmbeddingSizeValue::Exact(threads)) => {
            say(
                &mut lines,
                two_numbers(
                    "Using explicit config: ",
                    instances,
                    " instances × ",
                    threads,
                    " threads/instance",
                ),
            );
            as_given(instances, threads, detected)
        },
    };
    assert(report::line_views(lines@) =~= resolution_lines(
        *config,
        *detected,
        physical_cores,
        logical_cores,
    ));
    (choice, lines)
}

/// What is said of the memory that embedding is expected to take. `excess` is by how many
/// percent that is more than is available, in words.
pub open spec fn memory_lines(resolved: ResolvedEmbeddingConfig, excess: Seq<char>) -> Seq<LineView> {
    if resolved.available_ram == 0 {
        seq![LineView::Warning("Warning: Could not get memory info for warning check"@)]
    } else {
        let usage = seq![
            LineView::Out(
                "Currently available system RAM: "@ + system_info::shown_bytes(
                    resolved.available_ram,
                ),
            ),
            LineView::Out(
                "Estimated embedding RAM usage: "@ + system_info::shown_bytes(
                    resolved.estimated_ram_usage,
                ) + " ("@ + text::decimal(resolved.model_instances as nat) + (
                if resolved.model_instances > 1 {
                    " instances)"@
                } else {
                    " instance)"@
                }),
            ),
        ];
        if resolved.estimated_ram_usage > resolved.available_ram {
            usage + seq![
                LineView::Warning(""@),
                LineView::Warning(
                    "🚨 Warning: estimate exceeds available RAM by "@ + excess + "%."@,
                ),
                LineView::Warning(
                    "   Consider adjusting \"embeddingModel.modelInstances\" or"@,
                ),
                LineView::Warning(
                    "   \"embeddingModel.threadsPerInstance\" in config.json"@,
                ),
                LineView::Warning("   Suggestion: start with modelInstances = 1"@),
            ]
        } else {
            usage
        }
    }
}

/// Says how much memory is available and needed, and warns where it is too little.
pub fn print_memory_warning(resolved: &ResolvedEmbeddingConfig, excess: &str) -> (r: Vec<Line>)
    ensures
        report::line_views(r@) == memory_lines(*resolved, excess@),
{
    let mut lines = no_lines();
    if resolved.available_ram == 0 {
        warn(&mut lines, "Warning: Could not get memory info for warning check".to_owned());
        assert(report::line_views(lines@) =~= memory_lines(*resolved, excess@));
        return lines;
    }
    let mut available = "Currently available system RAM: ".to_owned();
    available.append(format_bytes(resolved.available_ram).as_str());
    say(&mut lines, available);
    let mut needed = text::around(
        "Estimated embedding RAM usage: ",
        format_bytes(resolved.estimated_ram_usage).as_str(),
        " (",
    );
    text::push_decimal(&mut needed, resolved.model_instances as u64);
    if resolved.model_instances > 1 {
        needed.append(" instances)");
    } else {
        needed.append(" instance)");
    }
    say(&mut lines, needed);
    if resolved.estimated_ram_usage > resolved.available_ram {
        warn(&mut lines, "".to_owned());
        warn(
            &mut lines,
            text::around("🚨 Warning: estimate exceeds available RAM by ", excess, "%."),
        );
        warn(
            &mut lines,
            "   Consider adjusting \"embeddingModel.modelInstances\" or".to_owned(),
        );
        warn(&mut lines, "   \"embeddingModel.threadsPerInstance\" in config.json".to_owned());
        warn(&mut lines, "   Suggestion: start with modelInstances = 1".to_owned());
    }
    assert(report::line_views(lines@) =~= memory_lines(*resolved, excess@));
    lines
}

/// A number that is given is kept, whatever is found out about the machine.
pub proof fn given_numbers_are_kept(
    config: EmbeddingModelConfig,
    detected: Result<ResolvedEmbeddingConfig, String>,
    physical_cores: usize,
    logical_cores: usize,
)
    ensures
        config.model_instances matches EmbeddingSizeValue::Exact(n) ==> resolved(
            config,
            detected,
            physical_cores,
            logical_cores,
        ).model_instances == n,
        config.threads_per_instance matches EmbeddingSizeValue::Exact(n) ==> resolved(
            config,
            detected,
            physical_cores,
            logical_cores,
        ).threads_per_instance == n,
{
}

/// A catalog is found exactly if one of that name is set, and the first one of that name is it.
pub proof fn known_catalogs_are_found(
    catalogs: Seq<(Seq<char>, CatalogConfigView)>,
    name: Seq<char>,
    from: int,
)
    requires
        0 <= from <= catalogs.len(),
    ensures
        catalog_named(catalogs, name, from) is Some <==> exists|i: int|
            from <= i < catalogs.len() && (#[trigger] catalogs[i]).0 == name,
        catalog_named(catalogs, name, from) matches Some(c) ==> exists|i: int|
            {
                &&& from <= i < catalogs.len()
                &&& (#[trigger] catalogs[i]).0 == name
                &&& catalogs[i].1 == c
                &&& forall|j: int| from <= j < i ==> (#[trigger] catalogs[j]).0 != name
            },
    decreases catalogs.len() - from,
{
    if from < catalogs.len() && catalogs[from].0 != name {
        known_catalogs_are_found(catalogs, name, from + 1);
        if let Some(c) = catalog_named(catalogs, name, from + 1) {
            let i = choose|i: int|
                {
                    &&& from + 1 <= i < catalogs.len()
                    &&& (#[trigger] catalogs[i]).0 == name
                    &&& catalogs[i].1 == c
                    &&& forall|j: int| from + 1 <= j < i ==> (#[trigger] catalogs[j]).0 != name
                };
            assert(catalogs[i].0 == name);
        }
    } else if from < catalogs.len() {
        assert(catalogs[from].0 == name);
    }
}

/// The database lies where it is set to, or else in the directory `default-db` of the tool's home.
pub proof fn database_lies_where_it_is_set(path: Seq<char>, tool_home: Seq<char>)
    requires
        tool_home.len() > 0,
        tool_home.last() != '/',
    ensures
        database_path(Some(path), tool_home) == path,
        database_path(None, tool_home) == tool_home + seq!['/'] + "default-db"@,
{
}

/// What is left to be chosen is what was chosen for the machine; where nothing was, one instance
/// runs with as many threads as are given, or as there are logical cores. An instance for each
/// number that is given shares the physical cores.
pub proof fn open_numbers_are_chosen(
    detected: ResolvedEmbeddingConfig,
    reason: String,
    instances: usize,
    threads: usize,
    physical_cores: usize,
    logical_cores: usize,
)
    ensures
        ({
            let auto = EmbeddingSizeValue::Auto;
            let both = EmbeddingModelConfig { model_instances: auto, threads_per_instance: auto };
            let some_threads = EmbeddingModelConfig {
                model_instances: auto,
                threads_per_instance: EmbeddingSizeValue::Exact(threads),
            };
            let some_instances = EmbeddingModelConfig {
                model_instances: EmbeddingSizeValue::Exact(instances),
                threads_per_instance: auto,
            };
            let (p, l) = (physical_cores, logical_cores);
            let none: Result<ResolvedEmbeddingConfig, String> = Err(reason);
            &&& resolved(both, Ok(detected), p, l) == detected
            &&& resolved(both, none, p, l).model_instances == 1
            &&& resolved(both, none, p, l).threads_per_instance == logical_cores
            &&& resolved(some_threads, Ok(detected), p, l).model_instances
                == detected.model_instances
            &&& resolved(some_threads, none, p, l).model_instances == 1
            &&& resolved(some_instances, Ok(detected), p, l).threads_per_instance
                == system_info::threads_for(physical_cores as int, instances as int) as usize
            &&& resolved(some_instances, Ok(detected), p, l).available_ram
                == detected.available_ram
            &&& resolved(some_instances, Ok(detected), p, l).total_ram == detected.total_ram
            &&& resolved(some_instances, none, p, l).available_ram == 0
        }),
{
}

/// There is a warning exactly if the estimate exceeds what is available, or it is not known what
/// is.
pub proof fn memory_is_warned_of(r: ResolvedEmbeddingConfig, excess: Seq<char>)
    ensures
        (exists|i: int|
            0 <= i < memory_lines(r, excess).len() && (#[trigger] memory_lines(r, excess)[i])
                is Warning) <==> r.available_ram == 0 || r.estimated_ram_usage > r.available_ram,
{
    let lines = memory_lines(r, excess);
    if r.available_ram == 0 {
        assert(lines[0] is Warning);
    } else if r.estimated_ram_usage > r.available_ram {
        assert(lines[2] is Warning);
    } else {
        assert(lines.len() == 2 && lines[0] is Out && lines[1] is Out);
    }
}

}
