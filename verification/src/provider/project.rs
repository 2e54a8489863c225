//! A project and its lifecycle: language, graph, dependencies, queries.

use crate::c_sharp_graph::graph::{Graph, GraphModel};
use crate::c_sharp_graph::language_config::{builtins_model, SourceNodeLanguageConfiguration};
use crate::c_sharp_graph::loader::SourceType;
use crate::provider::dependency_resolution::Dependencies;
use vstd::prelude::*;

verus! {

/// Whether queries report incidents in dependencies too.
#[derive(Debug, Clone, Copy, PartialEq, Eq, Structural)]
pub enum AnalysisMode {
    Full,
    SourceOnly,
}

/// The mode that a text names: `source-only` is source-only, anything else
/// is full.
pub open spec fn analysis_mode_of(value: Seq<char>) -> AnalysisMode {
    if value == "source-only"@ {
        AnalysisMode::SourceOnly
    } else {
        AnalysisMode::Full
    }
}

impl AnalysisMode {
    /// Reads a mode from its name.
    pub fn parse(value: &str) -> (mode: AnalysisMode)
        ensures
            mode == analysis_mode_of(value@),
    {
        proof {
            reveal_strlit("full");
            reveal_strlit("source-only");
            assert("full"@.len() != "source-only"@.len());
        }
        if *value == *"full" {
            AnalysisMode::Full
        } else if *value == *"source-only" {
            AnalysisMode::SourceOnly
        } else {
            AnalysisMode::Full
        }
    }
}

impl From<&str> for AnalysisMode {
    fn from(value: &str) -> (mode: AnalysisMode) {
        AnalysisMode::parse(value)
    }
}

impl vstd::std_specs::convert::FromSpecImpl<&str> for AnalysisMode {
    open spec fn obeys_from_spec() -> bool {
        true
    }

    open spec fn from_spec(value: &str) -> AnalysisMode {
        analysis_mode_of(value@)
    }
}

impl From<&String> for AnalysisMode {
    fn from(value: &String) -> (mode: AnalysisMode) {
        AnalysisMode::parse(value.as_str())
    }
}

impl vstd::std_specs::convert::FromSpecImpl<&String> for AnalysisMode {
    open spec fn obeys_from_spec() -> bool {
        true
    }

    open spec fn from_spec(value: &String) -> AnalysisMode {
        analysis_mode_of(value@)
    }
}

impl From<String> for AnalysisMode {
    fn from(value: String) -> (mode: AnalysisMode) {
        AnalysisMode::parse(value.as_str())
    }
}

impl vstd::std_specs::convert::FromSpecImpl<String> for AnalysisMode {
    open spec fn obeys_from_spec() -> bool {
        true
    }

    open spec fn from_spec(value: String) -> AnalysisMode {
        analysis_mode_of(value@)
    }
}

/// Where the two outside programs are found.
#[derive(Debug, Clone, PartialEq, Eq)]
pub struct Tools {
    /// The decompiler.
    pub ilspy_cmd: String,
    /// The package manager.
    pub paket_cmd: String,
}

/// One value of the provider's configuration, by its kind. Only a text can
/// name a tool.
#[derive(Debug, Clone, PartialEq, Eq)]
pub enum ConfigValue {
    /// A value without a kind.
    Unset,
    Null,
    Number,
    Text(String),
    Bool,
    Struct,
    List,
}

/// One named field of the provider's configuration.
#[derive(Debug, Clone, PartialEq, Eq)]
pub struct ConfigField {
    pub name: String,
    pub value: ConfigValue,
}

/// What a lookup on the search path found for each tool, if anything.
#[derive(Debug, Clone, PartialEq, Eq)]
pub struct ToolLookup {
    pub ilspy: Option<String>,
    pub paket: Option<String>,
}

/// Why the tools could not be determined.
#[derive(Debug, Clone, Copy, PartialEq, Eq, Structural)]
pub enum ToolsError {
    /// The configured decompiler is no text.
    InvalidIlspyCmd,
    /// The configured package manager is no text.
    InvalidPaketCmd,
    /// No decompiler is configured and none is on the search path.
    IlspyNotFound,
    /// No package manager is configured and none is on the search path.
    PaketNotFound,
}

/// The key under which the decompiler is configured.
pub const ILSPY_CMD_LOC_KEY: &'static str = "ilspy_cmd";

/// The key under which the package manager is configured.
pub const PAKET_CMD_LOC_KEY: &'static str = "paket_cmd";

/// The name under which the decompiler is looked up.
pub const ILSPY_CMD: &'static str = "ilspy";

/// The name under which the package manager is looked up.
pub const PAKET_CMD: &'static str = "paket";

/// A value's kind and text as mathematical values.
pub enum ConfigValueModel {
    Unset,
    Null,
    Number,
    Text(Seq<char>),
    Bool,
    Struct,
    List,
}

impl View for ConfigValue {
    type V = ConfigValueModel;

    open spec fn view(&self) -> ConfigValueModel {
        match self {
            ConfigValue::Unset => ConfigValueModel::Unset,
            ConfigValue::Null => ConfigValueModel::Null,
            ConfigValue::Number => ConfigValueModel::Number,
            ConfigValue::Text(t) => ConfigValueModel::Text(t@),
            ConfigValue::Bool => ConfigValueModel::Bool,
            ConfigValue::Struct => ConfigValueModel::Struct,
            ConfigValue::List => ConfigValueModel::List,
        }
    }
}

/// The value of the last field called `key`, if there is one. A later field
/// replaces an earlier one of the same name.
pub open spec fn field_value(fields: Seq<ConfigField>, key: Seq<char>) -> Option<ConfigValueModel>
    decreases fields.len(),
{
    if fields.len() == 0 {
        None
    } else if fields.last().name@ == key {
        Some(fields.last().value@)
    } else {
        field_value(fields.drop_last(), key)
    }
}

/// Where one tool is found: in the configured text where the key is set, on
/// the search path where it is not. A configured value that is no text is
/// an error.
pub open spec fn tool_path(
    configured: Option<ConfigValueModel>,
    found: Option<Seq<char>>,
    invalid: ToolsError,
    missing: ToolsError,
) -> Result<Seq<char>, ToolsError> {
    match configured {
        Some(ConfigValueModel::Text(t)) => Ok(t),
        Some(_) => Err(invalid),
        None => match found {
            Some(p) => Ok(p),
            None => Err(missing),
        },
    }
}

/// The tools of a configuration: the decompiler is determined first, then
/// the package manager, and the first failure is the one reported.
pub open spec fn tools_of(fields: Option<Seq<ConfigField>>, lookup: ToolLookup) -> Result<
    (Seq<char>, Seq<char>),
    ToolsError,
> {
    let ilspy_set = match fields {
        Some(f) => field_value(f, ILSPY_CMD_LOC_KEY@),
        None => None,
    };
    let paket_set = match fields {
        Some(f) => field_value(f, PAKET_CMD_LOC_KEY@),
        None => None,
    };
    match tool_path(
        ilspy_set,
        crate::c_sharp_graph::query::opt_view(lookup.ilspy),
        ToolsError::InvalidIlspyCmd,
        ToolsError::IlspyNotFound,
    ) {
        Err(e) => Err(e),
        Ok(ilspy) => match tool_path(
            paket_set,
            crate::c_sharp_graph::query::opt_view(lookup.paket),
            ToolsError::InvalidPaketCmd,
            ToolsError::PaketNotFound,
        ) {
            Err(e) => Err(e),
            Ok(paket) => Ok((ilspy, paket)),
        },
    }
}

/// The outcome of determining the tools as a mathematical value.
pub open spec fn tools_outcome(res: Result<Tools, ToolsError>) -> Result<
    (Seq<char>, Seq<char>),
    ToolsError,
> {
    match res {
        Ok(t) => Ok((t.ilspy_cmd@, t.paket_cmd@)),
        Err(e) => Err(e),
    }
}

/// The value of the last field called `key`, if there is one.
fn find_field<'a>(fields: &'a Vec<ConfigField>, key: &str) -> (found: Option<&'a ConfigValue>)
    ensures
        match found {
            Some(v) => field_value(fields@, key@) == Some(v@),
            None => field_value(fields@, key@) is None,
        },
{
    let mut i: usize = fields.len();
    assert(fields@.take(i as int) =~= fields@);
    while i > 0
        invariant
            0 <= i <= fields@.len(),
            field_value(fields@, key@) == field_value(fields@.take(i as int), key@),
        decreases i,
    {
        proof {
            assert(fields@.take(i as int).drop_last() =~= fields@.take(i - 1));
            assert(fields@.take(i as int).last() == fields@[i - 1]);
        }
        i -= 1;
        if *fields[i].name.as_str() == *key {
            return Some(&fields[i].value);
        }
    }
    proof {
        assert(fields@.take(0).len() == 0);
    }
    None
}

/// Where one tool is found.
fn pick_tool(
    configured: Option<&ConfigValue>,
    found: &Option<String>,
    invalid: ToolsError,
    missing: ToolsError,
) -> (res: Result<String, ToolsError>)
    ensures
        match res {
            Ok(p) => tool_path(
                match configured {
                    Some(v) => Some(v@),
                    None => None,
                },
                crate::c_sharp_graph::query::opt_view(*found),
                invalid,
                missing,
            ) == Ok::<_, ToolsError>(p@),
            Err(e) => tool_path(
                match configured {
                    Some(v) => Some(v@),
                    None => None,
                },
                crate::c_sharp_graph::query::opt_view(*found),
                invalid,
                missing,
            ) == Err::<Seq<char>, _>(e),
        },
{
    match configured {
        Some(ConfigValue::Text(t)) => Ok(t.clone()),
        Some(_) => Err(invalid),
        None => match found {
            Some(p) => Ok(p.clone()),
            None => Err(missing),
        },
    }
}

/// Where a project stands in its lifecycle.
#[derive(Debug, Clone, Copy, PartialEq, Eq, Structural)]
pub enum ProjectState {
    Uninitialized,
    LangReady,
    GraphReady,
    DepsResolved,
    Ready,
    Failed,
}

/// A step of the lifecycle.
#[derive(Debug, Clone, Copy, PartialEq, Eq, Structural)]
pub enum ProjectStep {
    ValidateLanguage,
    BuildGraph,
    Resolve,
    LoadDependencies,
    Query,
    /// A fatal error.
    Fail,
}

/// Why a step of the lifecycle was refused.
#[derive(Debug, Clone, Copy, PartialEq, Eq, Structural)]
pub enum LifecycleError {
    /// The step is not the one that the project's state allows.
    OutOfOrder,
}

/// The state that a step leads to, or `None` where the state does not allow
/// the step. Each step leads from one state to the next; queries keep a
/// ready project ready; a fatal error leads from every state but the last
/// to failure.
pub open spec fn next_state(state: ProjectState, step: ProjectStep) -> Option<ProjectState> {
    match (state, step) {
        (ProjectState::Uninitialized, ProjectStep::ValidateLanguage) => Some(
            ProjectState::LangReady,
        ),
        (ProjectState::LangReady, ProjectStep::BuildGraph) => Some(ProjectState::GraphReady),
        (ProjectState::GraphReady, ProjectStep::Resolve) => Some(ProjectState::DepsResolved),
        (ProjectState::DepsResolved, ProjectStep::LoadDependencies) => Some(ProjectState::Ready),
        (ProjectState::Ready, ProjectStep::Query) => Some(ProjectState::Ready),
        (ProjectState::Uninitialized, ProjectStep::Fail) => Some(ProjectState::Failed),
        (ProjectState::LangReady, ProjectStep::Fail) => Some(ProjectState::Failed),
        (ProjectState::GraphReady, ProjectStep::Fail) => Some(ProjectState::Failed),
        (ProjectState::DepsResolved, ProjectStep::Fail) => Some(ProjectState::Failed),
        _ => None,
    }
}

/// The state that a run of steps leads to from `state`, or `None` where one
/// of the steps is not allowed when its turn comes.
pub open spec fn state_after(state: ProjectState, steps: Seq<ProjectStep>) -> Option<ProjectState>
    decreases steps.len(),
{
    if steps.len() == 0 {
        Some(state)
    } else {
        match next_state(state, steps[0]) {
            Some(next) => state_after(next, steps.drop_first()),
            None => None,
        }
    }
}

/// The steps that are still to be taken from `state` before a project is
/// ready, in their order.
pub open spec fn steps_to_ready(state: ProjectState) -> Seq<ProjectStep> {
    match state {
        ProjectState::Uninitialized => seq![
            ProjectStep::ValidateLanguage,
            ProjectStep::BuildGraph,
            ProjectStep::Resolve,
            ProjectStep::LoadDependencies,
        ],
        ProjectState::LangReady => seq![
            ProjectStep::BuildGraph,
            ProjectStep::Resolve,
            ProjectStep::LoadDependencies,
        ],
        ProjectState::GraphReady => seq![ProjectStep::Resolve, ProjectStep::LoadDependencies],
        ProjectState::DepsResolved => seq![ProjectStep::LoadDependencies],
        ProjectState::Ready => Seq::empty(),
        ProjectState::Failed => Seq::empty(),
    }
}

/// A project becomes ready in one way only: the steps that are still to be
/// taken are taken in their order, none of them fails, and nothing but
/// queries follows. From a project that has failed no run of steps leads
/// to a ready one.
pub proof fn lemma_ready_needs_every_step(state: ProjectState, steps: Seq<ProjectStep>)
    requires
        state_after(state, steps) == Some(ProjectState::Ready),
    ensures
        state != ProjectState::Failed,
        steps.len() >= steps_to_ready(state).len(),
        steps.take(steps_to_ready(state).len() as int) == steps_to_ready(state),
        forall|i: int|
            steps_to_ready(state).len() <= i < steps.len() ==> steps[i] == ProjectStep::Query,
    decreases steps.len(),
{
    let todo = steps_to_ready(state);
    if steps.len() == 0 {
        assert(steps.take(0) =~= todo);
    } else {
        let next = next_state(state, steps[0])->Some_0;
        let rest = steps.drop_first();
        lemma_ready_needs_every_step(next, rest);
        let todo_next = steps_to_ready(next);
        if state == ProjectState::Ready {
            assert(steps.take(0) =~= todo);
            assert forall|i: int| 0 <= i < steps.len() implies steps[i] == ProjectStep::Query by {
                if i > 0 {
                    assert(steps[i] == rest[i - 1]);
                }
            }
        } else {
            assert(todo =~= seq![steps[0]] + todo_next);
            assert(steps.take(todo.len() as int) =~= seq![steps[0]] + rest.take(
                todo_next.len() as int,
            ));
            assert forall|i: int| todo.len() <= i < steps.len() implies steps[i]
                == ProjectStep::Query by {
                assert(steps[i] == rest[i - 1]);
            }
        }
    }
}

impl ProjectState {
    /// The state that `step` leads to from this state, if the step is
    /// allowed.
    pub fn after(self, step: ProjectStep) -> (next: Option<ProjectState>)
        ensures
            next == next_state(self, step),
    {
        match (self, step) {
            (ProjectState::Uninitialized, ProjectStep::ValidateLanguage) => Some(
                ProjectState::LangReady,
            ),
            (ProjectState::LangReady, ProjectStep::BuildGraph) => Some(ProjectState::GraphReady),
            (ProjectState::GraphReady, ProjectStep::Resolve) => Some(ProjectState::DepsResolved),
            (ProjectState::DepsResolved, ProjectStep::LoadDependencies) => Some(
                ProjectState::Ready,
            ),
            (ProjectState::Ready, ProjectStep::Query) => Some(ProjectState::Ready),
            (ProjectState::Uninitialized, ProjectStep::Fail) => Some(ProjectState::Failed),
            (ProjectState::LangReady, ProjectStep::Fail) => Some(ProjectState::Failed),
            (ProjectState::GraphReady, ProjectStep::Fail) => Some(ProjectState::Failed),
            (ProjectState::DepsResolved, ProjectStep::Fail) => Some(ProjectState::Failed),
            _ => None,
        }
    }
}

/// How the graph of a project is obtained.
#[derive(Debug, Clone, Copy, PartialEq, Eq, Structural)]
pub enum GraphPlan {
    /// Load the graph from the store.
    LoadStore,
    /// Take the graph that was loaded from the store.
    UseStored,
    /// Walk the project directory and build the graph from its files.
    Ingest,
}

/// How the graph is obtained, given whether the store exists and how many
/// symbols the graph has that was loaded from it, if one was loaded yet.
/// Without a store the graph is built from the project directory. With a
/// store the graph is loaded first; a loaded graph is taken where it has
/// symbols, and the graph is built from the project directory where it has
/// none.
pub open spec fn plan_of(store_exists: bool, loaded_symbols: Option<nat>) -> GraphPlan {
    if !store_exists {
        GraphPlan::Ingest
    } else {
        match loaded_symbols {
            None => GraphPlan::LoadStore,
            Some(n) => if n != 0 {
                GraphPlan::UseStored
            } else {
                GraphPlan::Ingest
            },
        }
    }
}

/// A project: a directory of sources, a store, and what has been learned
/// about them so far.
pub struct Project {
    location: String,
    db_path: String,
    dependencies: Option<Vec<Dependencies>>,
    graph: Option<Graph>,
    source_language_config: Option<SourceNodeLanguageConfiguration>,
    analysis_mode: AnalysisMode,
    tools: Tools,
    state: ProjectState,
}

impl Project {
    #[verifier::type_invariant]
    spec fn well_formed(&self) -> bool {
        match self.state {
            ProjectState::Uninitialized => {
                self.source_language_config is None && self.graph is None
                    && self.dependencies is None
            },
            ProjectState::LangReady => {
                self.source_language_config is Some && self.graph is None
                    && self.dependencies is None
            },
            ProjectState::GraphReady => {
                self.source_language_config is Some && self.graph is Some
                    && self.dependencies is None
            },
            ProjectState::DepsResolved => {
                self.source_language_config is Some && self.graph is Some
                    && self.dependencies is Some
            },
            ProjectState::Ready => {
                self.source_language_config is Some && self.graph is Some
                    && self.dependencies is Some
            },
            ProjectState::Failed => true,
        }
    }

    /// Where the project stands.
    pub closed spec fn state(&self) -> ProjectState {
        self.state
    }

    /// The project's graph, once it is built.
    pub closed spec fn graph_model(&self) -> Option<GraphModel> {
        match self.graph {
            Some(g) => Some(g@),
            None => None,
        }
    }

    /// The source marker and the dependency marker, once the language is
    /// validated.
    pub closed spec fn markers(&self) -> Option<(SourceType, SourceType)> {
        match self.source_language_config {
            Some(c) => Some((c.source_type_node_info, c.dependnecy_type_node_info)),
            None => None,
        }
    }

    /// The built-in graph that is kept with the language configuration,
    /// once the language is validated.
    pub closed spec fn builtins(&self) -> Option<GraphModel> {
        match self.source_language_config {
            Some(c) => Some(c.builtins@),
            None => None,
        }
    }

    /// Whether the language configuration is the same as that of `other`:
    /// the same markers and the same built-in graph.
    pub open spec fn same_language(&self, other: &Project) -> bool {
        self.markers() == other.markers() && self.builtins() == other.builtins()
    }

    /// The project's analysis mode.
    pub closed spec fn mode(&self) -> AnalysisMode {
        self.analysis_mode
    }

    /// The project's dependencies, once they are resolved.
    pub closed spec fn resolved(&self) -> Option<Seq<Dependencies>> {
        match self.dependencies {
            Some(d) => Some(d@),
            None => None,
        }
    }

    /// The project directory.
    pub closed spec fn directory(&self) -> Seq<char> {
        self.location@
    }

    /// The path of the store.
    pub closed spec fn store_path(&self) -> Seq<char> {
        self.db_path@
    }

    /// The tools of the project.
    pub closed spec fn tool_set(&self) -> Tools {
        self.tools
    }

    /// What stays as it is through every step of the lifecycle.
    pub open spec fn same_setup(&self, other: &Project) -> bool {
        &&& self.directory() == other.directory()
        &&& self.store_path() == other.store_path()
        &&& self.mode() == other.mode()
        &&& self.tool_set() == other.tool_set()
    }

    /// The marker that the project's queries run under: the source marker
    /// in source-only mode, the dependency marker in full mode.
    pub open spec fn source_type(&self) -> Option<SourceType> {
        match self.markers() {
            Some((source, dependency)) => match self.mode() {
                AnalysisMode::SourceOnly => Some(source),
                AnalysisMode::Full => Some(dependency),
            },
            None => None,
        }
    }

    /// A project that nothing has been done with yet.
    pub fn new(location: String, db_path: String, analysis_mode: AnalysisMode, tools: Tools) -> (p:
        Project)
        ensures
            p.state() == ProjectState::Uninitialized,
            p.directory() == location@,
            p.store_path() == db_path@,
            p.tool_set() == tools,
            p.mode() == analysis_mode,
            p.graph_model() is None,
            p.markers() is None,
            p.builtins() is None,
            p.resolved() is None,
    {
        Project {
            location,
            db_path,
            dependencies: None,
            graph: None,
            source_language_config: None,
            analysis_mode,
            tools,
            state: ProjectState::Uninitialized,
        }
    }

    /// Determines the two tools from the provider's configuration and from
    /// what a lookup on the search path found.
    pub fn get_tools(specific_provider_config: &Option<Vec<ConfigField>>, lookup: &ToolLookup) -> (res:
        Result<Tools, ToolsError>)
        ensures
            tools_outcome(res) == tools_of(
                match *specific_provider_config {
                    Some(f) => Some(f@),
                    None => None,
                },
                *lookup,
            ),
    {
        let (ilspy_set, paket_set) = match specific_provider_config {
            Some(fields) => (
                find_field(fields, ILSPY_CMD_LOC_KEY),
                find_field(fields, PAKET_CMD_LOC_KEY),
            ),
            None => (None, None),
        };
        let ilspy_cmd = match pick_tool(
            ilspy_set,
            &lookup.ilspy,
            ToolsError::InvalidIlspyCmd,
            ToolsError::IlspyNotFound,
        ) {
            Ok(p) => p,
            Err(e) => {
                return Err(e);
            },
        };
        let paket_cmd = match pick_tool(
            paket_set,
            &lookup.paket,
            ToolsError::InvalidPaketCmd,
            ToolsError::PaketNotFound,
        ) {
            Ok(p) => p,
            Err(e) => {
                return Err(e);
            },
        };
        Ok(Tools { ilspy_cmd, paket_cmd })
    }

    /// The project directory.
    pub fn location(&self) -> (location: &String)
        ensures
            location@ == self.directory(),
    {
        &self.location
    }

    /// The path of the store.
    pub fn db_path(&self) -> (path: &String)
        ensures
            path@ == self.store_path(),
    {
        &self.db_path
    }

    /// The analysis mode.
    pub fn analysis_mode(&self) -> (mode: AnalysisMode)
        ensures
            mode == self.mode(),
    {
        self.analysis_mode
    }

    /// The tools.
    pub fn tools(&self) -> (tools: &Tools)
        ensures
            *tools == self.tool_set(),
    {
        &self.tools
    }

    /// Where the project stands.
    pub fn current_state(&self) -> (state: ProjectState)
        ensures
            state == self.state(),
    {
        self.state
    }

    /// The graph, once it is built.
    pub fn graph(&self) -> (graph: Option<&Graph>)
        ensures
            match graph {
                Some(g) => self.graph_model() == Some(g@),
                None => self.graph_model() is None,
            },
    {
        self.graph.as_ref()
    }

    /// The language configuration with its built-in graph, once the
    /// language is validated.
    pub fn language_configuration(&self) -> (config: Option<&SourceNodeLanguageConfiguration>)
        ensures
            match config {
                Some(c) => {
                    &&& self.markers() == Some(
                        (c.source_type_node_info, c.dependnecy_type_node_info),
                    )
                    &&& self.builtins() == Some(c.builtins@)
                },
                None => self.markers() is None && self.builtins() is None,
            },
    {
        self.source_language_config.as_ref()
    }

    /// The dependencies, once they are resolved.
    pub fn dependencies(&self) -> (deps: Option<&Vec<Dependencies>>)
        ensures
            match deps {
                Some(d) => self.resolved() == Some(d@),
                None => self.resolved() is None,
            },
    {
        self.dependencies.as_ref()
    }

    /// How the graph is obtained, given whether the store exists and the
    /// graph that was loaded from it, if one was loaded yet.
    pub fn graph_plan(store_exists: bool, loaded: Option<&Graph>) -> (plan: GraphPlan)
        ensures
            plan == plan_of(
                store_exists,
                match loaded {
                    Some(g) => Some(g@.symbols.len()),
                    None => None,
                },
            ),
    {
        if !store_exists {
            GraphPlan::Ingest
        } else {
            match loaded {
                None => GraphPlan::LoadStore,
                Some(g) => if g.symbol_count() != 0 {
                    GraphPlan::UseStored
                } else {
                    GraphPlan::Ingest
                },
            }
        }
    }

    /// Builds the language configuration with its built-in graph and keeps
    /// it. The first step of the lifecycle.
    pub fn validate_language_configuration(&mut self) -> (res: Result<(), LifecycleError>)
        ensures
            final(self).same_setup(old(self)),
            res is Ok <==> old(self).state() == ProjectState::Uninitialized,
            res is Ok ==> {
                &&& final(self).state() == ProjectState::LangReady
                &&& final(self).markers() == Some(
                    (
                        SourceType::Source { symbol_handle: 1 },
                        SourceType::Dependency { symbol_handle: 2 },
                    ),
                )
                &&& final(self).builtins() == Some(builtins_model())
                &&& final(self).graph_model() is None
                &&& final(self).resolved() is None
            },
            res is Err ==> *final(self) == *old(self),
    {
        proof {
            use_type_invariant(&*self);
        }
        match self.state {
            ProjectState::Uninitialized => {},
            _ => {
                return Err(LifecycleError::OutOfOrder);
            },
        }
        let lc = SourceNodeLanguageConfiguration::new();
        self.state = ProjectState::Failed;
        self.source_language_config = Some(lc);
        self.state = ProjectState::LangReady;
        Ok(())
    }

    /// Keeps the graph that was loaded or built for the project, and hands
    /// back the number of files that went into it. The second step of the
    /// lifecycle.
    pub fn get_project_graph(&mut self, graph: Graph, files_loaded: usize) -> (res: Result<
        usize,
        LifecycleError,
    >)
        ensures
            final(self).same_setup(old(self)),
            final(self).same_language(old(self)),
            final(self).resolved() == old(self).resolved(),
            res is Ok <==> old(self).state() == ProjectState::LangReady,
            res matches Ok(n) ==> {
                &&& n == files_loaded
                &&& final(self).state() == ProjectState::GraphReady
                &&& final(self).graph_model() == Some(graph@)
            },
            res is Err ==> *final(self) == *old(self),
    {
        proof {
            use_type_invariant(&*self);
        }
        match self.state {
            ProjectState::LangReady => {},
            _ => {
                return Err(LifecycleError::OutOfOrder);
            },
        }
        self.state = ProjectState::Failed;
        self.graph = Some(graph);
        self.state = ProjectState::GraphReady;
        Ok(files_loaded)
    }

    /// Keeps the dependencies that were resolved for the project. The third
    /// step of the lifecycle.
    pub fn resolve(&mut self, dependencies: Vec<Dependencies>) -> (res: Result<(), LifecycleError>)
        ensures
            final(self).same_setup(old(self)),
            final(self).same_language(old(self)),
            final(self).graph_model() == old(self).graph_model(),
            res is Ok <==> old(self).state() == ProjectState::GraphReady,
            res is Ok ==> {
                &&& final(self).state() == ProjectState::DepsResolved
                &&& final(self).resolved() == Some(dependencies@)
            },
            res is Err ==> *final(self) == *old(self),
    {
        proof {
            use_type_invariant(&*self);
        }
        match self.state {
            ProjectState::GraphReady => {},
            _ => {
                return Err(LifecycleError::OutOfOrder);
            },
        }
        self.state = ProjectState::Failed;
        self.dependencies = Some(dependencies);
        self.state = ProjectState::DepsResolved;
        Ok(())
    }

    /// Replaces the project's graph by the one that holds the dependencies
    /// too. The last step before the project is ready.
    pub fn load_to_database(&mut self, graph: Graph) -> (res: Result<(), LifecycleError>)
        ensures
            final(self).same_setup(old(self)),
            final(self).same_language(old(self)),
            final(self).resolved() == old(self).resolved(),
            res is Ok <==> old(self).state() == ProjectState::DepsResolved,
            res is Ok ==> {
                &&& final(self).state() == ProjectState::Ready
                &&& final(self).graph_model() == Some(graph@)
            },
            res is Err ==> *final(self) == *old(self),
    {
        proof {
            use_type_invariant(&*self);
        }
        match self.state {
            ProjectState::DepsResolved => {},
            _ => {
                return Err(LifecycleError::OutOfOrder);
            },
        }
        self.state = ProjectState::Failed;
        self.graph = Some(graph);
        self.state = ProjectState::Ready;
        Ok(())
    }

    /// Records a fatal error. A project that is ready or has failed stays
    /// as it is.
    pub fn fail(&mut self) -> (res: Result<(), LifecycleError>)
        ensures
            final(self).same_setup(old(self)),
            final(self).same_language(old(self)),
            final(self).graph_model() == old(self).graph_model(),
            final(self).resolved() == old(self).resolved(),
            res is Ok <==> next_state(old(self).state(), ProjectStep::Fail) is Some,
            res is Ok ==> final(self).state() == ProjectState::Failed,
            res is Err ==> *final(self) == *old(self),
    {
        match self.state.after(ProjectStep::Fail) {
            Some(next) => {
                self.state = next;
                Ok(())
            },
            None => Err(LifecycleError::OutOfOrder),
        }
    }

    /// The marker that the project's queries run under.
    pub fn get_source_type(&self) -> (marker: Option<SourceType>)
        ensures
            marker == self.source_type(),
    {
        match &self.source_language_config {
            Some(x) => match self.analysis_mode {
                AnalysisMode::SourceOnly => Some(x.source_type_node_info),
                AnalysisMode::Full => Some(x.dependnecy_type_node_info),
            },
            None => None,
        }
    }
}

} // verus!
