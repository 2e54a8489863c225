use c_sharp_analyzer_provider_cli::c_sharp_graph::find_node::FindError;
use c_sharp_analyzer_provider_cli::c_sharp_graph::graph::{Graph, GraphError};
use c_sharp_analyzer_provider_cli::c_sharp_graph::loader::{IngestError, SourceType};
use c_sharp_analyzer_provider_cli::c_sharp_graph::pattern::PatternError;
use c_sharp_analyzer_provider_cli::c_sharp_graph::query::QueryError;
use c_sharp_analyzer_provider_cli::provider::csharp::{
    CSharpProvider, EvaluateError, InitFailure,
};
use c_sharp_analyzer_provider_cli::provider::dependency_resolution::{Dependencies, ResolveError};
use c_sharp_analyzer_provider_cli::provider::errors::{ErrorKind, Propagation};
use c_sharp_analyzer_provider_cli::provider::project::{
    AnalysisMode, ConfigField, ConfigValue, GraphPlan, LifecycleError, Project, ProjectState,
    ProjectStep, ToolLookup, Tools, ToolsError,
};

fn tools() -> Tools {
    Tools { ilspy_cmd: "/bin/ilspy".to_string(), paket_cmd: "/bin/paket".to_string() }
}

fn project(mode: AnalysisMode) -> Project {
    Project::new("/project".to_string(), "/tmp/store.db".to_string(), mode, tools())
}

fn field(name: &str, value: ConfigValue) -> ConfigField {
    ConfigField { name: name.to_string(), value }
}

fn found() -> ToolLookup {
    ToolLookup { ilspy: Some("/path/ilspy".to_string()), paket: Some("/path/paket".to_string()) }
}

fn nothing() -> ToolLookup {
    ToolLookup { ilspy: None, paket: None }
}

#[test]
fn analysis_mode_from_its_name() {
    assert_eq!(AnalysisMode::from("full"), AnalysisMode::Full);
    assert_eq!(AnalysisMode::from("source-only"), AnalysisMode::SourceOnly);
    assert_eq!(AnalysisMode::from("anything"), AnalysisMode::Full);
    assert_eq!(AnalysisMode::from(""), AnalysisMode::Full);
    assert_eq!(AnalysisMode::from("Source-Only"), AnalysisMode::Full);
    assert_eq!(AnalysisMode::from(&"source-only".to_string()), AnalysisMode::SourceOnly);
    assert_eq!(AnalysisMode::from("source-only".to_string()), AnalysisMode::SourceOnly);
    assert_eq!(AnalysisMode::parse("full"), AnalysisMode::Full);
}

#[test]
fn tools_come_from_the_configuration() {
    let config = Some(vec![
        field("ilspy_cmd", ConfigValue::Text("/opt/ilspy".to_string())),
        field("other", ConfigValue::Bool),
        field("paket_cmd", ConfigValue::Text("/opt/paket".to_string())),
    ]);
    assert_eq!(
        Project::get_tools(&config, &nothing()),
        Ok(Tools { ilspy_cmd: "/opt/ilspy".to_string(), paket_cmd: "/opt/paket".to_string() })
    );
}

#[test]
fn tools_fall_back_to_the_search_path() {
    assert_eq!(
        Project::get_tools(&None, &found()),
        Ok(Tools { ilspy_cmd: "/path/ilspy".to_string(), paket_cmd: "/path/paket".to_string() })
    );
    let config = Some(vec![field("paket_cmd", ConfigValue::Text("/opt/paket".to_string()))]);
    assert_eq!(
        Project::get_tools(&config, &found()),
        Ok(Tools { ilspy_cmd: "/path/ilspy".to_string(), paket_cmd: "/opt/paket".to_string() })
    );
    assert_eq!(Project::get_tools(&Some(vec![]), &nothing()), Err(ToolsError::IlspyNotFound));
    let only_ilspy = ToolLookup { ilspy: Some("/path/ilspy".to_string()), paket: None };
    assert_eq!(Project::get_tools(&None, &only_ilspy), Err(ToolsError::PaketNotFound));
}

#[test]
fn tools_must_be_texts() {
    for bad in [
        ConfigValue::Null,
        ConfigValue::Number,
        ConfigValue::Bool,
        ConfigValue::Struct,
        ConfigValue::List,
        ConfigValue::Unset,
    ] {
        let config = Some(vec![field("ilspy_cmd", bad.clone())]);
        assert_eq!(Project::get_tools(&config, &found()), Err(ToolsError::InvalidIlspyCmd));
    }
    for bad in
        [ConfigValue::Null, ConfigValue::Number, ConfigValue::Bool, ConfigValue::Struct, ConfigValue::List]
    {
        let config = Some(vec![field("paket_cmd", bad.clone())]);
        assert_eq!(Project::get_tools(&config, &found()), Err(ToolsError::InvalidPaketCmd));
    }
    let config = Some(vec![field("paket_cmd", ConfigValue::Unset)]);
    assert_eq!(Project::get_tools(&config, &found()), Err(ToolsError::InvalidPaketCmd));
    // The decompiler is looked at first.
    let config = Some(vec![field("paket_cmd", ConfigValue::Null)]);
    assert_eq!(Project::get_tools(&config, &nothing()), Err(ToolsError::IlspyNotFound));
}

#[test]
fn later_field_replaces_earlier_one() {
    let config = Some(vec![
        field("ilspy_cmd", ConfigValue::Null),
        field("ilspy_cmd", ConfigValue::Text("/opt/ilspy".to_string())),
    ]);
    assert_eq!(Project::get_tools(&config, &found()).unwrap().ilspy_cmd, "/opt/ilspy");
}

#[test]
fn lifecycle_steps_in_order() {
    let mut p = project(AnalysisMode::Full);
    assert_eq!(p.current_state(), ProjectState::Uninitialized);
    assert_eq!(p.get_source_type(), None);
    assert!(p.graph().is_none());
    assert_eq!(p.validate_language_configuration(), Ok(()));
    assert_eq!(p.current_state(), ProjectState::LangReady);
    assert_eq!(p.get_project_graph(Graph::new(), 3), Ok(3));
    assert_eq!(p.current_state(), ProjectState::GraphReady);
    assert_eq!(p.resolve(vec![]), Ok(()));
    assert_eq!(p.current_state(), ProjectState::DepsResolved);
    assert_eq!(p.load_to_database(Graph::new()), Ok(()));
    assert_eq!(p.current_state(), ProjectState::Ready);
    assert_eq!(p.fail(), Err(LifecycleError::OutOfOrder));
    assert_eq!(p.current_state(), ProjectState::Ready);
    assert_eq!(p.location(), "/project");
    assert_eq!(p.db_path(), "/tmp/store.db");
    assert_eq!(p.tools(), &tools());
    assert_eq!(p.analysis_mode(), AnalysisMode::Full);
}

#[test]
fn lifecycle_steps_out_of_order() {
    let mut p = project(AnalysisMode::Full);
    assert_eq!(p.get_project_graph(Graph::new(), 0), Err(LifecycleError::OutOfOrder));
    assert_eq!(p.resolve(vec![]), Err(LifecycleError::OutOfOrder));
    assert_eq!(p.load_to_database(Graph::new()), Err(LifecycleError::OutOfOrder));
    assert_eq!(p.current_state(), ProjectState::Uninitialized);
    p.validate_language_configuration().unwrap();
    assert_eq!(p.validate_language_configuration(), Err(LifecycleError::OutOfOrder));
    assert_eq!(p.resolve(vec![]), Err(LifecycleError::OutOfOrder));
    assert_eq!(p.fail(), Ok(()));
    assert_eq!(p.current_state(), ProjectState::Failed);
    assert_eq!(p.get_project_graph(Graph::new(), 0), Err(LifecycleError::OutOfOrder));
    assert_eq!(p.fail(), Err(LifecycleError::OutOfOrder));
}

#[test]
fn state_table() {
    let (uninit, lang, graph, deps, ready, failed) = (
        ProjectState::Uninitialized,
        ProjectState::LangReady,
        ProjectState::GraphReady,
        ProjectState::DepsResolved,
        ProjectState::Ready,
        ProjectState::Failed,
    );
    assert_eq!(uninit.after(ProjectStep::ValidateLanguage), Some(lang));
    assert_eq!(lang.after(ProjectStep::BuildGraph), Some(graph));
    assert_eq!(graph.after(ProjectStep::Resolve), Some(deps));
    assert_eq!(deps.after(ProjectStep::LoadDependencies), Some(ready));
    assert_eq!(ready.after(ProjectStep::Query), Some(ready));
    assert_eq!(graph.after(ProjectStep::Query), None);
    assert_eq!(ready.after(ProjectStep::Fail), None);
    assert_eq!(failed.after(ProjectStep::Fail), None);
    assert_eq!(failed.after(ProjectStep::Query), None);
    for s in [uninit, lang, graph, deps] {
        assert_eq!(s.after(ProjectStep::Fail), Some(failed));
    }
    assert_eq!(lang.after(ProjectStep::ValidateLanguage), None);
}

#[test]
fn marker_follows_the_analysis_mode() {
    let mut p = project(AnalysisMode::SourceOnly);
    p.validate_language_configuration().unwrap();
    assert_eq!(p.get_source_type(), Some(SourceType::Source { symbol_handle: 1 }));
    let mut p = project(AnalysisMode::Full);
    p.validate_language_configuration().unwrap();
    assert_eq!(p.get_source_type(), Some(SourceType::Dependency { symbol_handle: 2 }));
}

#[test]
fn graph_comes_from_the_store_where_there_is_one() {
    assert_eq!(Project::graph_plan(true, None), GraphPlan::LoadStore);
    assert_eq!(Project::graph_plan(false, None), GraphPlan::Ingest);
    let mut g = Graph::new();
    // A stored graph without symbols is not taken.
    assert_eq!(Project::graph_plan(true, Some(&g)), GraphPlan::Ingest);
    g.add_symbol("x");
    assert_eq!(Project::graph_plan(true, Some(&g)), GraphPlan::UseStored);
    assert_eq!(Project::graph_plan(false, Some(&g)), GraphPlan::Ingest);
}

#[test]
fn dependencies_are_kept() {
    let mut p = project(AnalysisMode::Full);
    p.validate_language_configuration().unwrap();
    p.get_project_graph(Graph::new(), 0).unwrap();
    assert!(p.dependencies().is_none());
    let dep = Dependencies {
        location: "/project/packages/Foo".to_string(),
        name: "Foo".to_string(),
        version: "1.0".to_string(),
        decompiled_location: vec![],
    };
    p.resolve(vec![dep.clone()]).unwrap();
    assert_eq!(p.dependencies(), Some(&vec![dep]));
}

#[test]
fn reach_of_each_kind_of_failure() {
    let table = [
        (ErrorKind::BadPattern, Propagation::CallerError),
        (ErrorKind::TsgParse, Propagation::FatalToProject),
        (ErrorKind::Builtins, Propagation::FatalToProject),
        (ErrorKind::GraphBuild, Propagation::FatalToIngest),
        (ErrorKind::StoreOpen, Propagation::FatalToProject),
        (ErrorKind::StoreIo, Propagation::FatalToIngest),
        (ErrorKind::ResolveConvert, Propagation::FatalToProject),
        (ErrorKind::ResolveSpawn, Propagation::FatalToProject),
        (ErrorKind::ResolveParse, Propagation::NonFatal),
        (ErrorKind::Decompile, Propagation::NonFatal),
        (ErrorKind::GraphInconsistent, Propagation::ServerError),
        (ErrorKind::Walk, Propagation::FatalToIngest),
        (ErrorKind::Read, Propagation::FatalToIngest),
        (ErrorKind::Cancelled, Propagation::Unchanged),
    ];
    for (kind, reach) in table {
        assert_eq!(kind.propagation(), reach);
        assert_eq!(kind.ends_setup(), reach != Propagation::NonFatal);
    }
}

#[test]
fn kinds_of_library_errors() {
    assert_eq!(ErrorKind::of_query(QueryError::BadPattern), ErrorKind::BadPattern);
    assert_eq!(ErrorKind::of_query(QueryError::GraphInconsistent), ErrorKind::GraphInconsistent);
    assert_eq!(ErrorKind::of_pattern(PatternError::BadPattern), ErrorKind::BadPattern);
    assert_eq!(ErrorKind::of_ingest(IngestError::GraphBuild), ErrorKind::GraphBuild);
    assert_eq!(ErrorKind::of_ingest(IngestError::Walk), ErrorKind::Walk);
    assert_eq!(ErrorKind::of_ingest(IngestError::Read), ErrorKind::Read);
    assert_eq!(ErrorKind::of_ingest(IngestError::StoreIo), ErrorKind::StoreIo);
    assert_eq!(ErrorKind::of_resolve(ResolveError::ResolveParse), ErrorKind::ResolveParse);
    assert_eq!(ErrorKind::of_resolve(ResolveError::Decompile), ErrorKind::Decompile);
    assert_eq!(ErrorKind::of_resolve(ResolveError::ResolveConvert), ErrorKind::ResolveConvert);
    assert_eq!(ErrorKind::of_resolve(ResolveError::ResolveSpawn), ErrorKind::ResolveSpawn);
    assert_eq!(ErrorKind::of_graph(GraphError::SecondFqnParent), ErrorKind::GraphInconsistent);
}

#[test]
fn provider_answers_evaluations() {
    assert_eq!(CSharpProvider::capabilities(), vec!["referenced"]);
    let mut provider = CSharpProvider::new("/tmp/store.db".to_string());
    assert_eq!(
        provider.evaluate("referenced", "System.*".to_string(), None),
        Err(EvaluateError::NotInitialized)
    );
    assert_eq!(provider.init("/project".to_string(), "source-only", &None, &nothing()), Err(ToolsError::IlspyNotFound));
    assert!(provider.project.is_none());
    assert_eq!(provider.init("/project".to_string(), "source-only", &None, &found()), Ok(()));
    assert_eq!(
        provider.evaluate("dependency", "System.*".to_string(), None),
        Err(EvaluateError::UnknownCapability)
    );
    // Without a graph the search fails, and the answer says so.
    let answer = provider.evaluate("referenced", "System.*".to_string(), None).unwrap();
    assert!(!answer.successful);
    assert_eq!(answer.error, Some(FindError::GraphNotFound));
    assert!(answer.response.is_none());
    let project = provider.project.as_mut().unwrap();
    assert_eq!(project.analysis_mode(), AnalysisMode::SourceOnly);
    assert_eq!(project.db_path(), "/tmp/store.db");
    assert_eq!(project.tools().paket_cmd, "/path/paket");
    project.validate_language_configuration().unwrap();
    project.get_project_graph(Graph::new(), 0).unwrap();
    let answer = provider.evaluate("referenced", "System.*".to_string(), None).unwrap();
    assert!(answer.successful);
    assert_eq!(answer.error, None);
    let response = answer.response.unwrap();
    assert!(!response.matched);
    assert!(response.incident_contexts.is_empty());
    let answer = provider.evaluate("referenced", "(*".to_string(), None).unwrap();
    assert_eq!(answer.error, Some(FindError::Query(QueryError::BadPattern)));
}

fn ready_provider() -> CSharpProvider {
    let mut provider = CSharpProvider::new("/tmp/store.db".to_string());
    provider.init("/project".to_string(), "full", &None, &found()).unwrap();
    let project = provider.project.as_mut().unwrap();
    project.validate_language_configuration().unwrap();
    project.get_project_graph(Graph::new(), 0).unwrap();
    project.resolve(vec![]).unwrap();
    project.load_to_database(Graph::new()).unwrap();
    provider
}

#[test]
fn init_succeeds_when_every_step_was_taken() {
    let mut provider = ready_provider();
    let answer = provider.conclude_init(None);
    assert!(answer.successful);
    assert_eq!(answer.error, "");
    assert_eq!(answer.id, 4);
    assert_eq!(provider.project.as_ref().unwrap().current_state(), ProjectState::Ready);
    // What was only logged does not undo a project that is ready.
    let answer = provider.conclude_init(Some(InitFailure::Step(ErrorKind::Decompile)));
    assert!(answer.successful);
    assert_eq!(answer.error, "");
}

#[test]
fn init_fails_when_a_step_failed() {
    let steps: [fn(&mut Project); 4] = [
        |_| {},
        |p| {
            p.validate_language_configuration().unwrap();
        },
        |p| {
            p.get_project_graph(Graph::new(), 0).unwrap();
        },
        |p| {
            p.resolve(vec![]).unwrap();
        },
    ];
    // Stop after none, one, two and three of the steps.
    for taken in 0..4 {
        let mut provider = CSharpProvider::new("/tmp/store.db".to_string());
        provider.init("/project".to_string(), "full", &None, &found()).unwrap();
        for step in &steps[..=taken] {
            step(provider.project.as_mut().unwrap());
        }
        let answer = provider.conclude_init(Some(InitFailure::Step(ErrorKind::StoreOpen)));
        assert!(!answer.successful);
        assert_eq!(answer.error, "unable to initialise the project: ErrStoreOpen");
        assert_eq!(answer.id, 4);
        assert_eq!(provider.project.as_ref().unwrap().current_state(), ProjectState::Failed);
    }
}

#[test]
fn init_failure_texts() {
    let mut provider = CSharpProvider::new("/tmp/store.db".to_string());
    let answer = provider.conclude_init(Some(InitFailure::Tools(ToolsError::IlspyNotFound)));
    assert!(!answer.successful);
    assert_eq!(answer.error, "unable to initialise the project: ilspy is not on the search path");
    assert!(provider.project.is_none());
    let answer = provider.conclude_init(Some(InitFailure::Tools(ToolsError::InvalidPaketCmd)));
    assert_eq!(answer.error, "unable to initialise the project: not valid paket_cmd");
    let answer = provider.conclude_init(Some(InitFailure::OutOfOrder));
    assert_eq!(answer.error, "unable to initialise the project: a step was taken out of order");
    let answer = provider.conclude_init(None);
    assert!(!answer.successful);
    assert_eq!(answer.error, "unable to initialise the project: the steps were not completed");
}

#[test]
fn names_of_the_kinds_of_failure() {
    assert_eq!(ErrorKind::BadPattern.name(), "ErrBadPattern");
    assert_eq!(ErrorKind::TsgParse.name(), "ErrTsgParse");
    assert_eq!(ErrorKind::Builtins.name(), "ErrBuiltins");
    assert_eq!(ErrorKind::GraphBuild.name(), "ErrGraphBuild");
    assert_eq!(ErrorKind::StoreOpen.name(), "ErrStoreOpen");
    assert_eq!(ErrorKind::StoreIo.name(), "ErrStoreIo");
    assert_eq!(ErrorKind::ResolveConvert.name(), "ErrResolveConvert");
    assert_eq!(ErrorKind::ResolveSpawn.name(), "ErrResolveSpawn");
    assert_eq!(ErrorKind::ResolveParse.name(), "ErrResolveParse");
    assert_eq!(ErrorKind::Decompile.name(), "ErrDecompile");
    assert_eq!(ErrorKind::GraphInconsistent.name(), "ErrGraphInconsistent");
    assert_eq!(ErrorKind::Walk.name(), "ErrWalk");
    assert_eq!(ErrorKind::Read.name(), "ErrRead");
    assert_eq!(ErrorKind::Cancelled.name(), "ErrCancelled");
}

#[test]
fn capability_test() {
    assert!(CSharpProvider::supports("referenced"));
    assert!(!CSharpProvider::supports("Referenced"));
    assert!(!CSharpProvider::supports(""));
}

#[test]
fn language_configuration_is_kept_with_its_builtins() {
    let mut p = project(AnalysisMode::Full);
    assert!(p.language_configuration().is_none());
    p.validate_language_configuration().unwrap();
    let config = p.language_configuration().unwrap();
    assert_eq!(config.builtins.file_name(1), "<builtins>");
    assert_eq!(config.builtins.node_count(), 4);
    assert!(config.builtins.has_markers_in_place());
    assert_eq!(config.source_type_node_info, SourceType::Source { symbol_handle: 1 });
}
