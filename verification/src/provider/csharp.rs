//! What the provider answers to its caller: which capability it has, and
//! what an evaluation of that capability gives.

use crate::c_sharp_graph::find_node::{find_result, FindError, FindNode};
use crate::c_sharp_graph::results::{report_order, result_views, sort_incidents, ResultModel, ResultNode};
use crate::provider::errors::{kind_name, ErrorKind};
use crate::provider::project::{
    analysis_mode_of, next_state, tools_of, AnalysisMode, ConfigField, Project, ProjectState,
    ProjectStep, ToolLookup, ToolsError,
};
use vstd::prelude::*;
use vstd::string::StringExecFns;

verus! {

/// The one capability of the provider.
pub const REFERENCED: &'static str = "referenced";

/// Why an evaluation was refused.
#[derive(Debug, Clone, Copy, PartialEq, Eq, Structural)]
pub enum EvaluateError {
    /// The request names a capability that the provider does not have.
    UnknownCapability,
    /// No project has been initialised.
    NotInitialized,
}

/// What matched, if anything.
#[derive(Debug, Clone, PartialEq, Eq)]
pub struct ProviderEvaluateResponse {
    /// Whether there is at least one incident.
    pub matched: bool,
    /// The incidents, in the order of a report.
    pub incident_contexts: Vec<ResultNode>,
}

/// The answer to an evaluation.
#[derive(Debug, Clone, PartialEq, Eq)]
pub struct EvaluateResponse {
    /// Why the search failed, where it did.
    pub error: Option<FindError>,
    pub successful: bool,
    pub response: Option<ProviderEvaluateResponse>,
}

/// The answer to a search with the given outcome: a failed search is
/// reported with its error and without a response; a search that succeeded
/// is reported with its incidents in the order of a report, and counts as
/// matched where there is at least one.
pub open spec fn answers(
    res: EvaluateResponse,
    outcome: Result<Seq<ResultModel>, FindError>,
) -> bool {
    match outcome {
        Err(e) => res.error == Some(e) && !res.successful && res.response is None,
        Ok(found) => {
            &&& res.error is None
            &&& res.successful
            &&& res.response matches Some(r) && r.matched == (found.len() > 0) && result_views(
                r.incident_contexts@,
            ) == report_order(found)
        },
    }
}

/// What ended an initialisation before the project was ready.
#[derive(Debug, Clone, Copy, PartialEq, Eq, Structural)]
pub enum InitFailure {
    /// The tools could not be determined.
    Tools(ToolsError),
    /// A step of the lifecycle failed.
    Step(ErrorKind),
    /// A step of the lifecycle was taken out of order.
    OutOfOrder,
}

/// What the caller sees of an initialisation.
#[derive(Debug, Clone, PartialEq, Eq)]
pub struct InitResponse {
    /// Why the initialisation failed; empty where it succeeded.
    pub error: String,
    pub successful: bool,
    pub id: i64,
}

/// The number under which the provider answers.
pub const PROVIDER_ID: i64 = 4;

/// What is said of a failure to determine the tools.
pub open spec fn tools_error_text(e: ToolsError) -> Seq<char> {
    match e {
        ToolsError::InvalidIlspyCmd => "not valid ilspy_cmd"@,
        ToolsError::InvalidPaketCmd => "not valid paket_cmd"@,
        ToolsError::IlspyNotFound => "ilspy is not on the search path"@,
        ToolsError::PaketNotFound => "paket is not on the search path"@,
    }
}

/// What is said of an initialisation that did not make the project ready:
/// a fixed opening, then what ended it. Where nothing is known to have
/// ended it, the steps were not all taken.
pub open spec fn init_error_text(failure: Option<InitFailure>) -> Seq<char> {
    "unable to initialise the project: "@ + match failure {
        Some(InitFailure::Tools(e)) => tools_error_text(e),
        Some(InitFailure::Step(kind)) => kind_name(kind),
        Some(InitFailure::OutOfOrder) => "a step was taken out of order"@,
        None => "the steps were not completed"@,
    }
}

/// Whether the provider has a project that went through every step of its
/// lifecycle: language, graph, dependencies, store.
pub open spec fn is_ready(project: Option<Project>) -> bool {
    match project {
        Some(p) => p.state() == ProjectState::Ready,
        None => false,
    }
}

/// The state in which a project is left by an initialisation that did not
/// make it ready: failed, unless it has failed already.
pub open spec fn state_after_failure(state: ProjectState) -> ProjectState {
    match next_state(state, ProjectStep::Fail) {
        Some(next) => next,
        None => state,
    }
}

/// What is said of a failure to determine the tools.
fn describe_tools_error(e: ToolsError) -> (text: &'static str)
    ensures
        text@ == tools_error_text(e),
{
    match e {
        ToolsError::InvalidIlspyCmd => "not valid ilspy_cmd",
        ToolsError::InvalidPaketCmd => "not valid paket_cmd",
        ToolsError::IlspyNotFound => "ilspy is not on the search path",
        ToolsError::PaketNotFound => "paket is not on the search path",
    }
}

/// The provider: a store and, once initialised, a project.
pub struct CSharpProvider {
    pub db_path: String,
    pub project: Option<Project>,
}

impl CSharpProvider {
    /// A provider that keeps its graphs in the store at `db_path`.
    pub fn new(db_path: String) -> (provider: CSharpProvider)
        ensures
            provider.db_path == db_path,
            provider.project is None,
    {
        CSharpProvider { db_path, project: None }
    }

    /// The capabilities of the provider: `referenced` and nothing else.
    pub fn capabilities() -> (names: Vec<String>)
        ensures
            crate::text::views(names@) == seq![REFERENCED@],
    {
        let mut names: Vec<String> = Vec::new();
        names.push(REFERENCED.to_owned());
        assert(crate::text::views(names@) =~= seq![REFERENCED@]);
        names
    }

    /// Sets up the project for the directory `location`. The tools come
    /// from the configuration or from the search path. A provider that is
    /// set up again forgets the project it had.
    pub fn init(
        &mut self,
        location: String,
        analysis_mode: &str,
        provider_specific_config: &Option<Vec<ConfigField>>,
        lookup: &ToolLookup,
    ) -> (res: Result<(), ToolsError>)
        ensures
            final(self).db_path == old(self).db_path,
            match res {
                Ok(_) => {
                    &&& tools_of(
                        match *provider_specific_config {
                            Some(f) => Some(f@),
                            None => None,
                        },
                        *lookup,
                    ) is Ok
                    &&& final(self).project matches Some(p) && {
                        &&& p.state() == ProjectState::Uninitialized
                        &&& p.mode() == analysis_mode_of(analysis_mode@)
                        &&& p.directory() == location@
                        &&& p.store_path() == old(self).db_path@
                        &&& tools_of(
                            match *provider_specific_config {
                                Some(f) => Some(f@),
                                None => None,
                            },
                            *lookup,
                        ) == Ok::<_, ToolsError>(
                            (p.tool_set().ilspy_cmd@, p.tool_set().paket_cmd@),
                        )
                        &&& p.graph_model() is None
                        &&& p.markers() is None
                        &&& p.builtins() is None
                    }
                },
                Err(e) => {
                    &&& tools_of(
                        match *provider_specific_config {
                            Some(f) => Some(f@),
                            None => None,
                        },
                        *lookup,
                    ) == Err::<(Seq<char>, Seq<char>), _>(e)
                    &&& final(self).project == old(self).project
                },
            },
    {
        let mode = AnalysisMode::parse(analysis_mode);
        let tools = match Project::get_tools(provider_specific_config, lookup) {
            Ok(t) => t,
            Err(e) => {
                return Err(e);
            },
        };
        let project = Project::new(location, self.db_path.clone(), mode, tools);
        self.project = Some(project);
        Ok(())
    }

    /// Concludes an initialisation and gives what the caller sees of it.
    /// The initialisation succeeded exactly when the project is ready, that
    /// is, when validating the language, building the graph, resolving the
    /// dependencies and loading them into the store have all succeeded in
    /// that order; the answer then carries no error. Otherwise the answer
    /// is unsuccessful and says what ended the initialisation, and the
    /// project is marked as failed.
    pub fn conclude_init(&mut self, failure: Option<InitFailure>) -> (res: InitResponse)
        ensures
            final(self).db_path == old(self).db_path,
            res.id == PROVIDER_ID,
            res.successful == is_ready(old(self).project),
            res.successful ==> res.error@.len() == 0 && final(self).project == old(self).project,
            !res.successful ==> res.error@ == init_error_text(failure) && res.error@.len() > 0,
            !res.successful ==> match (old(self).project, final(self).project) {
                (Some(before), Some(after)) => {
                    &&& after.state() == state_after_failure(before.state())
                    &&& after.same_setup(&before)
                    &&& after.graph_model() == before.graph_model()
                    &&& after.same_language(&before)
                    &&& after.resolved() == before.resolved()
                },
                (None, None) => true,
                _ => false,
            },
    {
        let mut project: Option<Project> = None;
        std::mem::swap(&mut project, &mut self.project);
        match project {
            Some(p) => {
                match p.current_state() {
                    ProjectState::Ready => {
                        self.project = Some(p);
                        return InitResponse {
                            error: String::new(),
                            successful: true,
                            id: PROVIDER_ID,
                        };
                    },
                    _ => {
                        let mut failed = p;
                        let _ = failed.fail();
                        self.project = Some(failed);
                    },
                }
            },
            None => {},
        }
        let mut error = String::from_str("unable to initialise the project: ");
        let detail: &str = match failure {
            Some(InitFailure::Tools(e)) => describe_tools_error(e),
            Some(InitFailure::Step(kind)) => kind.name(),
            Some(InitFailure::OutOfOrder) => "a step was taken out of order",
            None => "the steps were not completed",
        };
        error.append(detail);
        proof {
            reveal_strlit("unable to initialise the project: ");
        }
        InitResponse { error, successful: false, id: PROVIDER_ID }
    }

    /// Whether the provider has the capability `cap`.
    pub fn supports(cap: &str) -> (b: bool)
        ensures
            b == (cap@ == REFERENCED@),
    {
        *cap == *REFERENCED
    }

    /// Evaluates a condition of the capability `cap`: searches the project
    /// for references to `pattern`.
    pub fn evaluate(&self, cap: &str, pattern: String, location: Option<String>) -> (res: Result<
        EvaluateResponse,
        EvaluateError,
    >)
        ensures
            match res {
                Err(e) => e == if cap@ != REFERENCED@ {
                    EvaluateError::UnknownCapability
                } else {
                    EvaluateError::NotInitialized
                },
                Ok(r) => self.project matches Some(p) && answers(r, find_result(&p, pattern@)),
            },
            res is Ok <==> cap@ == REFERENCED@ && self.project is Some,
    {
        if *cap != *REFERENCED {
            return Err(EvaluateError::UnknownCapability);
        }
        let project = match &self.project {
            Some(x) => x,
            None => {
                return Err(EvaluateError::NotInitialized);
            },
        };
        let search = FindNode { node_type: location, regex: pattern };
        match search.run(project) {
            Err(err) => Ok(EvaluateResponse { error: Some(err), successful: false, response: None }),
            Ok(found) => {
                let ghost before = result_views(found@);
                let sorted = sort_incidents(found);
                proof {
                    crate::c_sharp_graph::laws::lemma_report_is_ordered(before);
                }
                Ok(
                    EvaluateResponse {
                        error: None,
                        successful: true,
                        response: Some(
                            ProviderEvaluateResponse {
                                matched: sorted.len() > 0,
                                incident_contexts: sorted,
                            },
                        ),
                    },
                )
            },
        }
    }
}

} // verus!
