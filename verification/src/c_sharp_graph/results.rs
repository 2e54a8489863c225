//! What a query reports: where in which file a symbol was found.

use crate::text::{str_lt, text_lt};
use vstd::prelude::*;
use vstd::string::StringExecFns;

verus! {

/// A place in a file: a line, and a character offset into that line counted
/// in UTF-8 bytes.
#[derive(Debug, Clone, Copy, PartialEq, Eq, Structural)]
pub struct Position {
    pub line: usize,
    pub character: usize,
}

/// A span in a file, from its first position to its last.
#[derive(Debug, Clone, Copy, PartialEq, Eq, Structural)]
pub struct Location {
    pub start_position: Position,
    pub end_position: Position,
}

/// One named value for the caller's report templates.
#[derive(Debug, Clone, PartialEq, Eq)]
pub struct Variable {
    pub name: String,
    pub value: String,
}

impl View for Variable {
    type V = (Seq<char>, Seq<char>);

    open spec fn view(&self) -> (Seq<char>, Seq<char>) {
        (self.name@, self.value@)
    }
}

/// One place where a queried symbol is referenced.
#[derive(Debug, Clone, PartialEq, Eq)]
pub struct ResultNode {
    /// The `file://` address of the file.
    pub file_uri: String,
    /// The line on which the reference starts.
    pub line_number: usize,
    /// Named values for the caller; `file` is always among them.
    pub variables: Vec<Variable>,
    /// The span of the reference.
    pub code_location: Location,
}

/// An incident as a mathematical value.
pub struct ResultModel {
    pub file_uri: Seq<char>,
    pub line_number: usize,
    pub variables: Seq<(Seq<char>, Seq<char>)>,
    pub code_location: Location,
}

/// The views of a sequence of variables.
pub open spec fn variable_views(variables: Seq<Variable>) -> Seq<(Seq<char>, Seq<char>)> {
    Seq::new(variables.len(), |i: int| variables[i]@)
}

impl View for ResultNode {
    type V = ResultModel;

    open spec fn view(&self) -> ResultModel {
        ResultModel {
            file_uri: self.file_uri@,
            line_number: self.line_number,
            variables: variable_views(self.variables@),
            code_location: self.code_location,
        }
    }
}

/// The views of a sequence of incidents.
pub open spec fn result_views(results: Seq<ResultNode>) -> Seq<ResultModel> {
    Seq::new(results.len(), |i: int| results[i]@)
}

/// The incident for a reference with the given span in the given file: it
/// is reported on the line where the span starts, and its only variable is
/// `file`, the address of the file.
pub open spec fn incident(file_uri: Seq<char>, span: Location) -> ResultModel {
    ResultModel {
        file_uri,
        line_number: span.start_position.line,
        variables: seq![("file"@, file_uri)],
        code_location: span,
    }
}

impl ResultNode {
    /// The incident for a reference with the given span in the given file.
    pub fn new(file_uri: &str, span: Location) -> (node: ResultNode)
        ensures
            node@ == incident(file_uri@, span),
    {
        let mut variables: Vec<Variable> = Vec::new();
        variables.push(Variable { name: String::from_str("file"), value: file_uri.to_owned() });
        let node = ResultNode {
            file_uri: file_uri.to_owned(),
            line_number: span.start_position.line,
            variables,
            code_location: span,
        };
        assert(node@.variables =~= seq![("file"@, file_uri@)]);
        node
    }
}

/// Whether incident `a` may stand before incident `b` in a report: its
/// file comes first in the order of strings, or it is in the same file and
/// not on a later line.
pub open spec fn reported_before(a: ResultModel, b: ResultModel) -> bool {
    text_lt(a.file_uri, b.file_uri) || (!text_lt(b.file_uri, a.file_uri) && a.line_number
        <= b.line_number)
}

/// `sorted` with `x` put behind the last incident that may stand before
/// it.
pub open spec fn insert_reported(sorted: Seq<ResultModel>, x: ResultModel) -> Seq<ResultModel>
    decreases sorted.len(),
{
    if sorted.len() == 0 {
        seq![x]
    } else if reported_before(sorted.last(), x) {
        sorted.push(x)
    } else {
        insert_reported(sorted.drop_last(), x).push(sorted.last())
    }
}

/// The incidents in the order of a report: by file, then by line, and
/// incidents of one file and line in the order in which they were found.
pub open spec fn report_order(found: Seq<ResultModel>) -> Seq<ResultModel>
    decreases found.len(),
{
    if found.len() == 0 {
        Seq::empty()
    } else {
        insert_reported(report_order(found.drop_last()), found.last())
    }
}

/// Where every incident from `at` on must stand behind `x`, and the one
/// before `at` may stand before it, `x` is put at `at`.
pub proof fn lemma_insert_reported_at(sorted: Seq<ResultModel>, x: ResultModel, at: int)
    requires
        0 <= at <= sorted.len(),
        forall|j: int| at <= j < sorted.len() ==> !reported_before(sorted[j], x),
        at > 0 ==> reported_before(sorted[at - 1], x),
    ensures
        insert_reported(sorted, x) == sorted.insert(at, x),
    decreases sorted.len(),
{
    if sorted.len() == 0 {
        assert(sorted.insert(at, x) =~= seq![x]);
    } else if at == sorted.len() {
        assert(sorted.insert(at, x) =~= sorted.push(x));
    } else {
        lemma_insert_reported_at(sorted.drop_last(), x, at);
        assert(sorted.drop_last().insert(at, x).push(sorted.last()) =~= sorted.insert(at, x));
    }
}

/// Whether incident `a` may stand before incident `b` in a report.
pub fn may_stand_before(a: &ResultNode, b: &ResultNode) -> (before: bool)
    ensures
        before == reported_before(a@, b@),
{
    str_lt(a.file_uri.as_str(), b.file_uri.as_str()) || (!str_lt(
        b.file_uri.as_str(),
        a.file_uri.as_str(),
    ) && a.line_number <= b.line_number)
}

/// Puts the incidents in the order of a report.
pub fn sort_incidents(found: Vec<ResultNode>) -> (sorted: Vec<ResultNode>)
    ensures
        result_views(sorted@) == report_order(result_views(found@)),
{
    let mut rest = found;
    let mut sorted: Vec<ResultNode> = Vec::new();
    let ghost all = result_views(found@);
    let ghost mut done: int = 0;
    proof {
        assert(all.take(0) =~= Seq::<ResultModel>::empty());
        assert(result_views(sorted@) =~= Seq::<ResultModel>::empty());
        assert(result_views(rest@) =~= all.skip(0));
    }
    while rest.len() > 0
        invariant
            0 <= done <= all.len(),
            result_views(rest@) == all.skip(done),
            result_views(sorted@) == report_order(all.take(done)),
        decreases rest.len(),
    {
        let ghost before_rest = rest@;
        proof {
            assert(result_views(before_rest).len() == before_rest.len());
            assert(done < all.len());
        }
        let x = rest.remove(0);
        proof {
            assert(result_views(before_rest)[0] == x@);
            assert forall|k: int| 0 <= k < rest@.len() implies result_views(rest@)[k]
                == all.skip(done + 1)[k] by {
                assert(rest@[k] == before_rest[k + 1]);
                assert(result_views(before_rest)[k + 1] == before_rest[k + 1]@);
            }
            assert(result_views(rest@) =~= all.skip(done + 1));
            assert(all.take(done + 1).drop_last() =~= all.take(done));
            assert(all.take(done + 1).last() == x@);
        }
        let mut at: usize = sorted.len();
        while at > 0 && !may_stand_before(&sorted[at - 1], &x)
            invariant
                0 <= at <= sorted@.len(),
                forall|j: int|
                    at <= j < sorted@.len() ==> !reported_before(
                        #[trigger] result_views(sorted@)[j],
                        x@,
                    ),
            decreases at,
        {
            proof {
                assert(result_views(sorted@)[at - 1] == sorted@[at - 1]@);
            }
            at -= 1;
        }
        proof {
            if at > 0 {
                assert(result_views(sorted@)[at - 1] == sorted@[at - 1]@);
            }
            lemma_insert_reported_at(result_views(sorted@), x@, at as int);
            assert(result_views(sorted@.insert(at as int, x)) =~= result_views(sorted@).insert(
                at as int,
                x@,
            ));
            done = done + 1;
        }
        sorted.insert(at, x);
    }
    proof {
        assert(all.take(done) =~= all);
    }
    sorted
}

} // verus!
