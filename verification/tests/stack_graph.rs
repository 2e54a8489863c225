use c_sharp_analyzer_provider_cli::c_sharp_graph::graph::{Edge, Graph, GraphError, Node, SourceInfo};
use c_sharp_analyzer_provider_cli::c_sharp_graph::loader::SourceType;
use c_sharp_analyzer_provider_cli::c_sharp_graph::query::{Query, QueryType, SyntaxType};
use c_sharp_analyzer_provider_cli::c_sharp_graph::results::{Location, Position};
use stack_graphs::arena::Handle;
use stack_graphs::graph::{File, StackGraph};

// Adds a node that pushes `symbol` to `file`, with a syntax tag and a span on `line`.
fn tagged(
    sg: &mut StackGraph,
    file: Handle<File>,
    symbol: &str,
    tag: &str,
    line: usize,
    from: usize,
    to: usize,
) -> Handle<stack_graphs::graph::Node> {
    let s = sg.add_symbol(symbol);
    let id = sg.new_node_id(file);
    let n = sg.add_push_symbol_node(id, s, false).unwrap();
    let t = sg.add_string(tag);
    let info = sg.source_info_mut(n);
    info.syntax_type = t.into();
    info.span.start.line = line;
    info.span.start.column.utf8_offset = from;
    info.span.end.line = line;
    info.span.end.column.utf8_offset = to;
    n
}

fn sample() -> StackGraph {
    let mut sg = StackGraph::new();
    let source = sg.add_symbol("konveyor.io/source_type=source");
    let _dependency = sg.add_symbol("konveyor.io/source_type=dependency");
    let file = sg.add_file("/project/Program.cs").unwrap();
    let id = sg.new_node_id(file);
    let marker = sg.add_pop_symbol_node(id, source, false).unwrap();
    let unit = tagged(&mut sg, file, "Program.cs", "comp_unit", 0, 0, 0);
    sg.add_edge(marker, unit, 0);
    let ns = tagged(&mut sg, file, "App", "namespace_declaration", 1, 10, 13);
    sg.add_edge(unit, ns, 0);
    let class = tagged(&mut sg, file, "Startup", "class_def", 2, 6, 13);
    sg.add_edge(ns, class, 0);
    sg.add_edge(class, ns, 10);
    let id = sg.new_node_id(file);
    let scope = sg.add_scope_node(id, false).unwrap();
    sg.add_edge(class, scope, 0);
    sg
}

#[test]
fn copy_keeps_symbols_files_and_handles() {
    let sg = sample();
    let g = Graph::from_stack_graph(&sg).unwrap();
    assert_eq!(g.symbol_count(), 5);
    assert_eq!(g.symbol(1), "konveyor.io/source_type=source");
    assert_eq!(g.symbol(2), "konveyor.io/source_type=dependency");
    assert_eq!(g.symbol(3), "Program.cs");
    assert_eq!(g.file_count(), 1);
    assert_eq!(g.file_name(1), "/project/Program.cs");
    assert_eq!(g.node_count(), 7);
    assert_eq!(g.node(1).node, Node::Root);
    assert_eq!(g.node(2).node, Node::JumpTo);
    assert_eq!(g.node(3).node, Node::PopSymbol { symbol: 1, is_definition: false });
    assert_eq!(g.node(4).node, Node::PushSymbol { symbol: 3 });
    assert_eq!(g.node(7).node, Node::Scope);
    assert_eq!(g.node(1).file, None);
    assert_eq!(g.node(4).file, Some(1));
}

#[test]
fn copy_keeps_edges_and_source_information() {
    let sg = sample();
    let g = Graph::from_stack_graph(&sg).unwrap();
    assert_eq!(g.node(3).edges, vec![Edge { sink: 4, precedence: 0 }]);
    assert_eq!(
        g.node(6).edges,
        vec![Edge { sink: 5, precedence: 10 }, Edge { sink: 7, precedence: 0 }]
    );
    assert_eq!(
        g.node(6).source_info,
        Some(SourceInfo {
            span: Location {
                start_position: Position { line: 2, character: 6 },
                end_position: Position { line: 2, character: 13 },
            },
            syntax_type: Some(SyntaxType::ClassDef),
        })
    );
    assert_eq!(g.node(4).source_info.unwrap().syntax_type, Some(SyntaxType::CompUnit));
}

#[test]
fn empty_stack_graph_is_the_empty_graph() {
    let sg = StackGraph::new();
    let g = Graph::from_stack_graph(&sg).unwrap();
    assert_eq!(g.node_count(), 2);
    assert_eq!(g.symbol_count(), 0);
    assert_eq!(g.file_count(), 0);
}

#[test]
fn second_compilation_unit_is_refused() {
    let mut sg = sample();
    let file = sg.get_file("/project/Program.cs").unwrap();
    tagged(&mut sg, file, "Other.cs", "comp_unit", 9, 0, 0);
    assert!(matches!(Graph::from_stack_graph(&sg), Err(GraphError::Malformed)));
}

#[test]
fn second_parent_name_is_refused() {
    let mut sg = sample();
    let file = sg.get_file("/project/Program.cs").unwrap();
    let a = tagged(&mut sg, file, "A", "class_def", 5, 0, 1);
    let b = tagged(&mut sg, file, "B", "class_def", 6, 0, 1);
    let c = tagged(&mut sg, file, "C", "class_def", 7, 0, 1);
    sg.add_edge(a, b, 10);
    sg.add_edge(a, c, 10);
    assert!(matches!(Graph::from_stack_graph(&sg), Err(GraphError::Malformed)));
}

#[test]
fn query_on_a_copied_graph() {
    let mut sg = sample();
    let file = sg.get_file("/project/Program.cs").unwrap();
    let unit = sg.nodes_for_file(file).nth(1).unwrap();
    let reference = tagged(&mut sg, file, "Startup", "name", 8, 4, 11);
    sg.add_edge(unit, reference, 0);
    let g = Graph::from_stack_graph(&sg).unwrap();
    let source = SourceType::Source { symbol_handle: 1 };
    let found = QueryType::All { graph: &g, source_type: &source }.query("App.*".to_string()).unwrap();
    let lines: Vec<usize> = found.iter().map(|r| r.line_number).collect();
    // The reference on line 8 hangs below the unit itself; the class on
    // line 2 lies below the namespace.
    assert_eq!(lines, vec![8, 2]);
    assert_eq!(found[0].file_uri, "file:///project/Program.cs");
}
