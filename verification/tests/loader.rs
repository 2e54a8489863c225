use c_sharp_analyzer_provider_cli::c_sharp_graph::graph::{Graph, Node};
use c_sharp_analyzer_provider_cli::c_sharp_graph::loader::{
    add_dir_to_graph, content_tag, init_stack_graph, load_graph_for_file, FileTag, IngestError,
    LoadedFile, SourceType, WalkEntry,
};

fn file(path: &str, source: &str) -> WalkEntry {
    WalkEntry {
        path: path.to_string(),
        is_dir: false,
        matches_language: true,
        source: source.to_string(),
    }
}

fn dir(path: &str) -> WalkEntry {
    WalkEntry { path: path.to_string(), is_dir: true, matches_language: false, source: String::new() }
}

fn other(path: &str) -> WalkEntry {
    WalkEntry {
        path: path.to_string(),
        is_dir: false,
        matches_language: false,
        source: "not of the language".to_string(),
    }
}

#[test]
fn content_tag_is_sha1_in_base64_without_padding() {
    assert_eq!(content_tag(""), "2jmj7l5rSw0yVb/vlWAYkK/YBwk");
    assert_eq!(content_tag("abc"), "qZk+NkcGgWq6PiVxeFDCbJzQ2J0");
    assert_eq!(content_tag("class X {}\n"), "eKIA+sbXQnS1kVHkCcM05RfN9I8");
}

#[test]
fn one_file_is_added_with_its_marker() {
    let mut g = Graph::new();
    let (source, _) = SourceType::load_symbols_into_graph(&mut g);
    let res = load_graph_for_file("/p/a.cs", &mut g, true, "abc", &source);
    assert_eq!(
        res,
        Ok(Some((LoadedFile { file: 1, source_type_node: 3 }, "qZk+NkcGgWq6PiVxeFDCbJzQ2J0".to_string())))
    );
    assert_eq!(g.file_name(1), "/p/a.cs");
    assert_eq!(g.node(3).node, Node::PopSymbol { symbol: 1, is_definition: false });
    // The same file cannot be added twice.
    assert_eq!(load_graph_for_file("/p/a.cs", &mut g, true, "abc", &source), Err(IngestError::GraphBuild));
    assert_eq!(g.file_count(), 1);
    assert_eq!(g.node_count(), 3);
}

#[test]
fn unrecognized_file_is_skipped_without_error() {
    let mut g = Graph::new();
    let (source, _) = SourceType::load_symbols_into_graph(&mut g);
    assert_eq!(load_graph_for_file("/p/readme.md", &mut g, false, "text", &source), Ok(None));
    assert_eq!(g.file_count(), 0);
    assert_eq!(g.node_count(), 2);
}

#[test]
fn unknown_marker_cannot_be_added() {
    let mut g = Graph::new();
    let stray = SourceType::Source { symbol_handle: 1 };
    assert_eq!(load_graph_for_file("/p/a.cs", &mut g, true, "", &stray), Err(IngestError::GraphBuild));
    assert_eq!(g.file_count(), 0);
}

#[test]
fn directory_is_taken_file_by_file() {
    let mut g = Graph::new();
    let (_, dependency) = SourceType::load_symbols_into_graph(&mut g);
    let entries = vec![
        dir("/p"),
        file("/p/a.cs", "abc"),
        other("/p/readme.md"),
        dir("/p/sub"),
        file("/p/sub/b.cs", ""),
        file("/p/a.cs", "changed"),
    ];
    let r = add_dir_to_graph(&entries, &dependency, g).unwrap();
    assert_eq!(r.files_loaded, 2);
    assert_eq!(
        r.file_to_tag,
        vec![
            FileTag { path: "/p/a.cs".to_string(), tag: "qZk+NkcGgWq6PiVxeFDCbJzQ2J0".to_string() },
            FileTag { path: "/p/sub/b.cs".to_string(), tag: "2jmj7l5rSw0yVb/vlWAYkK/YBwk".to_string() },
        ]
    );
    assert_eq!(
        r.loaded,
        vec![
            LoadedFile { file: 1, source_type_node: 3 },
            LoadedFile { file: 2, source_type_node: 4 },
        ]
    );
    assert_eq!(r.stack_graph.file_count(), 2);
    assert_eq!(r.stack_graph.node(4).node, Node::PopSymbol { symbol: 2, is_definition: false });
    assert_eq!(r.stack_graph.node(4).file, Some(2));
}

#[test]
fn number_of_tags_is_the_number_of_accepted_files() {
    let mut g = Graph::new();
    let (source, _) = SourceType::load_symbols_into_graph(&mut g);
    let entries = vec![file("/a.cs", "1"), other("/b.txt"), file("/c.cs", "2"), file("/d.cs", "3")];
    let r = add_dir_to_graph(&entries, &source, g).unwrap();
    assert_eq!(r.files_loaded, 3);
    assert_eq!(r.file_to_tag.len(), 3);
    assert_eq!(r.stack_graph.file_count(), 3);
}

#[test]
fn files_that_the_graph_has_are_passed_over() {
    let mut g = Graph::new();
    let (source, _) = SourceType::load_symbols_into_graph(&mut g);
    let first = add_dir_to_graph(&vec![file("/a.cs", "1")], &source, g).unwrap();
    assert_eq!(first.files_loaded, 1);
    // Walking the same directory again adds nothing.
    let second = add_dir_to_graph(&vec![file("/a.cs", "1")], &source, first.stack_graph).unwrap();
    assert_eq!(second.files_loaded, 0);
    assert!(second.file_to_tag.is_empty());
    assert_eq!(second.stack_graph.file_count(), 1);
    assert_eq!(second.stack_graph.node_count(), 3);
}

#[test]
fn empty_directory_gives_the_graph_back() {
    let g = Graph::new();
    let stray = SourceType::Source { symbol_handle: 7 };
    // Nothing is added, so the unknown marker does not matter.
    let r = add_dir_to_graph(&vec![dir("/p"), other("/p/x")], &stray, g).unwrap();
    assert_eq!(r.files_loaded, 0);
    assert_eq!(r.stack_graph.node_count(), 2);
    let g = Graph::new();
    assert!(matches!(
        add_dir_to_graph(&vec![file("/p/a.cs", "")], &stray, g),
        Err(IngestError::GraphBuild)
    ));
}

#[test]
fn project_graph_starts_from_the_builtins() {
    let source = SourceType::Source { symbol_handle: 1 };
    let r = init_stack_graph(&vec![file("/p/a.cs", "abc"), dir("/p/obj")], &source).unwrap();
    assert_eq!(r.files_loaded, 1);
    assert_eq!(r.stack_graph.symbol(1), "konveyor.io/source_type=source");
    assert_eq!(r.stack_graph.symbol(2), "konveyor.io/source_type=dependency");
    assert_eq!(r.stack_graph.file_name(1), "<builtins>");
    assert_eq!(r.stack_graph.file_name(2), "/p/a.cs");
    assert_eq!(r.loaded, vec![LoadedFile { file: 2, source_type_node: 5 }]);
    assert_eq!(r.file_to_tag[0].tag, "qZk+NkcGgWq6PiVxeFDCbJzQ2J0");
}

#[test]
fn empty_file_gets_a_marker_and_nothing_else() {
    let source = SourceType::Source { symbol_handle: 1 };
    let r = init_stack_graph(&vec![file("/p/empty.cs", "")], &source).unwrap();
    assert_eq!(r.files_loaded, 1);
    // Builtins: two sentinels and two markers; the file adds its own marker.
    assert_eq!(r.stack_graph.node_count(), 5);
    assert_eq!(r.file_to_tag[0].tag, "2jmj7l5rSw0yVb/vlWAYkK/YBwk");
}
