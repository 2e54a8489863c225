//! What every graph of a project starts from: the built-in file with the two
//! provenance markers.

use crate::c_sharp_graph::graph::{Graph, GraphModel};
use crate::c_sharp_graph::loader::{
    dependency_string, lemma_marker_strings_differ, marker_node, source_string, SourceType,
};
use vstd::prelude::*;

verus! {

/// The name of the built-in file.
pub const BUILTINS_FILENAME: &'static str = "<builtins>";

/// The scope that the language's files are known under.
pub const LANGUAGE_SCOPE: &'static str = "source.cs";

/// The extension of the language's files.
pub const LANGUAGE_FILE_TYPE: &'static str = "cs";

/// The built-in graph as a mathematical value: the two sentinels, the
/// built-in file, the two reserved symbols, and one marker node for each.
pub open spec fn builtins_model() -> GraphModel {
    GraphModel {
        symbols: seq![source_string(), dependency_string()],
        files: seq![BUILTINS_FILENAME@],
        nodes: GraphModel::initial().nodes.push(marker_node(1, 1)).push(marker_node(2, 1)),
    }
}

/// The language's graph configuration: the built-in graph and the two
/// provenance markers with their handles in it.
pub struct SourceNodeLanguageConfiguration {
    pub builtins: Graph,
    pub source_type_node_info: SourceType,
    pub dependnecy_type_node_info: SourceType,
}

impl SourceNodeLanguageConfiguration {
    /// Builds the built-in graph. The markers are the first two symbols of
    /// it, so that their handles are 1 and 2 in every graph that starts
    /// from it.
    pub fn new() -> (config: SourceNodeLanguageConfiguration)
        ensures
            config.builtins@ == builtins_model(),
            config.source_type_node_info == (SourceType::Source { symbol_handle: 1 }),
            config.dependnecy_type_node_info == (SourceType::Dependency { symbol_handle: 2 }),
    {
        let mut builtins = Graph::new();
        let (source_type_node_info, dependnecy_type_node_info) =
            SourceType::load_symbols_into_graph(&mut builtins);
        proof {
            lemma_marker_strings_differ();
            let none = Seq::<Seq<char>>::empty();
            assert(!none.contains(source_string()));
            assert(!none.push(source_string()).contains(dependency_string())) by {
                if none.push(source_string()).contains(dependency_string()) {
                    let k = choose|k: int|
                        0 <= k < none.push(source_string()).len() && none.push(
                            source_string(),
                        )[k] == dependency_string();
                    assert(k == 0);
                }
            }
            assert(builtins@.symbols =~= builtins_model().symbols);
        }
        let file = match builtins.add_file(BUILTINS_FILENAME) {
            Ok(h) => h,
            Err(h) => h,
        };
        assert(file == 1);
        assert(builtins@.files =~= builtins_model().files);
        let first = source_type_node_info.load_node_to_graph(&mut builtins, file);
        assert(first is Ok);
        let second = dependnecy_type_node_info.load_node_to_graph(&mut builtins, file);
        assert(second is Ok);
        assert(builtins@.nodes =~= builtins_model().nodes);
        SourceNodeLanguageConfiguration {
            builtins,
            source_type_node_info,
            dependnecy_type_node_info,
        }
    }
}

} // verus!
