//! The provenance marker of a file: whether it is part of the project's own
//! source or of a dependency.

use crate::c_sharp_graph::graph::{Graph, GraphError, GraphModel, Node, NodeModel};
use crate::c_sharp_graph::language_config::SourceNodeLanguageConfiguration;
use sha1::Digest;
use vstd::prelude::*;
use vstd::string::StringSliceAdditionalSpecFns;

verus! {

/// The name under which the marker node is handed to the graph builder.
pub const SOURCE_TYPE_NODE: &'static str = "SOURCE_TYPE_NODE";

/// The reserved symbol that marks a file as project source.
pub open spec fn source_string() -> Seq<char> {
    "konveyor.io/source_type=source"@
}

/// The reserved symbol that marks a file as part of a dependency.
pub open spec fn dependency_string() -> Seq<char> {
    "konveyor.io/source_type=dependency"@
}

/// A provenance marker, with the handle of its reserved symbol.
#[derive(Debug, Clone, Copy, PartialEq, Eq, Structural, Hash)]
pub enum SourceType {
    Source { symbol_handle: usize },
    Dependency { symbol_handle: usize },
}

impl SourceType {
    /// The handle of the marker's symbol.
    pub open spec fn handle(self) -> usize {
        match self {
            SourceType::Source { symbol_handle } => symbol_handle,
            SourceType::Dependency { symbol_handle } => symbol_handle,
        }
    }

    /// The reserved symbol of the marker.
    pub open spec fn string(self) -> Seq<char> {
        match self {
            SourceType::Source { .. } => source_string(),
            SourceType::Dependency { .. } => dependency_string(),
        }
    }

    /// The reserved symbol for project source.
    pub fn get_source_string() -> (s: String)
        ensures
            s@ == source_string(),
    {
        "konveyor.io/source_type=source".to_owned()
    }

    /// The reserved symbol for dependencies.
    pub fn get_dependency_string() -> (s: String)
        ensures
            s@ == dependency_string(),
    {
        "konveyor.io/source_type=dependency".to_owned()
    }

    /// Interns both reserved symbols, the source marker first. In a graph
    /// without symbols they get the handles 1 and 2.
    pub fn load_symbols_into_graph(graph: &mut Graph) -> (markers: (Self, Self))
        ensures
            final(graph)@.files == old(graph)@.files,
            final(graph)@.nodes == old(graph)@.nodes,
            final(graph)@.symbols == with_symbol(
                with_symbol(old(graph)@.symbols, source_string()),
                dependency_string(),
            ),
            markers.0 is Source,
            markers.1 is Dependency,
            final(graph)@.symbol_handle(source_string()) == Some(markers.0.handle()),
            final(graph)@.symbol_handle(dependency_string()) == Some(markers.1.handle()),
            old(graph)@.symbols.len() == 0 ==> markers.0.handle() == 1 && markers.1.handle() == 2,
            old(graph)@.symbols.len() == 0 || markers_in_place(old(graph)@) ==> markers_in_place(
                final(graph)@,
            ),
    {
        let source_text = Self::get_source_string();
        let dependency_text = Self::get_dependency_string();
        proof {
            lemma_marker_strings_differ();
        }
        let source_type_symbol_handle = graph.add_symbol(source_text.as_str());
        let ghost mid = graph@;
        let dependency_type_symbol_handle = graph.add_symbol(dependency_text.as_str());
        graph.check();
        proof {
            let symbols = graph@.symbols;
            let i = mid.symbols.index_of(source_string());
            assert(mid.symbols.contains(source_string()));
            assert(symbols[i] == source_string());
            assert(symbols.contains(source_string()));
            crate::c_sharp_graph::graph::lemma_index_of_distinct(symbols, i);
            if old(graph)@.symbols.len() == 0 {
                assert(mid.symbols =~= seq![source_string()]);
                assert(!mid.symbols.contains(dependency_string())) by {
                    if mid.symbols.contains(dependency_string()) {
                        let k = mid.symbols.index_of(dependency_string());
                        assert(mid.symbols[k] == dependency_string());
                    }
                }
                crate::c_sharp_graph::graph::lemma_index_of_distinct(symbols, 1);
            }
        }
        (
            Self::Source { symbol_handle: source_type_symbol_handle },
            Self::Dependency { symbol_handle: dependency_type_symbol_handle },
        )
    }

    /// The handle of the marker's symbol.
    pub fn get_symbol_handle(&self) -> (h: usize)
        ensures
            h == self.handle(),
    {
        match self {
            SourceType::Source { symbol_handle } | SourceType::Dependency { symbol_handle } => {
                *symbol_handle
            },
        }
    }

    /// The reserved symbol of the marker.
    pub fn get_string(&self) -> (s: String)
        ensures
            s@ == self.string(),
    {
        match self {
            SourceType::Source { symbol_handle: _ } => Self::get_source_string(),
            SourceType::Dependency { symbol_handle: _ } => Self::get_dependency_string(),
        }
    }

    /// Adds the marker node of a file: a node that pops the marker's symbol
    /// and is no definition. Returns the handle of the new node.
    pub fn load_node_to_graph(&self, graph: &mut Graph, file: usize) -> (res: Result<
        usize,
        GraphError,
    >)
        ensures
            final(graph)@.symbols == old(graph)@.symbols,
            final(graph)@.files == old(graph)@.files,
            res is Ok <==> old(graph)@.valid_file(file) && old(graph)@.valid_symbol(self.handle()),
            match res {
                Ok(h) => {
                    &&& h == old(graph)@.nodes.len() + 1
                    &&& final(graph)@.nodes == old(graph)@.nodes.push(
                        marker_node(self.handle(), file),
                    )
                },
                Err(e) => e == GraphError::UnknownHandle && final(graph)@ == old(graph)@,
            },
    {
        let symbol_handle = self.get_symbol_handle();
        graph.add_node(file, Node::PopSymbol { symbol: symbol_handle, is_definition: false })
    }
}

/// Whether the two reserved symbols are the first two symbols of the graph,
/// the source marker at handle 1 and the dependency marker at handle 2.
pub open spec fn markers_in_place(g: GraphModel) -> bool {
    g.symbols.len() >= 2 && g.symbols[0] == source_string() && g.symbols[1] == dependency_string()
}

impl Graph {
    /// Whether the two reserved symbols stand at the handles 1 and 2, where
    /// every query under a marker looks for them.
    pub fn has_markers_in_place(&self) -> (b: bool)
        ensures
            b == markers_in_place(self@),
    {
        if self.symbol_count() < 2 {
            return false;
        }
        let source = SourceType::get_source_string();
        let dependency = SourceType::get_dependency_string();
        *self.symbol(1) == *source.as_str() && *self.symbol(2) == *dependency.as_str()
    }
}

impl SourceType {
    /// This marker as it is found in the graph `g`: the same provenance,
    /// with the handle under which the marker's symbol is interned in `g`.
    /// Where `g` does not hold the symbol, the handle is 0, which names no
    /// symbol, so that no node bears it.
    pub open spec fn located(self, g: GraphModel) -> SourceType {
        let handle = match g.symbol_handle(self.string()) {
            Some(h) => h,
            None => 0,
        };
        match self {
            SourceType::Source { .. } => SourceType::Source { symbol_handle: handle },
            SourceType::Dependency { .. } => SourceType::Dependency { symbol_handle: handle },
        }
    }

    /// This marker as it is found in `graph`, whatever the order in which
    /// the symbols of the graph were interned.
    pub fn locate_in(&self, graph: &Graph) -> (found: SourceType)
        ensures
            found == self.located(graph@),
    {
        let text = self.get_string();
        let handle = match graph.get_symbol(text.as_str()) {
            Some(h) => h,
            None => 0,
        };
        match self {
            SourceType::Source { symbol_handle: _ } => SourceType::Source { symbol_handle: handle },
            SourceType::Dependency { symbol_handle: _ } => SourceType::Dependency {
                symbol_handle: handle,
            },
        }
    }
}

/// In a graph whose first two symbols are the markers, the markers are
/// found at the handles 1 and 2.
pub proof fn lemma_markers_found_in_place(g: GraphModel, source: usize, dependency: usize)
    requires
        g.wf(),
        markers_in_place(g),
    ensures
        (SourceType::Source { symbol_handle: source }).located(g) == (SourceType::Source {
            symbol_handle: 1,
        }),
        (SourceType::Dependency { symbol_handle: dependency }).located(g) == (
        SourceType::Dependency { symbol_handle: 2 }),
{
    crate::c_sharp_graph::graph::lemma_index_of_distinct(g.symbols, 0);
    crate::c_sharp_graph::graph::lemma_index_of_distinct(g.symbols, 1);
}

/// `symbols` with `text` interned: appended unless it is there already.
pub open spec fn with_symbol(symbols: Seq<Seq<char>>, text: Seq<char>) -> Seq<Seq<char>> {
    if symbols.contains(text) {
        symbols
    } else {
        symbols.push(text)
    }
}

/// The marker node of a file.
pub open spec fn marker_node(symbol: usize, file: usize) -> NodeModel {
    NodeModel {
        node: Node::PopSymbol { symbol, is_definition: false },
        file: Some(file),
        source_info: None,
        edges: Seq::empty(),
    }
}

/// The two reserved symbols are different texts.
pub proof fn lemma_marker_strings_differ()
    ensures
        source_string() != dependency_string(),
{
    reveal_strlit("konveyor.io/source_type=source");
    reveal_strlit("konveyor.io/source_type=dependency");
    assert(source_string().len() != dependency_string().len());
}

/// The SHA-1 digest of a sequence of bytes, as the `sha1` crate computes it.
pub uninterp spec fn sha1_digest(bytes: Seq<u8>) -> Seq<u8>;

/// The base64 text of a sequence of bytes in the standard alphabet without
/// padding, as the `base64` crate encodes it.
pub uninterp spec fn base64_no_pad(bytes: Seq<u8>) -> Seq<char>;

/// Calls `Digest::digest` of the `sha1` crate on the bytes of `source`. A
/// SHA-1 digest has 20 bytes.
#[verifier::external_body]
fn digest_of(source: &str) -> (digest: Vec<u8>)
    ensures
        digest@ == sha1_digest(source.spec_bytes()),
        digest@.len() == 20,
{
    sha1::Sha1::digest(source.as_bytes()).to_vec()
}

/// Calls `Engine::encode` of the `base64` crate with its standard engine
/// without padding. The crate gives up on inputs whose encoding does not
/// fit the address space; those are left out.
#[verifier::external_body]
fn encode_no_pad(bytes: &Vec<u8>) -> (text: String)
    requires
        bytes@.len() <= 0x4000_0000,
    ensures
        text@ == base64_no_pad(bytes@),
{
    base64::Engine::encode(&base64::prelude::BASE64_STANDARD_NO_PAD, bytes)
}

/// The content tag of a text: the SHA-1 digest of its bytes in base64
/// without padding.
pub open spec fn tag_of(source: Seq<char>) -> Seq<char> {
    base64_no_pad(sha1_digest(vstd::utf8::encode_utf8(source)))
}

/// The content tag of a file's text. Files are told apart by it: a file
/// whose tag is known has not changed.
pub fn content_tag(source: &str) -> (tag: String)
    ensures
        tag@ == tag_of(source@),
{
    let digest = digest_of(source);
    encode_no_pad(&digest)
}

/// What a walk through a directory found at one path, with what was read
/// there.
#[derive(Debug, Clone, PartialEq, Eq)]
pub struct WalkEntry {
    pub path: String,
    /// Whether the path is a directory.
    pub is_dir: bool,
    /// Whether the language configuration takes the file as one of its own.
    pub matches_language: bool,
    /// The text of the file.
    pub source: String,
}

/// A file with its content tag.
#[derive(Debug, Clone, PartialEq, Eq)]
pub struct FileTag {
    pub path: String,
    pub tag: String,
}

/// A file that was added to the graph and waits for the graph builder.
#[derive(Debug, Clone, Copy, PartialEq, Eq, Structural)]
pub struct LoadedFile {
    /// The handle of the file.
    pub file: usize,
    /// The handle of the file's marker node.
    pub source_type_node: usize,
}

/// Why files could not be taken into the graph.
#[derive(Debug, Clone, Copy, PartialEq, Eq, Structural)]
pub enum IngestError {
    /// The directory could not be walked.
    Walk,
    /// A file could not be read.
    Read,
    /// A file could not be added to the graph.
    GraphBuild,
    /// The store refused a file.
    StoreIo,
}

/// What taking a directory into a graph gives.
pub struct AsyncInitializeGraph {
    /// The number of files that were added.
    pub files_loaded: usize,
    pub stack_graph: Graph,
    /// The content tag of each file that was added, in the order in which
    /// the files were added.
    pub file_to_tag: Vec<FileTag>,
    /// The files that were added, for the graph builder.
    pub loaded: Vec<LoadedFile>,
}

/// What building the graph of a project gives.
pub struct InitializedGraph {
    pub files_loaded: usize,
    pub stack_graph: Graph,
    /// The content tag of each file, for the store.
    pub file_to_tag: Vec<FileTag>,
    /// The files that were added, for the graph builder.
    pub loaded: Vec<LoadedFile>,
}

/// Whether an entry is taken into a graph that knows the files `known`:
/// directories are passed over, and so are files that the graph has
/// already and files that are not of the language.
pub open spec fn accepted(known: Seq<Seq<char>>, entry: WalkEntry) -> bool {
    !entry.is_dir && !known.contains(entry.path@) && entry.matches_language
}

/// The number of entries that are taken into a graph that knows the files
/// `known` at the start. A file that is taken is known from then on.
pub open spec fn accepted_count(known: Seq<Seq<char>>, entries: Seq<WalkEntry>) -> nat
    decreases entries.len(),
{
    if entries.len() == 0 {
        0
    } else {
        let before = entries.drop_last();
        accepted_count(known, before) + if accepted(files_after(known, before), entries.last()) {
            1nat
        } else {
            0nat
        }
    }
}

/// The files that a graph knows after the entries are taken in.
pub open spec fn files_after(known: Seq<Seq<char>>, entries: Seq<WalkEntry>) -> Seq<Seq<char>>
    decreases entries.len(),
{
    if entries.len() == 0 {
        known
    } else {
        let before = files_after(known, entries.drop_last());
        if accepted(before, entries.last()) {
            before.push(entries.last().path@)
        } else {
            before
        }
    }
}

/// The nodes of a graph after the entries are taken in: each file that is
/// taken gets its marker node.
pub open spec fn nodes_after(
    g: GraphModel,
    marker: usize,
    entries: Seq<WalkEntry>,
) -> Seq<NodeModel>
    decreases entries.len(),
{
    if entries.len() == 0 {
        g.nodes
    } else {
        let before = nodes_after(g, marker, entries.drop_last());
        let known = files_after(g.files, entries.drop_last());
        if accepted(known, entries.last()) {
            before.push(marker_node(marker, (known.len() + 1) as usize))
        } else {
            before
        }
    }
}

/// The content tags of the files that are taken in, in their order.
pub open spec fn tags_after(known: Seq<Seq<char>>, entries: Seq<WalkEntry>) -> Seq<
    (Seq<char>, Seq<char>),
>
    decreases entries.len(),
{
    if entries.len() == 0 {
        Seq::empty()
    } else {
        let before = tags_after(known, entries.drop_last());
        if accepted(files_after(known, entries.drop_last()), entries.last()) {
            before.push((entries.last().path@, tag_of(entries.last().source@)))
        } else {
            before
        }
    }
}

/// The views of a sequence of tagged files.
pub open spec fn tag_views(tags: Seq<FileTag>) -> Seq<(Seq<char>, Seq<char>)> {
    Seq::new(tags.len(), |i: int| (tags[i].path@, tags[i].tag@))
}

/// Adds one file of the language to the graph: the file itself and its
/// marker node. Gives back the handles of both together with the content
/// tag of the file's text, or nothing for a file that is not of the
/// language. A file that the graph has already, and a marker whose symbol
/// the graph does not know, cannot be added.
pub fn load_graph_for_file(
    entry: &str,
    stack_graph: &mut Graph,
    matches_language: bool,
    source: &str,
    source_type: &SourceType,
) -> (res: Result<Option<(LoadedFile, String)>, IngestError>)
    ensures
        final(stack_graph)@.symbols == old(stack_graph)@.symbols,
        match res {
            Ok(None) => !matches_language && final(stack_graph)@ == old(stack_graph)@,
            Ok(Some((loaded, tag))) => {
                &&& matches_language
                &&& !old(stack_graph)@.files.contains(entry@)
                &&& old(stack_graph)@.valid_symbol(source_type.handle())
                &&& loaded.file == old(stack_graph)@.files.len() + 1
                &&& loaded.source_type_node == old(stack_graph)@.nodes.len() + 1
                &&& tag@ == tag_of(source@)
                &&& final(stack_graph)@.files == old(stack_graph)@.files.push(entry@)
                &&& final(stack_graph)@.nodes == old(stack_graph)@.nodes.push(
                    marker_node(source_type.handle(), loaded.file),
                )
            },
            Err(e) => {
                &&& e == IngestError::GraphBuild
                &&& matches_language
                &&& old(stack_graph)@.files.contains(entry@) || !old(stack_graph)@.valid_symbol(
                    source_type.handle(),
                )
                &&& final(stack_graph)@ == old(stack_graph)@
            },
        },
{
    if !matches_language {
        return Ok(None);
    }
    let marker = source_type.get_symbol_handle();
    if marker < 1 || marker > stack_graph.symbol_count() {
        return Err(IngestError::GraphBuild);
    }
    let tag: String = content_tag(source);
    let file = match stack_graph.add_file(entry) {
        Ok(x) => x,
        Err(_) => {
            return Err(IngestError::GraphBuild);
        },
    };
    let source_type_node = match source_type.load_node_to_graph(stack_graph, file) {
        Ok(id) => id,
        Err(_) => {
            // Both handles were checked before.
            return Err(IngestError::GraphBuild);
        },
    };
    Ok(Some((LoadedFile { file, source_type_node }, tag)))
}

/// Whether taking the entries into the graph succeeds: it fails only
/// where a file is to be added and the graph does not know the marker's
/// symbol.
pub open spec fn can_ingest(g: GraphModel, marker: usize, entries: Seq<WalkEntry>) -> bool {
    accepted_count(g.files, entries) == 0 || g.valid_symbol(marker)
}

/// Takes the files that a walk through a directory found into the graph.
/// Directories, files that the graph has already and files that are not of
/// the language are passed over. Every other file is added with its marker
/// node and counted, and its content tag is recorded.
pub fn add_dir_to_graph(
    entries: &Vec<WalkEntry>,
    source_type: &SourceType,
    graph: Graph,
) -> (res: Result<AsyncInitializeGraph, IngestError>)
    ensures
        res is Ok <==> can_ingest(graph@, source_type.handle(), entries@),
        res matches Ok(r) ==> {
            &&& r.files_loaded == accepted_count(graph@.files, entries@)
            &&& r.file_to_tag@.len() == r.files_loaded
            &&& r.loaded@.len() == r.files_loaded
            &&& tag_views(r.file_to_tag@) == tags_after(graph@.files, entries@)
            &&& r.stack_graph@.symbols == graph@.symbols
            &&& r.stack_graph@.files == files_after(graph@.files, entries@)
            &&& r.stack_graph@.nodes == nodes_after(
                graph@,
                source_type.handle(),
                entries@,
            )
        },
        res matches Err(e) ==> e == IngestError::GraphBuild,
{
    let ghost start = graph@;
    let ghost marker = source_type.handle();
    let mut stack_graph = graph;
    let mut files_loaded: usize = 0;
    let mut file_to_tag: Vec<FileTag> = Vec::new();
    let mut loaded: Vec<LoadedFile> = Vec::new();
    let mut i: usize = 0;
    proof {
        assert(entries@.take(0) =~= Seq::<WalkEntry>::empty());
        assert(tag_views(file_to_tag@) =~= Seq::<(Seq<char>, Seq<char>)>::empty());
    }
    while i < entries.len()
        invariant
            0 <= i <= entries@.len(),
            marker == source_type.handle(),
            start == graph@,
            files_loaded == accepted_count(start.files, entries@.take(i as int)),
            files_loaded <= i,
            file_to_tag@.len() == files_loaded,
            loaded@.len() == files_loaded,
            files_loaded > 0 ==> start.valid_symbol(marker),
            tag_views(file_to_tag@) == tags_after(start.files, entries@.take(i as int)),
            stack_graph@.symbols == start.symbols,
            stack_graph@.files == files_after(start.files, entries@.take(i as int)),
            stack_graph@.nodes == nodes_after(start, marker, entries@.take(i as int)),
        decreases entries.len() - i,
    {
        let entry = &entries[i];
        let ghost before = entries@.take(i as int);
        proof {
            let upto = entries@.take(i + 1);
            assert(upto.drop_last() =~= before);
            assert(upto.last() == *entry);
        }
        i += 1;
        if entry.is_dir {
            continue;
        }
        if stack_graph.get_file(entry.path.as_str()).is_some() {
            continue;
        }
        let ghost known = stack_graph@;
        assert(!known.files.contains(entry.path@));
        match load_graph_for_file(
            entry.path.as_str(),
            &mut stack_graph,
            entry.matches_language,
            entry.source.as_str(),
            source_type,
        ) {
            Ok(res) => match res {
                Some((f, tag)) => {
                    files_loaded += 1;
                    let tagged = FileTag { path: entry.path.clone(), tag };
                    proof {
                        assert(tag_views(file_to_tag@.push(tagged)) =~= tag_views(
                            file_to_tag@,
                        ).push((tagged.path@, tagged.tag@)));
                    }
                    file_to_tag.push(tagged);
                    loaded.push(f);
                },
                None => {},
            },
            Err(e) => {
                proof {
                    assert(accepted(files_after(start.files, before), *entry));
                    assert(accepted_count(start.files, entries@.take(i as int)) > 0);
                    lemma_accepted_count_grows(start.files, entries@, i as int);
                    assert(!known.valid_symbol(marker));
                    assert(!start.valid_symbol(marker));
                }
                return Err(e);
            },
        }
    }
    proof {
        assert(entries@.take(i as int) =~= entries@);
    }
    Ok(AsyncInitializeGraph { files_loaded, stack_graph, file_to_tag, loaded })
}

/// The number of accepted entries does not shrink when more entries
/// follow.
pub proof fn lemma_accepted_count_grows(known: Seq<Seq<char>>, entries: Seq<WalkEntry>, upto: int)
    requires
        0 <= upto <= entries.len(),
    ensures
        accepted_count(known, entries.take(upto)) <= accepted_count(known, entries),
    decreases entries.len() - upto,
{
    if upto < entries.len() {
        lemma_accepted_count_grows(known, entries, upto + 1);
        assert(entries.take(upto + 1).drop_last() =~= entries.take(upto));
    } else {
        assert(entries.take(upto) =~= entries);
    }
}

/// Builds the graph of a project from the files that a walk through its
/// directory found. The graph starts from the built-in graph of the
/// language, so that the markers are its first two symbols.
pub fn init_stack_graph(entries: &Vec<WalkEntry>, source_type: &SourceType) -> (res: Result<
    InitializedGraph,
    IngestError,
>)
    ensures
        res is Ok <==> can_ingest(
            crate::c_sharp_graph::language_config::builtins_model(),
            source_type.handle(),
            entries@,
        ),
        res matches Ok(r) ==> {
            let start = crate::c_sharp_graph::language_config::builtins_model();
            &&& r.files_loaded == accepted_count(start.files, entries@)
            &&& tag_views(r.file_to_tag@) == tags_after(start.files, entries@)
            &&& r.loaded@.len() == r.files_loaded
            &&& r.stack_graph@.symbols == start.symbols
            &&& r.stack_graph@.files == files_after(start.files, entries@)
            &&& r.stack_graph@.nodes == nodes_after(start, source_type.handle(), entries@)
        },
        res matches Err(e) ==> e == IngestError::GraphBuild,
{
    let config = SourceNodeLanguageConfiguration::new();
    match add_dir_to_graph(entries, source_type, config.builtins) {
        Ok(r) => Ok(
            InitializedGraph {
                files_loaded: r.files_loaded,
                stack_graph: r.stack_graph,
                file_to_tag: r.file_to_tag,
                loaded: r.loaded,
            },
        ),
        Err(e) => Err(e),
    }
}

/// Whether a graph that knows the files `known` has every file of the
/// language among the entries.
pub open spec fn knows_all(known: Seq<Seq<char>>, entries: Seq<WalkEntry>) -> bool {
    forall|i: int|
        0 <= i < entries.len() && !(#[trigger] entries[i]).is_dir && entries[i].matches_language
            ==> known.contains(entries[i].path@)
}

/// Taking entries in only adds files: what was known stays known.
pub proof fn lemma_files_after_keeps(known: Seq<Seq<char>>, entries: Seq<WalkEntry>)
    ensures
        forall|p: Seq<char>| known.contains(p) ==> files_after(known, entries).contains(p),
        knows_all(files_after(known, entries), entries),
    decreases entries.len(),
{
    if entries.len() > 0 {
        let front = entries.drop_last();
        let last = entries.last();
        lemma_files_after_keeps(known, front);
        let before = files_after(known, front);
        let after = files_after(known, entries);
        assert forall|p: Seq<char>| before.contains(p) implies after.contains(p) by {
            if accepted(before, last) {
                let k = choose|k: int| 0 <= k < before.len() && before[k] == p;
                assert(after[k] == p);
            }
        }
        assert forall|i: int|
            0 <= i < entries.len() && !(#[trigger] entries[i]).is_dir
                && entries[i].matches_language implies after.contains(entries[i].path@) by {
            if i < front.len() {
                assert(front[i] == entries[i]);
                assert(before.contains(front[i].path@));
            } else if accepted(before, last) {
                assert(after[before.len() as int] == last.path@);
            }
        }
    }
}

/// A graph that has every file of the language among the entries takes
/// none of them in.
pub proof fn lemma_known_files_are_passed_over(known: Seq<Seq<char>>, entries: Seq<WalkEntry>)
    requires
        knows_all(known, entries),
    ensures
        accepted_count(known, entries) == 0,
        files_after(known, entries) == known,
        tags_after(known, entries) == Seq::<(Seq<char>, Seq<char>)>::empty(),
    decreases entries.len(),
{
    if entries.len() > 0 {
        let front = entries.drop_last();
        assert forall|i: int|
            0 <= i < front.len() && !(#[trigger] front[i]).is_dir
                && front[i].matches_language implies known.contains(front[i].path@) by {
            assert(front[i] == entries[i]);
        }
        lemma_known_files_are_passed_over(known, front);
        assert(entries[entries.len() - 1] == entries.last());
    }
}

/// Walking an unchanged directory a second time adds nothing: after the
/// entries were taken in once, none of them is taken in again, and the
/// files of the graph stay as they are.
pub proof fn lemma_second_walk_adds_nothing(known: Seq<Seq<char>>, entries: Seq<WalkEntry>)
    ensures
        accepted_count(files_after(known, entries), entries) == 0,
        files_after(files_after(known, entries), entries) == files_after(known, entries),
        tags_after(files_after(known, entries), entries) == Seq::<(Seq<char>, Seq<char>)>::empty(),
{
    lemma_files_after_keeps(known, entries);
    lemma_known_files_are_passed_over(files_after(known, entries), entries);
}

/// Every file that gets a tag is known to the graph afterwards.
pub proof fn lemma_tagged_files_are_known(known: Seq<Seq<char>>, entries: Seq<WalkEntry>)
    ensures
        forall|i: int|
            0 <= i < tags_after(known, entries).len() ==> files_after(known, entries).contains(
                (#[trigger] tags_after(known, entries)[i]).0,
            ),
    decreases entries.len(),
{
    if entries.len() > 0 {
        let front = entries.drop_last();
        let last = entries.last();
        lemma_tagged_files_are_known(known, front);
        let before = files_after(known, front);
        let after = files_after(known, entries);
        let tags_before = tags_after(known, front);
        let tags = tags_after(known, entries);
        assert forall|p: Seq<char>| before.contains(p) implies after.contains(p) by {
            if accepted(before, last) {
                let k = choose|k: int| 0 <= k < before.len() && before[k] == p;
                assert(after[k] == p);
            }
        }
        assert forall|i: int| 0 <= i < tags.len() implies after.contains(
            (#[trigger] tags[i]).0,
        ) by {
            if i < tags_before.len() {
                assert(tags[i] == tags_before[i]);
                assert(before.contains(tags_before[i].0));
            } else {
                assert(accepted(before, last));
                assert(tags[i].0 == last.path@);
                assert(after[before.len() as int] == last.path@);
            }
        }
    }
}

/// No file is tagged twice: the tags of an ingestion are a function from
/// paths to tags.
pub proof fn lemma_tags_have_distinct_paths(known: Seq<Seq<char>>, entries: Seq<WalkEntry>)
    ensures
        forall|i: int, j: int|
            0 <= i < j < tags_after(known, entries).len() ==> tags_after(known, entries)[i].0
                != tags_after(known, entries)[j].0,
    decreases entries.len(),
{
    if entries.len() > 0 {
        let front = entries.drop_last();
        let last = entries.last();
        lemma_tags_have_distinct_paths(known, front);
        lemma_tagged_files_are_known(known, front);
        let before = files_after(known, front);
        let tags_before = tags_after(known, front);
        let tags = tags_after(known, entries);
        assert forall|i: int, j: int| 0 <= i < j < tags.len() implies tags[i].0 != tags[j].0 by {
            if j < tags_before.len() {
                assert(tags[i] == tags_before[i] && tags[j] == tags_before[j]);
            } else {
                assert(accepted(before, last));
                assert(tags[i] == tags_before[i]);
                assert(before.contains(tags_before[i].0));
                assert(tags[j].0 == last.path@);
            }
        }
    }
}

} // verus!
