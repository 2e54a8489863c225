//! The dependencies of a project: how they are read from the package
//! manager's files and how each is handed to the decompiler.

use crate::text::{
    chars_of, contains, contains_text, find_from, first_occurrence, has_prefix, matches_at,
    occurs_at, replace_all, replaced, split_whitespace, str_le, str_lt, text_between, text_le,
    text_lt, tokens, trim_start, trim_start_len, views,
};
use vstd::prelude::*;
use vstd::string::StringExecFns;

verus! {

/// One dependency package of the project.
#[derive(Debug, Clone, PartialEq, Eq)]
pub struct Dependencies {
    /// The package's directory on disk.
    pub location: String,
    pub name: String,
    pub version: String,
    /// The directories that hold its decompiled sources, one for each
    /// library that was decompiled.
    pub decompiled_location: Vec<String>,
}

/// A dependency as a mathematical value.
pub struct DependencyModel {
    pub location: Seq<char>,
    pub name: Seq<char>,
    pub version: Seq<char>,
    pub decompiled_location: Seq<Seq<char>>,
}

impl View for Dependencies {
    type V = DependencyModel;

    open spec fn view(&self) -> DependencyModel {
        DependencyModel {
            location: self.location@,
            name: self.name@,
            version: self.version@,
            decompiled_location: crate::text::views(self.decompiled_location@),
        }
    }
}

/// The package that holds the reference assemblies of a framework; the
/// framework is appended to it behind a `.`.
pub const REFERNCE_ASSEMBLIES_NAME: &'static str = "Microsoft.NETFramework.ReferenceAssemblies";

/// The name of the package manager's manifest.
pub const PAKET_DEPENDENCIES: &'static str = "paket.dependencies";

/// The name of the file in a package that lists what the package installs.
pub const PAKET_INSTALL_MODEL: &'static str = "paket-installmodel.cache";

/// The directory below the project in which the packages lie.
pub const PACKAGES_DIR: &'static str = "packages";

/// A framework that comes behind every real one in the order of strings.
pub const NO_FRAMEWORK: &'static str = "zzzzzzzzzzzzzzz";

/// Why the dependencies could not be resolved.
#[derive(Debug, Clone, Copy, PartialEq, Eq, Structural)]
pub enum ResolveError {
    /// The package manager could not convert the project.
    ResolveConvert,
    /// A file of the package manager does not read as expected.
    ResolveParse,
    /// An outside program could not be started.
    ResolveSpawn,
    /// The decompiler failed.
    Decompile,
}

/// What `Path::join` of the standard library makes of a path and a part
/// that is adjoined to it, as text.
pub uninterp spec fn joined_path(base: Seq<char>, part: Seq<char>) -> Seq<char>;

/// Calls `std::path::Path::join`. Both arguments are texts, so the joined
/// path is a text too, and it depends on the two of them alone.
#[verifier::external_body]
fn path_join(base: &str, part: &str) -> (path: String)
    ensures
        path@ == joined_path(base@, part@),
{
    std::path::Path::new(base).join(part).to_string_lossy().into_owned()
}

/// The two parts of a line around `separator`, where the line holds the
/// separator exactly once.
pub open spec fn split_once_only(line: Seq<char>, separator: Seq<char>) -> Option<
    (Seq<char>, Seq<char>),
> {
    if contains_text(line, separator) {
        let i = choose|i: int| first_occurrence(line, separator, i);
        if contains_text(line.skip(i + separator.len()), separator) {
            None
        } else {
            Some((line.take(i), line.skip(i + separator.len())))
        }
    } else {
        None
    }
}

/// What a line of the manifest declares.
pub struct Declaration {
    pub name: Seq<char>,
    pub version: Seq<char>,
    /// The target framework that the line restricts the package to.
    pub framework: Option<Seq<char>>,
}

/// What a line of the manifest declares, if it declares a dependency: the
/// line must hold `restriction:` exactly once, with at least four tokens
/// before it. The second token is the name of the package and the third
/// its version; the last token behind `restriction:` is the framework.
pub open spec fn declared(line: Seq<char>) -> Option<Declaration> {
    match split_once_only(line, "restriction:"@) {
        None => None,
        Some((dependency, restriction)) => {
            let t = tokens(dependency);
            if t.len() < 4 {
                None
            } else {
                Some(
                    Declaration {
                        name: t[1],
                        version: t[2],
                        framework: if tokens(restriction).len() > 0 {
                            Some(tokens(restriction).last())
                        } else {
                            None
                        },
                    },
                )
            }
        },
    }
}

/// The framework that a line of the manifest declares, if it declares a
/// dependency and restricts it to one.
pub open spec fn declared_framework(line: Seq<char>) -> Option<Seq<char>> {
    match declared(line) {
        Some(d) => d.framework,
        None => None,
    }
}

/// The smallest framework, in the order of strings, that the lines
/// declare; `None` where no line declares one.
pub open spec fn smallest_declared(lines: Seq<Seq<char>>) -> Option<Seq<char>>
    decreases lines.len(),
{
    if lines.len() == 0 {
        None
    } else {
        let before = smallest_declared(lines.drop_last());
        match declared_framework(lines.last()) {
            Some(f) => match before {
                Some(b) => if text_lt(f, b) {
                    Some(f)
                } else {
                    Some(b)
                },
                None => Some(f),
            },
            None => before,
        }
    }
}

/// The framework of a manifest: the smallest that its lines declare, and
/// the text that stands for none where no line declares one.
pub open spec fn smallest_framework(lines: Seq<Seq<char>>) -> Seq<char> {
    match smallest_declared(lines) {
        Some(f) => f,
        None => NO_FRAMEWORK@,
    }
}

/// The smallest declared framework is one of the declared frameworks and
/// comes behind none of them; there is none exactly where no line declares
/// a framework.
pub proof fn lemma_smallest_declared(lines: Seq<Seq<char>>)
    ensures
        match smallest_declared(lines) {
            Some(f) => {
                &&& exists|i: int|
                    0 <= i < lines.len() && declared_framework(#[trigger] lines[i]) == Some(f)
                &&& forall|j: int|
                    0 <= j < lines.len() ==> match declared_framework(#[trigger] lines[j]) {
                        Some(g) => text_le(f, g),
                        None => true,
                    }
            },
            None => forall|j: int|
                0 <= j < lines.len() ==> declared_framework(#[trigger] lines[j]) is None,
        },
    decreases lines.len(),
{
    if lines.len() > 0 {
        let front = lines.drop_last();
        let last = lines.last();
        lemma_smallest_declared(front);
        assert forall|j: int| 0 <= j < front.len() implies front[j] == lines[j] by {}
        let before = smallest_declared(front);
        match smallest_declared(lines) {
            Some(f) => {
                let fb = vstd::utf8::encode_utf8(f);
                match (declared_framework(last), before) {
                    (Some(new), Some(b)) => {
                        let nb = vstd::utf8::encode_utf8(new);
                        let bb = vstd::utf8::encode_utf8(b);
                        crate::text::lemma_lex_le_total(nb, bb);
                        if text_lt(new, b) {
                            assert(lines[lines.len() - 1] == last);
                            assert forall|j: int| 0 <= j < lines.len() implies match
                                declared_framework(#[trigger] lines[j]) {
                                Some(g) => text_le(f, g),
                                None => true,
                            } by {
                                if j < front.len() {
                                    assert(front[j] == lines[j]);
                                    match declared_framework(front[j]) {
                                        Some(g) => {
                                            crate::text::lemma_lex_le_transitive(
                                                nb,
                                                bb,
                                                vstd::utf8::encode_utf8(g),
                                            );
                                        },
                                        None => {},
                                    }
                                } else {
                                    crate::text::lemma_lex_le_total(nb, nb);
                                }
                            }
                        } else {
                            let i = choose|i: int|
                                0 <= i < front.len() && declared_framework(#[trigger] front[i])
                                    == Some(b);
                            assert(lines[i] == front[i]);
                            assert forall|j: int| 0 <= j < lines.len() implies match
                                declared_framework(#[trigger] lines[j]) {
                                Some(g) => text_le(f, g),
                                None => true,
                            } by {
                                if j < front.len() {
                                    assert(front[j] == lines[j]);
                                }
                            }
                        }
                    },
                    (Some(new), None) => {
                        assert(lines[lines.len() - 1] == last);
                        crate::text::lemma_lex_le_total(fb, fb);
                        assert forall|j: int| 0 <= j < lines.len() implies match
                            declared_framework(#[trigger] lines[j]) {
                            Some(g) => text_le(f, g),
                            None => true,
                        } by {
                            if j < front.len() {
                                assert(front[j] == lines[j]);
                            }
                        }
                    },
                    (None, _) => {
                        let i = choose|i: int|
                            0 <= i < front.len() && declared_framework(#[trigger] front[i])
                                == Some(f);
                        assert(lines[i] == front[i]);
                        assert forall|j: int| 0 <= j < lines.len() implies match
                            declared_framework(#[trigger] lines[j]) {
                            Some(g) => text_le(f, g),
                            None => true,
                        } by {
                            if j < front.len() {
                                assert(front[j] == lines[j]);
                            }
                        }
                    },
                }
            },
            None => {
                assert forall|j: int| 0 <= j < lines.len() implies declared_framework(
                    #[trigger] lines[j],
                ) is None by {
                    if j < front.len() {
                        assert(front[j] == lines[j]);
                    }
                }
            },
        }
    }
}

/// The dependency that a declaration stands for in a project at
/// `location`: its package lies below the project's package directory, and
/// nothing of it is decompiled yet.
pub open spec fn dependency_of(d: Declaration, location: Seq<char>) -> DependencyModel {
    DependencyModel {
        location: joined_path(joined_path(location, PACKAGES_DIR@), d.name),
        name: d.name,
        version: d.version,
        decompiled_location: Seq::empty(),
    }
}

/// The dependencies that the lines declare, in the order of the lines.
pub open spec fn declared_dependencies(lines: Seq<Seq<char>>, location: Seq<char>) -> Seq<
    DependencyModel,
>
    decreases lines.len(),
{
    if lines.len() == 0 {
        Seq::empty()
    } else {
        let before = declared_dependencies(lines.drop_last(), location);
        match declared(lines.last()) {
            Some(d) => before.push(dependency_of(d, location)),
            None => before,
        }
    }
}

/// The views of a sequence of dependencies.
pub open spec fn dependency_views(deps: Seq<Dependencies>) -> Seq<DependencyModel> {
    Seq::new(deps.len(), |i: int| deps[i]@)
}

/// What the manifest of a project says.
pub struct Manifest {
    /// The smallest framework that a dependency is restricted to; the text
    /// that stands for none where no dependency is restricted.
    pub smallest_framework: String,
    /// The declared dependencies.
    pub dependencies: Vec<Dependencies>,
}

/// What a line declares, as it comes out of the parser.
struct ParsedLine {
    name: String,
    version: String,
    framework: Option<String>,
}

/// Reads one line of the manifest.
fn parse_line(line: &str) -> (parsed: Option<ParsedLine>)
    ensures
        match parsed {
            Some(p) => declared(line@) == Some(
                Declaration {
                    name: p.name@,
                    version: p.version@,
                    framework: crate::c_sharp_graph::query::opt_view(p.framework),
                },
            ),
            None => declared(line@) is None,
        },
{
    let chars = chars_of(line);
    let separator = chars_of("restriction:");
    let at = match find_from(&chars, &separator, 0) {
        Some(i) => i,
        None => {
            return None;
        },
    };
    proof {
        assert(first_occurrence(line@, separator@, at as int));
        let i = choose|i: int| first_occurrence(line@, separator@, i);
        assert(i == at) by {
            if i < at {
                assert(!occurs_at(line@, separator@, i));
            }
            if at < i {
                assert(!occurs_at(line@, separator@, at as int));
            }
        }
    }
    assert(at + separator@.len() <= chars.len());
    let behind = at + separator.len();
    let ghost rest = line@.skip(behind as int);
    match find_from(&chars, &separator, behind) {
        Some(j) => {
            proof {
                assert(rest.subrange(j - behind, j - behind + separator@.len()) =~= line@.subrange(
                    j as int,
                    j + separator@.len(),
                ));
                assert(occurs_at(rest, separator@, j - behind));
            }
            return None;
        },
        None => {
            proof {
                if contains_text(rest, separator@) {
                    let k = choose|k: int| occurs_at(rest, separator@, k);
                    assert(rest.subrange(k, k + separator@.len()) =~= line@.subrange(
                        behind + k,
                        behind + k + separator@.len(),
                    ));
                    assert(occurs_at(line@, separator@, behind + k));
                }
            }
        },
    }
    let dependency = text_between(&chars, 0, at);
    let restriction = text_between(&chars, behind, chars.len());
    proof {
        assert(dependency@ =~= line@.take(at as int));
        assert(restriction@ =~= rest);
    }
    let white_space_split = split_whitespace(dependency.as_str());
    if white_space_split.len() < 4 {
        return None;
    }
    let frameworks = split_whitespace(restriction.as_str());
    let framework = if frameworks.len() > 0 {
        Some(frameworks[frameworks.len() - 1].clone())
    } else {
        None
    };
    proof {
        assert(views(white_space_split@)[1] == white_space_split@[1]@);
        assert(views(white_space_split@)[2] == white_space_split@[2]@);
        if frameworks@.len() > 0 {
            assert(views(frameworks@).last() == frameworks@[frameworks@.len() - 1]@);
        }
    }
    Some(
        ParsedLine {
            name: white_space_split[1].clone(),
            version: white_space_split[2].clone(),
            framework,
        },
    )
}

/// Reads the manifest of the project at `location`, line by line: the
/// dependencies that it declares, and the smallest framework among their
/// restrictions. Where no line restricts a dependency to a framework, the
/// framework is the text that stands for none.
pub fn read_packet_dependency_file(lines: &Vec<String>, location: &str) -> (manifest: Manifest)
    ensures
        manifest.smallest_framework@ == smallest_framework(views(lines@)),
        dependency_views(manifest.dependencies@) == declared_dependencies(
            views(lines@),
            location@,
        ),
{
    let mut smallest: Option<String> = None;
    let mut deps: Vec<Dependencies> = Vec::new();
    let packages = path_join(location, PACKAGES_DIR);
    let mut i: usize = 0;
    proof {
        assert(views(lines@).take(0) =~= Seq::<Seq<char>>::empty());
        assert(dependency_views(deps@) =~= Seq::<DependencyModel>::empty());
    }
    while i < lines.len()
        invariant
            0 <= i <= lines@.len(),
            packages@ == joined_path(location@, PACKAGES_DIR@),
            crate::c_sharp_graph::query::opt_view(smallest) == smallest_declared(
                views(lines@).take(i as int),
            ),
            dependency_views(deps@) == declared_dependencies(
                views(lines@).take(i as int),
                location@,
            ),
        decreases lines.len() - i,
    {
        proof {
            let upto = views(lines@).take(i + 1);
            assert(upto.drop_last() =~= views(lines@).take(i as int));
            assert(upto.last() == lines@[i as int]@);
        }
        match parse_line(lines[i].as_str()) {
            None => {},
            Some(parsed) => {
                let dep = Dependencies {
                    location: path_join(packages.as_str(), parsed.name.as_str()),
                    name: parsed.name,
                    version: parsed.version,
                    decompiled_location: Vec::new(),
                };
                proof {
                    assert(dep@.decompiled_location =~= Seq::<Seq<char>>::empty());
                    assert(dependency_views(deps@.push(dep)) =~= dependency_views(deps@).push(
                        dep@,
                    ));
                }
                deps.push(dep);
                match parsed.framework {
                    Some(framework) => {
                        let smaller = match &smallest {
                            Some(known) => str_lt(framework.as_str(), known.as_str()),
                            None => true,
                        };
                        if smaller {
                            smallest = Some(framework);
                        }
                    },
                    None => {},
                }
            },
        }
        i += 1;
    }
    proof {
        assert(views(lines@).take(i as int) =~= views(lines@));
    }
    let smallest_framework = match smallest {
        Some(framework) => framework,
        None => NO_FRAMEWORK.to_owned(),
    };
    Manifest { smallest_framework, dependencies: deps }
}

/// The name of the package that holds the reference assemblies of
/// `framework`.
pub open spec fn reference_package(framework: Seq<char>) -> Seq<char> {
    REFERNCE_ASSEMBLIES_NAME@ + seq!['.'] + framework
}

/// The name of the package that holds the reference assemblies of
/// `framework`.
pub fn reference_package_name(framework: &str) -> (name: String)
    ensures
        name@ == reference_package(framework@),
{
    let mut name = REFERNCE_ASSEMBLIES_NAME.to_owned();
    name.push('.');
    name.append(framework);
    name
}

/// The directory in which the package manager installs the reference
/// assemblies of `framework` for the project at `location`.
pub fn reference_package_dir(location: &str, framework: &str) -> (dir: String)
    ensures
        dir@ == joined_path(
            joined_path(location@, PACKAGES_DIR@),
            reference_package(framework@),
        ),
{
    let packages = path_join(location, PACKAGES_DIR);
    let name = reference_package_name(framework);
    path_join(packages.as_str(), name.as_str())
}

/// Whether a line of the install model names a directory of reference
/// assemblies: it begins with `D: /` and holds `build/.NETFramework/`.
pub open spec fn names_reference_assemblies(line: Seq<char>) -> bool {
    has_prefix(line, "D: /"@) && contains_text(line, "build/.NETFramework/"@)
}

/// The directory of the reference assemblies, as the install model of their
/// package at `paket_install` gives it: the first line that names such a
/// directory decides, and what follows its `D: /` is the directory inside
/// the package. Every other line is passed over; a model without such a
/// line does not read as expected.
pub open spec fn reference_assemblies(lines: Seq<Seq<char>>, paket_install: Seq<char>) -> Result<
    Seq<char>,
    ResolveError,
>
    decreases lines.len(),
{
    if lines.len() == 0 {
        Err(ResolveError::ResolveParse)
    } else if names_reference_assemblies(lines[0]) {
        Ok(joined_path(paket_install, lines[0].skip("D: /"@.len() as int)))
    } else {
        reference_assemblies(lines.drop_first(), paket_install)
    }
}

/// The outcome of a lookup as a mathematical value.
pub open spec fn path_outcome(res: Result<String, ResolveError>) -> Result<
    Seq<char>,
    ResolveError,
> {
    match res {
        Ok(p) => Ok(p@),
        Err(e) => Err(e),
    }
}

/// Finds the directory of the reference assemblies in the lines of the
/// install model of their package.
pub fn reference_assembly_path(lines: &Vec<String>, paket_install: &str) -> (res: Result<
    String,
    ResolveError,
>)
    ensures
        path_outcome(res) == reference_assemblies(views(lines@), paket_install@),
{
    let build = chars_of("build/.NETFramework/");
    let marker = chars_of("D: /");
    let mut i: usize = 0;
    proof {
        assert(views(lines@).skip(0) =~= views(lines@));
    }
    while i < lines.len()
        invariant
            0 <= i <= lines@.len(),
            build@ == "build/.NETFramework/"@,
            marker@ == "D: /"@,
            reference_assemblies(views(lines@), paket_install@) == reference_assemblies(
                views(lines@).skip(i as int),
                paket_install@,
            ),
        decreases lines.len() - i,
    {
        let line = chars_of(lines[i].as_str());
        proof {
            let rest = views(lines@).skip(i as int);
            assert(rest[0] == lines@[i as int]@);
            assert(rest.drop_first() =~= views(lines@).skip(i + 1));
        }
        if matches_at(&line, &marker, 0) && contains(&line, &build) {
            let path_str = text_between(&line, marker.len(), line.len());
            proof {
                assert(path_str@ =~= line@.skip(marker@.len() as int));
            }
            return Ok(path_join(paket_install, path_str.as_str()));
        }
        i += 1;
    }
    Err(ResolveError::ResolveParse)
}

/// What has been learned from the install model of a package so far.
pub struct CacheScan {
    /// The line of the library directory that is chosen so far; empty
    /// where none is.
    pub directory: Seq<char>,
    /// What the lines of the files in that directory begin with.
    pub file_prefix: Seq<char>,
    /// The lines of the libraries found in that directory.
    pub dlls: Seq<Seq<char>>,
}

/// Whether a line replaces the chosen library directory: it must begin
/// with `D: /lib/`, must not come behind `top`, and must come behind the
/// directory chosen so far, if there is one.
pub open spec fn is_candidate(scan: CacheScan, line: Seq<char>, top: Seq<char>) -> bool {
    &&& has_prefix(line, "D: /lib/"@)
    &&& text_le(line, top)
    &&& scan.file_prefix.len() == 0 || text_lt(scan.directory, line)
}

/// What one more line adds: a candidate becomes the chosen directory and
/// the libraries found before are dropped; a line that holds `.dll` and
/// begins with the chosen directory's file prefix is one more library.
pub open spec fn scan_line(scan: CacheScan, line: Seq<char>, top: Seq<char>) -> CacheScan {
    let chosen = if is_candidate(scan, line, top) {
        CacheScan {
            directory: line,
            file_prefix: replaced(line, "D:"@, "F:"@),
            dlls: Seq::empty(),
        }
    } else {
        scan
    };
    if contains_text(line, ".dll"@) && chosen.directory.len() > 0 && has_prefix(
        line,
        chosen.file_prefix,
    ) {
        CacheScan { dlls: chosen.dlls.push(line), ..chosen }
    } else {
        chosen
    }
}

/// What the lines of an install model say.
pub open spec fn scan_lines(lines: Seq<Seq<char>>, top: Seq<char>) -> CacheScan
    decreases lines.len(),
{
    if lines.len() == 0 {
        CacheScan { directory: Seq::empty(), file_prefix: Seq::empty(), dlls: Seq::empty() }
    } else {
        scan_line(scan_lines(lines.drop_last(), top), lines.last(), top)
    }
}

/// The upper bound for the library directory of a framework.
pub open spec fn top_of_version(restriction: Seq<char>) -> Seq<char> {
    "D: /lib/"@ + restriction
}

/// The paths of the libraries that the install model of the package at
/// `location` offers for `restriction`: those of the highest library
/// directory that does not come behind the framework.
pub open spec fn library_paths(
    lines: Seq<Seq<char>>,
    restriction: Seq<char>,
    location: Seq<char>,
) -> Seq<Seq<char>> {
    let dlls = scan_lines(lines, top_of_version(restriction)).dlls;
    Seq::new(dlls.len(), |i: int| joined_path(location, trim_start(dlls[i], "F: /"@)))
}

/// The invocation of the decompiler for one library.
#[derive(Debug, Clone, PartialEq, Eq)]
pub struct DecompileCommand {
    /// The decompiler.
    pub program: String,
    /// Its arguments.
    pub args: Vec<String>,
    /// The directory in which it runs.
    pub current_dir: String,
    /// The directory that holds the decompiled sources afterwards.
    pub output: String,
}

/// The directory into which the libraries of a dependency are decompiled:
/// the dependency's name with `-decompiled` appended, below the
/// dependency's package directory.
pub open spec fn decompiled_dir(dep: DependencyModel) -> Seq<char> {
    joined_path(dep.location, dep.name + "-decompiled"@)
}

/// The arguments of the decompiler for one library.
pub open spec fn decompile_args(
    dep: DependencyModel,
    reference_assemblies: Seq<char>,
    library: Seq<char>,
) -> Seq<Seq<char>> {
    seq![
        "-o"@,
        decompiled_dir(dep),
        "-r"@,
        reference_assemblies,
        "--no-dead-code"@,
        "--no-dead-stores"@,
        "-lv"@,
        "CSharp7_3"@,
        "-p"@,
        library,
    ]
}

/// `texts` without repetitions: the first of equal texts stays.
pub open spec fn without_repeats(texts: Seq<Seq<char>>) -> Seq<Seq<char>>
    decreases texts.len(),
{
    if texts.len() == 0 {
        Seq::empty()
    } else {
        let before = without_repeats(texts.drop_last());
        if before.contains(texts.last()) {
            before
        } else {
            before.push(texts.last())
        }
    }
}

impl Dependencies {
    /// Reads the install model of the package: the paths of the libraries
    /// in the highest library directory that does not come behind the
    /// framework `restriction`.
    pub fn read_packet_cache_file(&self, lines: &Vec<String>, restriction: &str) -> (dll_paths:
        Vec<String>)
        ensures
            views(dll_paths@) == library_paths(views(lines@), restriction@, self.location@),
    {
        let mut top = "D: /lib/".to_owned();
        top.append(restriction);
        let lib = chars_of("D: /lib/");
        let dll = chars_of(".dll");
        let d = chars_of("D:");
        let f = chars_of("F:");
        let file_root = chars_of("F: /");
        let mut dlls: Vec<Vec<char>> = Vec::new();
        let mut valid_dir_to_search = String::new();
        let mut valid_file_match_start: Vec<char> = Vec::new();
        let ghost all = views(lines@);
        let ghost bound = top_of_version(restriction@);
        let mut i: usize = 0;
        proof {
            assert(all.take(0) =~= Seq::<Seq<char>>::empty());
            assert(char_views(dlls@) =~= Seq::<Seq<char>>::empty());
        }
        while i < lines.len()
            invariant
                0 <= i <= lines@.len(),
                all == views(lines@),
                bound == top_of_version(restriction@),
                top@ == bound,
                lib@ == "D: /lib/"@,
                dll@ == ".dll"@,
                d@ == "D:"@,
                f@ == "F:"@,
                valid_dir_to_search@ == scan_lines(all.take(i as int), bound).directory,
                valid_file_match_start@ == scan_lines(all.take(i as int), bound).file_prefix,
                char_views(dlls@) == scan_lines(all.take(i as int), bound).dlls,
            decreases lines.len() - i,
        {
            let line = &lines[i];
            let line_chars = chars_of(line.as_str());
            proof {
                let upto = all.take(i + 1);
                assert(upto.drop_last() =~= all.take(i as int));
                assert(upto.last() == line@);
            }
            if matches_at(&line_chars, &lib, 0) && str_le(line.as_str(), top.as_str()) && (
            valid_file_match_start.len() == 0 || str_lt(
                valid_dir_to_search.as_str(),
                line.as_str(),
            )) {
                valid_file_match_start = replace_all(&line_chars, &d, &f);
                valid_dir_to_search = line.clone();
                dlls = Vec::new();
                proof {
                    assert(char_views(dlls@) =~= Seq::<Seq<char>>::empty());
                }
            }
            if contains(&line_chars, &dll) && !valid_dir_to_search.as_str().is_empty()
                && matches_at(&line_chars, &valid_file_match_start, 0) {
                proof {
                    assert(char_views(dlls@.push(line_chars)) =~= char_views(dlls@).push(
                        line_chars@,
                    ));
                }
                dlls.push(line_chars);
            }
            i += 1;
        }
        proof {
            assert(all.take(i as int) =~= all);
        }
        let mut dll_paths: Vec<String> = Vec::new();
        let mut k: usize = 0;
        while k < dlls.len()
            invariant
                0 <= k <= dlls@.len(),
                file_root@ == "F: /"@,
                char_views(dlls@) == scan_lines(views(lines@), top_of_version(restriction@)).dlls,
                dll_paths@.len() == k,
                forall|j: int|
                    0 <= j < k ==> (#[trigger] dll_paths@[j])@ == joined_path(
                        self.location@,
                        trim_start(dlls@[j]@, "F: /"@),
                    ),
            decreases dlls.len() - k,
        {
            let skip = trim_start_len(&dlls[k], &file_root);
            let relative = text_between(&dlls[k], skip, dlls[k].len());
            proof {
                assert(relative@ =~= dlls@[k as int]@.skip(skip as int));
            }
            dll_paths.push(path_join(self.location.as_str(), relative.as_str()));
            k += 1;
        }
        proof {
            let expected = library_paths(views(lines@), restriction@, self.location@);
            assert(views(dll_paths@).len() == expected.len());
            assert forall|j: int| 0 <= j < expected.len() implies views(dll_paths@)[j]
                == expected[j] by {
                assert(char_views(dlls@)[j] == dlls@[j]@);
            }
            assert(views(dll_paths@) =~= expected);
        }
        dll_paths
    }

    /// The invocation of the decompiler `ilspycmd` for one library of the
    /// dependency. It runs in the dependency's package directory.
    pub fn decompile_file(
        &self,
        reference_assmblies: &str,
        file_to_decompile: &str,
        ilspycmd: &str,
    ) -> (command: DecompileCommand)
        ensures
            command.program@ == ilspycmd@,
            command.current_dir@ == self.location@,
            command.output@ == decompiled_dir(self@),
            views(command.args@) == decompile_args(
                self@,
                reference_assmblies@,
                file_to_decompile@,
            ),
    {
        let mut decompile_name = self.name.clone();
        decompile_name.append("-decompiled");
        let decompile_out_name = path_join(self.location.as_str(), decompile_name.as_str());
        let mut args: Vec<String> = Vec::new();
        args.push("-o".to_owned());
        args.push(decompile_out_name.clone());
        args.push("-r".to_owned());
        args.push(reference_assmblies.to_owned());
        args.push("--no-dead-code".to_owned());
        args.push("--no-dead-stores".to_owned());
        args.push("-lv".to_owned());
        args.push("CSharp7_3".to_owned());
        args.push("-p".to_owned());
        args.push(file_to_decompile.to_owned());
        proof {
            assert(views(args@) =~= decompile_args(
                self@,
                reference_assmblies@,
                file_to_decompile@,
            ));
        }
        DecompileCommand {
            program: ilspycmd.to_owned(),
            args,
            current_dir: self.location.clone(),
            output: decompile_out_name,
        }
    }

    /// Records the directories into which the libraries of the dependency
    /// were decompiled. Each directory is kept once.
    pub fn decompile(&mut self, decompiled_files: Vec<String>)
        ensures
            final(self).location == old(self).location,
            final(self).name == old(self).name,
            final(self).version == old(self).version,
            views(final(self).decompiled_location@) == without_repeats(views(decompiled_files@)),
    {
        let mut kept: Vec<String> = Vec::new();
        let mut i: usize = 0;
        proof {
            assert(views(decompiled_files@).take(0) =~= Seq::<Seq<char>>::empty());
            assert(views(kept@) =~= Seq::<Seq<char>>::empty());
        }
        while i < decompiled_files.len()
            invariant
                0 <= i <= decompiled_files@.len(),
                views(kept@) == without_repeats(views(decompiled_files@).take(i as int)),
            decreases decompiled_files.len() - i,
        {
            proof {
                let upto = views(decompiled_files@).take(i + 1);
                assert(upto.drop_last() =~= views(decompiled_files@).take(i as int));
                assert(upto.last() == decompiled_files@[i as int]@);
            }
            if !crate::text::holds(&kept, decompiled_files[i].as_str()) {
                proof {
                    assert(views(kept@.push(decompiled_files@[i as int])) =~= views(kept@).push(
                        decompiled_files@[i as int]@,
                    ));
                }
                kept.push(decompiled_files[i].clone());
            }
            i += 1;
        }
        proof {
            assert(views(decompiled_files@).take(i as int) =~= views(decompiled_files@));
        }
        self.decompiled_location = kept;
    }
}

/// The views of a sequence of character lists.
pub open spec fn char_views(texts: Seq<Vec<char>>) -> Seq<Seq<char>> {
    Seq::new(texts.len(), |i: int| texts[i]@)
}

} // verus!
