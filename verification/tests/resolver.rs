use c_sharp_analyzer_provider_cli::provider::dependency_resolution::{
    read_packet_dependency_file, reference_assembly_path, reference_package_dir,
    reference_package_name, Dependencies, ResolveError,
};

fn lines(text: &[&str]) -> Vec<String> {
    text.iter().map(|l| l.to_string()).collect()
}

fn dependency(location: &str, name: &str) -> Dependencies {
    Dependencies {
        location: location.to_string(),
        name: name.to_string(),
        version: "1.0.0".to_string(),
        decompiled_location: vec![],
    }
}

#[test]
fn manifest_declares_dependencies() {
    let manifest = read_packet_dependency_file(
        &lines(&[
            "source https://api.nuget.org/v3/index.json",
            "",
            "nuget Newtonsoft.Json 13.0.1 strategy:min restriction: == net45",
            "  nuget EntityFramework 6.4.4 redirects:on restriction: >=   net40  ",
            "nuget Short 1.0 restriction: == net35",
            "nuget Twice 1.0.0 x restriction: a restriction: == net20",
            "nuget NoRestriction 2.0.0 extra",
            "nuget Bare 3.0.0 y restriction:",
        ]),
        "/project",
    );
    assert_eq!(manifest.smallest_framework, "net40");
    let got: Vec<(String, String, String)> = manifest
        .dependencies
        .iter()
        .map(|d| (d.name.clone(), d.version.clone(), d.location.clone()))
        .collect();
    assert_eq!(
        got,
        vec![
            (
                "Newtonsoft.Json".to_string(),
                "13.0.1".to_string(),
                "/project/packages/Newtonsoft.Json".to_string()
            ),
            (
                "EntityFramework".to_string(),
                "6.4.4".to_string(),
                "/project/packages/EntityFramework".to_string()
            ),
            ("Bare".to_string(), "3.0.0".to_string(), "/project/packages/Bare".to_string()),
        ]
    );
    assert!(manifest.dependencies.iter().all(|d| d.decompiled_location.is_empty()));
}

#[test]
fn manifest_without_dependencies() {
    let manifest = read_packet_dependency_file(&lines(&["source x", "framework: net45"]), "/p");
    assert_eq!(manifest.smallest_framework, "zzzzzzzzzzzzzzz");
    assert!(manifest.dependencies.is_empty());
    let manifest = read_packet_dependency_file(&Vec::new(), "/p");
    assert_eq!(manifest.smallest_framework, "zzzzzzzzzzzzzzz");
}

#[test]
fn fewer_than_four_tokens_do_not_count() {
    // Three tokens before `restriction:`: neither a dependency nor a framework.
    let manifest =
        read_packet_dependency_file(&lines(&["nuget Foo 1.0 restriction: == net11"]), "/p");
    assert!(manifest.dependencies.is_empty());
    assert_eq!(manifest.smallest_framework, "zzzzzzzzzzzzzzz");
}

#[test]
fn reference_package() {
    assert_eq!(
        reference_package_name("net45"),
        "Microsoft.NETFramework.ReferenceAssemblies.net45"
    );
    assert_eq!(
        reference_package_dir("/project", "net45"),
        "/project/packages/Microsoft.NETFramework.ReferenceAssemblies.net45"
    );
}

#[test]
fn reference_assemblies_are_found_in_the_install_model() {
    let install = "/project/packages/Ref";
    let found = reference_assembly_path(
        &lines(&[
            "D: /lib",
            "F: /build/.NETFramework/v4.5/x.dll",
            "D: /build/.NETFramework/v4.5",
            "D: /build/.NETFramework/v4.5/Facades",
        ]),
        install,
    );
    assert_eq!(found, Ok("/project/packages/Ref/build/.NETFramework/v4.5".to_string()));
    // The directory is the one that the line names inside the package,
    // also where the package directory is relative.
    let relative = reference_assembly_path(&lines(&["D: /build/.NETFramework/v4.0"]), "packages/Ref");
    assert_eq!(relative, Ok("packages/Ref/build/.NETFramework/v4.0".to_string()));
}

#[test]
fn reference_assemblies_missing_or_misplaced() {
    assert_eq!(
        reference_assembly_path(&lines(&["D: /lib", "F: /lib/a.dll"]), "/p"),
        Err(ResolveError::ResolveParse)
    );
    assert_eq!(reference_assembly_path(&Vec::new(), "/p"), Err(ResolveError::ResolveParse));
    // A line that holds `D: /` in its middle is passed over.
    assert_eq!(
        reference_assembly_path(
            &lines(&["x D: /build/.NETFramework/v4.0", "D: /build/.NETFramework/v4.5"]),
            "/p"
        ),
        Ok("/p/build/.NETFramework/v4.5".to_string())
    );
    assert_eq!(
        reference_assembly_path(&lines(&["x D: /build/.NETFramework/v4.0"]), "/p"),
        Err(ResolveError::ResolveParse)
    );
}

#[test]
fn smallest_framework_is_one_that_is_declared() {
    // Every declared framework sorts behind the text that stands for none.
    let manifest = read_packet_dependency_file(
        &lines(&[
            "nuget Foo 1.0.0 a restriction: == ~net45",
            "nuget Bar 2.0.0 b restriction: == {net40}",
            "nuget Baz 3.0.0 c restriction: == \u{e9}t\u{e9}",
        ]),
        "/p",
    );
    assert_eq!(manifest.smallest_framework, "{net40}");
    assert_eq!(manifest.dependencies.len(), 3);
    let manifest =
        read_packet_dependency_file(&lines(&["nuget Foo 1.0.0 a restriction: == ~net45"]), "/p");
    assert_eq!(manifest.smallest_framework, "~net45");
    // Of equal frameworks the first stays, and a later smaller one replaces it.
    let manifest = read_packet_dependency_file(
        &lines(&[
            "nuget A 1 x restriction: == net48",
            "nuget B 1 x restriction: == net45",
            "nuget C 1 x restriction: == net461",
            "nuget D 1 x restriction:",
        ]),
        "/p",
    );
    assert_eq!(manifest.smallest_framework, "net45");
}

#[test]
fn highest_library_directory_not_behind_the_framework() {
    let dep = dependency("/project/packages/Foo", "Foo");
    let cache = lines(&[
        "D: /lib",
        "D: /lib/net20",
        "F: /lib/net20/Foo.dll",
        "D: /lib/net40",
        "F: /lib/net40/Foo.dll",
        "F: /lib/net40/Foo.xml",
        "F: /lib/net40/Bar.dll",
        "D: /lib/net45",
        "F: /lib/net45/Foo.dll",
        "D: /lib/netstandard2.0",
        "F: /lib/netstandard2.0/Foo.dll",
    ]);
    assert_eq!(
        dep.read_packet_cache_file(&cache, "net40"),
        vec!["/project/packages/Foo/lib/net40/Foo.dll", "/project/packages/Foo/lib/net40/Bar.dll"]
    );
    assert_eq!(
        dep.read_packet_cache_file(&cache, "net45"),
        vec!["/project/packages/Foo/lib/net45/Foo.dll"]
    );
    assert_eq!(dep.read_packet_cache_file(&cache, "net11"), Vec::<String>::new());
    assert_eq!(dep.read_packet_cache_file(&Vec::new(), "net45"), Vec::<String>::new());
}

#[test]
fn directory_marker_must_begin_the_line() {
    let dep = dependency("/p/packages/Foo", "Foo");
    let cache = lines(&[" D: /lib/net40", "F: /lib/net40/Foo.dll"]);
    assert_eq!(dep.read_packet_cache_file(&cache, "net45"), Vec::<String>::new());
}

#[test]
fn decompiler_invocation() {
    let dep = dependency("/project/packages/Foo", "Foo");
    let command = dep.decompile_file(
        "/project/packages/Ref/build/.NETFramework/v4.5",
        "/project/packages/Foo/lib/net45/Foo.dll",
        "/usr/bin/ilspycmd",
    );
    assert_eq!(command.program, "/usr/bin/ilspycmd");
    assert_eq!(command.current_dir, "/project/packages/Foo");
    assert_eq!(command.output, "/project/packages/Foo/Foo-decompiled");
    assert_eq!(
        command.args,
        vec![
            "-o",
            "/project/packages/Foo/Foo-decompiled",
            "-r",
            "/project/packages/Ref/build/.NETFramework/v4.5",
            "--no-dead-code",
            "--no-dead-stores",
            "-lv",
            "CSharp7_3",
            "-p",
            "/project/packages/Foo/lib/net45/Foo.dll",
        ]
    );
}

#[test]
fn decompiled_directories_are_kept_once() {
    let mut dep = dependency("/p/packages/Foo", "Foo");
    dep.decompile(vec![
        "/p/packages/Foo/Foo-decompiled".to_string(),
        "/p/packages/Foo/Other".to_string(),
        "/p/packages/Foo/Foo-decompiled".to_string(),
    ]);
    assert_eq!(
        dep.decompiled_location,
        vec!["/p/packages/Foo/Foo-decompiled", "/p/packages/Foo/Other"]
    );
    dep.decompile(vec![]);
    assert!(dep.decompiled_location.is_empty());
    assert_eq!(dep.name, "Foo");
}
