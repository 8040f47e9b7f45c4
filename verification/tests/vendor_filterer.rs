use cargo_vendor_filterer::checksum::{ChecksumManifest, FileDigest};
use cargo_vendor_filterer::archive::{archive_timestamp, plan_archive, EntryKind, TreeEntry};
use cargo_vendor_filterer::config::{query_platforms, select_filter, FilterArgs, KnownTargets, VendorFilter};
use cargo_vendor_filterer::dep_kinds::{needs_edge_listing, tree_arguments, DepKinds};
use cargo_vendor_filterer::directory::Action;
use cargo_vendor_filterer::error::{Error, ErrorKind};
use cargo_vendor_filterer::exclude::CrateExclude;
use cargo_vendor_filterer::inclusion::PlatformQuery;
use cargo_vendor_filterer::output::{check_output, output_path, OutputTarget};
use cargo_vendor_filterer::package::PackageRecord;
use cargo_vendor_filterer::prune::{check_exclude, PathPruner, PruneStep};
use cargo_vendor_filterer::run::plan_run;
use cargo_vendor_filterer::tiers::Tier;
use cargo_vendor_filterer::version::Version;

/// On which platforms a dependency is needed.
#[derive(Clone, Copy, PartialEq)]
enum Os {
    Any,
    Windows,
    NotWindows,
    Macos,
}

/// One package of a made-up dependency graph.
#[derive(Clone)]
struct Dep {
    name: &'static str,
    version: &'static str,
    os: Os,
    kind: &'static str,
    local: bool,
    files: &'static [&'static str],
}

fn dep(name: &'static str, version: &'static str) -> Dep {
    Dep { name, version, os: Os::Any, kind: "normal", local: false, files: &["Cargo.toml", "src/lib.rs"] }
}

fn root(name: &'static str) -> Dep {
    Dep { local: true, ..dep(name, "0.1.0") }
}

#[derive(Clone, Default)]
struct Manifest {
    deps: Vec<Dep>,
    embedded: Option<Vec<(&'static str, &'static str)>>,
}

const HEX_FILES: &[&str] = &[
    "Cargo.toml",
    "README.md",
    "CHANGELOG.md",
    "benches/hex.rs",
    "src/lib.rs",
    "src/error.rs",
    "tests/version-number.rs",
];

const LIBZ_FILES: &[&str] = &["Cargo.toml", "build.rs", "src/lib.rs", "src/smoke.c", "src/zlib/adler32.c"];

/// A stand-in for the dependency graph of the tool itself.
fn own_project() -> Manifest {
    Manifest {
        deps: vec![
            root("cargo-vendor-filterer"),
            dep("anyhow", "1.0.75"),
            dep("camino", "1.1.6"),
            Dep { files: HEX_FILES, kind: "dev", ..dep("hex", "0.4.3") },
            Dep { files: LIBZ_FILES, ..dep("libz-sys", "1.1.16") },
            Dep { os: Os::NotWindows, files: &["Cargo.toml", "src/lib.rs", "examples/mk_certs.rs"], ..dep("openssl", "0.10.57") },
            Dep { os: Os::Windows, ..dep("windows-sys", "0.48.0") },
            Dep { os: Os::Macos, ..dep("core-foundation-sys", "0.8.4") },
            Dep { kind: "dev", files: &["Cargo.toml", "src/lib.rs", "tests/tests.rs"], ..dep("serial_test", "2.0.0") },
            Dep { kind: "dev", ..dep("once_cell", "1.18.0") },
            Dep { kind: "build", ..dep("cc", "1.0.83") },
        ],
        embedded: None,
    }
}

fn needed_on(d: &Dep, platform: Option<&str>) -> bool {
    match (d.os, platform) {
        (Os::Any, _) | (_, None) => true,
        (Os::Windows, Some(p)) => p.contains("windows"),
        (Os::NotWindows, Some(p)) => !p.contains("windows"),
        (Os::Macos, Some(p)) => p.contains("darwin"),
    }
}

fn record(d: &Dep) -> PackageRecord {
    PackageRecord {
        name: d.name.to_string(),
        version: Version::parse(d.version).unwrap(),
        source: if d.local { None } else { Some("registry+https://github.com/rust-lang/crates.io-index".to_string()) },
        edition: "2021".to_string(),
        features: Vec::new(),
        manifest: String::new(),
    }
}

/// What the dependency graph answers for one platform, for all the manifests.
fn graph_answer(manifests: &[Manifest], platform: Option<&str>) -> Vec<PackageRecord> {
    manifests.iter().flat_map(|m| m.deps.iter()).filter(|d| needed_on(d, platform)).map(record).collect()
}

fn follows(kind: DepKinds, d: &Dep) -> bool {
    let e = kind.edges();
    d.local || (d.kind == "normal" && e.normal) || (d.kind == "build" && e.build) || (d.kind == "dev" && e.dev)
}

/// What the edge listing prints for one manifest.
fn tree(manifest: &Manifest, kind: DepKinds, platform: Option<&str>) -> String {
    let mut out = String::new();
    for d in manifest.deps.iter().filter(|d| needed_on(d, platform) && follows(kind, d)) {
        if d.local {
            out.push_str(&format!("{} v{} (/src/{})\n", d.name, d.version, d.name));
        } else {
            out.push_str(&format!("{} v{}\n", d.name, d.version));
            out.push_str(&format!("{} feature \"default\"\n", d.name));
        }
    }
    out
}

fn numbers(v: &str) -> Vec<u64> {
    v.split('.').map(|n| n.parse().unwrap()).collect()
}

/// The directories that the vendoring tool writes: every package that does
/// not lie at a local path, the highest version of a name under the bare
/// name unless every directory is versioned.
fn vendored(manifests: &[Manifest], versioned_dirs: bool) -> Vec<(String, Dep)> {
    let mut all: Vec<Dep> = Vec::new();
    for d in manifests.iter().flat_map(|m| m.deps.iter()).filter(|d| !d.local) {
        if !all.iter().any(|o| o.name == d.name && o.version == d.version) {
            all.push(d.clone());
        }
    }
    all.iter()
        .map(|d| {
            let top = all.iter().filter(|o| o.name == d.name).all(|o| numbers(o.version) <= numbers(d.version));
            let dir = if top && !versioned_dirs { d.name.to_string() } else { format!("{}-{}", d.name, d.version) };
            (dir, d.clone())
        })
        .collect()
}

#[derive(Default)]
struct VendorOptions {
    output: Option<&'static str>,
    output_taken: bool,
    platforms: Option<&'static [&'static str]>,
    tier: Option<&'static str>,
    exclude_crate_paths: Option<&'static [&'static str]>,
    format: Option<OutputTarget>,
    manifests: Vec<Manifest>,
    versioned_dirs: bool,
    keep_dep_kinds: Option<&'static str>,
}

/// One file on the made-up disk.
#[derive(Debug)]
struct Vendored {
    path: String,
    dirs: Vec<(String, Vec<String>, ChecksumManifest)>,
    warnings: Vec<String>,
}

impl Vendored {
    fn has(&self, path: &str) -> bool {
        let (dir, rest) = path.split_once('/').unwrap_or((path, ""));
        self.dirs.iter().any(|(d, files, _)| {
            d == dir && (rest.is_empty() || files.iter().any(|f| f == rest || f.starts_with(&format!("{rest}/"))))
        })
    }

    fn files(&self, dir: &str) -> &Vec<String> {
        &self.dirs.iter().find(|(d, _, _)| d == dir).unwrap().1
    }

    fn checksums(&self, dir: &str) -> &ChecksumManifest {
        &self.dirs.iter().find(|(d, _, _)| d == dir).unwrap().2
    }

    fn is_stub(&self, dir: &str) -> bool {
        self.files(dir).iter().filter(|f| f.starts_with("src/")).count() == 1
            && self.checksums(dir).files.iter().any(|f| {
                f.path == "src/lib.rs" && f.digest == "e3b0c44298fc1c149afbf4c8996fb92427ae41e4649b934ca495991b7852b855"
            })
    }
}

fn host_targets() -> Vec<&'static str> {
    vec!["x86_64-unknown-linux-gnu", "aarch64-unknown-linux-gnu", "x86_64-pc-windows-gnu", "x86_64-apple-darwin", "wasm32-unknown-unknown"]
}

fn on_disk(files: &[String], pattern: &str) -> Vec<String> {
    let p = glob::Pattern::new(pattern).unwrap();
    files
        .iter()
        .filter(|f| {
            let parts: Vec<&str> = f.split('/').collect();
            (1..=parts.len()).any(|n| p.matches(&parts[..n].join("/")))
        })
        .cloned()
        .collect()
}

/// Runs the filter over the made-up graph and the made-up disk.
fn vendor(options: VendorOptions) -> Result<Vendored, Error> {
    let manifests = if options.manifests.is_empty() { vec![own_project()] } else { options.manifests.clone() };
    let path = output_path(options.output, options.format);
    check_output(&path, options.output_taken)?;
    let args = FilterArgs {
        platform: options.platforms.map(|p| p.iter().map(|s| s.to_string()).collect()),
        tier: match options.tier {
            Some(t) => Some(Tier::from_str(t)?),
            None => None,
        },
        all_features: false,
        no_default_features: false,
        features: Vec::new(),
        exclude_crate_path: options.exclude_crate_paths.map(|p| p.iter().map(|s| s.to_string()).collect()),
        keep_dep_kinds: options.keep_dep_kinds.map(|k| DepKinds::from_name(k).unwrap()),
    };
    let embedded = manifests[0].embedded.as_ref().map(|rules| VendorFilter {
        exclude_crate_paths: Some(
            rules.iter().map(|(n, e)| CrateExclude { name: n.to_string(), exclude: e.to_string() }).collect(),
        ),
        ..VendorFilter::new()
    });
    let config = select_filter(VendorFilter::parse_args(args)?, embedded).unwrap_or(VendorFilter::new());
    let known: Vec<&str> = match config.known_targets() {
        KnownTargets::Curated(tier) => tier.targets(),
        KnownTargets::Host => host_targets(),
        KnownTargets::NotNeeded => Vec::new(),
    };
    let platforms = query_platforms(&config, &known);
    let mut queries = Vec::new();
    for platform in &platforms {
        let platform = platform.as_deref();
        let mut tree_outputs = Vec::new();
        if needs_edge_listing(&config) {
            for m in &manifests {
                let arguments = tree_arguments(None, false, &config, platform);
                assert_eq!(arguments[5], config.keep_dep_kinds.unwrap().to_string());
                tree_outputs.push(tree(m, config.keep_dep_kinds.unwrap(), platform));
            }
        }
        queries.push(PlatformQuery { packages: graph_answer(&manifests, platform), tree_outputs });
    }
    let disk = vendored(&manifests, options.versioned_dirs);
    let entries: Vec<String> = disk.iter().map(|(dir, _)| dir.clone()).collect();
    let rules = config.exclude_crate_paths.clone().unwrap_or_default();
    let actions = plan_run(&config, &queries, options.versioned_dirs, &entries, &rules)?;
    let mut out = Vendored { path, dirs: Vec::new(), warnings: Vec::new() };
    for (dir, d) in &disk {
        let files: Vec<String> = d.files.iter().map(|f| f.to_string()).collect();
        let checksums = ChecksumManifest {
            files: files.iter().map(|f| FileDigest { path: f.clone(), digest: "00".to_string() }).collect(),
            package: Some(format!("package-digest-of-{dir}")),
        };
        out.dirs.push((dir.clone(), files, checksums));
    }
    for action in actions {
        match action {
            Action::Stub { dir } => {
                let at = out.dirs.iter_mut().find(|(d, _, _)| *d == dir).unwrap();
                let manifest = cargo_vendor_filterer::stub::stub_manifest("[package]\nname = \"x\"\nbuild = \"build.rs\"\n")?;
                at.1 = cargo_vendor_filterer::stub::stub_files(manifest.clone()).into_iter().map(|f| f.path).collect();
                cargo_vendor_filterer::stub::stub_checksums(&mut at.2, &manifest);
            }
            Action::Prune { dir, patterns } => {
                let at = out.dirs.iter_mut().find(|(d, _, _)| *d == dir).unwrap();
                let mut pruner = PathPruner::new();
                for pattern in &patterns {
                    check_exclude(pattern)?;
                    let matches = on_disk(&at.1, pattern);
                    match pruner.record(pattern, matches.len()) {
                        PruneStep::Warn => out.warnings.push(format!("{dir}: {pattern}")),
                        PruneStep::Remove => at.1.retain(|f| !matches.contains(f)),
                    }
                }
                pruner.finish(&mut at.2)?;
            }
        }
    }
    Ok(out)
}

fn verify_no_windows(v: &Vendored) {
    assert!(v.has("windows-sys/src/lib.rs"));
    assert!(v.is_stub("windows-sys"));
    assert_eq!(v.files("windows-sys").iter().filter(|f| f.starts_with("src/")).count(), 1);
}

fn verify_no_macos(v: &Vendored) {
    assert!(v.has("core-foundation-sys/src/lib.rs"));
    assert!(v.is_stub("core-foundation-sys"));
}

fn verify_crate_is_no_stub(v: &Vendored, name: &str) {
    assert!(v.has(name), "Package does not show up in the vendor dir");
    assert!(v.has(&format!("{name}/src/lib.rs")), "Package has no src/lib.rs-file in the vendor dir");
    assert!(!v.is_stub(name), "Package was filtered out, when it shouldn't have been!");
}

fn project(name: &'static str, deps: Vec<Dep>) -> Manifest {
    let mut all = vec![root(name)];
    all.extend(deps);
    Manifest { deps: all, embedded: None }
}

#[test]
fn do_not_vendor_if_folder_exists() {
    let output = vendor(VendorOptions { output: Some("/tmp/exists"), output_taken: true, ..Default::default() });
    assert!(output.is_err());
    assert_eq!(output.unwrap_err().kind(), ErrorKind::OutputConflict);
}

#[test]
fn linux_multiple_platforms() {
    let output = vendor(VendorOptions {
        output: Some("vendor"),
        platforms: Some(&["x86_64-unknown-linux-gnu", "aarch64-unknown-linux-gnu"]),
        exclude_crate_paths: Some(&["hex#benches", "*#tests"]),
        ..Default::default()
    });
    assert!(output.is_ok());
    let output = output.unwrap();
    verify_no_windows(&output);
    assert!(!output.has("hex/benches"));
    assert!(!output.has("hex/tests"));
    assert!(output.has("hex/src/lib.rs"));
}

#[test]
fn windows_with_dep_kind_filter_normal() {
    let output = vendor(VendorOptions {
        output: Some("vendor-test2"),
        platforms: Some(&["x86_64-pc-windows-gnu"]),
        keep_dep_kinds: Some("normal"),
        ..Default::default()
    });
    assert!(output.is_ok());
    let output = output.unwrap();
    assert!(!output.has("serial_test/tests"));
    assert!(!output.has("openssl/examples"));
    assert!(!output.is_stub("windows-sys"));
}

#[test]
fn exclude_with_glob_patterns() {
    let output = vendor(VendorOptions {
        output: Some("vendor"),
        platforms: Some(&["x86_64-unknown-linux-gnu"]),
        exclude_crate_paths: Some(&["hex#*.md", "*#benches", "libz-sys#src/*.c"]),
        ..Default::default()
    });
    assert!(output.is_ok());
    let output = output.unwrap();
    assert!(output.has("hex"));
    assert!(!output.has("hex/README.md"));
    assert!(!output.has("hex/CHANGELOG.md"));
    assert!(!output.has("hex/benches"));
    assert!(output.has("libz-sys"));
    assert!(output.has("libz-sys/src"));
    for file in output.files("libz-sys") {
        assert!(!(file.starts_with("src/") && file.matches('/').count() == 1 && file.ends_with(".c")));
    }
    let left: Vec<&str> = output.checksums("hex").files.iter().map(|f| f.path.as_str()).collect();
    assert_eq!(left, vec!["Cargo.toml", "src/lib.rs", "src/error.rs", "tests/version-number.rs"]);
}

#[test]
fn folder() {
    let output = vendor(VendorOptions { output: Some("vendor"), format: Some(OutputTarget::Dir), ..Default::default() });
    assert!(output.is_ok());
    let output = output.unwrap();
    assert_eq!(output.path, "vendor");
    assert!(!OutputTarget::Dir.is_archive());
}

#[test]
fn linux() {
    let output =
        vendor(VendorOptions { output: Some("vendor"), platforms: Some(&["x86_64-unknown-linux-gnu"]), ..Default::default() });
    assert!(output.is_ok());
    verify_no_windows(&output.unwrap());
}

#[test]
fn linux_multiple() {
    let output = vendor(VendorOptions {
        output: Some("vendor"),
        platforms: Some(&["x86_64-unknown-linux-gnu", "aarch64-unknown-linux-gnu"]),
        ..Default::default()
    });
    assert!(output.is_ok());
    verify_no_windows(&output.unwrap());
}

#[test]
fn linux_glob() {
    let output = vendor(VendorOptions {
        output: Some("vendor"),
        platforms: Some(&["*-unknown-linux-gnu"]),
        tier: Some("2"),
        ..Default::default()
    });
    assert!(output.is_ok());
    verify_no_windows(&output.unwrap());
}

#[test]
fn basic_sync() {
    let a = project("foo", vec![dep("bitflags", "1.3.2")]);
    let b = project("bar", vec![dep("hex", "0.4.3")]);
    let output = vendor(VendorOptions { output: Some("vendor"), manifests: vec![a, b], ..Default::default() });
    assert!(output.is_ok());
    let output = output.unwrap();
    assert!(output.has("bitflags"));
    assert!(output.has("hex"));
    verify_crate_is_no_stub(&output, "bitflags");
    verify_crate_is_no_stub(&output, "hex");
}

#[test]
fn sync_with_platform_filter() {
    let a = project("foo", vec![dep("bitflags", "1.3.2"), Dep { os: Os::Windows, ..dep("windows-sys", "0.52.0") }]);
    let b = project("bar", vec![dep("hex", "0.4.3"), Dep { os: Os::Macos, ..dep("core-foundation-sys", "0.8.4") }]);
    let output = vendor(VendorOptions {
        output: Some("vendor"),
        manifests: vec![a, b],
        platforms: Some(&["x86_64-unknown-linux-gnu", "aarch64-unknown-linux-gnu"]),
        ..Default::default()
    });
    assert!(output.is_ok());
    let output = output.unwrap();
    assert!(output.has("bitflags"));
    assert!(output.has("hex"));
    verify_no_macos(&output);
    verify_no_windows(&output);
}

#[test]
fn multiple_syncs() {
    let a = project("foo", vec![dep("bitflags", "1.3.2")]);
    let b = project("bar", vec![dep("hex", "0.4.3")]);
    let c = project("cez", vec![dep("toml", "0.4.10")]);
    let d = project("dav", vec![dep("anyhow", "1.0.75")]);
    let output = vendor(VendorOptions { output: Some("vendor"), manifests: vec![a, b, c, d], ..Default::default() });
    assert!(output.is_ok());
    let output = output.unwrap();
    assert!(output.has("bitflags"));
    assert!(output.has("hex"));
    assert!(output.has("toml"));
    assert!(output.has("anyhow"));
    for name in ["bitflags", "hex", "toml", "anyhow"] {
        verify_crate_is_no_stub(&output, name);
    }
}

#[test]
fn sync_platform_with_exclude() {
    let a = project("foo", vec![dep("bitflags", "1.3.2")]);
    let b = project("bar", vec![Dep { files: HEX_FILES, ..dep("hex", "0.4.3") }]);
    let output = vendor(VendorOptions {
        output: Some("vendor"),
        manifests: vec![a, b],
        exclude_crate_paths: Some(&["hex#benches"]),
        ..Default::default()
    });
    assert!(output.is_ok());
    let output = output.unwrap();
    assert!(output.has("bitflags"));
    assert!(!output.has("hex/benches"));
    assert!(output.has("hex/tests"));
}

#[test]
fn manifest_path() {
    let a = project("foo", vec![dep("bitflags", "1.3.2")]);
    let output = vendor(VendorOptions { output: Some("vendor"), manifests: vec![a], ..Default::default() });
    assert!(output.is_ok());
    assert!(output.unwrap().has("bitflags"));
}

#[test]
fn metadata() {
    let mut a = project(
        "foo",
        vec![Dep { files: HEX_FILES, ..dep("hex", "0.4.3") }, Dep { files: LIBZ_FILES, ..dep("libz-sys", "1.1.16") }],
    );
    a.embedded = Some(vec![("hex", "benches"), ("libz-sys", "src/smoke.c")]);
    let output = vendor(VendorOptions { output: Some("vendor"), manifests: vec![a], ..Default::default() });
    assert!(output.is_ok());
    let output = output.unwrap();
    assert!(output.has("hex"));
    assert!(!output.has("hex/benches"));
    assert!(!output.has("libz-sys/src/smoke.c"));
    assert!(output.has("libz-sys/src/zlib/adler32.c"));
}

fn two_hexes() -> Vec<Manifest> {
    let a = project("foo", vec![dep("bitflags", "1.3.2"), dep("hex", "0.4.3"), root("bar")]);
    let b = project("bar", vec![dep("hex", "0.3.2")]);
    vec![a, b]
}

#[test]
fn multiple_versions_without_flag() {
    let output = vendor(VendorOptions { output: Some("vendor"), manifests: two_hexes(), ..Default::default() });
    assert!(output.is_ok());
    let output = output.unwrap();
    verify_crate_is_no_stub(&output, "bitflags");
    verify_crate_is_no_stub(&output, "hex");
    verify_crate_is_no_stub(&output, "hex-0.3.2");
}

#[test]
fn only_one_version() {
    let a = project("foo", vec![dep("bitflags", "1.3.2"), dep("hex", "0.4.3")]);
    let output =
        vendor(VendorOptions { output: Some("vendor"), manifests: vec![a], versioned_dirs: true, ..Default::default() });
    assert!(output.is_ok());
    let output = output.unwrap();
    verify_crate_is_no_stub(&output, "bitflags-1.3.2");
    verify_crate_is_no_stub(&output, "hex-0.4.3");
}

#[test]
fn multiple_versions() {
    let output = vendor(VendorOptions {
        output: Some("vendor"),
        manifests: two_hexes(),
        versioned_dirs: true,
        ..Default::default()
    });
    assert!(output.is_ok());
    let output = output.unwrap();
    verify_crate_is_no_stub(&output, "bitflags-1.3.2");
    verify_crate_is_no_stub(&output, "hex-0.4.3");
    verify_crate_is_no_stub(&output, "hex-0.3.2");
}

/// What an archive of the result would hold, in order.
fn archived(v: &Vendored, turned: bool) -> Vec<String> {
    let mut found = Vec::new();
    for (dir, files, _) in &v.dirs {
        found.push(TreeEntry { path: dir.clone(), kind: EntryKind::Dir });
        for file in files {
            found.push(TreeEntry { path: format!("{dir}/{file}"), kind: EntryKind::File });
        }
    }
    if turned {
        found.reverse();
    }
    let mtime = archive_timestamp(Some("1700000000"), "").unwrap();
    let plan = plan_archive(found, Some("vendor"), mtime);
    plan.items.iter().map(|i| format!("{} {:?} {} {} {}", i.name, i.kind, i.uid, i.gid, i.mtime)).collect()
}

fn basic_tar_test(format: OutputTarget) {
    let output = vendor(VendorOptions { format: Some(format), ..Default::default() });
    assert!(output.is_ok());
    let output = output.unwrap();
    assert_eq!(output.path, format!("vendor.{}", format.to_string()));
    let first = archived(&output, false);
    let rerun = vendor(VendorOptions { format: Some(format), ..Default::default() }).unwrap();
    assert_eq!(&first, &archived(&rerun, true));
    assert!(first.len() > 20);
    assert_eq!(first[0], "vendor/anyhow Dir 0 0 1700000000");
}

#[test]
fn default_output_folder() {
    let output = vendor(VendorOptions::default());
    assert!(output.is_ok());
    assert_eq!(output.unwrap().path, "vendor");
}

#[test]
fn tar() {
    basic_tar_test(OutputTarget::Tar);
}

#[test]
fn tar_gz() {
    basic_tar_test(OutputTarget::TarGzip);
}

#[test]
fn tar_zstd() {
    basic_tar_test(OutputTarget::TarZstd);
}

#[test]
fn filter_without_manifest_path() {
    let a = project("foo", vec![dep("bitflags", "1.3.2")]);
    let output = vendor(VendorOptions { output: Some("vendor"), manifests: vec![a], ..Default::default() });
    assert!(output.is_ok());
    let output = output.unwrap();
    assert!(output.has("bitflags"));
    assert!(output.has("bitflags/src/lib.rs"));
    assert!(!output.is_stub("bitflags"));
}

#[test]
fn filter_without_manifest_but_sync() {
    let a = project("foo", vec![dep("bitflags", "1.3.2")]);
    let b = project("bar", vec![dep("hex", "0.4.3")]);
    let output = vendor(VendorOptions { output: Some("vendor"), manifests: vec![a, b], ..Default::default() });
    assert!(output.is_ok());
    let output = output.unwrap();
    assert!(output.has("bitflags"));
    assert!(output.has("bitflags/src/lib.rs"));
    assert!(!output.is_stub("bitflags"));
    assert!(output.has("hex"));
    assert!(output.has("hex/src/lib.rs"));
    assert!(!output.is_stub("hex"));
}

#[test]
fn linux_only_and_windows_only_dependencies() {
    let a = project(
        "foo",
        vec![
            Dep { os: Os::NotWindows, files: &["Cargo.toml", "src/lib.rs", "src/unix.rs"], ..dep("nix", "0.27.1") },
            Dep { os: Os::Windows, files: &["Cargo.toml", "src/lib.rs", "src/um/winnt.rs"], ..dep("winapi", "0.3.9") },
        ],
    );
    let output = vendor(VendorOptions {
        output: Some("vendor"),
        manifests: vec![a],
        platforms: Some(&["x86_64-unknown-linux-gnu"]),
        ..Default::default()
    })
    .unwrap();
    verify_crate_is_no_stub(&output, "nix");
    assert_eq!(output.files("nix").len(), 3);
    assert!(output.checksums("nix").files.iter().all(|f| f.digest == "00"));
    assert!(output.is_stub("winapi"));
    assert_eq!(output.files("winapi"), &vec!["Cargo.toml".to_string(), "src/lib.rs".to_string()]);
    assert_eq!(output.checksums("winapi").package.as_deref(), Some("package-digest-of-winapi"));
    assert!(output.warnings.is_empty());
}

#[test]
fn exclude_that_matches_nothing_only_warns() {
    let output = vendor(VendorOptions {
        output: Some("vendor"),
        exclude_crate_paths: Some(&["anyhow#no-such-dir", "hex#benches"]),
        ..Default::default()
    })
    .unwrap();
    assert_eq!(output.warnings, vec!["anyhow: no-such-dir"]);
    assert_eq!(output.checksums("anyhow").files.len(), 2);
    assert!(!output.has("hex/benches"));
}

#[test]
fn exclude_with_an_absolute_path_is_refused() {
    let output = vendor(VendorOptions {
        output: Some("vendor"),
        exclude_crate_paths: Some(&["hex#/etc"]),
        ..Default::default()
    });
    assert_eq!(output.unwrap_err().kind(), ErrorKind::Config);
    let output = vendor(VendorOptions { output: Some("vendor"), tier: Some("3"), ..Default::default() });
    assert!(matches!(output, Err(Error::InvalidTier(t)) if t == "3"));
}
