use cargo_vendor_filterer::archive::{
    archive_timestamp, needs_commit_time, parse_epoch, plan_archive, sort_entries, EntryKind, TreeEntry,
    ARCHIVE_OWNER, GZIP_LEVEL, GZIP_MTIME,
};
use cargo_vendor_filterer::checksum::{digest_hex, ChecksumManifest, FileDigest};
use cargo_vendor_filterer::error::{Error, ErrorKind};
use cargo_vendor_filterer::output::{check_output, check_tool, output_path, OutputTarget};
use cargo_vendor_filterer::prune::{check_exclude, judge_exclude, PathPruner, PruneStep};
use cargo_vendor_filterer::stub::{
    strip_manifest, stub_checksums, stub_files, stub_manifest, unwanted_manifest_keys, unwanted_package_keys,
    write_stub_manifest,
};
use cargo_vendor_filterer::text::{chars_le, decimal_string, hex_string, path_has_prefix};

const EMPTY_DIGEST: &str = "e3b0c44298fc1c149afbf4c8996fb92427ae41e4649b934ca495991b7852b855";

fn manifest(paths: &[&str]) -> ChecksumManifest {
    ChecksumManifest {
        files: paths.iter().map(|p| FileDigest { path: p.to_string(), digest: format!("digest of {p}") }).collect(),
        package: Some("0123abcd".to_string()),
    }
}

fn paths(m: &ChecksumManifest) -> Vec<&str> {
    m.files.iter().map(|f| f.path.as_str()).collect()
}

fn strings(v: &[&str]) -> Vec<String> {
    v.iter().map(|s| s.to_string()).collect()
}

fn below(path: &str, base: &str) -> bool {
    path_has_prefix(&path.chars().collect(), &base.chars().collect())
}

fn entry(path: &str, kind: EntryKind) -> TreeEntry {
    TreeEntry { path: path.to_string(), kind }
}

#[test]
fn digests_are_sha256_in_hex() {
    assert_eq!(digest_hex(b""), EMPTY_DIGEST);
    assert_eq!(digest_hex(b"abc"), "ba7816bf8f01cfea414140de5dae2223b00361a396177a9cb410ff61f20015ad");
    assert_eq!(hex_string(&vec![0x00, 0x0f, 0xa0, 0xff, 0x9b]), "000fa0ff9b");
    assert_eq!(hex_string(&Vec::new()), "");
    assert_eq!(decimal_string(0), "0");
    assert_eq!(decimal_string(1090), "1090");
    assert_eq!(decimal_string(u64::MAX), "18446744073709551615");
}

#[test]
fn path_prefixes_go_by_whole_components() {
    assert!(below("tests/a.rs", "tests"));
    assert!(below("tests/a.rs", "tests/"));
    assert!(below("tests", "tests"));
    assert!(below("a/b/c", "a//b"));
    assert!(below("a/b/c", ""));
    assert!(!below("tests.rs", "tests"));
    assert!(!below("src/tests/a.rs", "tests"));
    assert!(!below("test", "tests"));
    assert!(!below("a", "a/b"));
}

#[test]
fn pruning_removes_what_lies_below_a_removed_path() {
    let mut m = manifest(&["Cargo.toml", "src/lib.rs", "tests/a.rs", "tests/data/b.bin", "tests.md", "benches/x.rs"]);
    m.prune_checksums(&strings(&["tests"])).unwrap();
    assert_eq!(paths(&m), vec!["Cargo.toml", "src/lib.rs", "tests.md", "benches/x.rs"]);
    assert!(!m.files.iter().any(|f| f.path.starts_with("tests/")));
    assert_eq!(m.package.as_deref(), Some("0123abcd"));
    assert_eq!(m.files[0].digest, "digest of Cargo.toml");
}

#[test]
fn pruning_removes_what_a_glob_matches() {
    let mut m = manifest(&["Cargo.toml", "README.md", "docs/guide.md", "src/a.c", "src/lib.rs", "src/deep/b.c", "src/c.h"]);
    m.prune_checksums(&strings(&["*.md", "src/*.c"])).unwrap();
    assert_eq!(paths(&m), vec!["Cargo.toml", "src/lib.rs", "src/c.h"]);
    let mut m = manifest(&["a1", "a2", "b1", "ab"]);
    m.prune_checksums(&strings(&["a?", "[b]1"])).unwrap();
    assert!(m.files.is_empty());
}

#[test]
fn pruning_without_patterns_changes_nothing() {
    let mut m = manifest(&["Cargo.toml", "src/lib.rs"]);
    m.prune_checksums(&Vec::new()).unwrap();
    assert_eq!(paths(&m), vec!["Cargo.toml", "src/lib.rs"]);
    let mut none = manifest(&[]);
    none.prune_checksums(&Vec::new()).unwrap();
    assert!(none.files.is_empty());
}

#[test]
fn pruning_that_removes_no_entry_is_refused() {
    let mut m = manifest(&["Cargo.toml", "src/lib.rs"]);
    match m.prune_checksums(&strings(&["tests", "benches"])) {
        Err(Error::ChecksumsUnchanged(pattern)) => assert_eq!(pattern, "tests"),
        other => panic!("unexpected: {other:?}"),
    }
    assert_eq!(paths(&m), vec!["Cargo.toml", "src/lib.rs"]);
    let e = manifest(&[]).prune_checksums(&strings(&["x"])).unwrap_err();
    assert_eq!(e.kind(), ErrorKind::Integrity);
}

#[test]
fn pruning_by_what_is_no_glob_is_refused() {
    let mut m = manifest(&["Cargo.toml", "src/lib.rs"]);
    match m.prune_checksums(&strings(&["src", "a***b", "[x"])) {
        Err(Error::InvalidExcludePattern(pattern)) => assert_eq!(pattern, "a***b"),
        other => panic!("unexpected: {other:?}"),
    }
    assert_eq!(paths(&m), vec!["Cargo.toml", "src/lib.rs"]);
    assert_eq!(m.prune_checksums(&strings(&["[x"])).unwrap_err().kind(), ErrorKind::Config);
}

#[test]
fn pattern_that_matches_nothing_only_warns() {
    let mut pruner = PathPruner::new();
    assert!(!pruner.removed_any());
    assert_eq!(pruner.record("no-such-dir", 0), PruneStep::Warn);
    assert!(!pruner.removed_any());
    let mut m = manifest(&["Cargo.toml", "src/lib.rs", "tests/a.rs"]);
    pruner.finish(&mut m).unwrap();
    assert_eq!(m.files.len(), 3);
    assert_eq!(pruner.unmatched, vec!["no-such-dir"]);
    assert_eq!(pruner.record("tests", 1), PruneStep::Remove);
    assert_eq!(pruner.record("benches", 0), PruneStep::Warn);
    pruner.finish(&mut m).unwrap();
    assert_eq!(paths(&m), vec!["Cargo.toml", "src/lib.rs"]);
    assert_eq!(pruner.removed, vec!["tests"]);
    assert!(pruner.removed_any());
    assert_eq!(pruner.unmatched, vec!["no-such-dir", "benches"]);
    assert!(pruner.finish(&mut m).is_err());
}

#[test]
fn absolute_exclude_is_refused() {
    assert!(check_exclude("tests").is_ok());
    assert!(check_exclude("src/*.c").is_ok());
    assert!(check_exclude("").is_ok());
    assert!(check_exclude("./x/../y").is_ok());
    match check_exclude("/etc/passwd") {
        Err(Error::AbsoluteExclude(pattern)) => assert_eq!(pattern, "/etc/passwd"),
        other => panic!("unexpected: {other:?}"),
    }
    assert_eq!(judge_exclude("x", true).unwrap_err().kind(), ErrorKind::Config);
    assert!(judge_exclude("/x", false).is_ok());
}

#[test]
fn stub_manifest_loses_what_a_stub_cannot_back() {
    let text = r#"
bench = [{ name = "b", path = "benches/b.rs" }]

[package]
name = "libz-sys"
version = "1.1.16"
links = "z"
build = "build.rs"
edition = "2018"

[lib]
name = "libz_sys"

[[bin]]
name = "tool"

[[example]]
name = "show"

[[test]]
name = "smoke"

[dependencies]
libc = "0.2"

[features]
default = ["libc"]
"#;
    let out = stub_manifest(text).unwrap();
    let table: toml::Table = out.parse().unwrap();
    let mut keys: Vec<&str> = table.keys().map(|k| k.as_str()).collect();
    keys.sort();
    assert_eq!(keys, vec!["dependencies", "features", "lib", "package"]);
    let package = table["package"].as_table().unwrap();
    let mut keys: Vec<&str> = package.keys().map(|k| k.as_str()).collect();
    keys.sort();
    assert_eq!(keys, vec!["edition", "name", "version"]);
    assert_eq!(package["name"].as_str(), Some("libz-sys"));
    assert_eq!(table["dependencies"]["libc"].as_str(), Some("0.2"));
    assert_eq!(table["features"]["default"].as_array().unwrap().len(), 1);
}

#[test]
fn stub_manifest_without_a_package_table() {
    let mut table: toml::Table = "package = 3\nbin = 1\nkeep = true\n".parse().unwrap();
    strip_manifest(&mut table);
    assert_eq!(table.len(), 2);
    assert_eq!(table["package"].as_integer(), Some(3));
    assert_eq!(stub_manifest("").unwrap(), "");
    let table: toml::Table = "test = []\n[package]\nlinks = \"z\"\nname = \"n\"\n".parse().unwrap();
    assert_eq!(write_stub_manifest(table).unwrap(), "[package]\nname = \"n\"\n");
    match stub_manifest("[package\nname=") {
        Err(Error::InvalidManifest(text)) => assert_eq!(text, "[package\nname="),
        other => panic!("unexpected: {other:?}"),
    }
    assert_eq!(stub_manifest("= 1").unwrap_err().kind(), ErrorKind::Parse);
}

#[test]
fn stub_has_one_empty_source_file() {
    let files = stub_files("[package]\nname = \"x\"\n".to_string());
    assert_eq!(files.len(), 2);
    assert_eq!(files[0].path, "Cargo.toml");
    assert_eq!(files[0].contents, "[package]\nname = \"x\"\n");
    assert_eq!(files[1].path, "src/lib.rs");
    assert_eq!(files[1].contents.len(), 0);
    assert_eq!(files.iter().filter(|f| f.path.ends_with(".rs")).count(), 1);
}

#[test]
fn stub_checksums_hold_the_two_files() {
    let mut m = manifest(&["Cargo.toml", "src/lib.rs", "src/other.rs", "build.rs"]);
    stub_checksums(&mut m, "[package]\nname = \"x\"\n");
    assert_eq!(paths(&m), vec!["Cargo.toml", "src/lib.rs"]);
    assert_eq!(m.files[1].digest, EMPTY_DIGEST);
    assert_eq!(m.files[0].digest, digest_hex("[package]\nname = \"x\"\n".as_bytes()));
    assert_ne!(m.files[0].digest, EMPTY_DIGEST);
    assert_eq!(m.files.iter().filter(|f| f.digest == EMPTY_DIGEST).count(), 1);
    assert_eq!(m.package.as_deref(), Some("0123abcd"));
    let mut none = ChecksumManifest { files: Vec::new(), package: None };
    stub_checksums(&mut none, "");
    assert_eq!(none.files.len(), 2);
    assert!(none.package.is_none());
}

#[test]
fn texts_are_ordered_as_in_a_dictionary() {
    let le = |a: &str, b: &str| chars_le(&a.chars().collect(), &b.chars().collect());
    assert!(le("", "") && le("", "a") && !le("a", ""));
    assert!(le("a", "a") && le("a", "ab") && !le("ab", "a"));
    assert!(le("a/b", "a0") && le("Z", "a") && le("a-b", "a/b") && !le("b", "a/z"));
    assert!(le("z", "\u{e9}") && le("\u{e9}", "\u{4e2d}") && !le("\u{1f600}", "\u{4e2d}"));
}

#[test]
fn archive_goes_by_path_whatever_the_order_found() {
    let found = vec![
        entry("hex/src/lib.rs", EntryKind::File),
        entry("hex", EntryKind::Dir),
        entry("anyhow/Cargo.toml", EntryKind::File),
        entry("hex/src", EntryKind::Dir),
        entry("anyhow", EntryKind::Dir),
        entry("hex/link", EntryKind::Symlink),
        entry("hex/fifo", EntryKind::Other),
        entry("hex-0.3.2", EntryKind::Dir),
    ];
    let mut turned = found.clone();
    turned.reverse();
    turned.swap(1, 5);
    let first = plan_archive(found, Some("vendor"), 1700000000);
    let second = plan_archive(turned, Some("vendor"), 1700000000);
    let names: Vec<&str> = first.items.iter().map(|i| i.name.as_str()).collect();
    assert_eq!(
        names,
        vec![
            "vendor/anyhow",
            "vendor/anyhow/Cargo.toml",
            "vendor/hex",
            "vendor/hex-0.3.2",
            "vendor/hex/link",
            "vendor/hex/src",
            "vendor/hex/src/lib.rs"
        ]
    );
    assert_eq!(first.skipped, vec!["hex/fifo"]);
    assert_eq!(format!("{:?}", first.items), format!("{:?}", second.items));
    assert_eq!(first.skipped, second.skipped);
    assert_eq!(first.items[4].kind, EntryKind::Symlink);
    assert_eq!(first.items[4].source, "hex/link");
    assert!(first.items.iter().all(|i| i.uid == 0 && i.gid == 0 && i.mtime == 1700000000));
    let modes: Vec<u32> = first.items.iter().map(|i| i.mode).collect();
    assert_eq!(modes, vec![0o755, 0o644, 0o755, 0o755, 0o777, 0o755, 0o644]);
    assert_eq!((ARCHIVE_OWNER, GZIP_MTIME, GZIP_LEVEL), (0, 0, 6));
}

#[test]
fn archive_without_a_prefix_keeps_the_paths() {
    let plan = plan_archive(vec![entry("b", EntryKind::File), entry("a", EntryKind::File)], None, 7);
    let names: Vec<&str> = plan.items.iter().map(|i| i.name.as_str()).collect();
    assert_eq!(names, vec!["a", "b"]);
    assert!(plan_archive(Vec::new(), None, 0).items.is_empty());
    let run = plan_archive(vec![entry("bin/tool", EntryKind::Executable)], None, 7);
    assert_eq!((run.items[0].mode, run.items[0].kind), (0o755, EntryKind::Executable));
    assert_eq!(EntryKind::Executable.place(), 1);
    assert_eq!(EntryKind::Other.mode(), 0);
    let sorted = sort_entries(vec![entry("x", EntryKind::Dir), entry("x", EntryKind::File), entry("a", EntryKind::Other)]);
    let shown: Vec<(String, EntryKind)> = sorted.into_iter().map(|e| (e.path, e.kind)).collect();
    assert_eq!(
        shown,
        vec![("a".to_string(), EntryKind::Other), ("x".to_string(), EntryKind::File), ("x".to_string(), EntryKind::Dir)]
    );
}

#[test]
fn times_are_read_as_seconds() {
    assert_eq!(parse_epoch("0"), Some(0));
    assert_eq!(parse_epoch("1700000000"), Some(1700000000));
    assert_eq!(parse_epoch("+42"), Some(42));
    assert_eq!(parse_epoch("007"), Some(7));
    assert_eq!(parse_epoch("18446744073709551615"), Some(u64::MAX));
    for bad in ["", "+", "-1", "1 ", " 1", "1.5", "18446744073709551616", "99999999999999999999999", "12a", "++1"] {
        assert_eq!(parse_epoch(bad), None, "{bad}");
    }
}

#[test]
fn given_time_goes_before_the_commit_time() {
    assert_eq!(archive_timestamp(Some("315532800"), "1700000000\n").unwrap(), 315532800);
    assert_eq!(archive_timestamp(None, "1700000000\n").unwrap(), 1700000000);
    assert_eq!(archive_timestamp(None, "1700000000\r\n\n").unwrap(), 1700000000);
    assert_eq!(archive_timestamp(None, "1700000000").unwrap(), 1700000000);
    match archive_timestamp(Some("yesterday"), "1700000000\n") {
        Err(Error::InvalidTimestamp(text)) => assert_eq!(text, "yesterday"),
        other => panic!("unexpected: {other:?}"),
    }
    match archive_timestamp(None, "fatal: not a git repository\n") {
        Err(Error::InvalidTimestamp(text)) => assert_eq!(text, "fatal: not a git repository\n"),
        other => panic!("unexpected: {other:?}"),
    }
    assert_eq!(archive_timestamp(None, "\n").unwrap_err().kind(), ErrorKind::Parse);
    assert!(archive_timestamp(Some("1\n"), "1").is_err());
    assert!(needs_commit_time(None) && !needs_commit_time(Some("1")));
}

#[test]
fn output_paths_and_forms() {
    assert_eq!(output_path(None, None), "vendor");
    assert_eq!(output_path(None, Some(OutputTarget::Dir)), "vendor");
    assert_eq!(output_path(None, Some(OutputTarget::Tar)), "vendor.tar");
    assert_eq!(output_path(None, Some(OutputTarget::TarGzip)), "vendor.tar.gz");
    assert_eq!(output_path(None, Some(OutputTarget::TarZstd)), "vendor.tar.zstd");
    assert_eq!(output_path(Some("out/v"), Some(OutputTarget::Tar)), "out/v");
    for form in [OutputTarget::Dir, OutputTarget::Tar, OutputTarget::TarGzip, OutputTarget::TarZstd] {
        assert_eq!(OutputTarget::from_name(&form.to_string()), Some(form));
        assert_eq!(form.is_archive(), form != OutputTarget::Dir);
    }
    assert_eq!(OutputTarget::TarGzip.to_string(), "tar.gz");
    assert_eq!(OutputTarget::from_name("zip"), None);
    assert_eq!(cargo_vendor_filterer::VENDOR_DEFAULT_PATH_TAR_ZSTD, OutputTarget::TarZstd.default_path());
}

#[test]
fn existing_output_and_failed_tools_are_refused() {
    assert!(check_output("vendor", false).is_ok());
    match check_output("vendor", true) {
        Err(Error::OutputExists(path)) => assert_eq!(path, "vendor"),
        other => panic!("unexpected: {other:?}"),
    }
    assert!(check_tool(true, "warning: unused").is_ok());
    match check_tool(false, "error: no such manifest") {
        Err(e) => {
            assert_eq!(e.kind(), ErrorKind::ExternalTool);
            assert!(matches!(e, Error::ToolFailed(text) if text == "error: no such manifest"));
        }
        other => panic!("unexpected: {other:?}"),
    }
    assert_eq!(Error::MissingFile("x/.cargo-checksum.json".to_string()).kind(), ErrorKind::Layout);
    assert_eq!(cargo_vendor_filterer::CARGO_CHECKSUM, ".cargo-checksum.json");
    assert_eq!(cargo_vendor_filterer::SELF_NAME, "vendor-filterer");
    assert_eq!(cargo_vendor_filterer::VERSIONED_DIRS, "--versioned-dirs");
    assert_eq!(cargo_vendor_filterer::CONFIG_KEY, "vendor-filter");
}

#[test]
fn keys_that_a_stub_does_without() {
    assert_eq!(unwanted_manifest_keys(), vec!["bin", "example", "test", "bench"]);
    assert_eq!(unwanted_package_keys(), vec!["links", "build"]);
    let text = "bin = 1\nexample = 2\ntest = 3\nbench = 4\nlib = 5\n[package]\nlinks = 'a'\nbuild = 'b'\nname = 'c'\n";
    let mut table: toml::Table = text.parse().unwrap();
    strip_manifest(&mut table);
    for key in unwanted_manifest_keys() {
        assert!(!table.contains_key(key));
    }
    for key in unwanted_package_keys() {
        assert!(!table["package"].as_table().unwrap().contains_key(key));
    }
    assert_eq!(table.len(), 2);
    assert_eq!(table["package"].as_table().unwrap().len(), 1);
}

#[test]
fn failures_say_what_went_wrong() {
    let text = |e: Error| e.message();
    assert_eq!(text(Error::InvalidTier("3".to_string())), "Invalid tier 3");
    assert_eq!(text(Error::MissingExcludeSeparator("hex".to_string())), "Missing '#' in crate exclude hex");
    assert_eq!(text(Error::AbsoluteExclude("/x".to_string())), "Invalid absolute path in exclude /x");
    assert_eq!(text(Error::InvalidExcludePattern("[".to_string())), "Invalid pattern in exclude [");
    assert_eq!(text(Error::ToolFailed("boom".to_string())), "Failed to execute: boom");
    assert_eq!(text(Error::OutputExists("vendor".to_string())), "Refusing to operate on extant path: vendor");
    assert_eq!(text(Error::MissingFile("a/Cargo.toml".to_string())), "Missing a/Cargo.toml");
    assert_eq!(text(Error::PackageNotVendored("hex".to_string())), "Package hex was not vendored");
    assert_eq!(text(Error::IncompleteTreeLine("foo".to_string())), "Invalid output received from cargo tree: foo");
    assert_eq!(text(Error::MissingVersionPrefix("1.0.0.0".to_string())), "Invalid version: 1.0.0.0");
    assert_eq!(
        text(Error::InvalidVersion { version: "1.x".to_string(), package: "foo".to_string() }),
        "Cannot parse version 1.x for foo"
    );
    assert_eq!(text(Error::InvalidManifest("= 1".to_string())), "Cannot parse manifest");
    assert_eq!(text(Error::InvalidTimestamp("now".to_string())), "Invalid timestamp now");
    assert_eq!(text(Error::DuplicateDirectory("a-1.0.0".to_string())), "Two packages share the directory a-1.0.0");
    assert_eq!(
        text(Error::ChecksumsUnchanged("tests".to_string())),
        "Exclude tests matched on disk, but no checksum was removed"
    );
    assert_eq!(OutputTarget::TarZstd.as_str(), "tar.zstd");
    assert_eq!(OutputTarget::Dir.as_str(), "dir");
}
