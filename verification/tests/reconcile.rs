use cargo_vendor_filterer::directory::{find_key, plan_directory, Action};
use cargo_vendor_filterer::error::{Error, ErrorKind};
use cargo_vendor_filterer::exclude::CrateExclude;
use cargo_vendor_filterer::inclusion::{left_out, resolve_inclusion, PlatformQuery};
use cargo_vendor_filterer::config::VendorFilter;
use cargo_vendor_filterer::dep_kinds::DepKinds;
use cargo_vendor_filterer::package::{holds_package, merge_packages, PackageRecord};
use cargo_vendor_filterer::reconcile::package_filenames;
use cargo_vendor_filterer::run::plan_run;
use cargo_vendor_filterer::version::{Precedence, Version};

fn package(name: &str, version: &str) -> PackageRecord {
    PackageRecord {
        name: name.to_string(),
        version: Version::parse(version).unwrap(),
        source: Some("registry+https://github.com/rust-lang/crates.io-index".to_string()),
        edition: "2018".to_string(),
        features: Vec::new(),
        manifest: String::new(),
    }
}

fn local(name: &str, version: &str) -> PackageRecord {
    PackageRecord { source: None, ..package(name, version) }
}

fn dirs(packages: &Vec<PackageRecord>, versioned: bool) -> Vec<String> {
    package_filenames(packages, versioned).unwrap().into_iter().map(|k| k.dir).collect()
}

fn rule(name: &str, exclude: &str) -> CrateExclude {
    CrateExclude { name: name.to_string(), exclude: exclude.to_string() }
}

#[test]
fn versions_are_read_by_semver() {
    let v = Version::parse("1.2.3-alpha.1+build.7").unwrap();
    assert_eq!((v.major, v.minor, v.patch), (1, 2, 3));
    assert_eq!(v.pre, "alpha.1");
    assert_eq!(v.build, "build.7");
    assert_eq!(v.to_text(), "1.2.3-alpha.1+build.7");
    assert_eq!(Version::new(0, 10, 18446744073709551615).to_text(), "0.10.18446744073709551615");
    assert_eq!(Version::parse("10.200.3000").unwrap().to_text(), "10.200.3000");
    for bad in ["", "1.0", "1.0.01", "1.0.unknown", "1.0.0-", "1.0.0+", "v1.0.0", "23456789999999999999.0.0", " 1.0.0"] {
        assert!(Version::parse(bad).is_none(), "{bad}");
    }
    assert!(v.same(&v.duplicate()));
    assert!(v.is_valid());
    assert!(Version::parse("0.0.0-0+0").unwrap().is_valid());
    assert!(!v.same(&Version::new(1, 2, 3)));
}

#[test]
fn versions_are_ordered_by_semver() {
    let order = ["1.0.0-alpha", "1.0.0-alpha.1", "1.0.0-alpha.beta", "1.0.0-beta", "1.0.0-beta.2", "1.0.0-beta.11", "1.0.0-rc.1", "1.0.0", "1.0.1", "1.5.0", "1.19.0", "2.0.0"];
    for (i, a) in order.iter().enumerate() {
        for (j, b) in order.iter().enumerate() {
            let (x, y) = (Version::parse(a).unwrap(), Version::parse(b).unwrap());
            let expected = if i < j {
                Precedence::Lower
            } else if i == j {
                Precedence::Same
            } else {
                Precedence::Higher
            };
            assert_eq!(x.precedence(&y), Some(expected), "{a} against {b}");
            assert_eq!(x.compare(&y), expected);
        }
    }
    let a = Version::parse("1.20.0+c144a98").unwrap();
    let b = Version::parse("1.20.0+bc17664").unwrap();
    assert_eq!(a.precedence(&b), Some(Precedence::Higher));
}

#[test]
fn versions_that_semver_refuses_are_not_ordered() {
    let odd = Version { pre: "not valid!".to_string(), ..Version::new(1, 0, 0) };
    assert!(!odd.is_valid());
    assert!(Version::new(1, 0, 0).is_valid());
    assert_eq!(odd.precedence(&Version::new(1, 0, 0)), None);
    assert_eq!(Version::new(1, 0, 0).precedence(&odd), None);
    let zero = Version { pre: "01".to_string(), ..Version::new(1, 0, 0) };
    assert!(!zero.is_valid());
    let build = Version { build: "01".to_string(), ..Version::new(1, 0, 0) };
    assert!(build.is_valid());
}

#[test]
fn higher_version_has_the_bare_name() {
    let packages = vec![package("hex", "0.3.2"), package("bitflags", "1.3.2"), package("hex", "0.4.3")];
    assert_eq!(dirs(&packages, false), vec!["hex-0.3.2", "bitflags", "hex"]);
    let packages = vec![package("hex", "0.4.3"), package("bitflags", "1.3.2"), package("hex", "0.3.2")];
    assert_eq!(dirs(&packages, false), vec!["hex", "bitflags", "hex-0.3.2"]);
    assert_eq!(dirs(&packages, true), vec!["hex-0.4.3", "bitflags-1.3.2", "hex-0.3.2"]);
}

#[test]
fn three_versions_and_a_pre_release() {
    let packages = vec![package("syn", "1.0.109"), package("syn", "2.0.0-rc.1"), package("syn", "2.0.0"), package("syn", "0.15.44")];
    assert_eq!(dirs(&packages, false), vec!["syn-1.0.109", "syn-2.0.0-rc.1", "syn", "syn-0.15.44"]);
    let packages = vec![package("syn", "2.0.0"), package("syn", "2.0.0-rc.1")];
    assert_eq!(dirs(&packages, false), vec!["syn", "syn-2.0.0-rc.1"]);
}

#[test]
fn local_packages_get_no_directory() {
    let packages = vec![local("foo", "9.0.0"), package("foo", "1.0.0"), local("bar", "0.1.0")];
    let keys = package_filenames(&packages, false).unwrap();
    assert_eq!(keys.len(), 1);
    assert_eq!((keys[0].dir.as_str(), keys[0].name.as_str(), keys[0].version.to_text().as_str()), ("foo", "foo", "1.0.0"));
    assert!(package_filenames(&Vec::new(), false).unwrap().is_empty());
}

#[test]
fn shared_directory_is_refused() {
    let other = PackageRecord { source: Some("git+https://example.org/hex".to_string()), ..package("hex", "0.4.3") };
    assert_eq!(dirs(&vec![package("hex", "0.4.3"), other.clone()], false), vec!["hex", "hex-0.4.3"]);
    match package_filenames(&vec![package("hex", "0.4.3"), other.clone()], true) {
        Err(Error::DuplicateDirectory(dir)) => assert_eq!(dir, "hex-0.4.3"),
        other => panic!("unexpected: {other:?}"),
    }
    let e = package_filenames(&vec![package("hex", "0.4.3"), other], true).unwrap_err();
    assert_eq!(e.kind(), ErrorKind::Integrity);
    match package_filenames(&vec![package("a-1.0.0", "2.0.0"), package("a", "0.9.0"), package("a", "1.0.0"), package("a", "1.1.0")], false) {
        Err(Error::DuplicateDirectory(dir)) => assert_eq!(dir, "a-1.0.0"),
        other => panic!("unexpected: {other:?}"),
    }
}

#[test]
fn version_that_cannot_be_ordered_is_refused() {
    let odd = PackageRecord { version: Version { pre: "a_b".to_string(), ..Version::new(1, 2, 3) }, ..package("odd", "1.2.3") };
    match package_filenames(&vec![package("hex", "0.4.3"), odd.clone()], false) {
        Err(Error::InvalidVersion { version, package }) => {
            assert_eq!(version, "1.2.3-a_b");
            assert_eq!(package, "odd");
        }
        other => panic!("unexpected: {other:?}"),
    }
    let at_path = PackageRecord { source: None, ..odd };
    assert_eq!(dirs(&vec![package("hex", "0.4.3"), at_path], false), vec!["hex"]);
}

#[test]
fn directories_are_stubbed_or_pruned() {
    let keys = package_filenames(&vec![package("hex", "0.4.3"), package("hex", "0.3.2"), package("anyhow", "1.0.75")], false).unwrap();
    let entries: Vec<String> = ["anyhow", "hex", "hex-0.3.2", "windows-sys", "winapi"].iter().map(|s| s.to_string()).collect();
    let rules = vec![rule("hex", "benches"), rule("*", "tests"), rule("hex", "*.md"), rule("winapi", "src")];
    let actions = plan_directory(&entries, &keys, &rules).unwrap();
    let shown: Vec<String> = actions
        .iter()
        .map(|a| match a {
            Action::Stub { dir } => format!("stub {dir}"),
            Action::Prune { dir, patterns } => format!("prune {dir} {}", patterns.join(",")),
        })
        .collect();
    assert_eq!(
        shown,
        vec![
            "prune anyhow tests",
            "prune hex benches,*.md",
            "prune hex tests",
            "prune hex-0.3.2 benches,*.md",
            "prune hex-0.3.2 tests",
            "stub windows-sys",
            "stub winapi",
        ]
    );
    assert_eq!(find_key(&keys, "hex-0.3.2"), Some(1));
    assert_eq!(find_key(&keys, "hex-0.4.3"), None);
    let quiet = plan_directory(&entries, &keys, &Vec::new()).unwrap();
    assert_eq!(quiet.len(), 2);
}

#[test]
fn needed_package_that_is_not_on_disk_is_refused() {
    let keys = package_filenames(&vec![package("hex", "0.4.3"), package("anyhow", "1.0.75")], true).unwrap();
    let entries: Vec<String> = ["anyhow", "hex-0.4.3"].iter().map(|s| s.to_string()).collect();
    match plan_directory(&entries, &keys, &Vec::new()) {
        Err(Error::PackageNotVendored(dir)) => assert_eq!(dir, "anyhow-1.0.75"),
        other => panic!("unexpected: {other:?}"),
    }
    assert_eq!(plan_directory(&Vec::new(), &keys, &Vec::new()).unwrap_err().kind(), ErrorKind::Layout);
}

#[test]
fn packages_are_joined_by_identity() {
    let mut all = vec![package("a", "1.0.0"), local("b", "1.0.0")];
    merge_packages(&mut all, &vec![package("b", "1.0.0"), package("a", "1.0.0"), package("a", "1.0.1"), package("a", "1.0.1")]);
    let shown: Vec<String> = all.iter().map(|p| format!("{}-{}-{}", p.name, p.version.to_text(), p.source.is_some())).collect();
    assert_eq!(shown, vec!["a-1.0.0-true", "b-1.0.0-false", "b-1.0.0-true", "a-1.0.1-true"]);
    assert!(holds_package(&all, &local("b", "1.0.0")));
    assert!(!holds_package(&all, &local("a", "1.0.0")));
    assert!(all[1].duplicate().same_id(&all[1]) && !all[1].is_remote() && all[0].is_remote());
}

#[test]
fn inclusion_is_the_union_over_platforms() {
    let linux = PlatformQuery {
        packages: vec![package("a", "1.0.0"), package("openssl", "0.10.0"), package("b", "1.0.0")],
        tree_outputs: vec!["a v1.0.0\nopenssl v0.10.0\n".to_string()],
    };
    let windows = PlatformQuery {
        packages: vec![package("a", "1.0.0"), package("windows-sys", "0.48.0"), package("b", "1.0.0")],
        tree_outputs: vec!["a v1.0.0\n".to_string(), "windows-sys v0.48.0\nmissing v1.0.0\n".to_string()],
    };
    let queries = vec![linux, windows];
    let names = |v: Vec<PackageRecord>| v.into_iter().map(|p| p.name).collect::<Vec<String>>();
    let all = resolve_inclusion(&VendorFilter::new(), &queries).unwrap();
    assert_eq!(names(all.clone()), vec!["a", "openssl", "b", "windows-sys"]);
    let narrowed = VendorFilter { keep_dep_kinds: Some(DepKinds::Normal), ..VendorFilter::new() };
    let kept = resolve_inclusion(&narrowed, &queries).unwrap();
    assert_eq!(names(kept.clone()), vec!["a", "openssl", "windows-sys"]);
    assert_eq!(names(left_out(&all, &kept)), vec!["b"]);
    assert!(left_out(&kept, &all).is_empty());
    let broken = vec![PlatformQuery { packages: Vec::new(), tree_outputs: vec!["a vx.y.z.w\n".to_string()] }];
    assert_eq!(resolve_inclusion(&narrowed, &broken).unwrap_err().kind(), ErrorKind::Parse);
    assert!(resolve_inclusion(&VendorFilter::new(), &broken).unwrap().is_empty());
}

#[test]
fn higher_pre_release_has_the_bare_name_in_either_place() {
    for names in [["1.0.0-rc.2", "1.0.0-rc.10"], ["1.0.0-rc.10", "1.0.0-rc.2"]] {
        let packages = vec![package("syn", names[0]), package("syn", names[1])];
        let got = dirs(&packages, false);
        let at = names.iter().position(|n| *n == "1.0.0-rc.10").unwrap();
        assert_eq!(got[at], "syn");
        assert_eq!(got[1 - at], "syn-1.0.0-rc.2");
    }
    let a = Version::parse("1.0.0+b1").unwrap();
    let b = Version::parse("1.0.0+b2").unwrap();
    assert_eq!(a.precedence(&b), Some(Precedence::Lower));
    assert_eq!(b.precedence(&a), Some(Precedence::Higher));
    assert_eq!(a.precedence(&a), Some(Precedence::Same));
}

#[test]
fn run_keeps_what_is_needed_and_stubs_the_rest() {
    let linux = PlatformQuery {
        packages: vec![local("foo", "0.1.0"), package("nix", "0.27.1"), package("hex", "0.4.3")],
        tree_outputs: Vec::new(),
    };
    let entries: Vec<String> = ["hex", "nix", "winapi"].iter().map(|s| s.to_string()).collect();
    let actions = plan_run(&VendorFilter::new(), &vec![linux], false, &entries, &vec![rule("hex", "benches")]).unwrap();
    let shown: Vec<String> = actions
        .iter()
        .map(|a| match a {
            Action::Stub { dir } => format!("stub {dir}"),
            Action::Prune { dir, patterns } => format!("prune {dir} {}", patterns.join(",")),
        })
        .collect();
    assert_eq!(shown, vec!["prune hex benches", "stub winapi"]);
    let narrowed = VendorFilter { keep_dep_kinds: Some(DepKinds::Build), ..VendorFilter::new() };
    let broken = PlatformQuery { packages: Vec::new(), tree_outputs: vec!["x\n".to_string()] };
    assert_eq!(plan_run(&narrowed, &vec![broken], false, &entries, &Vec::new()).unwrap_err().kind(), ErrorKind::Parse);
    let missing = PlatformQuery { packages: vec![package("serde", "1.0.0")], tree_outputs: Vec::new() };
    assert_eq!(
        plan_run(&VendorFilter::new(), &vec![missing], false, &entries, &Vec::new()).unwrap_err().kind(),
        ErrorKind::Layout
    );
}
