use cargo_vendor_filterer::config::{select_filter, unknown_keys, FeatureMode, FilterArgs, KnownTargets, VendorFilter};
use cargo_vendor_filterer::dep_kinds::DepKinds;
use cargo_vendor_filterer::error::{Error, ErrorKind};
use cargo_vendor_filterer::exclude::{excludes_for, parse_excludes, CrateExclude};
use cargo_vendor_filterer::target::{expand_platforms, has_wildcard, triple_matches};
use cargo_vendor_filterer::tiers::Tier;

fn no_args() -> FilterArgs {
    FilterArgs {
        platform: None,
        tier: None,
        all_features: false,
        no_default_features: false,
        features: Vec::new(),
        exclude_crate_path: None,
        keep_dep_kinds: None,
    }
}

#[test]
fn literal_pattern_matches_only_itself() {
    assert!(triple_matches("x86_64-unknown-linux-gnu", "x86_64-unknown-linux-gnu"));
    assert!(!triple_matches("x86_64-unknown-linux-gnu", "x86_64-unknown-linux-musl"));
    assert!(!triple_matches("x86_64-unknown-linux-gnu", "x86_64-unknown-linux"));
    assert!(!triple_matches("x86_64-unknown-linux", "x86_64-unknown-linux-gnu"));
    assert!(triple_matches("", ""));
    assert!(!triple_matches("a-", "a"));
}

#[test]
fn wildcard_needs_same_segment_count() {
    assert!(!triple_matches("x86_64-unknown-linux-gnux32", "*-unknown-linux-gnu"));
    assert!(triple_matches("x86_64-unknown-linux-gnu", "*-unknown-linux-gnu"));
    assert!(triple_matches("powerpc64le-unknown-linux-gnu", "*-unknown-linux-gnu"));
    assert!(!triple_matches("x86_64-apple-darwin", "*-unknown-linux-gnu"));
    assert!(!triple_matches("x86_64-unknown-linux-gnu", "*-*-*"));
    assert!(triple_matches("x86_64-apple-darwin", "*-*-*"));
    assert!(triple_matches("x86_64-apple-darwin", "x86_64-*-darwin"));
    assert!(!triple_matches("x86_64-apple-darwin", "x86*-apple-darwin"));
    assert!(has_wildcard("x86*-apple-darwin"));
    assert!(!has_wildcard("x86_64-apple-darwin"));
}

#[test]
fn expand_keeps_a_literal_as_it_is() {
    let known: Vec<&str> = Tier::Two.targets();
    let got = expand_platforms(&vec!["x86_64-unknown-linux-gnu"], &known);
    assert_eq!(got, vec!["x86_64-unknown-linux-gnu".to_string()]);
    let none: Vec<&str> = Vec::new();
    let got = expand_platforms(&vec!["riscv32imac-unknown-none-elf"], &none);
    assert_eq!(got, vec!["riscv32imac-unknown-none-elf".to_string()]);
}

#[test]
fn expand_lists_each_platform_once() {
    let known: Vec<&str> = Tier::One.targets();
    let got = expand_platforms(&vec!["*-unknown-linux-gnu", "x86_64-unknown-linux-gnu", "*-pc-windows-*", "i686-*-*-*"], &known);
    assert_eq!(
        got,
        vec![
            "aarch64-unknown-linux-gnu",
            "i686-unknown-linux-gnu",
            "x86_64-unknown-linux-gnu",
            "i686-pc-windows-gnu",
            "i686-pc-windows-msvc",
            "x86_64-pc-windows-gnu",
            "x86_64-pc-windows-msvc",
        ]
    );
    assert!(expand_platforms(&vec!["*-none"], &known).is_empty());
    assert!(expand_platforms(&Vec::new(), &known).is_empty());
}

#[test]
fn tiers_and_their_targets() {
    assert_eq!(Tier::from_str("1").unwrap(), Tier::One);
    assert_eq!(Tier::from_str("2").unwrap(), Tier::Two);
    for bad in ["3", "", "12", "one", " 1"] {
        match Tier::from_str(bad) {
            Err(Error::InvalidTier(given)) => assert_eq!(given, bad),
            other => panic!("unexpected: {other:?}"),
        }
    }
    assert_eq!(Tier::from_str("0").unwrap_err().kind(), ErrorKind::Config);
    let one = Tier::One.targets();
    let two = Tier::Two.targets();
    assert_eq!(one.len(), 8);
    assert_eq!(two.len(), 27);
    assert_eq!(&two[..8], &one[..]);
    assert_eq!(one[0], "aarch64-unknown-linux-gnu");
    assert_eq!(two[26], "x86_64-unknown-netbsd");
    assert!(two.contains(&"powerpc64le-unknown-linux-gnu"));
    assert!(!one.contains(&"powerpc64le-unknown-linux-gnu"));
}

#[test]
fn exclude_rules_are_read_at_the_first_separator() {
    let rule = CrateExclude::parse_str("hex#benches").unwrap();
    assert_eq!((rule.name.as_str(), rule.exclude.as_str()), ("hex", "benches"));
    let rule = CrateExclude::parse_str("*#src/a#b").unwrap();
    assert_eq!((rule.name.as_str(), rule.exclude.as_str()), ("*", "src/a#b"));
    let rule = CrateExclude::parse_str("#").unwrap();
    assert_eq!((rule.name.as_str(), rule.exclude.as_str()), ("", ""));
    match CrateExclude::parse_str("hex/benches") {
        Err(Error::MissingExcludeSeparator(text)) => assert_eq!(text, "hex/benches"),
        other => panic!("unexpected: {other:?}"),
    }
    let e = parse_excludes(&vec!["a#b".to_string(), "nothing".to_string(), "worse".to_string()]).unwrap_err();
    assert_eq!(e.kind(), ErrorKind::Config);
    match e {
        Error::MissingExcludeSeparator(text) => assert_eq!(text, "nothing"),
        other => panic!("unexpected: {other:?}"),
    }
}

#[test]
fn exclude_rules_are_found_by_name() {
    let rules = parse_excludes(&vec![
        "hex#benches".to_string(),
        "*#tests".to_string(),
        "hex#*.md".to_string(),
        "hex#benches".to_string(),
        "libz-sys#src/*.c".to_string(),
    ])
    .unwrap();
    assert_eq!(excludes_for(&rules, "hex"), vec!["benches", "*.md"]);
    assert_eq!(excludes_for(&rules, "*"), vec!["tests"]);
    assert!(excludes_for(&rules, "he").is_empty());
}

#[test]
fn command_line_without_filter_options_gives_no_filter() {
    assert!(VendorFilter::parse_args(no_args()).unwrap().is_none());
    let f = VendorFilter::parse_args(FilterArgs { all_features: true, ..no_args() }).unwrap().unwrap();
    assert!(f.all_features && f.platforms.is_none() && f.exclude_crate_paths.is_none());
    assert_eq!(f.feature_mode(), FeatureMode::All);
    let f = VendorFilter::parse_args(FilterArgs {
        exclude_crate_path: Some(vec!["hex#benches".to_string()]),
        keep_dep_kinds: Some(DepKinds::NoDev),
        no_default_features: true,
        ..no_args()
    })
    .unwrap()
    .unwrap();
    assert_eq!(f.exclude_crate_paths.as_ref().unwrap()[0].exclude, "benches");
    assert_eq!(f.keep_dep_kinds, Some(DepKinds::NoDev));
    assert_eq!(f.feature_mode(), FeatureMode::NoDefault);
    assert_eq!(VendorFilter::new().feature_mode(), FeatureMode::Listed);
    let e = VendorFilter::parse_args(FilterArgs { exclude_crate_path: Some(vec!["hex".to_string()]), ..no_args() });
    assert_eq!(e.unwrap_err().kind(), ErrorKind::Config);
}

#[test]
fn command_line_overrides_the_embedded_filter() {
    let cli = VendorFilter { tier: Some(Tier::One), ..VendorFilter::new() };
    let embedded = VendorFilter { all_features: true, features: vec!["x".to_string()], ..VendorFilter::new() };
    let chosen = select_filter(Some(cli), Some(embedded.clone())).unwrap();
    assert_eq!(chosen.tier, Some(Tier::One));
    assert!(!chosen.all_features && chosen.features.is_empty());
    let chosen = select_filter(None, Some(embedded)).unwrap();
    assert!(chosen.all_features);
    assert!(select_filter(None, None).is_none());
}

#[test]
fn unknown_keys_are_reported_in_order() {
    let keys: Vec<String> =
        ["platforms", "--all-features", "tier", "keep-dep-kinds", "dep-kinds", "exclude-crate-paths", "features", "all-features", "no-default-features"]
            .iter()
            .map(|k| k.to_string())
            .collect();
    assert_eq!(unknown_keys(&keys), vec!["--all-features", "dep-kinds"]);
}

#[test]
fn known_targets_come_from_the_tier_where_one_is_given() {
    let globs = Some(vec!["*-unknown-linux-gnu".to_string()]);
    let plain = Some(vec!["x86_64-unknown-linux-gnu".to_string()]);
    let f = VendorFilter { platforms: globs.clone(), tier: Some(Tier::Two), ..VendorFilter::new() };
    assert_eq!(f.known_targets(), KnownTargets::Curated(Tier::Two));
    let f = VendorFilter { platforms: globs, ..VendorFilter::new() };
    assert_eq!(f.known_targets(), KnownTargets::Host);
    let f = VendorFilter { platforms: plain, ..VendorFilter::new() };
    assert_eq!(f.known_targets(), KnownTargets::NotNeeded);
    assert_eq!(VendorFilter::new().known_targets(), KnownTargets::NotNeeded);
}

#[test]
fn platforms_of_a_filter() {
    let known = Tier::One.targets();
    assert!(VendorFilter::new().resolve_platforms(&known).is_none());
    let f = VendorFilter { tier: Some(Tier::One), ..VendorFilter::new() };
    assert_eq!(f.resolve_platforms(&known).unwrap(), known);
    let f = VendorFilter { platforms: Some(vec!["*-apple-darwin".to_string(), "wasm32-wasi".to_string()]), ..VendorFilter::new() };
    assert_eq!(f.resolve_platforms(&known).unwrap(), vec!["x86_64-apple-darwin", "wasm32-wasi"]);
}
