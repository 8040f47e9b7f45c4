//! The filter: what to keep of the vendored tree, and where the filter comes
//! from.

use vstd::prelude::*;
use crate::dep_kinds::DepKinds;
use crate::error::{Error, ErrorView};
use crate::exclude::{parse_excludes, parsed_rule, CrateExclude, ExcludeView};
use crate::target::{expand, expand_platforms, has_wildcard, is_wildcard};
use crate::text::{str_eq, str_views, string_views};
use crate::tiers::Tier;

verus! {

/// The configuration used to filter the set of crates.
#[derive(Debug, Clone)]
pub struct VendorFilter {
    /// The platform patterns, or nothing where every platform counts.
    pub platforms: Option<Vec<String>>,
    /// The tier whose targets wildcards range over.
    pub tier: Option<Tier>,
    /// Every feature is switched on.
    pub all_features: bool,
    /// The default features are switched off.
    pub no_default_features: bool,
    /// The features that are switched on by name.
    pub features: Vec<String>,
    /// The paths to remove from the packages that stay.
    pub exclude_crate_paths: Option<Vec<CrateExclude>>,
    /// The kinds of dependency to keep.
    pub keep_dep_kinds: Option<DepKinds>,
}

/// What the command line says of the filter, each option as it was given.
#[derive(Debug, Clone)]
pub struct FilterArgs {
    pub platform: Option<Vec<String>>,
    pub tier: Option<Tier>,
    pub all_features: bool,
    pub no_default_features: bool,
    pub features: Vec<String>,
    /// Exclude rules, each written as package, `#` and path.
    pub exclude_crate_path: Option<Vec<String>>,
    pub keep_dep_kinds: Option<DepKinds>,
}

/// How features are switched on.
#[derive(Debug, Clone, Copy, PartialEq, Eq, Structural)]
pub enum FeatureMode {
    /// Every feature.
    All,
    /// The named features, without the default ones.
    NoDefault,
    /// The named features and the default ones.
    Listed,
}

/// Where the triples come from that wildcards range over.
#[derive(Debug, Clone, Copy, PartialEq, Eq, Structural)]
pub enum KnownTargets {
    /// No pattern holds a wildcard: no list is needed.
    NotNeeded,
    /// The curated list of a tier.
    Curated(Tier),
    /// The list that the host toolchain prints.
    Host,
}

impl FilterArgs {
    /// No option that bears on the filter was given.
    pub open spec fn unset(self) -> bool {
        &&& self.platform is None
        &&& self.tier is None
        &&& !self.all_features
        &&& !self.no_default_features
        &&& self.features@.len() == 0
        &&& self.exclude_crate_path is None
        &&& self.keep_dep_kinds is None
    }
}

impl VendorFilter {
    /// Whether some platform pattern holds a wildcard.
    pub open spec fn has_wildcards(self) -> bool {
        self.platforms is Some && exists|i: int| 0 <= i < self.platforms->0@.len() && is_wildcard(#[trigger] self.platforms->0@[i]@)
    }

    /// Where the known triples come from. A tier, where one is given, is the
    /// only source, so that nothing outside is asked.
    pub open spec fn spec_known_targets(self) -> KnownTargets {
        match self.tier {
            Some(t) => KnownTargets::Curated(t),
            None => if self.has_wildcards() {
                KnownTargets::Host
            } else {
                KnownTargets::NotNeeded
            },
        }
    }

    /// How features are switched on.
    pub open spec fn spec_feature_mode(self) -> FeatureMode {
        if self.all_features {
            FeatureMode::All
        } else if self.no_default_features {
            FeatureMode::NoDefault
        } else {
            FeatureMode::Listed
        }
    }

    /// The platforms to resolve dependencies for: nothing where there is no
    /// platform filter at all; every known triple where only a tier is
    /// given; else what the patterns expand to over the known triples.
    pub open spec fn spec_platforms(self, known: Seq<Seq<char>>) -> Option<Seq<Seq<char>>> {
        match self.platforms {
            Some(patterns) => Some(expand(string_views(patterns@), known)),
            None => match self.tier {
                Some(_) => Some(expand(known, known)),
                None => None,
            },
        }
    }

    /// A filter that keeps everything.
    pub fn new() -> (r: VendorFilter)
        ensures
            r.platforms is None,
            r.tier is None,
            !r.all_features,
            !r.no_default_features,
            r.features@.len() == 0,
            r.exclude_crate_paths is None,
            r.keep_dep_kinds is None,
    {
        VendorFilter {
            platforms: None,
            tier: None,
            all_features: false,
            no_default_features: false,
            features: Vec::new(),
            exclude_crate_paths: None,
            keep_dep_kinds: None,
        }
    }

    /// The filter that the command line gives: none where no option that
    /// bears on it was given, else one with every option as given and the
    /// exclude rules read. A text that is no exclude rule fails it.
    pub fn parse_args(args: FilterArgs) -> (r: Result<Option<VendorFilter>, Error>)
        ensures
            match r {
                Ok(None) => args.unset(),
                Ok(Some(f)) => {
                    &&& !args.unset()
                    &&& f.platforms == args.platform
                    &&& f.tier == args.tier
                    &&& f.all_features == args.all_features
                    &&& f.no_default_features == args.no_default_features
                    &&& f.features == args.features
                    &&& f.keep_dep_kinds == args.keep_dep_kinds
                    &&& f.exclude_crate_paths is Some == args.exclude_crate_path is Some
                    &&& args.exclude_crate_path is Some ==> {
                        &&& f.exclude_crate_paths->0.len() == args.exclude_crate_path->0.len()
                        &&& forall|i: int| 0 <= i < args.exclude_crate_path->0.len() ==> parsed_rule(#[trigger] args.exclude_crate_path->0[i]@) == Ok::<ExcludeView, ErrorView>(f.exclude_crate_paths->0[i]@)
                    }
                },
                Err(e) => {
                    &&& args.exclude_crate_path is Some
                    &&& exists|i: int| {
                        &&& 0 <= i < args.exclude_crate_path->0.len()
                        &&& parsed_rule(#[trigger] args.exclude_crate_path->0[i]@) == Err::<ExcludeView, ErrorView>(e@)
                        &&& forall|k: int| 0 <= k < i ==> parsed_rule(#[trigger] args.exclude_crate_path->0[k]@) is Ok
                    }
                },
            },
    {
        let exclude_crate_paths = match &args.exclude_crate_path {
            Some(texts) => match parse_excludes(texts) {
                Ok(rules) => Some(rules),
                Err(e) => {
                    return Err(e);
                },
            },
            None => None,
        };
        let unset = args.platform.is_none() && args.tier.is_none() && !args.all_features
            && !args.no_default_features && args.features.len() == 0 && args.exclude_crate_path.is_none()
            && args.keep_dep_kinds.is_none();
        if unset {
            Ok(None)
        } else {
            Ok(
                Some(
                    VendorFilter {
                        platforms: args.platform,
                        tier: args.tier,
                        all_features: args.all_features,
                        no_default_features: args.no_default_features,
                        features: args.features,
                        exclude_crate_paths,
                        keep_dep_kinds: args.keep_dep_kinds,
                    },
                ),
            )
        }
    }

    /// How features are switched on.
    pub fn feature_mode(&self) -> (r: FeatureMode)
        ensures
            r == self.spec_feature_mode(),
    {
        if self.all_features {
            FeatureMode::All
        } else if self.no_default_features {
            FeatureMode::NoDefault
        } else {
            FeatureMode::Listed
        }
    }

    /// Where the known triples come from.
    pub fn known_targets(&self) -> (r: KnownTargets)
        ensures
            r == self.spec_known_targets(),
    {
        match self.tier {
            Some(t) => KnownTargets::Curated(t),
            None => {
                match &self.platforms {
                    Some(patterns) => {
                        let mut i: usize = 0;
                        while i < patterns.len()
                            invariant
                                0 <= i <= patterns.len(),
                                self.platforms is Some,
                                self.platforms->0 == *patterns,
                                self.tier is None,
                                forall|k: int| 0 <= k < i ==> !is_wildcard(#[trigger] patterns@[k]@),
                            decreases patterns.len() - i,
                        {
                            if has_wildcard(patterns[i].as_str()) {
                                proof {
                                    assert(is_wildcard(self.platforms->0@[i as int]@));
                                }
                                return KnownTargets::Host;
                            }
                            i = i + 1;
                        }
                        KnownTargets::NotNeeded
                    },
                    None => KnownTargets::NotNeeded,
                }
            },
        }
    }

    /// The platforms to resolve dependencies for, over the triples in
    /// `known`; nothing where there is no platform filter.
    pub fn resolve_platforms(&self, known: &Vec<&str>) -> (r: Option<Vec<String>>)
        ensures
            r is Some == self.spec_platforms(str_views(known@)) is Some,
            r is Some ==> string_views(r->0@) == self.spec_platforms(str_views(known@))->0,
    {
        match &self.platforms {
            Some(patterns) => {
                let mut refs: Vec<&str> = Vec::new();
                let mut i: usize = 0;
                while i < patterns.len()
                    invariant
                        0 <= i <= patterns.len(),
                        refs.len() == i,
                        forall|k: int| 0 <= k < i ==> refs[k]@ == patterns[k]@,
                    decreases patterns.len() - i,
                {
                    refs.push(patterns[i].as_str());
                    i = i + 1;
                }
                proof {
                    assert(str_views(refs@) =~= string_views(patterns@));
                }
                Some(expand_platforms(&refs, known))
            },
            None => match self.tier {
                Some(_) => Some(expand_platforms(known, known)),
                None => None,
            },
        }
    }
}

/// The platforms to ask the dependency graph for: each platform of the
/// filter, or, where the filter names none, the one question that is asked
/// without a platform.
pub fn query_platforms(config: &VendorFilter, known: &Vec<&str>) -> (r: Vec<Option<String>>)
    ensures
        match config.spec_platforms(str_views(known@)) {
            None => r.len() == 1 && r[0] is None,
            Some(platforms) => {
                &&& r.len() == platforms.len()
                &&& forall|i: int| 0 <= i < r.len() ==> (#[trigger] r[i]) is Some && r[i]->0@ == platforms[i]
            },
        },
{
    let mut out: Vec<Option<String>> = Vec::new();
    match config.resolve_platforms(known) {
        None => {
            out.push(None);
        },
        Some(platforms) => {
            let mut i: usize = 0;
            while i < platforms.len()
                invariant
                    0 <= i <= platforms.len(),
                    out.len() == i,
                    forall|k: int| 0 <= k < i ==> (#[trigger] out[k]) is Some && out[k]->0@ == platforms[k]@,
                decreases platforms.len() - i,
            {
                out.push(Some(platforms[i].clone()));
                i = i + 1;
            }
        },
    }
    out
}

/// The filter in force: the one of the command line where it gives one, else
/// the one that the manifest embeds. The two are never merged.
pub fn select_filter(cli: Option<VendorFilter>, embedded: Option<VendorFilter>) -> (r: Option<VendorFilter>)
    ensures
        r == (if cli is Some { cli } else { embedded }),
{
    match cli {
        Some(f) => Some(f),
        None => embedded,
    }
}

/// The keys that an embedded filter may hold.
pub open spec fn known_keys() -> Seq<Seq<char>> {
    seq![
        "platforms"@,
        "tier"@,
        "all-features"@,
        "no-default-features"@,
        "features"@,
        "exclude-crate-paths"@,
        "keep-dep-kinds"@,
    ]
}

/// Whether `key` is one that an embedded filter may hold.
pub fn is_known_key(key: &str) -> (r: bool)
    ensures
        r == known_keys().contains(key@),
{
    let r = str_eq(key, "platforms") || str_eq(key, "tier") || str_eq(key, "all-features")
        || str_eq(key, "no-default-features") || str_eq(key, "features") || str_eq(key, "exclude-crate-paths")
        || str_eq(key, "keep-dep-kinds");
    proof {
        let ks = known_keys();
        if r {
            if key@ == "platforms"@ {
                assert(ks[0] == key@);
            } else if key@ == "tier"@ {
                assert(ks[1] == key@);
            } else if key@ == "all-features"@ {
                assert(ks[2] == key@);
            } else if key@ == "no-default-features"@ {
                assert(ks[3] == key@);
            } else if key@ == "features"@ {
                assert(ks[4] == key@);
            } else if key@ == "exclude-crate-paths"@ {
                assert(ks[5] == key@);
            } else {
                assert(ks[6] == key@);
            }
        }
    }
    r
}

/// The keys of an embedded filter that are not known, in their order. They
/// are to be warned of and do not fail the run.
pub fn unknown_keys(keys: &Vec<String>) -> (r: Vec<String>)
    ensures
        string_views(r@) == string_views(keys@).filter(|k: Seq<char>| !known_keys().contains(k)),
{
    let mut out: Vec<String> = Vec::new();
    let ghost all = string_views(keys@);
    let ghost unknown = |k: Seq<char>| !known_keys().contains(k);
    let mut i: usize = 0;
    proof {
        assert(all.take(0) =~= Seq::<Seq<char>>::empty());
        assert(string_views(out@) =~= Seq::<Seq<char>>::empty());
    }
    while i < keys.len()
        invariant
            0 <= i <= keys.len(),
            all == string_views(keys@),
            unknown == |k: Seq<char>| !known_keys().contains(k),
            string_views(out@) == all.take(i as int).filter(unknown),
        decreases keys.len() - i,
    {
        let ghost before = string_views(out@);
        proof {
            assert(all.take(i + 1) =~= all.take(i as int).push(keys[i as int]@));
            all.take(i as int).lemma_filter_push(keys[i as int]@, unknown);
        }
        if !is_known_key(keys[i].as_str()) {
            out.push(keys[i].clone());
            proof {
                assert(string_views(out@) =~= before.push(keys[i as int]@));
            }
        }
        i = i + 1;
    }
    proof {
        assert(all.take(keys.len() as int) =~= all);
    }
    out
}

} // verus!
