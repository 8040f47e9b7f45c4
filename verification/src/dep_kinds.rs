//! The kinds of dependency that a filter keeps.

use vstd::prelude::*;
use crate::config::VendorFilter;
use crate::error::{Error, ErrorView};
use crate::package::{
    distinct_ids, package_views, required_views, PackageRecord, PackageView, RequiredPackage, RequiredView,
};
use crate::text::{
    add_unique, chars_of, contains_run, lemma_add_unique, line_spans, lines, pieces, span_contains, span_shorter_than,
    split,
    split_spans, str_eq, string_views, utf8_len, Span,
};
use crate::version::{semver_parsed, Version, VersionView};

verus! {

/// Kinds of dependencies that shall be included.
#[derive(Copy, Clone, Debug, PartialEq, Eq, Structural)]
pub enum DepKinds {
    All,
    Normal,
    Build,
    Dev,
    NoNormal,
    NoBuild,
    NoDev,
}

/// The kinds of edge of a dependency graph that a constraint follows.
#[derive(Copy, Clone, Debug, PartialEq, Eq, Structural)]
pub struct EdgeKinds {
    pub normal: bool,
    pub build: bool,
    pub dev: bool,
}

impl EdgeKinds {
    /// Every edge kind of `self` is one of `other`.
    pub open spec fn within(self, other: EdgeKinds) -> bool {
        &&& self.normal ==> other.normal
        &&& self.build ==> other.build
        &&& self.dev ==> other.dev
    }

    /// The edge kinds that are not in `self`.
    pub open spec fn complement(self) -> EdgeKinds {
        EdgeKinds { normal: !self.normal, build: !self.build, dev: !self.dev }
    }

    /// The edge kinds of `self` and those of `other`.
    pub open spec fn union(self, other: EdgeKinds) -> EdgeKinds {
        EdgeKinds {
            normal: self.normal || other.normal,
            build: self.build || other.build,
            dev: self.dev || other.dev,
        }
    }
}

impl DepKinds {
    /// All the kinds, in the order in which they are offered.
    pub open spec fn spec_value_variants() -> Seq<DepKinds> {
        seq![
            DepKinds::All,
            DepKinds::Normal,
            DepKinds::Build,
            DepKinds::Dev,
            DepKinds::NoNormal,
            DepKinds::NoBuild,
            DepKinds::NoDev,
        ]
    }

    /// The name of a kind, as it is written in a configuration and handed to
    /// the edge listing.
    pub open spec fn name(self) -> Seq<char> {
        match self {
            DepKinds::All => "all"@,
            DepKinds::Normal => "normal"@,
            DepKinds::Build => "build"@,
            DepKinds::Dev => "dev"@,
            DepKinds::NoNormal => "no-normal"@,
            DepKinds::NoBuild => "no-build"@,
            DepKinds::NoDev => "no-dev"@,
        }
    }

    /// The edges that a kind follows. Each of the three complements follows
    /// the two edge kinds that its base kind does not.
    pub open spec fn spec_edges(self) -> EdgeKinds {
        match self {
            DepKinds::All => EdgeKinds { normal: true, build: true, dev: true },
            DepKinds::Normal => EdgeKinds { normal: true, build: false, dev: false },
            DepKinds::Build => EdgeKinds { normal: false, build: true, dev: false },
            DepKinds::Dev => EdgeKinds { normal: false, build: false, dev: true },
            DepKinds::NoNormal => EdgeKinds { normal: false, build: true, dev: true },
            DepKinds::NoBuild => EdgeKinds { normal: true, build: false, dev: true },
            DepKinds::NoDev => EdgeKinds { normal: true, build: true, dev: false },
        }
    }

    /// The kind that a name stands for.
    pub open spec fn spec_from_name(name: Seq<char>) -> Option<DepKinds> {
        if name == "all"@ {
            Some(DepKinds::All)
        } else if name == "normal"@ {
            Some(DepKinds::Normal)
        } else if name == "build"@ {
            Some(DepKinds::Build)
        } else if name == "dev"@ {
            Some(DepKinds::Dev)
        } else if name == "no-normal"@ {
            Some(DepKinds::NoNormal)
        } else if name == "no-build"@ {
            Some(DepKinds::NoBuild)
        } else if name == "no-dev"@ {
            Some(DepKinds::NoDev)
        } else {
            None
        }
    }

    /// All the kinds, in the order in which they are offered.
    pub fn value_variants() -> (r: [DepKinds; 7])
        ensures
            r@ == DepKinds::spec_value_variants(),
    {
        let r = [
            DepKinds::All,
            DepKinds::Normal,
            DepKinds::Build,
            DepKinds::Dev,
            DepKinds::NoNormal,
            DepKinds::NoBuild,
            DepKinds::NoDev,
        ];
        assert(r@ =~= DepKinds::spec_value_variants());
        r
    }

    /// The name under which a kind is offered. No kind is left out.
    pub fn to_possible_value(&self) -> (r: Option<&'static str>)
        ensures
            r is Some,
            r->0@ == self.name(),
    {
        Some(
            match self {
                DepKinds::All => "all",
                DepKinds::Normal => "normal",
                DepKinds::Build => "build",
                DepKinds::Dev => "dev",
                DepKinds::NoNormal => "no-normal",
                DepKinds::NoBuild => "no-build",
                DepKinds::NoDev => "no-dev",
            },
        )
    }

    /// The name of the kind, as a string of its own.
    pub fn to_string(&self) -> (r: String)
        ensures
            r@ == self.name(),
    {
        match self.to_possible_value() {
            Some(name) => String::from_str(name),
            None => String::new(),
        }
    }

    /// Reads a kind from its name.
    pub fn from_name(name: &str) -> (r: Option<DepKinds>)
        ensures
            r == DepKinds::spec_from_name(name@),
    {
        if str_eq(name, "all") {
            Some(DepKinds::All)
        } else if str_eq(name, "normal") {
            Some(DepKinds::Normal)
        } else if str_eq(name, "build") {
            Some(DepKinds::Build)
        } else if str_eq(name, "dev") {
            Some(DepKinds::Dev)
        } else if str_eq(name, "no-normal") {
            Some(DepKinds::NoNormal)
        } else if str_eq(name, "no-build") {
            Some(DepKinds::NoBuild)
        } else if str_eq(name, "no-dev") {
            Some(DepKinds::NoDev)
        } else {
            None
        }
    }

    /// The edges that this kind follows.
    pub fn edges(&self) -> (r: EdgeKinds)
        ensures
            r == self.spec_edges(),
    {
        match self {
            DepKinds::All => EdgeKinds { normal: true, build: true, dev: true },
            DepKinds::Normal => EdgeKinds { normal: true, build: false, dev: false },
            DepKinds::Build => EdgeKinds { normal: false, build: true, dev: false },
            DepKinds::Dev => EdgeKinds { normal: false, build: false, dev: true },
            DepKinds::NoNormal => EdgeKinds { normal: false, build: true, dev: true },
            DepKinds::NoBuild => EdgeKinds { normal: true, build: false, dev: true },
            DepKinds::NoDev => EdgeKinds { normal: true, build: true, dev: false },
        }
    }
}

/// Every kind is read back from its own name.
pub proof fn lemma_name_round_trip(kind: DepKinds)
    ensures
        DepKinds::spec_from_name(kind.name()) == Some(kind),
{
    reveal_strlit("all");
    reveal_strlit("normal");
    reveal_strlit("build");
    reveal_strlit("dev");
    reveal_strlit("no-normal");
    reveal_strlit("no-build");
    reveal_strlit("no-dev");
    assert("all"@.len() == 3);
    assert("dev"@.len() == 3);
    assert("normal"@.len() == 6);
    assert("build"@.len() == 5);
    assert("no-normal"@.len() == 9);
    assert("no-build"@.len() == 8);
    assert("no-dev"@.len() == 6);
    assert("all"@[0] == 'a');
    assert("dev"@[0] == 'd');
    assert("normal"@[1] == 'o');
    assert("no-dev"@[1] == 'o');
    assert("normal"@[2] == 'r');
    assert("no-dev"@[2] == '-');
}

/// The three complements follow exactly the edges that their base kinds do
/// not, which are the edges of the two other base kinds together; and `all`
/// follows the edges of every kind.
pub proof fn lemma_complement_edges(kind: DepKinds)
    ensures
        DepKinds::NoNormal.spec_edges() == DepKinds::Normal.spec_edges().complement(),
        DepKinds::NoBuild.spec_edges() == DepKinds::Build.spec_edges().complement(),
        DepKinds::NoDev.spec_edges() == DepKinds::Dev.spec_edges().complement(),
        DepKinds::NoNormal.spec_edges() == DepKinds::Build.spec_edges().union(DepKinds::Dev.spec_edges()),
        DepKinds::NoBuild.spec_edges() == DepKinds::Normal.spec_edges().union(DepKinds::Dev.spec_edges()),
        DepKinds::NoDev.spec_edges() == DepKinds::Normal.spec_edges().union(DepKinds::Build.spec_edges()),
        kind.spec_edges().within(DepKinds::All.spec_edges()),
{
}


/// A version token of the edge listing that takes fewer bytes than this is
/// no version, and its line is passed over.
pub const MIN_VERSION_TOKEN_LEN: usize = 5;

/// The text that marks a line of the edge listing as one of a feature list.
pub open spec fn feature_marker() -> Seq<char> {
    "feature"@
}

/// What the tokens of a line of the edge listing are, before the version
/// is read.
pub enum ScannedLine {
    /// Nothing that counts: a feature list or another auxiliary line.
    Skip,
    /// A line that cannot be read.
    Bad(ErrorView),
    /// The name of a package, and the text of its version.
    Found { package: Seq<char>, number: Seq<char> },
}

/// What a line of the edge listing holds.
pub enum TreeLine {
    /// Nothing that counts: a feature list or another auxiliary line.
    Skip,
    /// A package and its version.
    Entry(RequiredView),
    /// Something that cannot be read.
    Bad(ErrorView),
}

/// Takes a line of the edge listing apart. Its tokens stand between single
/// spaces: the first is the package name, the second its version behind a
/// `v`; what follows them is ignored. A line whose second token is too
/// short for a version, or holds the feature marker, does not count.
pub open spec fn scan_tree_line(line: Seq<char>) -> ScannedLine {
    let tokens = split(line, ' ');
    if tokens.len() < 2 {
        ScannedLine::Bad(ErrorView::IncompleteTreeLine(line))
    } else {
        let package = tokens[0];
        let token = tokens[1];
        if utf8_len(token) < MIN_VERSION_TOKEN_LEN || contains_run(token, feature_marker()) {
            ScannedLine::Skip
        } else if token.len() == 0 || token[0] != 'v' {
            ScannedLine::Bad(ErrorView::MissingVersionPrefix(token))
        } else {
            ScannedLine::Found { package, number: token.skip(1) }
        }
    }
}

/// What becomes of a package and the text of its version once the version
/// is read: an entry, or a failure where the text is no version.
pub open spec fn tree_entry_of(package: Seq<char>, number: Seq<char>, parsed: Option<VersionView>) -> TreeLine {
    match parsed {
        Some(version) => TreeLine::Entry(RequiredView { name: package, version }),
        None => TreeLine::Bad(ErrorView::InvalidVersion { version: number, package }),
    }
}

/// Reads one line of the edge listing: takes it apart, and has the version
/// read as a semantic version.
pub open spec fn read_tree_line(line: Seq<char>) -> TreeLine {
    match scan_tree_line(line) {
        ScannedLine::Skip => TreeLine::Skip,
        ScannedLine::Bad(e) => TreeLine::Bad(e),
        ScannedLine::Found { package, number } => tree_entry_of(package, number, semver_parsed(number)),
    }
}

/// The packages that `lines` add to `acc`, each once, in the order in which
/// the lines bring them; or the failure of the first line that cannot be
/// read.
pub open spec fn required_from_lines(acc: Seq<RequiredView>, lines: Seq<Seq<char>>) -> Result<Seq<RequiredView>, ErrorView>
    decreases lines.len(),
{
    if lines.len() == 0 {
        Ok(acc)
    } else {
        match required_from_lines(acc, lines.drop_last()) {
            Err(e) => Err(e),
            Ok(before) => match read_tree_line(lines.last()) {
                TreeLine::Skip => Ok(before),
                TreeLine::Entry(p) => Ok(add_unique(before, p)),
                TreeLine::Bad(e) => Err(e),
            },
        }
    }
}

/// The packages that the edge listings of several manifests add to `acc`,
/// listing after listing.
pub open spec fn required_from_outputs(acc: Seq<RequiredView>, outputs: Seq<Seq<char>>) -> Result<Seq<RequiredView>, ErrorView>
    decreases outputs.len(),
{
    if outputs.len() == 0 {
        Ok(acc)
    } else {
        match required_from_outputs(acc, outputs.drop_last()) {
            Err(e) => Err(e),
            Ok(before) => required_from_lines(before, lines(outputs.last())),
        }
    }
}

/// Whether a result of the library shows what a result of the model holds.
pub open spec fn shows(r: Result<Vec<RequiredPackage>, Error>, model: Result<Seq<RequiredView>, ErrorView>) -> bool {
    match r {
        Ok(v) => model == Ok::<Seq<RequiredView>, ErrorView>(required_views(v@)),
        Err(e) => model == Err::<Seq<RequiredView>, ErrorView>(e@),
    }
}

/// The tokens of a line of the edge listing, before the version is read.
#[derive(Debug, Clone)]
pub enum Scanned {
    /// Nothing that counts.
    Skip,
    /// A line that cannot be read.
    Bad(Error),
    /// The name of a package, and the text of its version.
    Found { package: String, number: String },
}

impl View for Scanned {
    type V = ScannedLine;

    open spec fn view(&self) -> ScannedLine {
        match self {
            Scanned::Skip => ScannedLine::Skip,
            Scanned::Bad(e) => ScannedLine::Bad(e@),
            Scanned::Found { package, number } => ScannedLine::Found { package: package@, number: number@ },
        }
    }
}

/// Takes apart the line of `text` that `line` covers. `chars` holds the
/// characters of `text`.
fn scan_span(text: &str, chars: &Vec<char>, line: Span) -> (r: Scanned)
    requires
        chars@ == text@,
        line.within(chars@.len()),
    ensures
        r@ == scan_tree_line(line.of(chars@)),
{
    let tokens = split_spans(chars, line.start, line.end, ' ');
    let ghost texts = split(line.of(chars@), ' ');
    assert(texts == pieces(tokens@, chars@));
    if tokens.len() < 2 {
        return Scanned::Bad(Error::IncompleteTreeLine(String::from_str(text.substring_char(line.start, line.end))));
    }
    let name = tokens[0];
    let token = tokens[1];
    proof {
        assert(texts[0] == name.of(chars@));
        assert(texts[1] == token.of(chars@));
    }
    let marker = chars_of("feature");
    if span_shorter_than(chars, token, MIN_VERSION_TOKEN_LEN) || span_contains(chars, token, &marker) {
        return Scanned::Skip;
    }
    if token.end == token.start || chars[token.start] != 'v' {
        proof {
            if token.end > token.start {
                assert(token.of(chars@)[0] == chars@[token.start as int]);
            }
        }
        return Scanned::Bad(Error::MissingVersionPrefix(String::from_str(text.substring_char(token.start, token.end))));
    }
    proof {
        assert(token.of(chars@)[0] == chars@[token.start as int]);
        assert(token.of(chars@).skip(1) =~= chars@.subrange(token.start + 1, token.end as int));
    }
    Scanned::Found {
        package: String::from_str(text.substring_char(name.start, name.end)),
        number: String::from_str(text.substring_char(token.start + 1, token.end)),
    }
}

/// Takes a line of the edge listing apart.
pub fn scan_line(line: &str) -> (r: Scanned)
    ensures
        r@ == scan_tree_line(line@),
{
    let chars = chars_of(line);
    proof {
        assert(chars@.subrange(0, chars@.len() as int) =~= chars@);
    }
    scan_span(line, &chars, Span { start: 0, end: chars.len() })
}

/// Makes the entry of a package once its version is read: `parsed` holds
/// what reading `number` gave.
pub fn tree_entry(package: String, number: String, parsed: Option<Version>) -> (r: Result<RequiredPackage, Error>)
    ensures
        match r {
            Ok(p) => parsed is Some && p.name == package && p.version == parsed->0,
            Err(e) => parsed is None && e@ == (ErrorView::InvalidVersion { version: number@, package: package@ }),
        },
{
    match parsed {
        Some(version) => Ok(RequiredPackage { name: package, version }),
        None => Err(Error::InvalidVersion { version: number, package }),
    }
}

/// Reads the line of `text` that `line` covers. `chars` holds the characters
/// of `text`.
fn read_line(text: &str, chars: &Vec<char>, line: Span) -> (r: Result<Option<RequiredPackage>, Error>)
    requires
        chars@ == text@,
        line.within(chars@.len()),
    ensures
        match r {
            Ok(None) => read_tree_line(line.of(chars@)) == TreeLine::Skip,
            Ok(Some(p)) => read_tree_line(line.of(chars@)) == TreeLine::Entry(p@),
            Err(e) => read_tree_line(line.of(chars@)) == TreeLine::Bad(e@),
        },
{
    match scan_span(text, chars, line) {
        Scanned::Skip => Ok(None),
        Scanned::Bad(e) => Err(e),
        Scanned::Found { package, number } => {
            let parsed = Version::parse(number.as_str());
            match tree_entry(package, number, parsed) {
                Ok(p) => Ok(Some(p)),
                Err(e) => Err(e),
            }
        },
    }
}

/// Whether `v` holds a package of the name and version of `p`.
fn holds_required(v: &Vec<RequiredPackage>, p: &RequiredPackage) -> (r: bool)
    ensures
        r == required_views(v@).contains(p@),
{
    let mut i: usize = 0;
    while i < v.len()
        invariant
            0 <= i <= v.len(),
            forall|k: int| 0 <= k < i ==> required_views(v@)[k] != p@,
        decreases v.len() - i,
    {
        if v[i].same(p) {
            proof {
                assert(required_views(v@)[i as int] == p@);
            }
            return true;
        }
        i = i + 1;
    }
    false
}

/// Adds to `acc` the packages that the edge listing `output` reports. On a
/// failure `acc` holds what the lines before the failing one brought.
fn add_tree_output(acc: &mut Vec<RequiredPackage>, output: &str) -> (r: Result<(), Error>)
    ensures
        match r {
            Ok(()) => required_from_lines(required_views(old(acc)@), lines(output@)) == Ok::<Seq<RequiredView>, ErrorView>(required_views(final(acc)@)),
            Err(e) => required_from_lines(required_views(old(acc)@), lines(output@)) == Err::<Seq<RequiredView>, ErrorView>(e@),
        },
{
    let chars = chars_of(output);
    let spans = line_spans(&chars);
    let ghost all = lines(output@);
    let ghost start = required_views(acc@);
    let mut i: usize = 0;
    proof {
        assert(all.take(0) =~= Seq::<Seq<char>>::empty());
    }
    while i < spans.len()
        invariant
            0 <= i <= spans.len(),
            chars@ == output@,
            all == lines(output@),
            all == pieces(spans@, chars@),
            start == required_views(old(acc)@),
            forall|k: int| 0 <= k < spans.len() ==> (#[trigger] spans[k]).within(chars@.len()),
            required_from_lines(start, all.take(i as int)) == Ok::<Seq<RequiredView>, ErrorView>(required_views(acc@)),
        decreases spans.len() - i,
    {
        proof {
            assert(all.take(i + 1).drop_last() =~= all.take(i as int));
            assert(all.take(i + 1).last() == spans[i as int].of(chars@));
        }
        match read_line(output, &chars, spans[i]) {
            Ok(None) => {},
            Ok(Some(p)) => {
                if !holds_required(acc, &p) {
                    let ghost before = required_views(acc@);
                    acc.push(p);
                    proof {
                        assert(required_views(acc@) =~= before.push(p@));
                    }
                }
            },
            Err(e) => {
                proof {
                    assert(read_tree_line(all.take(i + 1).last()) == TreeLine::Bad(e@));
                    assert(required_from_lines(start, all.take(i + 1)) == Err::<Seq<RequiredView>, ErrorView>(e@));
                    lemma_failure_stays(start, all, i + 1);
                }
                return Err(e);
            },
        }
        i = i + 1;
    }
    proof {
        assert(all.take(spans.len() as int) =~= all);
    }
    Ok(())
}

/// Once the lines up to some point have failed, all the lines fail the same
/// way.
pub proof fn lemma_failure_stays(acc: Seq<RequiredView>, lines: Seq<Seq<char>>, k: int)
    requires
        0 <= k <= lines.len(),
        required_from_lines(acc, lines.take(k)) is Err,
    ensures
        required_from_lines(acc, lines) == required_from_lines(acc, lines.take(k)),
    decreases lines.len() - k,
{
    if k == lines.len() {
        assert(lines.take(k) =~= lines);
    } else {
        assert(lines.take(k + 1).drop_last() =~= lines.take(k));
        lemma_failure_stays(acc, lines, k + 1);
    }
}

/// Reads the edge listing of one manifest: the packages it reports, each
/// once, in the order of their first lines.
pub fn parse_tree_output(output: &str) -> (r: Result<Vec<RequiredPackage>, Error>)
    ensures
        shows(r, required_from_lines(Seq::<RequiredView>::empty(), lines(output@))),
{
    let mut acc: Vec<RequiredPackage> = Vec::new();
    proof {
        assert(required_views(acc@) =~= Seq::<RequiredView>::empty());
    }
    match add_tree_output(&mut acc, output) {
        Ok(()) => Ok(acc),
        Err(e) => Err(e),
    }
}

/// Returns the set of required packages that the edge listings report, one
/// listing for each manifest.
pub fn get_required_packages(outputs: &Vec<String>) -> (r: Result<Vec<RequiredPackage>, Error>)
    ensures
        shows(r, required_from_outputs(Seq::<RequiredView>::empty(), string_views(outputs@))),
{
    let mut acc: Vec<RequiredPackage> = Vec::new();
    let ghost all = string_views(outputs@);
    let ghost none = Seq::<RequiredView>::empty();
    let mut i: usize = 0;
    proof {
        assert(required_views(acc@) =~= none);
        assert(all.take(0) =~= Seq::<Seq<char>>::empty());
    }
    while i < outputs.len()
        invariant
            0 <= i <= outputs.len(),
            all == string_views(outputs@),
            none == Seq::<RequiredView>::empty(),
            required_from_outputs(none, all.take(i as int)) == Ok::<Seq<RequiredView>, ErrorView>(required_views(acc@)),
        decreases outputs.len() - i,
    {
        proof {
            assert(all.take(i + 1).drop_last() =~= all.take(i as int));
            assert(all.take(i + 1).last() == outputs[i as int]@);
        }
        match add_tree_output(&mut acc, outputs[i].as_str()) {
            Ok(()) => {},
            Err(e) => {
                proof {
                    assert(required_from_outputs(none, all.take(i + 1)) == Err::<Seq<RequiredView>, ErrorView>(e@));
                    lemma_output_failure_stays(none, all, i + 1);
                }
                return Err(e);
            },
        }
        i = i + 1;
    }
    proof {
        assert(all.take(outputs.len() as int) =~= all);
    }
    Ok(acc)
}

/// Once the listings up to some point have failed, all the listings fail
/// the same way.
pub proof fn lemma_output_failure_stays(acc: Seq<RequiredView>, outputs: Seq<Seq<char>>, k: int)
    requires
        0 <= k <= outputs.len(),
        required_from_outputs(acc, outputs.take(k)) is Err,
    ensures
        required_from_outputs(acc, outputs) == required_from_outputs(acc, outputs.take(k)),
    decreases outputs.len() - k,
{
    if k == outputs.len() {
        assert(outputs.take(k) =~= outputs);
    } else {
        assert(outputs.take(k + 1).drop_last() =~= outputs.take(k));
        lemma_output_failure_stays(acc, outputs, k + 1);
    }
}


/// Whether a constraint narrows the packages at all: `all`, or none given,
/// keeps every package.
pub open spec fn narrows(keep: Option<DepKinds>) -> bool {
    keep is Some && keep != Some(DepKinds::All)
}

/// The packages of `packages` whose name and version are among `required`,
/// in their order.
pub open spec fn keep_required(packages: Seq<PackageView>, required: Seq<RequiredView>) -> Seq<PackageView>
    decreases packages.len(),
{
    if packages.len() == 0 {
        Seq::<PackageView>::empty()
    } else {
        let before = keep_required(packages.drop_last(), required);
        if required.contains(packages.last().required()) {
            before.push(packages.last())
        } else {
            before
        }
    }
}

/// What stays of a list of packages when the part before `k` has been
/// narrowed already.
proof fn lemma_keep_step(packages: Seq<PackageView>, required: Seq<RequiredView>, k: int)
    requires
        0 <= k < packages.len(),
    ensures
        keep_required(packages.take(k + 1), required) == if required.contains(packages[k].required()) {
            keep_required(packages.take(k), required).push(packages[k])
        } else {
            keep_required(packages.take(k), required)
        },
{
    assert(packages.take(k + 1).drop_last() =~= packages.take(k));
    assert(packages.take(k + 1).last() == packages[k]);
}

/// Whether the edge listing has to be asked for this filter.
pub fn needs_edge_listing(config: &VendorFilter) -> (r: bool)
    ensures
        r == narrows(config.keep_dep_kinds),
{
    match config.keep_dep_kinds {
        None => false,
        Some(DepKinds::All) => false,
        Some(_) => true,
    }
}

/// `args` with `flag` at its end where `on` holds.
pub open spec fn with_flag(args: Seq<Seq<char>>, on: bool, flag: Seq<char>) -> Seq<Seq<char>> {
    if on {
        args.push(flag)
    } else {
        args
    }
}

/// The arguments for the tool that lists the edges of one manifest: the
/// subcommand, quiet and without prefixes, the kind of edge, then what is
/// given of offline work, manifest path and features, and last the target,
/// which is every platform where none is given.
pub open spec fn spec_tree_arguments(
    manifest_path: Option<Seq<char>>,
    offline: bool,
    kind: DepKinds,
    all_features: bool,
    no_default_features: bool,
    features: Seq<Seq<char>>,
    platform: Option<Seq<char>>,
) -> Seq<Seq<char>> {
    let fixed = Seq::<Seq<char>>::empty().push("tree"@).push("--quiet"@).push("--prefix"@).push("none"@).push("--edges"@).push(kind.name());
    let with_offline = with_flag(fixed, offline, "--offline"@);
    let with_manifest = match manifest_path {
        Some(path) => with_offline.push("--manifest-path"@).push(path),
        None => with_offline,
    };
    let with_all = with_flag(with_manifest, all_features, "--all-features"@);
    let with_default = with_flag(with_all, no_default_features, "--no-default-features"@);
    let with_features = if features.len() > 0 {
        with_default.push("--features"@) + features
    } else {
        with_default
    };
    with_features.push(
        match platform {
            Some(p) => "--target="@ + p,
            None => "--target=all"@,
        },
    )
}

/// Puts `s` at the end of `out`.
fn push_text(out: &mut Vec<String>, s: String)
    ensures
        string_views(final(out)@) == string_views(old(out)@).push(s@),
{
    out.push(s);
    proof {
        assert(string_views(out@) =~= string_views(old(out)@).push(s@));
    }
}

/// The arguments with which to list the edges of one manifest, for the kind
/// that `config` keeps, with its features, and for `platform`.
pub fn tree_arguments(manifest_path: Option<&str>, offline: bool, config: &VendorFilter, platform: Option<&str>) -> (r: Vec<String>)
    requires
        config.keep_dep_kinds is Some,
    ensures
        string_views(r@) == spec_tree_arguments(
            match manifest_path {
                Some(p) => Some(p@),
                None => None,
            },
            offline,
            config.keep_dep_kinds->0,
            config.all_features,
            config.no_default_features,
            string_views(config.features@),
            match platform {
                Some(p) => Some(p@),
                None => None,
            },
        ),
{
    let kind = match config.keep_dep_kinds {
        Some(k) => k,
        None => DepKinds::All,
    };
    let mut out: Vec<String> = Vec::new();
    proof {
        assert(string_views(out@) =~= Seq::<Seq<char>>::empty());
    }
    push_text(&mut out, String::from_str("tree"));
    push_text(&mut out, String::from_str("--quiet"));
    push_text(&mut out, String::from_str("--prefix"));
    push_text(&mut out, String::from_str("none"));
    push_text(&mut out, String::from_str("--edges"));
    push_text(&mut out, kind.to_string());
    if offline {
        push_text(&mut out, String::from_str("--offline"));
    }
    match manifest_path {
        Some(path) => {
            push_text(&mut out, String::from_str("--manifest-path"));
            push_text(&mut out, String::from_str(path));
        },
        None => {},
    }
    if config.all_features {
        push_text(&mut out, String::from_str("--all-features"));
    }
    if config.no_default_features {
        push_text(&mut out, String::from_str("--no-default-features"));
    }
    if config.features.len() > 0 {
        push_text(&mut out, String::from_str("--features"));
        let ghost start = string_views(out@);
        let ghost features = string_views(config.features@);
        let mut i: usize = 0;
        proof {
            assert(start + features.take(0) =~= start);
        }
        while i < config.features.len()
            invariant
                0 <= i <= config.features.len(),
                features == string_views(config.features@),
                string_views(out@) == start + features.take(i as int),
            decreases config.features.len() - i,
        {
            push_text(&mut out, config.features[i].clone());
            proof {
                assert((start + features.take(i as int)).push(config.features[i as int]@) =~= start + features.take(i + 1));
            }
            i = i + 1;
        }
        proof {
            assert(features.take(config.features.len() as int) =~= features);
        }
    }
    let target = match platform {
        Some(p) => String::from_str("--target=").concat(p),
        None => String::from_str("--target=all"),
    };
    push_text(&mut out, target);
    out
}

/// Filters out the packages of unwanted dependency kinds.
///
/// Where `config` keeps every kind, `packages` stays as it is and the
/// listings are not read. Else `tree_outputs` holds the edge listing of each
/// manifest, and of `packages` those stay whose name and version a listing
/// reports. Where a listing cannot be read, `packages` stays as it is.
pub fn filter_dep_kinds(config: &VendorFilter, packages: &mut Vec<PackageRecord>, tree_outputs: &Vec<String>) -> (r: Result<(), Error>)
    ensures
        !narrows(config.keep_dep_kinds) ==> r is Ok && *final(packages) == *old(packages),
        narrows(config.keep_dep_kinds) ==> match r {
            Ok(()) => {
                let required = required_from_outputs(Seq::<RequiredView>::empty(), string_views(tree_outputs@));
                &&& required is Ok
                &&& package_views(final(packages)@) == keep_required(package_views(old(packages)@), required->Ok_0)
            },
            Err(e) => {
                &&& required_from_outputs(Seq::<RequiredView>::empty(), string_views(tree_outputs@)) == Err::<Seq<RequiredView>, ErrorView>(e@)
                &&& *final(packages) == *old(packages)
            },
        },
{
    if !needs_edge_listing(config) {
        return Ok(());
    }
    let required = match get_required_packages(tree_outputs) {
        Ok(required) => required,
        Err(e) => {
            return Err(e);
        },
    };
    retain_required(packages, &required);
    Ok(())
}

/// Keeps of `packages` those whose name and version are among `required`.
pub fn retain_required(packages: &mut Vec<PackageRecord>, required: &Vec<RequiredPackage>)
    ensures
        package_views(final(packages)@) == keep_required(package_views(old(packages)@), required_views(required@)),
{
    let ghost all = package_views(packages@);
    let ghost wanted = required_views(required@);
    let ghost mut done: int = 0;
    let mut i: usize = 0;
    proof {
        assert(all.take(0) =~= Seq::<PackageView>::empty());
        assert(all.skip(0) =~= all);
        assert(keep_required(all.take(0), wanted) + all.skip(0) =~= all);
    }
    while i < packages.len()
        invariant
            0 <= i <= packages.len(),
            0 <= done <= all.len(),
            wanted == required_views(required@),
            i == keep_required(all.take(done), wanted).len(),
            packages.len() - i == all.len() - done,
            package_views(packages@) == keep_required(all.take(done), wanted) + all.skip(done),
        decreases packages.len() - i,
    {
        let ghost now = package_views(packages@);
        let probe = RequiredPackage { name: packages[i].name.clone(), version: packages[i].version.duplicate() };
        proof {
            assert(now[i as int] == all.skip(done)[0]);
            assert(all.skip(done)[0] == all[done]);
            assert(probe@ == all[done].required());
            lemma_keep_step(all, wanted, done);
        }
        if holds_required(required, &probe) {
            proof {
                assert(now =~= keep_required(all.take(done + 1), wanted) + all.skip(done + 1));
            }
            i = i + 1;
        } else {
            packages.remove(i);
            proof {
                assert(package_views(packages@) =~= now.remove(i as int));
                assert(now.remove(i as int) =~= keep_required(all.take(done + 1), wanted) + all.skip(done + 1));
            }
        }
        proof {
            done = done + 1;
        }
    }
    proof {
        assert(all.take(done) =~= all);
    }
}


/// Whether narrowing keeps one given package.
proof fn lemma_keep_required_member(packages: Seq<PackageView>, required: Seq<RequiredView>, p: PackageView)
    ensures
        keep_required(packages, required).len() <= packages.len(),
        keep_required(packages, required).contains(p) <==> (packages.contains(p) && required.contains(p.required())),
    decreases packages.len(),
{
    if packages.len() == 0 {
    } else {
        let front = packages.drop_last();
        let last = packages.last();
        let before = keep_required(front, required);
        lemma_keep_required_member(front, required, p);
        let now = keep_required(packages, required);
        if now.contains(p) {
            let i = choose|i: int| 0 <= i < now.len() && now[i] == p;
            if i < before.len() {
                assert(before[i] == p);
                assert(before.contains(p));
                let j = choose|j: int| 0 <= j < front.len() && front[j] == p;
                assert(packages[j] == p);
            } else {
                assert(p == last);
                assert(packages[packages.len() - 1] == p);
            }
        }
        if packages.contains(p) && required.contains(p.required()) {
            let j = choose|j: int| 0 <= j < packages.len() && packages[j] == p;
            if j < front.len() {
                assert(front[j] == p);
                assert(before.contains(p));
                let i = choose|i: int| 0 <= i < before.len() && before[i] == p;
                assert(now[i] == p);
            } else {
                assert(now[before.len() as int] == p);
            }
        }
    }
}

/// What narrowing keeps: exactly the packages of the list whose name and
/// version are required, and so never more packages than the list holds.
/// A filter that keeps every kind keeps the whole list, so what it keeps
/// holds what any other kind keeps.
pub proof fn lemma_keep_required_members(packages: Seq<PackageView>, required: Seq<RequiredView>)
    ensures
        keep_required(packages, required).len() <= packages.len(),
        forall|p: PackageView| #[trigger] keep_required(packages, required).contains(p) <==> (packages.contains(p) && required.contains(p.required())),
{
    lemma_keep_required_member(packages, required, arbitrary());
    assert forall|p: PackageView| #[trigger] keep_required(packages, required).contains(p) <==> (packages.contains(p) && required.contains(p.required())) by {
        lemma_keep_required_member(packages, required, p);
    }
}

/// Narrowing grows with what is required: where every package that one edge
/// listing reports is reported by another too, as the listing for `normal`
/// is within the listing for `no-build`, what the first keeps of a list of
/// packages the second keeps too, and the second keeps no fewer.
pub proof fn lemma_keep_required_grows(packages: Seq<PackageView>, fewer: Seq<RequiredView>, more: Seq<RequiredView>)
    requires
        forall|x: RequiredView| fewer.contains(x) ==> more.contains(x),
    ensures
        keep_required(packages, fewer).len() <= keep_required(packages, more).len(),
        forall|p: PackageView| #[trigger] keep_required(packages, fewer).contains(p) ==> keep_required(packages, more).contains(p),
    decreases packages.len(),
{
    assert forall|p: PackageView| #[trigger] keep_required(packages, fewer).contains(p) implies keep_required(packages, more).contains(p) by {
        lemma_keep_required_member(packages, fewer, p);
        lemma_keep_required_member(packages, more, p);
    }
    if packages.len() > 0 {
        lemma_keep_required_grows(packages.drop_last(), fewer, more);
    }
}

/// The packages that lines report hold no package twice, where those that
/// were there before held none twice.
pub proof fn lemma_required_from_lines_distinct(acc: Seq<RequiredView>, lines: Seq<Seq<char>>)
    requires
        acc.no_duplicates(),
        required_from_lines(acc, lines) is Ok,
    ensures
        required_from_lines(acc, lines)->Ok_0.no_duplicates(),
    decreases lines.len(),
{
    if lines.len() > 0 {
        lemma_required_from_lines_distinct(acc, lines.drop_last());
        let before = required_from_lines(acc, lines.drop_last())->Ok_0;
        match read_tree_line(lines.last()) {
            TreeLine::Entry(p) => {
                lemma_add_unique(before, p);
            },
            _ => {},
        }
    }
}

/// The packages that edge listings report hold no package twice: a name
/// and version that several lines or several listings bring is there once.
pub proof fn lemma_required_from_outputs_distinct(acc: Seq<RequiredView>, outputs: Seq<Seq<char>>)
    requires
        acc.no_duplicates(),
        required_from_outputs(acc, outputs) is Ok,
    ensures
        required_from_outputs(acc, outputs)->Ok_0.no_duplicates(),
    decreases outputs.len(),
{
    if outputs.len() > 0 {
        lemma_required_from_outputs_distinct(acc, outputs.drop_last());
        let before = required_from_outputs(acc, outputs.drop_last())->Ok_0;
        lemma_required_from_lines_distinct(before, lines(outputs.last()));
    }
}

/// Narrowing keeps identities apart: where no two packages of a list share
/// an identity, no two of those that stay do.
pub proof fn lemma_keep_required_distinct(packages: Seq<PackageView>, required: Seq<RequiredView>)
    requires
        distinct_ids(packages),
    ensures
        distinct_ids(keep_required(packages, required)),
    decreases packages.len(),
{
    if packages.len() > 0 {
        let front = packages.drop_last();
        let last = packages.last();
        assert(distinct_ids(front)) by {
            assert forall|i: int, j: int| 0 <= i < j < front.len() implies (#[trigger] front[i]).id() != (#[trigger] front[j]).id() by {
                assert(front[i] == packages[i]);
                assert(front[j] == packages[j]);
            }
        }
        lemma_keep_required_distinct(front, required);
        let before = keep_required(front, required);
        let now = keep_required(packages, required);
        assert forall|i: int, j: int| 0 <= i < j < now.len() implies (#[trigger] now[i]).id() != (#[trigger] now[j]).id() by {
            if j < before.len() {
                assert(now[i] == before[i]);
                assert(now[j] == before[j]);
            } else {
                assert(now[i] == before[i]);
                assert(now[j] == last);
                lemma_keep_required_member(front, required, before[i]);
                assert(before.contains(before[i]));
                let m = choose|m: int| 0 <= m < front.len() && front[m] == before[i];
                assert(packages[m] == front[m]);
                assert(packages[m].id() != packages[packages.len() - 1].id());
            }
        }
    }
}

} // verus!
