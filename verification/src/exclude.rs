//! Rules that exclude paths inside the packages that stay.

use vstd::prelude::*;
use crate::error::{Error, ErrorView};
use crate::text::{add_unique, chars_of, first_index, lemma_first_index, push_unique, str_eq, string_views};

verus! {

/// A rule that excludes paths inside a package: the package's name, or `*`
/// for every package, and a pattern for the paths, relative to the package.
#[derive(Debug, Clone)]
pub struct CrateExclude {
    pub name: String,
    pub exclude: String,
}

/// A [`CrateExclude`] with the texts of its strings.
pub struct ExcludeView {
    pub name: Seq<char>,
    pub exclude: Seq<char>,
}

impl View for CrateExclude {
    type V = ExcludeView;

    open spec fn view(&self) -> ExcludeView {
        ExcludeView { name: self.name@, exclude: self.exclude@ }
    }
}

/// The views of a sequence of rules.
pub open spec fn exclude_views(v: Seq<CrateExclude>) -> Seq<ExcludeView> {
    Seq::new(v.len(), |i: int| v[i]@)
}

/// The name that makes a rule hold for every package.
pub open spec fn any_package() -> Seq<char> {
    "*"@
}

/// The character between the package and the path of a rule.
pub open spec fn rule_separator() -> char {
    '#'
}

/// What `parse_str` makes of a text: what stands before the first `#` is
/// the package, what follows it the path. A text without `#` is no rule.
pub open spec fn parsed_rule(s: Seq<char>) -> Result<ExcludeView, ErrorView> {
    let i = first_index(s, rule_separator());
    if 0 <= i < s.len() {
        Ok(ExcludeView { name: s.take(i), exclude: s.skip(i + 1) })
    } else {
        Err(ErrorView::MissingExcludeSeparator(s))
    }
}

/// The patterns of the rules whose package is `name`, each once, in the
/// order of the rules.
pub open spec fn patterns_for(rules: Seq<ExcludeView>, name: Seq<char>) -> Seq<Seq<char>>
    decreases rules.len(),
{
    if rules.len() == 0 {
        Seq::<Seq<char>>::empty()
    } else {
        let before = patterns_for(rules.drop_last(), name);
        if rules.last().name == name {
            add_unique(before, rules.last().exclude)
        } else {
            before
        }
    }
}

impl CrateExclude {
    /// Reads a rule written as package, `#` and path.
    pub fn parse_str(s: &str) -> (r: Result<CrateExclude, Error>)
        ensures
            match r {
                Ok(rule) => parsed_rule(s@) == Ok::<ExcludeView, ErrorView>(rule@),
                Err(e) => parsed_rule(s@) == Err::<ExcludeView, ErrorView>(e@),
            },
    {
        let chars = chars_of(s);
        let mut i: usize = 0;
        while i < chars.len() && chars[i] != '#'
            invariant
                0 <= i <= chars.len(),
                forall|k: int| 0 <= k < i ==> chars@[k] != '#',
            decreases chars.len() - i,
        {
            i = i + 1;
        }
        proof {
            lemma_first_index(chars@, rule_separator(), i as int);
        }
        if i < chars.len() {
            let name = String::from_str(s.substring_char(0, i));
            let exclude = String::from_str(s.substring_char(i + 1, chars.len()));
            proof {
                assert(s@.subrange(0, i as int) =~= s@.take(i as int));
                assert(s@.subrange(i + 1, chars.len() as int) =~= s@.skip(i + 1));
            }
            Ok(CrateExclude { name, exclude })
        } else {
            Err(Error::MissingExcludeSeparator(String::from_str(s)))
        }
    }
}

/// The patterns that `rules` hold for the package `name`.
pub fn excludes_for(rules: &Vec<CrateExclude>, name: &str) -> (r: Vec<String>)
    ensures
        string_views(r@) == patterns_for(exclude_views(rules@), name@),
{
    let mut out: Vec<String> = Vec::new();
    let ghost all = exclude_views(rules@);
    let mut i: usize = 0;
    proof {
        assert(all.take(0) =~= Seq::<ExcludeView>::empty());
        assert(string_views(out@) =~= Seq::<Seq<char>>::empty());
    }
    while i < rules.len()
        invariant
            0 <= i <= rules.len(),
            all == exclude_views(rules@),
            string_views(out@) == patterns_for(all.take(i as int), name@),
        decreases rules.len() - i,
    {
        proof {
            assert(all.take(i + 1).drop_last() =~= all.take(i as int));
            assert(all.take(i + 1).last() == rules[i as int]@);
        }
        if str_eq(rules[i].name.as_str(), name) {
            push_unique(&mut out, rules[i].exclude.as_str());
        }
        i = i + 1;
    }
    proof {
        assert(all.take(rules.len() as int) =~= all);
    }
    out
}

/// Reads a list of rules, each written as package, `#` and path. The first
/// text that is no rule fails the whole list.
pub fn parse_excludes(texts: &Vec<String>) -> (r: Result<Vec<CrateExclude>, Error>)
    ensures
        match r {
            Ok(rules) => {
                &&& rules.len() == texts.len()
                &&& forall|i: int| 0 <= i < texts.len() ==> parsed_rule(#[trigger] texts[i]@) == Ok::<ExcludeView, ErrorView>(rules[i]@)
            },
            Err(e) => exists|i: int| {
                &&& 0 <= i < texts.len()
                &&& parsed_rule(#[trigger] texts[i]@) == Err::<ExcludeView, ErrorView>(e@)
                &&& forall|k: int| 0 <= k < i ==> parsed_rule(#[trigger] texts[k]@) is Ok
            },
        },
{
    let mut out: Vec<CrateExclude> = Vec::new();
    let mut i: usize = 0;
    while i < texts.len()
        invariant
            0 <= i <= texts.len(),
            out.len() == i,
            forall|k: int| 0 <= k < i ==> parsed_rule(#[trigger] texts[k]@) == Ok::<ExcludeView, ErrorView>(out[k]@),
        decreases texts.len() - i,
    {
        match CrateExclude::parse_str(texts[i].as_str()) {
            Ok(rule) => {
                out.push(rule);
            },
            Err(e) => {
                return Err(e);
            },
        }
        i = i + 1;
    }
    Ok(out)
}

} // verus!
