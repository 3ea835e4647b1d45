//! Regular expressions and glob sets, as the `regex` and `globset` crates
//! compile and match them.
//!
//! A compiled pattern keeps the text it was compiled from beside the compiled
//! form, and every statement about a match is made over that text.
use vstd::prelude::*;

verus! {

/// Size limit that `regex::Regex::new` applies, the `RegexBuilder` default.
pub const REGEX_DEFAULT_SIZE_LIMIT: usize = 10485760;

#[verifier::external_type_specification]
#[verifier::external_body]
pub struct ExRegex(regex::Regex);

#[verifier::external_type_specification]
#[verifier::external_body]
pub struct ExGlobSet(globset::GlobSet);

#[verifier::external_type_specification]
#[verifier::external_body]
pub struct ExGlobSetBuilder(globset::GlobSetBuilder);

/// What `regex::RegexBuilder::new(source).case_insensitive(ci)
/// .size_limit(limit).build()` reports: `None` when it compiles, otherwise
/// the text of its error.
pub uninterp spec fn regex_build_error(source: Seq<char>, case_insensitive: bool, limit: nat) -> Option<
    Seq<char>,
>;

/// What `regex::Regex::is_match` answers for a regex compiled from `source`
/// with the given case sensitivity, on `text`.
pub uninterp spec fn regex_matches(source: Seq<char>, case_insensitive: bool, text: Seq<char>) -> bool;

/// What `globset::Glob::new` reports for `pattern`: `None` when it parses,
/// otherwise the text of its error.
pub uninterp spec fn glob_error(pattern: Seq<char>) -> Option<Seq<char>>;

/// The patterns a `globset::GlobSetBuilder` holds, in the order they were
/// added.
pub uninterp spec fn builder_patterns(b: globset::GlobSetBuilder) -> Seq<Seq<char>>;

/// What `globset::GlobSetBuilder::build` reports for a builder holding these
/// patterns: `None` when the set builds, otherwise the text of its error.
pub uninterp spec fn set_build_error(patterns: Seq<Seq<char>>) -> Option<Seq<char>>;

/// The patterns a `globset::GlobSet` was built from.
pub uninterp spec fn set_patterns(s: globset::GlobSet) -> Seq<Seq<char>>;

/// Whether the glob `pattern` matches `path`, as `globset` decides.
pub uninterp spec fn glob_matches(pattern: Seq<char>, path: Seq<char>) -> bool;

/// A compiled regular expression and the text it was compiled from.
pub struct Pattern {
    source: String,
    case_insensitive: bool,
    re: regex::Regex,
}

impl Pattern {
    /// The text the pattern was compiled from.
    pub closed spec fn source(&self) -> Seq<char> {
        self.source@
    }

    /// Whether the pattern ignores case.
    pub closed spec fn ignores_case(&self) -> bool {
        self.case_insensitive
    }

    /// Compiles `source` with `regex::RegexBuilder`. The contract claims what
    /// the builder reports, by name: success exactly when
    /// `regex_build_error` is `None`, else that error's text.
    #[verifier::external_body]
    pub(crate) fn compile(source: &str, case_insensitive: bool, size_limit: usize) -> (r: Result<
        Pattern,
        String,
    >)
        ensures
            match r {
                Ok(p) => regex_build_error(source@, case_insensitive, size_limit as nat) is None
                    && p.source() == source@ && p.ignores_case() == case_insensitive,
                Err(e) => regex_build_error(source@, case_insensitive, size_limit as nat) == Some(
                    e@,
                ),
            },
    {
        match regex::RegexBuilder::new(source).case_insensitive(case_insensitive).size_limit(
            size_limit,
        ).build() {
            Ok(re) => Ok(Pattern { source: source.to_owned(), case_insensitive, re }),
            Err(err) => Err(err.to_string()),
        }
    }

    /// `regex::Regex::is_match` on `text`, claimed equal to `regex_matches`
    /// for the pattern's source and case sensitivity.
    #[verifier::external_body]
    pub(crate) fn is_match(&self, text: &str) -> (r: bool)
        ensures
            r == regex_matches(self.source(), self.ignores_case(), text@),
    {
        self.re.is_match(text)
    }
}

/// Whether any of `patterns` matches `path`.
pub open spec fn glob_set_matches(patterns: Seq<Seq<char>>, path: Seq<char>) -> bool {
    exists|i: int| 0 <= i < patterns.len() && glob_matches(#[trigger] patterns[i], path)
}

/// The first error `globset::Glob::new` reports among `patterns`, in order.
pub open spec fn first_glob_error(patterns: Seq<Seq<char>>) -> Option<Seq<char>>
    decreases patterns.len(),
{
    if patterns.len() == 0 {
        None
    } else {
        match first_glob_error(patterns.drop_last()) {
            Some(e) => Some(e),
            None => glob_error(patterns.last()),
        }
    }
}

/// What compiling `patterns` into a set reports: `None` when every pattern
/// parses and the set builds, otherwise whether it was a pattern that failed
/// (rather than the build) and the text of that first error.
pub open spec fn globset_build_error(patterns: Seq<Seq<char>>) -> Option<(bool, Seq<char>)> {
    match first_glob_error(patterns) {
        Some(e) => Some((true, e)),
        None => match set_build_error(patterns) {
            Some(e) => Some((false, e)),
            None => None,
        },
    }
}

/// An empty `globset::GlobSetBuilder`.
#[verifier::external_body]
fn new_builder() -> (r: globset::GlobSetBuilder)
    ensures
        builder_patterns(r) == Seq::<Seq<char>>::empty(),
{
    globset::GlobSetBuilder::new()
}

/// `globset::Glob::new(pattern)`, and on success `GlobSetBuilder::add` of the
/// glob: the builder then holds one more pattern, and is unchanged on failure.
#[verifier::external_body]
fn add_glob(b: &mut globset::GlobSetBuilder, pattern: &str) -> (r: Result<(), String>)
    ensures
        match r {
            Ok(()) => glob_error(pattern@) is None && builder_patterns(*final(b))
                == builder_patterns(*old(b)).push(pattern@),
            Err(e) => glob_error(pattern@) == Some(e@) && builder_patterns(*final(b))
                == builder_patterns(*old(b)),
        },
{
    match globset::Glob::new(pattern) {
        Ok(glob) => {
            b.add(glob);
            Ok(())
        },
        Err(err) => Err(err.to_string()),
    }
}

/// `globset::GlobSetBuilder::build`: the set of the builder's patterns, or
/// the text of the error.
#[verifier::external_body]
fn build_set(b: &globset::GlobSetBuilder) -> (r: Result<globset::GlobSet, String>)
    ensures
        match r {
            Ok(s) => set_build_error(builder_patterns(*b)) is None && set_patterns(s)
                == builder_patterns(*b),
            Err(e) => set_build_error(builder_patterns(*b)) == Some(e@),
        },
{
    match b.build() {
        Ok(set) => Ok(set),
        Err(err) => Err(err.to_string()),
    }
}

/// `globset::GlobSet::is_match`, which its documentation states is true when
/// any glob of the set matches the path.
#[verifier::external_body]
fn set_is_match(s: &globset::GlobSet, path: &str) -> (r: bool)
    ensures
        r == (exists|i: int|
            0 <= i < set_patterns(*s).len() && glob_matches(#[trigger] set_patterns(*s)[i], path@)),
{
    s.is_match(path)
}

/// A compiled set of globs and the patterns it was compiled from.
pub struct GlobMatcher {
    patterns: Vec<String>,
    set: globset::GlobSet,
}

/// The views of a vector of strings.
pub open spec fn string_views(v: Seq<String>) -> Seq<Seq<char>> {
    v.map_values(|s: String| s@)
}

impl GlobMatcher {
    /// The set was built from exactly the kept patterns.
    #[verifier::type_invariant]
    closed spec fn built_from_patterns(self) -> bool {
        set_patterns(self.set) == string_views(self.patterns@)
    }

    /// The patterns of the set.
    pub closed spec fn patterns(&self) -> Seq<Seq<char>> {
        string_views(self.patterns@)
    }

    /// Parses each pattern, in order, into one set. Success exactly when
    /// `globset_build_error` is `None`, else which step failed and its text.
    pub fn compile(patterns: &Vec<String>) -> (r: Result<GlobMatcher, (bool, String)>)
        ensures
            match r {
                Ok(m) => globset_build_error(string_views(patterns@)) is None && m.patterns()
                    == string_views(patterns@),
                Err(e) => globset_build_error(string_views(patterns@)) == Some((e.0, e.1@)),
            },
    {
        let ghost all = string_views(patterns@);
        let mut builder = new_builder();
        let mut kept: Vec<String> = Vec::new();
        let mut i: usize = 0;
        while i < patterns.len()
            invariant
                i <= patterns.len(),
                all == string_views(patterns@),
                builder_patterns(builder) == all.take(i as int),
                string_views(kept@) == all.take(i as int),
                first_glob_error(all.take(i as int)) is None,
            decreases patterns.len() - i,
        {
            proof {
                assert(all.take(i + 1).drop_last() =~= all.take(i as int));
                assert(all.take(i + 1).last() == patterns@[i as int]@);
            }
            match add_glob(&mut builder, patterns[i].as_str()) {
                Ok(()) => {},
                Err(e) => {
                    proof {
                        assert(first_glob_error(all.take(i + 1)) == Some(e@));
                        lemma_first_error_kept(all, i + 1);
                    }
                    return Err((true, e));
                },
            }
            kept.push(patterns[i].clone());
            proof {
                assert(string_views(kept@) =~= all.take(i + 1));
                assert(builder_patterns(builder) =~= all.take(i + 1));
            }
            i += 1;
        }
        proof {
            assert(all.take(i as int) =~= all);
        }
        match build_set(&builder) {
            Ok(set) => Ok(GlobMatcher { patterns: kept, set }),
            Err(e) => Err((false, e)),
        }
    }

    /// Whether any pattern of the set matches `path`.
    pub fn is_match(&self, path: &str) -> (r: bool)
        ensures
            r == (exists|i: int|
                0 <= i < self.patterns().len() && glob_matches(#[trigger] self.patterns()[i], path@)),
    {
        proof {
            use_type_invariant(self);
        }
        set_is_match(&self.set, path)
    }
}

/// Once a prefix of the patterns has an error, every longer prefix reports
/// that same first error.
proof fn lemma_first_error_kept(all: Seq<Seq<char>>, k: int)
    requires
        0 <= k <= all.len(),
        first_glob_error(all.take(k)) is Some,
    ensures
        first_glob_error(all) == first_glob_error(all.take(k)),
    decreases all.len() - k,
{
    if k < all.len() {
        assert(all.take(k + 1).drop_last() =~= all.take(k));
        lemma_first_error_kept(all, k + 1);
    } else {
        assert(all.take(k) =~= all);
    }
}

} // verus!
