//! Extraction of a version string out of a raw tag or label value.
//!
//! A [`VersionExtractor`] holds a regular expression and a replacement format;
//! extracting from a text means finding the first match of the expression and
//! expanding the format against it. The default configuration strips a leading
//! `v` from tags such as `v1.2.3`.
//!
//! The regular-expression engine is the `regex` crate. What its searches
//! return is a function of the pattern, the haystack and the format alone, so
//! those results are given names (`regex_first_match`, `regex_substitution`)
//! that the contracts below are stated over.

use vstd::prelude::*;

verus! {

#[verifier::external_type_specification]
#[verifier::external_body]
pub struct ExRegex(regex::Regex);

/// Whether `regex::Regex::new` accepts `pattern` (it is a valid expression
/// and within the default size limit).
pub uninterp spec fn regex_compiles(pattern: Seq<char>) -> bool;

/// The substring matched by the leftmost match of `pattern` in `hay`, if any;
/// what `regex::Regex::find` returns.
pub uninterp spec fn regex_first_match(pattern: Seq<char>, hay: Seq<char>) -> Option<Seq<char>>;

/// `hay` with the leftmost match of `pattern` replaced by `fmt` (with capture
/// groups expanded); what `regex::Regex::replace` returns.
pub uninterp spec fn regex_substitution(pattern: Seq<char>, hay: Seq<char>, fmt: Seq<char>) -> Seq<
    char,
>;

/// Picks a version out of a raw text by a regular expression and a
/// replacement format.
pub struct VersionExtractor {
    /// Compiled from `version_pattern`; every constructor keeps the two in step.
    version_regex: regex::Regex,
    version_pattern: String,
    version_fmt: String,
}

/// The result of extracting from `text` with the given pattern and format:
/// the expanded format on the first match, nothing when nothing matches.
pub open spec fn spec_extract(pattern: Seq<char>, fmt: Seq<char>, text: Seq<char>) -> Option<
    Seq<char>,
> {
    match regex_first_match(pattern, text) {
        Some(m) => Some(regex_substitution(pattern, m, fmt)),
        None => None,
    }
}

impl VersionExtractor {
    /// The pattern this extractor searches with.
    pub closed spec fn pattern(&self) -> Seq<char> {
        self.version_pattern@
    }

    /// The replacement format this extractor expands.
    pub closed spec fn fmt(&self) -> Seq<char> {
        self.version_fmt@
    }

    /// Relies on `regex::Regex::new`: it returns `Ok` exactly when the pattern
    /// compiles, and the compiled expression searches as the pattern reads.
    #[verifier::external_body]
    pub fn new(pattern: String, fmt: String) -> (r: Option<VersionExtractor>)
        ensures
            r is Some <==> regex_compiles(pattern@),
            r matches Some(e) ==> e.pattern() == pattern@ && e.fmt() == fmt@,
    {
        match regex::Regex::new(&pattern) {
            Ok(re) => Some(
                VersionExtractor { version_regex: re, version_pattern: pattern, version_fmt: fmt },
            ),
            Err(_) => None,
        }
    }

    /// Relies on `regex::Regex::find`: the leftmost match in the haystack,
    /// a function of the pattern and the haystack alone.
    #[verifier::external_body]
    fn find_first(&self, hay: &str) -> (r: Option<String>)
        ensures
            match r {
                Some(m) => regex_first_match(self.pattern(), hay@) == Some(m@),
                None => regex_first_match(self.pattern(), hay@) is None,
            },
    {
        self.version_regex.find(hay).map(|m| m.as_str().to_owned())
    }

    /// Relies on `regex::Regex::replace`: the haystack with its leftmost match
    /// replaced by the format, capture groups expanded; a function of the
    /// pattern, the haystack and the format alone.
    #[verifier::external_body]
    fn substitute(&self, hay: &str) -> (r: String)
        ensures
            r@ == regex_substitution(self.pattern(), hay@, self.fmt()),
    {
        self.version_regex.replace(hay, self.version_fmt.as_str()).into_owned()
    }

    /// The version found in `version`, or nothing when the pattern does not
    /// match anywhere.
    pub fn extract(&self, version: &str) -> (r: Option<String>)
        ensures
            match r {
                Some(s) => spec_extract(self.pattern(), self.fmt(), version@) == Some(s@),
                None => spec_extract(self.pattern(), self.fmt(), version@) is None,
            },
    {
        match self.find_first(version) {
            Some(m) => Some(self.substitute(m.as_str())),
            None => None,
        }
    }
}

/// The replacement format used when none is configured: the first capture
/// group, unchanged.
pub fn default_version_fmt() -> (r: String)
    ensures
        r@ == "${1}"@,
{
    "${1}".to_owned()
}

impl Default for VersionExtractor {
    /// Relies on `regex::Regex::new` accepting the anchored pattern below,
    /// which captures everything after an optional leading `v`.
    #[verifier::external_body]
    fn default() -> (r: Self)
        ensures
            r.pattern() == "^v?(.*)$"@,
            r.fmt() == "${1}"@,
    {
        VersionExtractor {
            version_regex: regex::Regex::new("^v?(.*)$").unwrap(),
            version_pattern: "^v?(.*)$".to_owned(),
            version_fmt: "${1}".to_owned(),
        }
    }
}

} // verus!
