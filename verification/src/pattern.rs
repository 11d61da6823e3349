use vstd::prelude::*;

verus! {

/// Makes `regex::Regex` known to Verus, as an opaque type.
#[verifier::external_type_specification]
#[verifier::external_body]
pub struct ExRegex(regex::Regex);

/// The message of the error that `regex::Regex::new` reports for
/// `pattern`, or `None` when it compiles.
pub uninterp spec fn regex_compile_error(pattern: Seq<char>) -> Option<Seq<char>>;

/// Whether the regular expression `pattern` matches anywhere in `haystack`
/// (`regex::Regex::is_match`).
pub uninterp spec fn regex_is_match(pattern: Seq<char>, haystack: Seq<char>) -> bool;

/// An ignore pattern: the source text of a regular expression together
/// with its compiled form. The compiled form is only ever built from the
/// text, by [`IgnorePattern::new`].
pub struct IgnorePattern {
    pattern: String,
    compiled: regex::Regex,
}

impl View for IgnorePattern {
    type V = Seq<char>;

    closed spec fn view(&self) -> Seq<char> {
        self.pattern@
    }
}

/// Calls `regex::Regex::new`.
///
/// Trusted: compilation succeeds exactly when `regex_compile_error` gives
/// `None` for the pattern, and otherwise fails with that message (the
/// error's `Display`); both depend on the pattern alone, since the default
/// size limits are fixed. Which patterns are accepted is left unstated.
#[verifier::external_body]
fn compile_regex(pattern: &str) -> (compiled: Result<regex::Regex, String>)
    ensures
        match compiled {
            Ok(_) => regex_compile_error(pattern@) is None,
            Err(message) => regex_compile_error(pattern@) == Some(message@),
        },
{
    match regex::Regex::new(pattern) {
        Ok(re) => Ok(re),
        Err(err) => Err(err.to_string()),
    }
}

/// Calls `regex::Regex::is_match` on the compiled form of `pattern`.
///
/// Trusted: the answer is `regex_is_match` of the pattern's source text and
/// the haystack (the compiled form is always built from that text, by
/// `IgnorePattern::new`); the matching semantics are left unstated.
#[verifier::external_body]
fn regex_matches(pattern: &IgnorePattern, haystack: &str) -> (found: bool)
    ensures
        found == regex_is_match(pattern@, haystack@),
{
    pattern.compiled.is_match(haystack)
}

impl IgnorePattern {
    /// Compiles `pattern`; fails with the regex error's message when it does
    /// not compile.
    pub fn new(pattern: String) -> (result: Result<IgnorePattern, String>)
        ensures
            match result {
                Ok(p) => regex_compile_error(pattern@) is None && p@ == pattern@,
                Err(message) => regex_compile_error(pattern@) == Some(message@),
            },
    {
        match compile_regex(pattern.as_str()) {
            Ok(compiled) => Ok(IgnorePattern { pattern, compiled }),
            Err(message) => Err(message),
        }
    }

    /// The source text of the pattern.
    pub fn as_str(&self) -> (text: &str)
        ensures
            text@ == self@,
    {
        self.pattern.as_str()
    }

    /// Whether the pattern matches anywhere in `path`.
    pub fn is_match(&self, path: &str) -> (found: bool)
        ensures
            found == regex_is_match(self@, path@),
    {
        regex_matches(self, path)
    }
}

/// The source text of an optional ignore pattern.
pub open spec fn pattern_text(ignore: Option<IgnorePattern>) -> Option<Seq<char>> {
    match ignore {
        Some(p) => Some(p@),
        None => None,
    }
}

/// Whether an optional ignore pattern excludes `path`.
pub open spec fn ignored(ignore: Option<Seq<char>>, path: Seq<char>) -> bool {
    match ignore {
        Some(pattern) => regex_is_match(pattern, path),
        None => false,
    }
}

/// Whether `ignore` excludes `path`; without a pattern nothing is excluded.
pub fn is_ignored(ignore: &Option<IgnorePattern>, path: &str) -> (excluded: bool)
    ensures
        excluded == ignored(pattern_text(*ignore), path@),
        excluded == match ignore {
            Some(p) => regex_is_match(p@, path@),
            None => false,
        },
{
    match ignore {
        Some(p) => p.is_match(path),
        None => false,
    }
}

/// An ignore pattern excludes a path exactly when the regular expression
/// matches somewhere in the whole text of the path (not merely in its file
/// name); without a pattern nothing is excluded.
pub proof fn law_ignore_matches_whole_path(pattern: Seq<char>, path: Seq<char>)
    ensures
        ignored(Some(pattern), path) == regex_is_match(pattern, path),
        !ignored(None, path),
{
}

} // verus!
