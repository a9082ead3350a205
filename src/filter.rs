//! Admission of records: completeness, the unit filter and the pattern filter.
use crate::record::{is_complete, opt_view, LogRecord};
use vstd::prelude::*;

verus! {

#[verifier::external_type_specification]
#[verifier::external_body]
pub struct ExRegex(regex::Regex);

#[verifier::external_type_specification]
#[verifier::external_body]
pub struct ExRegexError(regex::Error);

/// Whether `regex::Regex::new` accepts the pattern.
pub uninterp spec fn regex_compiles(pattern: Seq<char>) -> bool;

/// Whether the regex compiled from `pattern` matches anywhere within `text`.
pub uninterp spec fn regex_finds(pattern: Seq<char>, text: Seq<char>) -> bool;

/// Relies on regex::Regex::new: compiling succeeds or fails by the pattern alone.
#[verifier::external_body]
fn compile_regex(pattern: &str) -> (r: Result<regex::Regex, regex::Error>)
    ensures
        r.is_ok() == regex_compiles(pattern@),
{
    regex::Regex::new(pattern)
}

/// Relies on regex::Regex::find: whether a match exists anywhere in the
/// text depends on the pattern the regex was compiled from and the text alone.
/// The regex of a `Pattern` is only ever the one `Pattern::new` compiled from
/// its source, so the source names it.
#[verifier::external_body]
fn regex_find(p: &Pattern, text: &str) -> (r: bool)
    ensures
        r == regex_finds(p@, text@),
{
    p.re.find(text).is_some()
}

/// The errors in the configuration of a pass.
#[derive(Debug, Clone, PartialEq, Eq)]
pub enum ConfigError {
    /// The pattern is not a regular expression that compiles.
    InvalidPattern,
}

/// A compiled search pattern, kept with its source text.
#[derive(Debug)]
pub struct Pattern {
    source: String,
    re: regex::Regex,
}

impl View for Pattern {
    type V = Seq<char>;

    /// The source text of the pattern.
    closed spec fn view(&self) -> Seq<char> {
        self.source@
    }
}

impl Pattern {
    /// Compiles `source`; fails exactly when the regex engine rejects it.
    pub fn new(source: &str) -> (r: Result<Pattern, ConfigError>)
        ensures
            r.is_ok() == regex_compiles(source@),
            r matches Ok(p) ==> p@ == source@,
    {
        match compile_regex(source) {
            Ok(re) => Ok(Pattern { source: source.to_owned(), re }),
            Err(_) => Err(ConfigError::InvalidPattern),
        }
    }

    /// The source text of the pattern.
    pub fn as_str(&self) -> (r: &str)
        ensures
            r@ == self@,
    {
        self.source.as_str()
    }

    /// Whether the pattern matches anywhere within `text`.
    pub fn is_found_in(&self, text: &str) -> (r: bool)
        ensures
            r == regex_finds(self@, text@),
    {
        regex_find(self, text)
    }
}

/// The unit filter: a configured unit rejects only a record that carries a
/// different unit; a record without a unit is never rejected.
pub open spec fn unit_admits(configured: Option<Seq<char>>, unit: Option<Seq<char>>) -> bool {
    match (configured, unit) {
        (Some(c), Some(u)) => c == u,
        _ => true,
    }
}

/// The pattern filter: a configured pattern must match within the text.
pub open spec fn pattern_admits(pattern: Option<Seq<char>>, text: Seq<char>) -> bool {
    match pattern {
        Some(p) => regex_finds(p, text),
        None => true,
    }
}

/// The view of an optional pattern.
pub open spec fn pattern_view(p: Option<Pattern>) -> Option<Seq<char>> {
    match p {
        Some(p) => Some(p@),
        None => None,
    }
}

/// Whether a record is admitted under the configured unit and pattern.
pub open spec fn admitted(unit: Option<Seq<char>>, pattern: Option<Seq<char>>, rec: LogRecord) -> bool {
    &&& is_complete(rec)
    &&& unit_admits(unit, opt_view(rec.unit))
    &&& pattern_admits(pattern, rec.msg.unwrap()@)
}

/// The admission decision once the pattern search is done: `pattern_found`
/// is `None` where no pattern is configured, else whether it matched.
pub fn admit_with(unit: &Option<String>, rec: &LogRecord, pattern_found: Option<bool>) -> (r: bool)
    ensures
        r == (is_complete(*rec) && unit_admits(opt_view(*unit), opt_view(rec.unit))
            && pattern_found != Some(false)),
{
    if rec.msg.is_none() || rec.process.is_none() || rec.priority.is_none() {
        return false;
    }
    if let Some(u) = unit {
        if let Some(ju) = &rec.unit {
            if !(*u == *ju) {
                return false;
            }
        }
    }
    match pattern_found {
        Some(found) => found,
        None => true,
    }
}

/// Whether a record is admitted: it is complete, passes the unit filter,
/// and the pattern, if any, matches within its text.
pub fn admits(unit: &Option<String>, pattern: &Option<Pattern>, rec: &LogRecord) -> (r: bool)
    ensures
        r == admitted(opt_view(*unit), pattern_view(*pattern), *rec),
{
    let found = match (pattern, &rec.msg) {
        (Some(p), Some(m)) => Some(p.is_found_in(m.as_str())),
        _ => None,
    };
    admit_with(unit, rec, found)
}

} // verus!
