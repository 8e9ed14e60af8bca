//! Cleaning a tweet's text for display: hashtags and links go.
use crate::text::{trim, trim_text};
use vstd::prelude::*;

verus! {

/// The regex crate's compiled regular expression, opaque here.
#[verifier::external_type_specification]
#[verifier::external_body]
pub struct ExRegex(regex::Regex);

/// What is left of `text` once every match of the regular expression
/// `pattern` is taken out, scanning left to right as `regex` does.
pub uninterp spec fn regex_erased(pattern: Seq<char>, text: Seq<char>) -> Seq<char>;

/// A hashtag with the blanks after it.
pub open spec fn hashtag_pattern() -> Seq<char> {
    "#[\\w_]+[ \\t]*"@
}

/// A link: its scheme and everything up to the next blank.
pub open spec fn url_pattern() -> Seq<char> {
    "(?:https?|ftp)://[\\n\\S]+"@
}

/// Whether `pattern` is a regular expression that `regex` accepts.
pub uninterp spec fn regex_compiles(pattern: Seq<char>) -> bool;

/// Relies on `regex::Regex::new`: compiles a pattern, or fails on one that
/// is not a valid regular expression; which of the two depends on the
/// pattern alone.
#[verifier::external_body]
fn compile(src: &str) -> (r: Option<regex::Regex>)
    ensures
        r is Some <==> regex_compiles(src@),
{
    regex::Regex::new(src).ok()
}

/// A compiled regular expression together with its source.
pub struct Pattern {
    source: String,
    regex: regex::Regex,
}

impl Pattern {
    pub closed spec fn source(&self) -> Seq<char> {
        self.source@
    }

    /// Compiles `src`; none when it is not a valid regular expression.
    pub fn new(src: &str) -> (r: Option<Pattern>)
        ensures
            r is Some <==> regex_compiles(src@),
            r matches Some(p) ==> p.source() == src@,
    {
        match compile(src) {
            Some(regex) => Some(Pattern { source: crate::text::copy_str(src), regex }),
            None => None,
        }
    }
}

/// Relies on `regex::Regex::replace_all` with an empty replacement: every
/// match is taken out. The regex of a `Pattern` is always the one compiled
/// from its source, which only `Pattern::new` sets.
#[verifier::external_body]
fn erase_matches(p: &Pattern, s: &str) -> (r: String)
    ensures
        r@ == regex_erased(p.source(), s@),
{
    p.regex.replace_all(s, "").into_owned()
}

/// What cleaning leaves of a text: hashtags out, trim, links out, trim.
pub open spec fn cleaned(s: Seq<char>) -> Seq<char> {
    trim(regex_erased(url_pattern(), trim(regex_erased(hashtag_pattern(), s))))
}

/// The two patterns of the cleanup, compiled once.
pub struct Cleaner {
    hashtag: Pattern,
    url: Pattern,
}

impl Cleaner {
    pub closed spec fn wf(&self) -> bool {
        self.hashtag.source() == hashtag_pattern() && self.url.source() == url_pattern()
    }

    /// Compiles the hashtag and link patterns.
    pub fn new() -> (r: Option<Cleaner>)
        ensures
            r is Some <==> regex_compiles(hashtag_pattern()) && regex_compiles(url_pattern()),
            r matches Some(c) ==> c.wf(),
    {
        proof {
            reveal_strlit("#[\\w_]+[ \\t]*");
            reveal_strlit("(?:https?|ftp)://[\\n\\S]+");
        }
        let hashtag = match Pattern::new("#[\\w_]+[ \\t]*") {
            Some(p) => p,
            None => return None,
        };
        let url = match Pattern::new("(?:https?|ftp)://[\\n\\S]+") {
            Some(p) => p,
            None => return None,
        };
        Some(Cleaner { hashtag, url })
    }

    /// Removes hashtags, then links, and the white space at both ends.
    pub fn cleanup(&self, s: &str) -> (r: String)
        requires
            self.wf(),
        ensures
            r@ == cleaned(s@),
    {
        let a = erase_matches(&self.hashtag, s);
        let b = trim_text(a.as_str());
        let c = erase_matches(&self.url, b.as_str());
        trim_text(c.as_str())
    }
}

} // verus!
