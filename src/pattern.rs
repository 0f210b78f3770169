//! Regex matching through the regex and globset crates: find-and-replace
//! on byte chunks, and name matching against a set of patterns.
use vstd::prelude::*;

use regex::bytes::{Regex, RegexSet};

use crate::verbatim::{finish_extracted, finish_replaced, newline_bytes};

verus! {

#[verifier::external_type_specification]
#[verifier::external_body]
pub struct ExRegex(regex::bytes::Regex);

#[verifier::external_type_specification]
#[verifier::external_body]
pub struct ExRegexError(regex::Error);

/// Whether `source` is accepted by the regex compiler.
pub uninterp spec fn regex_compiles(source: Seq<char>) -> bool;

/// What the regex compiled from `source` makes of `hay` when its first
/// `limit` matches (all of them when `limit` is 0) are replaced by `rep`,
/// with `$name` references in `rep` expanded.
pub uninterp spec fn regex_replacen(source: Seq<char>, hay: Seq<u8>, limit: nat, rep: Seq<u8>) -> Seq<u8>;

/// The expansions of `rep` for every match of the regex compiled from
/// `source` in `hay`, laid end to end.
pub uninterp spec fn regex_expand_all(source: Seq<char>, hay: Seq<u8>, rep: Seq<u8>) -> Seq<u8>;

/// A compiled regex, kept with the text it was compiled from.
pub struct Pattern {
    re: Regex,
    source: String,
}

impl View for Pattern {
    type V = Seq<char>;

    /// The text the regex was compiled from.
    closed spec fn view(&self) -> Seq<char> {
        self.source@
    }
}

/// Relies on `regex::bytes::Regex::new`, with the default limits: whether a
/// pattern compiles depends on its text alone.
#[verifier::external_body]
fn compile(source: &str) -> (r: Result<Regex, regex::Error>)
    ensures
        r is Ok == regex_compiles(source@),
{
    Regex::new(source)
}

/// Relies on `regex::bytes::Regex::replacen` with a byte-string replacer:
/// its result depends on the regex's source text, the haystack, the limit
/// and the replacement alone. `p.re` is always compiled from `p.source`
/// (see [`Pattern::new`], the only constructor).
#[verifier::external_body]
fn replacen(p: &Pattern, hay: &[u8], limit: usize, rep: &[u8]) -> (r: Vec<u8>)
    ensures
        r@ == regex_replacen(p@, hay@, limit as nat, rep@),
{
    p.re.replacen(hay, limit, rep).into_owned()
}

/// Relies on `regex::bytes::Regex::captures_iter` and
/// `regex::bytes::Captures::expand`: the expansions for all matches, in
/// order, depend on the regex's source text, the haystack and the
/// replacement alone.
#[verifier::external_body]
fn expand_all(p: &Pattern, hay: &[u8], rep: &[u8]) -> (r: Vec<u8>)
    ensures
        r@ == regex_expand_all(p@, hay@, rep@),
{
    let mut buff: Vec<u8> = Vec::new();
    for cap in p.re.captures_iter(hay) {
        cap.expand(rep, &mut buff);
    }
    buff
}

impl Pattern {
    /// Compiles `source`; fails exactly when the regex compiler rejects it.
    pub fn new(source: &str) -> (r: Result<Pattern, regex::Error>)
        ensures
            r is Ok == regex_compiles(source@),
            r matches Ok(p) ==> p@ == source@,
    {
        match compile(source) {
            Ok(re) => Ok(Pattern { re, source: source.to_owned() }),
            Err(e) => Err(e),
        }
    }
}

/// What replace mode writes for one chunk: the chunk with the regex's
/// first `max` matches replaced, then the line ending.
pub fn regex_replace_line(p: &Pattern, chunk: &[u8], max: usize, repl: &[u8], newline: &Option<Vec<u8>>) -> (r: Vec<u8>)
    ensures
        r@ == regex_replacen(p@, chunk@, max as nat, repl@) + newline_bytes(*newline),
{
    finish_replaced(replacen(p, chunk, max, repl), newline)
}

/// What extract mode writes for one chunk: nothing when the expansions
/// are empty, otherwise the expansions and the line ending.
pub fn regex_extract_line(p: &Pattern, chunk: &[u8], repl: &[u8], newline: &Option<Vec<u8>>) -> (r: Vec<u8>)
    ensures
        r@ == (if regex_expand_all(p@, chunk@, repl@).len() == 0 {
            Seq::empty()
        } else {
            regex_expand_all(p@, chunk@, repl@) + newline_bytes(*newline)
        }),
{
    finish_extracted(expand_all(p, chunk, repl), newline)
}

#[verifier::external_type_specification]
#[verifier::external_body]
pub struct ExRegexSet(regex::bytes::RegexSet);

#[verifier::external_type_specification]
#[verifier::external_body]
pub struct ExGlobError(globset::Error);

/// Whether every text in `sources` is accepted by the regex compiler as
/// one set.
pub uninterp spec fn regex_set_compiles(sources: Seq<Seq<char>>) -> bool;

/// Whether some regex of the set compiled from `sources` matches `hay`.
pub uninterp spec fn regex_set_matches(sources: Seq<Seq<char>>, hay: Seq<u8>) -> bool;

/// Whether `glob` is a valid glob.
pub uninterp spec fn glob_parses(glob: Seq<char>) -> bool;

/// The regex text that a valid glob translates to.
pub uninterp spec fn glob_to_regex(glob: Seq<char>) -> Seq<char>;

/// The texts of a list of strings.
pub open spec fn texts(v: Seq<String>) -> Seq<Seq<char>> {
    v.map_values(|s: String| s@)
}

/// A compiled set of regexes, kept with the texts it was compiled from.
pub struct PatternSet {
    set: RegexSet,
    sources: Vec<String>,
}

impl View for PatternSet {
    type V = Seq<Seq<char>>;

    /// The texts the set was compiled from.
    closed spec fn view(&self) -> Seq<Seq<char>> {
        texts(self.sources@)
    }
}

/// Relies on `regex::bytes::RegexSet::new`, with the default limits:
/// whether the set compiles depends on the texts alone.
#[verifier::external_body]
fn compile_set(sources: &Vec<String>) -> (r: Result<RegexSet, regex::Error>)
    ensures
        r is Ok == regex_set_compiles(texts(sources@)),
{
    RegexSet::new(sources)
}

/// Relies on `regex::bytes::RegexSet::is_match`: the answer depends on the
/// set's source texts and the haystack alone. `p.set` is always compiled
/// from `p.sources` (see [`PatternSet::new`], the only constructor).
#[verifier::external_body]
fn set_is_match(p: &PatternSet, hay: &[u8]) -> (r: bool)
    ensures
        r == regex_set_matches(p@, hay@),
{
    p.set.is_match(hay)
}

/// Relies on `globset::Glob::new` and `globset::Glob::regex`: whether a glob
/// parses, and the regex it becomes, depend on its text alone.
#[verifier::external_body]
fn glob_regex(glob: &str) -> (r: Result<String, globset::Error>)
    ensures
        r is Ok == glob_parses(glob@),
        r matches Ok(s) ==> s@ == glob_to_regex(glob@),
{
    globset::Glob::new(glob).map(|g| String::from(g.regex()))
}

impl PatternSet {
    /// Compiles the texts as one set; fails exactly when the regex compiler
    /// rejects them.
    pub fn new(sources: Vec<String>) -> (r: Result<PatternSet, regex::Error>)
        ensures
            r is Ok == regex_set_compiles(texts(sources@)),
            r matches Ok(p) ==> p@ == texts(sources@),
    {
        match compile_set(&sources) {
            Ok(set) => Ok(PatternSet { set, sources }),
            Err(e) => Err(e),
        }
    }
}

/// The regex texts for the patterns given on the command line: the
/// patterns themselves in regex mode, otherwise their glob translations.
/// Fails exactly when, in glob mode, some pattern is not a valid glob.
pub fn pattern_sources(patterns: &Vec<String>, regex: bool) -> (r: Result<Vec<String>, globset::Error>)
    ensures
        r is Err <==> !regex && exists|i: int| 0 <= i < patterns@.len() && !glob_parses(#[trigger] patterns@[i]@),
        r matches Ok(v) ==> v@.len() == patterns@.len() && forall|i: int|
            0 <= i < v@.len() ==> (#[trigger] v@[i])@ == (if regex {
                patterns@[i]@
            } else {
                glob_to_regex(patterns@[i]@)
            }),
{
    let mut out: Vec<String> = Vec::new();
    let mut i: usize = 0;
    while i < patterns.len()
        invariant
            i <= patterns@.len(),
            out@.len() == i,
            !regex ==> forall|j: int| 0 <= j < i ==> glob_parses(#[trigger] patterns@[j]@),
            forall|j: int|
                0 <= j < i ==> (#[trigger] out@[j])@ == (if regex {
                    patterns@[j]@
                } else {
                    glob_to_regex(patterns@[j]@)
                }),
        decreases patterns@.len() - i,
    {
        if regex {
            out.push(patterns[i].clone());
        } else {
            match glob_regex(patterns[i].as_str()) {
                Ok(s) => out.push(s),
                Err(e) => {
                    return Err(e);
                },
            }
        }
        i = i + 1;
    }
    Ok(out)
}

/// Whether an entry matches: its whole path when `full`, else its final
/// name, which some paths lack (then `None`).
pub fn check_match(set: &PatternSet, full: bool, path: &[u8], name: Option<&[u8]>) -> (r: Option<bool>)
    ensures
        r == (if full {
            Some(regex_set_matches(set@, path@))
        } else {
            match name {
                Some(n) => Some(regex_set_matches(set@, n@)),
                None => None,
            }
        }),
{
    if full {
        Some(set_is_match(set, path))
    } else {
        match name {
            Some(n) => Some(set_is_match(set, n)),
            None => None,
        }
    }
}

} // verus!
