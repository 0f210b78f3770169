//! Verbatim (non-regex) find-and-replace on byte chunks.
use vstd::prelude::*;

use vstd::slice::slice_subrange;
use vstd::utf8::encode_utf8;

use crate::bytes::append_bytes;

verus! {

/// Whether the chunk's text is rewritten in place or only the matches are
/// kept; the string is the replacement (or the text put out per match).
#[derive(Clone, Debug)]
pub enum OutputMode {
    Replace(String),
    Extract(String),
}

/// How the pattern is matched.
#[derive(Clone, Copy, Debug, PartialEq, Eq, Structural)]
pub enum MatchMode {
    Regex,
    Verbatim,
}

/// The text put out per match in extract mode when no replacement is given
/// to the regex matcher: the whole match.
pub const DEFAULT_REGEX_EXTRACT: &'static str = "$0";

impl OutputMode {
    /// The mode that the flags select: with no replacement, extract mode
    /// putting out the pattern itself (verbatim) or the whole match (regex);
    /// with one, extract mode when `extract` is set, else replace mode.
    pub fn from_flags(extract: bool, replace: Option<String>, simple: bool, pattern: &String) -> (r: OutputMode)
        ensures
            replace is None && simple ==> (r matches OutputMode::Extract(s) && s@ == pattern@),
            replace is None && !simple ==> (r matches OutputMode::Extract(s) && s@ == DEFAULT_REGEX_EXTRACT@),
            forall|s: String| replace == Some(s) ==> r == (if extract {
                OutputMode::Extract(s)
            } else {
                OutputMode::Replace(s)
            }),
    {
        match replace {
            None => {
                if simple {
                    OutputMode::Extract(pattern.clone())
                } else {
                    OutputMode::Extract(DEFAULT_REGEX_EXTRACT.to_owned())
                }
            },
            Some(repl) => {
                if extract {
                    OutputMode::Extract(repl)
                } else {
                    OutputMode::Replace(repl)
                }
            },
        }
    }
}

impl MatchMode {
    /// Verbatim matching when `simple` is set, regex matching otherwise.
    pub fn from_flags(simple: bool) -> (r: MatchMode)
        ensures
            r == (if simple {
                MatchMode::Verbatim
            } else {
                MatchMode::Regex
            }),
    {
        if simple {
            MatchMode::Verbatim
        } else {
            MatchMode::Regex
        }
    }
}

/// The line ending that the flag selects: the platform's when the flag is
/// absent, none when it is given without a value, else the value given.
pub fn newline_from_flag(flag: Option<Option<String>>, platform: Vec<u8>) -> (r: Option<Vec<u8>>)
    ensures
        flag is None ==> r == Some(platform),
        flag == Some(None::<String>) ==> r is None,
        forall|s: String| flag == Some(Some(s)) ==> (r matches Some(v) && v@ == encode_utf8(s@)),
{
    match flag {
        None => Some(platform),
        Some(None) => None,
        Some(Some(s)) => {
            let mut v: Vec<u8> = Vec::new();
            append_bytes(&mut v, s.as_str().as_bytes());
            Some(v)
        },
    }
}

/// Whether `needle` occurs in `hay` at position `n`.
pub open spec fn occurs_at(hay: Seq<u8>, needle: Seq<u8>, n: int) -> bool {
    0 <= n && n + needle.len() <= hay.len() && hay.subrange(n, n + needle.len()) == needle
}

/// Whether `n` is the first position at which `needle` occurs in `hay`.
pub open spec fn first_at(hay: Seq<u8>, needle: Seq<u8>, n: int) -> bool {
    occurs_at(hay, needle, n) && forall|j: int| 0 <= j < n ==> !#[trigger] occurs_at(hay, needle, j)
}

/// The first position at which `needle` occurs in `hay`, if any.
pub open spec fn first_occurrence(hay: Seq<u8>, needle: Seq<u8>) -> Option<int> {
    if exists|n: int| first_at(hay, needle, n) {
        Some(choose|n: int| first_at(hay, needle, n))
    } else {
        None
    }
}

/// `s` with its first `max` non-overlapping occurrences of `p`, found left
/// to right, replaced by `r`.
pub open spec fn replaced(s: Seq<u8>, p: Seq<u8>, r: Seq<u8>, max: nat) -> Seq<u8>
    decreases max,
{
    if max == 0 || p.len() == 0 {
        s
    } else {
        match first_occurrence(s, p) {
            None => s,
            Some(n) => if 0 <= n && n + p.len() <= s.len() {
                s.subrange(0, n) + r + replaced(s.subrange(n + p.len(), s.len() as int), p, r, (max - 1) as nat)
            } else {
                s
            },
        }
    }
}

/// One copy of `r` for each of the first `max` occurrences of `p` found
/// from the left, where the search resumes `r.len()` bytes past the start
/// of each occurrence (or at the end of `s`).
pub open spec fn extracted(s: Seq<u8>, p: Seq<u8>, r: Seq<u8>, max: nat) -> Seq<u8>
    decreases max,
{
    if max == 0 || p.len() == 0 {
        Seq::empty()
    } else {
        match first_occurrence(s, p) {
            None => Seq::empty(),
            Some(n) => if 0 <= n && n + p.len() <= s.len() {
                let next = if n + r.len() < s.len() { n + r.len() } else { s.len() as int };
                r + extracted(s.subrange(next, s.len() as int), p, r, (max - 1) as nat)
            } else {
                Seq::empty()
            },
        }
    }
}

proof fn lemma_first_unique(hay: Seq<u8>, needle: Seq<u8>, n: int)
    requires
        first_at(hay, needle, n),
    ensures
        first_occurrence(hay, needle) == Some(n),
{
    let m = choose|m: int| first_at(hay, needle, m);
    if m < n {
        assert(!occurs_at(hay, needle, m));
    } else if n < m {
        assert(!occurs_at(hay, needle, n));
    }
}

/// The first position at which the non-empty `needle` occurs in `haystack`.
pub fn find_subslice(haystack: &[u8], needle: &[u8]) -> (r: Option<usize>)
    requires
        needle@.len() > 0,
    ensures
        r matches Some(n) ==> first_at(haystack@, needle@, n as int),
        r is None ==> forall|j: int| !#[trigger] occurs_at(haystack@, needle@, j),
        match r {
            Some(n) => first_occurrence(haystack@, needle@) == Some(n as int),
            None => first_occurrence(haystack@, needle@) is None,
        },
{
    if needle.len() > haystack.len() {
        return None;
    }
    let hl = haystack.len();
    let last = hl - needle.len();
    let mut n: usize = 0;
    loop
        invariant
            hl == haystack@.len(),
            last == haystack@.len() - needle@.len(),
            n <= last,
            forall|j: int| 0 <= j < n ==> !#[trigger] occurs_at(haystack@, needle@, j),
        ensures
            forall|j: int| 0 <= j <= last ==> !#[trigger] occurs_at(haystack@, needle@, j),
        decreases last - n,
    {
        let mut k: usize = 0;
        let mut same = true;
        while k < needle.len()
            invariant
                hl == haystack@.len(),
                n <= last,
                last == haystack@.len() - needle@.len(),
                k <= needle@.len(),
                same == forall|q: int| 0 <= q < k ==> haystack@[n + q] == needle@[q],
            decreases needle@.len() - k,
        {
            if haystack[n + k] != needle[k] {
                same = false;
            }
            k = k + 1;
        }
        if same {
            assert(haystack@.subrange(n as int, n + needle@.len()) =~= needle@);
            proof {
                lemma_first_unique(haystack@, needle@, n as int);
            }
            return Some(n);
        }
        assert(!occurs_at(haystack@, needle@, n as int)) by {
            if occurs_at(haystack@, needle@, n as int) {
                assert forall|q: int| 0 <= q < needle@.len() implies haystack@[n + q] == needle@[q] by {
                    assert(haystack@.subrange(n as int, n + needle@.len())[q] == haystack@[n + q]);
                }
            }
        }
        if n == last {
            break;
        }
        n = n + 1;
    }
    proof {
        if exists|m: int| first_at(haystack@, needle@, m) {
            let m = choose|m: int| first_at(haystack@, needle@, m);
            assert(!occurs_at(haystack@, needle@, m));
        }
        assert forall|j: int| !#[trigger] occurs_at(haystack@, needle@, j) by {
            if j > last {
                assert(!occurs_at(haystack@, needle@, j));
            }
        }
    }
    None
}

/// `chunk` with its first `max` occurrences of the non-empty `patt`
/// replaced by `repl`.
pub fn replace_verbatim(chunk: &[u8], patt: &[u8], repl: &[u8], max: usize) -> (r: Vec<u8>)
    requires
        patt@.len() > 0,
    ensures
        r@ == replaced(chunk@, patt@, repl@, max as nat),
{
    let len = chunk.len();
    let mut out: Vec<u8> = Vec::new();
    let mut start: usize = 0;
    let mut count: usize = 0;
    assert(chunk@.subrange(0, len as int) =~= chunk@);
    assert(Seq::<u8>::empty() + replaced(chunk@, patt@, repl@, max as nat) =~= replaced(chunk@, patt@, repl@, max as nat));
    while count < max
        invariant
            len == chunk@.len(),
            patt@.len() > 0,
            start <= len,
            count <= max,
            out@ + replaced(chunk@.subrange(start as int, len as int), patt@, repl@, (max - count) as nat)
                == replaced(chunk@, patt@, repl@, max as nat),
        ensures
            start <= len,
            count <= max,
            out@ + replaced(chunk@.subrange(start as int, len as int), patt@, repl@, (max - count) as nat)
                == replaced(chunk@, patt@, repl@, max as nat),
            count < max ==> first_occurrence(chunk@.subrange(start as int, len as int), patt@) is None,
        decreases max - count,
    {
        let rest = slice_subrange(chunk, start, len);
        match find_subslice(rest, patt) {
            Some(n) => {
                let ghost tail = chunk@.subrange(start + n + patt@.len(), len as int);
                assert(rest@.subrange(n + patt@.len(), rest@.len() as int) =~= tail);
                let ghost old_out = out@;
                append_bytes(&mut out, slice_subrange(rest, 0, n));
                append_bytes(&mut out, repl);
                assert(old_out + (rest@.subrange(0, n as int) + repl@ + replaced(
                    tail,
                    patt@,
                    repl@,
                    (max - count - 1) as nat,
                )) =~= out@ + replaced(tail, patt@, repl@, (max - count - 1) as nat));
                start = start + n + patt.len();
                count = count + 1;
            },
            None => {
                break;
            },
        }
    }
    let rest = slice_subrange(chunk, start, len);
    append_bytes(&mut out, rest);
    out
}

/// One copy of `repl` for each of the first `max` occurrences of the
/// non-empty `patt`, the search going on `repl.len()` bytes past the start
/// of each occurrence.
pub fn extract_verbatim(chunk: &[u8], patt: &[u8], repl: &[u8], max: usize) -> (r: Vec<u8>)
    requires
        patt@.len() > 0,
    ensures
        r@ == extracted(chunk@, patt@, repl@, max as nat),
{
    let len = chunk.len();
    let mut out: Vec<u8> = Vec::new();
    let mut start: usize = 0;
    let mut count: usize = 0;
    assert(chunk@.subrange(0, len as int) =~= chunk@);
    assert(Seq::<u8>::empty() + extracted(chunk@, patt@, repl@, max as nat) =~= extracted(chunk@, patt@, repl@, max as nat));
    while count < max
        invariant
            len == chunk@.len(),
            patt@.len() > 0,
            start <= len,
            count <= max,
            out@ + extracted(chunk@.subrange(start as int, len as int), patt@, repl@, (max - count) as nat)
                == extracted(chunk@, patt@, repl@, max as nat),
        ensures
            start <= len,
            count <= max,
            out@ + extracted(chunk@.subrange(start as int, len as int), patt@, repl@, (max - count) as nat)
                == extracted(chunk@, patt@, repl@, max as nat),
            count < max ==> first_occurrence(chunk@.subrange(start as int, len as int), patt@) is None,
        decreases max - count,
    {
        let rest = slice_subrange(chunk, start, len);
        match find_subslice(rest, patt) {
            Some(n) => {
                let step: usize = if repl.len() < rest.len() - n {
                    n + repl.len()
                } else {
                    rest.len()
                };
                let ghost tail = chunk@.subrange(start + step, len as int);
                assert(rest@.subrange(step as int, rest@.len() as int) =~= tail);
                let ghost old_out = out@;
                append_bytes(&mut out, repl);
                assert(old_out + (repl@ + extracted(tail, patt@, repl@, (max - count - 1) as nat))
                    =~= out@ + extracted(tail, patt@, repl@, (max - count - 1) as nat));
                start = start + step;
                count = count + 1;
            },
            None => {
                break;
            },
        }
    }
    proof {
        let rest = chunk@.subrange(start as int, len as int);
        if count < max {
            assert(extracted(rest, patt@, repl@, (max - count) as nat) == Seq::<u8>::empty());
        }
        assert(out@ + Seq::<u8>::empty() =~= out@);
    }
    out
}

/// The bytes that end each output line, if any.
pub open spec fn newline_bytes(newline: Option<Vec<u8>>) -> Seq<u8> {
    match newline {
        Some(nl) => nl@,
        None => Seq::empty(),
    }
}

/// A replaced chunk followed by the line ending.
pub fn finish_replaced(v: Vec<u8>, newline: &Option<Vec<u8>>) -> (r: Vec<u8>)
    ensures
        r@ == v@ + newline_bytes(*newline),
{
    let mut out = v;
    match newline {
        Some(nl) => append_bytes(&mut out, nl.as_slice()),
        None => {
            assert(out@ + Seq::<u8>::empty() =~= out@);
        },
    }
    out
}

/// Extracted text followed by the line ending, or nothing when there is
/// no extracted text.
pub fn finish_extracted(v: Vec<u8>, newline: &Option<Vec<u8>>) -> (r: Vec<u8>)
    ensures
        r@ == (if v@.len() == 0 {
            Seq::empty()
        } else {
            v@ + newline_bytes(*newline)
        }),
{
    if v.len() == 0 {
        v
    } else {
        finish_replaced(v, newline)
    }
}

/// What replace mode writes for one chunk: the chunk with its first `max`
/// occurrences of `patt` replaced, then the line ending.
pub fn replace_line(chunk: &[u8], patt: &[u8], repl: &[u8], max: usize, newline: &Option<Vec<u8>>) -> (r: Vec<u8>)
    requires
        patt@.len() > 0,
    ensures
        r@ == replaced(chunk@, patt@, repl@, max as nat) + newline_bytes(*newline),
{
    finish_replaced(replace_verbatim(chunk, patt, repl, max), newline)
}

/// What extract mode writes for one chunk: nothing when `patt` does not
/// occur, otherwise the extracted text and the line ending.
pub fn extract_line(chunk: &[u8], patt: &[u8], repl: &[u8], max: usize, newline: &Option<Vec<u8>>) -> (r: Vec<u8>)
    requires
        patt@.len() > 0,
    ensures
        r@ == (if extracted(chunk@, patt@, repl@, max as nat).len() == 0 {
            Seq::empty()
        } else {
            extracted(chunk@, patt@, repl@, max as nat) + newline_bytes(*newline)
        }),
{
    finish_extracted(extract_verbatim(chunk, patt, repl, max), newline)
}

} // verus!
