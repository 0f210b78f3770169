//! The settings of a session as the command line gives them, and the end
//! of its list of commands.
use vstd::prelude::*;
use vstd::string::StrSliceExecFns;
use vstd::utf8::encode_utf8;

use crate::bytes::append_bytes;
use crate::mux::{ConfigView, Finished, MuxConfig};
use crate::session::session_output;

verus! {

/// The separator that paste mode uses when none is given.
pub const DEFAULT_PASTE_SEP: &'static str = "\t";

/// The options of a session.
pub struct Opts {
    /// What happens once a command has finished.
    pub exit: Finished,
    /// Whether to run on a pool of threads rather than on one thread.
    pub threads: bool,
    /// Whether to print the help on per-command options and stop.
    pub commands: bool,
    /// The join separator of paste mode; `None` means one line per record.
    pub paste: Option<String>,
}

/// The settings of the multiplexer that options give, with the record
/// terminator `terminator`. The runtime choice plays no part in them.
pub open spec fn config_of(o: Opts, terminator: Seq<u8>) -> ConfigView {
    ConfigView {
        finished: o.exit,
        paste: match o.paste {
            Some(s) => Some(encode_utf8(s@)),
            None => None,
        },
        terminator,
    }
}

impl Opts {
    /// Options from flags as parsed: `paste` is `None` when the flag is
    /// absent and `Some(None)` when it is given without a value, which
    /// selects the tab separator.
    pub fn from_flags(exit: Finished, threads: bool, commands: bool, paste: Option<Option<String>>) -> (r: Opts)
        ensures
            r.exit == exit,
            r.threads == threads,
            r.commands == commands,
            paste is None ==> r.paste is None,
            paste == Some(None::<String>) ==> (r.paste matches Some(s) && s@ == DEFAULT_PASTE_SEP@),
            forall|s: String| paste == Some(Some(s)) ==> r.paste == Some(s),
    {
        let paste = match paste {
            None => None,
            Some(None) => Some(DEFAULT_PASTE_SEP.to_owned()),
            Some(Some(s)) => Some(s),
        };
        Opts { exit, threads, commands, paste }
    }

    /// The multiplexer's settings, with record terminator `terminator`.
    pub fn mux_config(&self, terminator: Vec<u8>) -> (r: MuxConfig)
        ensures
            r.view() == config_of(*self, terminator@),
    {
        let paste = match &self.paste {
            None => None,
            Some(s) => {
                let mut p: Vec<u8> = Vec::new();
                append_bytes(&mut p, s.as_str().as_bytes());
                Some(p)
            },
        };
        MuxConfig { finished: self.exit, paste, terminator }
    }
}

/// The output of a session does not depend on the runtime it runs on:
/// options that differ only in the choice of threads give the same bytes.
pub proof fn lemma_runtime_equivalence(
    a: Opts,
    b: Opts,
    terminator: Seq<u8>,
    chs: Seq<Seq<Seq<u8>>>,
)
    requires
        a.exit == b.exit,
        a.paste == b.paste,
    ensures
        session_output(config_of(a, terminator), chs) == session_output(
            config_of(b, terminator),
            chs,
        ),
{
}

/// Whether `c` has the Unicode White_Space property.
pub open spec fn is_white(c: char) -> bool {
    let u = c as u32;
    (9 <= u <= 13) || u == 32 || u == 0x85 || u == 0xa0 || u == 0x1680 || (0x2000 <= u <= 0x200a)
        || u == 0x2028 || u == 0x2029 || u == 0x202f || u == 0x205f || u == 0x3000
}

/// Whether a line of session input is blank (empty or white space only):
/// such a line ends the list of commands, as the end of input does.
pub fn is_blank_line(line: &str) -> (r: bool)
    ensures
        r == forall|i: int| 0 <= i < line@.len() ==> is_white(#[trigger] line@[i]),
{
    let n = line.unicode_len();
    let mut i: usize = 0;
    while i < n
        invariant
            n == line@.len(),
            i <= n,
            forall|j: int| 0 <= j < i ==> is_white(#[trigger] line@[j]),
        decreases n - i,
    {
        let u = line.get_char(i) as u32;
        let white = (9 <= u && u <= 13) || u == 32 || u == 0x85 || u == 0xa0 || u == 0x1680 || (
        0x2000 <= u && u <= 0x200a) || u == 0x2028 || u == 0x2029 || u == 0x202f || u == 0x205f
            || u == 0x3000;
        if !white {
            return false;
        }
        i = i + 1;
    }
    true
}

} // verus!
