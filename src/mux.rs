//! The multiplexer: a state machine that is fed, one at a time, the outcome
//! of receiving from each channel in ascending index order, and that hands
//! back one finished output unit per tick.
use vstd::prelude::*;

use crate::bytes::append_bytes;

verus! {

/// The byte that stands in for a closed channel when records are pasted
/// onto one line under [`Finished::Blank`].
pub const BLANK_PAD: u8 = 32;

/// What happens once a command's channel has closed.
#[derive(Clone, Copy, Debug, PartialEq, Eq, Structural)]
pub enum Finished {
    /// The whole session stops, dropping the tick that was being assembled.
    Terminate,
    /// The closed channel contributes nothing.
    Ignore,
    /// The closed channel contributes a blank placeholder.
    Blank,
}

impl Default for Finished {
    fn default() -> (r: Finished)
        ensures
            r == Finished::Terminate,
    {
        Finished::Terminate
    }
}

/// The fixed settings of one session: the completion policy, the
/// composition mode (`paste` holds the join separator of paste mode;
/// `None` means one line per record), and the record terminator.
#[derive(Debug)]
pub struct MuxConfig {
    pub finished: Finished,
    pub paste: Option<Vec<u8>>,
    pub terminator: Vec<u8>,
}

/// The settings as plain values.
pub struct ConfigView {
    pub finished: Finished,
    pub paste: Option<Seq<u8>>,
    pub terminator: Seq<u8>,
}

impl MuxConfig {
    /// The settings as plain values.
    pub open spec fn view(&self) -> ConfigView {
        ConfigView {
            finished: self.finished,
            paste: match self.paste {
                Some(sep) => Some(sep@),
                None => None,
            },
            terminator: self.terminator@,
        }
    }
}

/// What one receive produced: a record, or `None` when the channel is closed.
pub type Outcome = Option<Seq<u8>>;

/// The mathematical form of a received value.
pub open spec fn outcome_of(o: Option<Vec<u8>>) -> Outcome {
    match o {
        Some(v) => Some(v@),
        None => None,
    }
}

/// What a channel adds to its tick in line-interleave mode.
pub open spec fn line_part(cfg: ConfigView, o: Outcome) -> Seq<u8> {
    match o {
        Some(r) => r + cfg.terminator,
        None => if cfg.finished == Finished::Blank {
            cfg.terminator
        } else {
            Seq::empty()
        },
    }
}

/// What fills a channel's slot in paste mode.
pub open spec fn paste_piece(cfg: ConfigView, o: Outcome) -> Seq<u8> {
    match o {
        Some(r) => r,
        None => if cfg.finished == Finished::Blank {
            seq![BLANK_PAD]
        } else {
            Seq::empty()
        },
    }
}

/// The bytes assembled from the first outcomes of a tick, before the tick
/// is finalised: in line mode each part in turn, in paste mode the slots
/// with the separator strictly between them.
pub open spec fn partial(cfg: ConfigView, outs: Seq<Outcome>) -> Seq<u8>
    decreases outs.len(),
{
    if outs.len() == 0 {
        Seq::empty()
    } else {
        let prev = partial(cfg, outs.drop_last());
        match cfg.paste {
            None => prev + line_part(cfg, outs.last()),
            Some(sep) => if outs.len() == 1 {
                paste_piece(cfg, outs.last())
            } else {
                prev + sep + paste_piece(cfg, outs.last())
            },
        }
    }
}

/// The output unit of a complete tick; paste mode ends it with exactly one
/// terminator.
pub open spec fn tick_unit(cfg: ConfigView, outs: Seq<Outcome>) -> Seq<u8> {
    match cfg.paste {
        None => partial(cfg, outs),
        Some(_) => partial(cfg, outs) + cfg.terminator,
    }
}

/// Whether some channel delivered a record in these outcomes.
pub open spec fn has_record(outs: Seq<Outcome>) -> bool {
    exists|i: int| 0 <= i < outs.len() && (#[trigger] outs[i]) is Some
}

/// The abstract state of a session: the outcomes of every finished tick,
/// the outcomes gathered so far in the current tick, and whether the
/// session is over.
pub struct MuxView {
    pub ticks: Seq<Seq<Outcome>>,
    pub cur: Seq<Outcome>,
    pub stopped: bool,
}

/// Whether channel `i` has been seen closed.
pub open spec fn done(v: MuxView, i: int) -> bool {
    (exists|k: int|
        0 <= k < v.ticks.len() && 0 <= i < v.ticks[k].len() && (#[trigger] v.ticks[k])[i] is None)
        || (0 <= i < v.cur.len() && v.cur[i] is None)
}

/// Whether all `n` channels have been seen closed.
pub open spec fn all_done(v: MuxView, n: nat) -> bool {
    forall|i: int| 0 <= i < n ==> #[trigger] done(v, i)
}

/// The state before the first receive.
pub open spec fn initial(n: nat) -> MuxView {
    MuxView { ticks: Seq::empty(), cur: Seq::empty(), stopped: n == 0 }
}

/// Whether receiving `o` ends the session at once under the policy.
pub open spec fn terminates(cfg: ConfigView, o: Outcome) -> bool {
    o is None && cfg.finished == Finished::Terminate
}

/// The state after the next channel's outcome `o` has been received.
pub open spec fn step(cfg: ConfigView, n: nat, v: MuxView, o: Outcome) -> MuxView {
    let cur = v.cur.push(o);
    if terminates(cfg, o) {
        MuxView { ticks: v.ticks, cur, stopped: true }
    } else if cur.len() == n {
        let w = MuxView { ticks: v.ticks.push(cur), cur: Seq::empty(), stopped: false };
        MuxView { stopped: all_done(w, n), ..w }
    } else {
        MuxView { ticks: v.ticks, cur, stopped: false }
    }
}

/// A session ends only in two ways: at once when a channel is seen closed
/// under `Terminate`, or at the end of a tick after which every channel
/// has been seen closed.
pub proof fn lemma_stop_conditions(cfg: ConfigView, n: nat, v: MuxView, o: Outcome)
    requires
        !v.stopped,
        v.cur.len() < n,
    ensures
        step(cfg, n, v, o).stopped <==> terminates(cfg, o) || (v.cur.len() + 1 == n && all_done(
            MuxView { ticks: v.ticks.push(v.cur.push(o)), cur: Seq::empty(), stopped: false },
            n,
        )),
        terminates(cfg, o) ==> emitted(cfg, n, v, o) is None,
        !terminates(cfg, o) && v.cur.len() + 1 == n ==> step(cfg, n, v, o).cur.len() == 0,
{
}

/// The output unit written after receiving `o`: present only when `o`
/// completes a tick that was not abandoned and that holds some record.
pub open spec fn emitted(cfg: ConfigView, n: nat, v: MuxView, o: Outcome) -> Option<Seq<u8>> {
    let cur = v.cur.push(o);
    if !terminates(cfg, o) && cur.len() == n && has_record(cur) {
        Some(tick_unit(cfg, cur))
    } else {
        None
    }
}

/// The multiplexer of one session: it names the channel to receive from
/// next, takes the outcome, and hands back each finished output unit.
pub struct Multiplexer {
    config: MuxConfig,
    dones: Vec<bool>,
    buff: Vec<u8>,
    pos: usize,
    got_record: bool,
    stopped: bool,
    state: Ghost<MuxView>,
}

impl Multiplexer {
    /// The abstract state.
    pub closed spec fn view(&self) -> MuxView {
        self.state@
    }

    /// The session's settings.
    pub closed spec fn spec_config(&self) -> ConfigView {
        self.config.view()
    }

    /// The number of channels.
    pub closed spec fn channels(&self) -> nat {
        self.dones@.len()
    }

    /// The fields agree with the abstract state.
    pub closed spec fn wf(&self) -> bool {
        let v = self.state@;
        let n = self.dones@.len();
        &&& self.pos == v.cur.len()
        &&& self.stopped == v.stopped
        &&& (!v.stopped ==> v.cur.len() < n)
        &&& v.cur.len() <= n
        &&& forall|i: int| 0 <= i < n ==> self.dones@[i] == #[trigger] done(v, i)
        &&& (!v.stopped ==> self.buff@ == partial(self.config.view(), v.cur))
        &&& self.got_record == has_record(v.cur)
    }

    /// Starts a session over `n` channels; with no channel it is over at once.
    pub fn new(config: MuxConfig, n: usize) -> (r: Multiplexer)
        ensures
            r.wf(),
            r.view() == initial(n as nat),
            r.spec_config() == config.view(),
            r.channels() == n,
    {
        let mut dones: Vec<bool> = Vec::new();
        let mut i: usize = 0;
        while i < n
            invariant
                i <= n,
                dones@ == Seq::new(i as nat, |j: int| false),
            decreases n - i,
        {
            dones.push(false);
            i = i + 1;
            assert(dones@ =~= Seq::new(i as nat, |j: int| false));
        }
        let ghost v = initial(n as nat);
        Multiplexer {
            config,
            dones,
            buff: Vec::new(),
            pos: 0,
            got_record: false,
            stopped: n == 0,
            state: Ghost(v),
        }
    }

    /// Whether the session is over.
    pub fn is_finished(&self) -> (r: bool)
        requires
            self.wf(),
        ensures
            r == self.view().stopped,
    {
        self.stopped
    }

    /// The channel to receive from next, or `None` once the session is over.
    pub fn next_channel(&self) -> (r: Option<usize>)
        requires
            self.wf(),
        ensures
            r == (if self.view().stopped {
                None
            } else {
                Some(self.view().cur.len() as usize)
            }),
            r matches Some(i) ==> i < self.channels(),
    {
        if self.stopped {
            None
        } else {
            Some(self.pos)
        }
    }

    /// Takes the outcome of receiving from the channel that
    /// [`Multiplexer::next_channel`] named: `Some(record)`, or `None` when it
    /// is closed. Returns the output unit to write and flush when this
    /// completes a tick.
    pub fn receive(&mut self, outcome: Option<Vec<u8>>) -> (r: Option<Vec<u8>>)
        requires
            old(self).wf(),
            !old(self).view().stopped,
        ensures
            final(self).wf(),
            final(self).spec_config() == old(self).spec_config(),
            final(self).channels() == old(self).channels(),
            final(self).view() == step(
                old(self).spec_config(),
                old(self).channels(),
                old(self).view(),
                outcome_of(outcome),
            ),
            outcome_of(r) == emitted(
                old(self).spec_config(),
                old(self).channels(),
                old(self).view(),
                outcome_of(outcome),
            ),
    {
        let ghost cfg = self.config.view();
        let ghost n = self.dones@.len();
        let ghost v = self.state@;
        let ghost o = outcome_of(outcome);
        let ghost cur = v.cur.push(o);
        assert(cur.drop_last() =~= v.cur);
        let ghost old_dones = self.dones@;
        let pos = self.pos;
        let count = self.dones.len();
        assert(pos < count);
        let closed = outcome.is_none();
        if closed {
            self.dones.set(pos, true);
        } else {
            self.got_record = true;
        }
        proof {
            assert(self.got_record == has_record(cur)) by {
                if o is Some {
                    assert(cur[pos as int] is Some);
                } else if has_record(cur) {
                    let i = choose|i: int| 0 <= i < cur.len() && (#[trigger] cur[i]) is Some;
                    assert(v.cur[i] is Some);
                }
            }
            let w = MuxView { ticks: v.ticks, cur, stopped: false };
            assert forall|i: int| 0 <= i < n implies self.dones@[i] == #[trigger] done(w, i) by {
                assert(old_dones[i] == done(v, i));
                if 0 <= i < v.cur.len() {
                    assert(cur[i] == v.cur[i]);
                    assert(self.dones@[i] == old_dones[i]);
                } else if i == pos {
                    assert(cur[i] == o);
                } else {
                    assert(self.dones@[i] == old_dones[i]);
                }
            }
        }
        if closed && self.config.finished == Finished::Terminate {
            self.pos = pos + 1;
            self.stopped = true;
            self.state = Ghost(MuxView { ticks: v.ticks, cur, stopped: true });
            proof {
                let u = MuxView { ticks: v.ticks, cur, stopped: false };
                assert forall|i: int| 0 <= i < n implies self.dones@[i] == #[trigger] done(
                    self.state@,
                    i,
                ) by {
                    assert(done(self.state@, i) == done(u, i));
                }
            }
            return None;
        }
        match &self.config.paste {
            None => {
                match outcome {
                    Some(rec) => {
                        append_bytes(&mut self.buff, rec.as_slice());
                        append_bytes(&mut self.buff, self.config.terminator.as_slice());
                    },
                    None => {
                        if self.config.finished == Finished::Blank {
                            append_bytes(&mut self.buff, self.config.terminator.as_slice());
                        }
                    },
                }
            },
            Some(sep) => {
                if pos > 0 {
                    append_bytes(&mut self.buff, sep.as_slice());
                }
                match outcome {
                    Some(rec) => {
                        append_bytes(&mut self.buff, rec.as_slice());
                    },
                    None => {
                        if self.config.finished == Finished::Blank {
                            self.buff.push(BLANK_PAD);
                        }
                    },
                }
            },
        }
        assert(self.buff@ == partial(cfg, cur));
        self.pos = pos + 1;
        if self.pos < self.dones.len() {
            self.state = Ghost(MuxView { ticks: v.ticks, cur, stopped: false });
            return None;
        }
        let mut out: Vec<u8> = Vec::new();
        std::mem::swap(&mut out, &mut self.buff);
        let got = self.got_record;
        self.got_record = false;
        self.pos = 0;
        let ghost w = MuxView { ticks: v.ticks.push(cur), cur: Seq::empty(), stopped: false };
        proof {
            let u = MuxView { ticks: v.ticks, cur, stopped: false };
            assert forall|i: int| 0 <= i < n implies done(u, i) == #[trigger] done(w, i) by {
                let t = v.ticks.len() as int;
                assert(w.ticks[t] == cur);
                if done(u, i) {
                    if !(0 <= i < cur.len() && cur[i] is None) {
                        let k = choose|k: int|
                            0 <= k < v.ticks.len() && 0 <= i < v.ticks[k].len()
                                && (#[trigger] v.ticks[k])[i] is None;
                        assert(w.ticks[k] == v.ticks[k]);
                    }
                }
                if done(w, i) {
                    let k = choose|k: int|
                        0 <= k < w.ticks.len() && 0 <= i < w.ticks[k].len()
                            && (#[trigger] w.ticks[k])[i] is None;
                    if k < t {
                        assert(w.ticks[k] == v.ticks[k]);
                    }
                }
            }
        }
        let all = all_true(&self.dones);
        proof {
            let u = MuxView { ticks: v.ticks, cur, stopped: false };
            if all {
                assert forall|i: int| 0 <= i < n implies #[trigger] done(w, i) by {
                    assert(self.dones@[i]);
                    assert(done(u, i));
                }
            } else {
                let i = choose|i: int| 0 <= i < n && !#[trigger] self.dones@[i];
                assert(!done(u, i));
                assert(!done(w, i));
            }
        }
        self.stopped = all;
        self.state = Ghost(MuxView { stopped: all, ..w });
        proof {
            assert forall|i: int| 0 <= i < n implies self.dones@[i] == #[trigger] done(
                self.state@,
                i,
            ) by {
                assert(done(self.state@, i) == done(w, i));
            }
            assert(self.buff@ == partial(cfg, Seq::empty()));
        }
        if got {
            match &self.config.paste {
                None => {},
                Some(_) => {
                    append_bytes(&mut out, self.config.terminator.as_slice());
                },
            }
            Some(out)
        } else {
            None
        }
    }
}

/// Whether every flag is set.
fn all_true(flags: &Vec<bool>) -> (r: bool)
    ensures
        r == forall|i: int| 0 <= i < flags@.len() ==> #[trigger] flags@[i],
{
    let mut i: usize = 0;
    while i < flags.len()
        invariant
            i <= flags@.len(),
            forall|j: int| 0 <= j < i ==> #[trigger] flags@[j],
        decreases flags@.len() - i,
    {
        if !flags[i] {
            return false;
        }
        i = i + 1;
    }
    true
}

} // verus!
