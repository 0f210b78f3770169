//! What a whole session writes, as a function of what each channel yields,
//! and the laws that tie the multiplexer to it.
use vstd::prelude::*;

use crate::bytes::append_bytes;
use crate::mux::{
    all_done, done, emitted, has_record, initial, line_part, paste_piece, step, tick_unit,
    terminates, ConfigView, Finished, Multiplexer, MuxConfig, MuxView, Outcome, BLANK_PAD,
};

verus! {

/// The `k`-th receive from a channel that yields the records `ch` and then
/// closes: the record, or `None` once they are used up.
pub open spec fn outcome_at(ch: Seq<Seq<u8>>, k: int) -> Outcome {
    if 0 <= k < ch.len() {
        Some(ch[k])
    } else {
        None
    }
}

/// The outcomes of tick `k`, channel by channel.
pub open spec fn tick_outcomes(chs: Seq<Seq<Seq<u8>>>, k: int) -> Seq<Outcome> {
    Seq::new(chs.len(), |i: int| outcome_at(chs[i], k))
}

/// The fewest records that any channel yields (0 with no channel).
pub open spec fn min_len(chs: Seq<Seq<Seq<u8>>>) -> nat
    decreases chs.len(),
{
    if chs.len() == 0 {
        0
    } else if chs.len() == 1 {
        chs[0].len()
    } else {
        let m = min_len(chs.drop_last());
        if chs.last().len() < m {
            chs.last().len()
        } else {
            m
        }
    }
}

/// The most records that any channel yields (0 with no channel).
pub open spec fn max_len(chs: Seq<Seq<Seq<u8>>>) -> nat
    decreases chs.len(),
{
    if chs.len() == 0 {
        0
    } else {
        let m = max_len(chs.drop_last());
        if chs.last().len() > m {
            chs.last().len()
        } else {
            m
        }
    }
}

/// How many ticks write an output unit: under `Terminate` those before the
/// first closure, otherwise those in which some channel still yields.
pub open spec fn tick_count(cfg: ConfigView, chs: Seq<Seq<Seq<u8>>>) -> nat {
    if cfg.finished == Finished::Terminate {
        min_len(chs)
    } else {
        max_len(chs)
    }
}

/// The output units of the first `t` ticks, in tick order.
pub open spec fn output_upto(cfg: ConfigView, chs: Seq<Seq<Seq<u8>>>, t: nat) -> Seq<u8>
    decreases t,
{
    if t == 0 {
        Seq::empty()
    } else {
        output_upto(cfg, chs, (t - 1) as nat) + tick_unit(cfg, tick_outcomes(chs, t - 1))
    }
}

/// Everything a session writes.
pub open spec fn session_output(cfg: ConfigView, chs: Seq<Seq<Seq<u8>>>) -> Seq<u8> {
    output_upto(cfg, chs, tick_count(cfg, chs))
}

/// The receive outcomes of the first `t` ticks, in the order the
/// multiplexer asks for them.
pub open spec fn events(chs: Seq<Seq<Seq<u8>>>, t: nat) -> Seq<Outcome>
    decreases t,
{
    if t == 0 {
        Seq::empty()
    } else {
        events(chs, (t - 1) as nat) + tick_outcomes(chs, t - 1)
    }
}

/// The state reached and the bytes written when the outcomes `outs` are
/// fed in order to a multiplexer over `n` channels in state `v`; outcomes
/// that arrive after the session is over are not consulted.
pub open spec fn feed(cfg: ConfigView, n: nat, v: MuxView, outs: Seq<Outcome>) -> (MuxView, Seq<u8>)
    decreases outs.len(),
{
    if outs.len() == 0 {
        (v, Seq::empty())
    } else {
        let (w, written) = feed(cfg, n, v, outs.drop_last());
        if w.stopped {
            (w, written)
        } else {
            let o = outs.last();
            let unit = match emitted(cfg, n, w, o) {
                Some(u) => u,
                None => Seq::empty(),
            };
            (step(cfg, n, w, o), written + unit)
        }
    }
}

/// The state between ticks after `j` complete ticks of the channels `chs`.
pub open spec fn after_ticks(chs: Seq<Seq<Seq<u8>>>, j: nat, stopped: bool) -> MuxView {
    MuxView {
        ticks: Seq::new(j, |k: int| tick_outcomes(chs, k)),
        cur: Seq::empty(),
        stopped,
    }
}

proof fn lemma_min_len(chs: Seq<Seq<Seq<u8>>>)
    ensures
        forall|i: int| 0 <= i < chs.len() ==> min_len(chs) <= (#[trigger] chs[i]).len(),
        chs.len() > 0 ==> exists|i: int| 0 <= i < chs.len() && min_len(chs) == (#[trigger] chs[i]).len(),
    decreases chs.len(),
{
    if chs.len() > 1 {
        let d = chs.drop_last();
        lemma_min_len(d);
        assert forall|i: int| 0 <= i < chs.len() implies min_len(chs) <= (#[trigger] chs[i]).len() by {
            if i < d.len() {
                assert(d[i] == chs[i]);
            }
        }
        if chs.last().len() >= min_len(d) {
            let i = choose|i: int| 0 <= i < d.len() && min_len(d) == (#[trigger] d[i]).len();
            assert(chs[i] == d[i]);
        } else {
            assert(chs[chs.len() - 1] == chs.last());
        }
    } else if chs.len() == 1 {
        assert(min_len(chs) == chs[0].len());
    }
}

proof fn lemma_max_len(chs: Seq<Seq<Seq<u8>>>)
    ensures
        forall|i: int| 0 <= i < chs.len() ==> (#[trigger] chs[i]).len() <= max_len(chs),
        chs.len() > 0 ==> exists|i: int| 0 <= i < chs.len() && max_len(chs) == (#[trigger] chs[i]).len(),
    decreases chs.len(),
{
    if chs.len() > 0 {
        let d = chs.drop_last();
        lemma_max_len(d);
        assert forall|i: int| 0 <= i < chs.len() implies (#[trigger] chs[i]).len() <= max_len(chs) by {
            if i < d.len() {
                assert(d[i] == chs[i]);
            }
        }
        if chs.last().len() <= max_len(d) && d.len() > 0 {
            let i = choose|i: int| 0 <= i < d.len() && max_len(d) == (#[trigger] d[i]).len();
            assert(chs[i] == d[i]);
        } else {
            assert(chs[chs.len() - 1] == chs.last());
        }
    }
}

proof fn lemma_feed_stopped(cfg: ConfigView, n: nat, v: MuxView, outs: Seq<Outcome>)
    requires
        v.stopped,
    ensures
        feed(cfg, n, v, outs) == (v, Seq::<u8>::empty()),
    decreases outs.len(),
{
    if outs.len() > 0 {
        lemma_feed_stopped(cfg, n, v, outs.drop_last());
    }
}

proof fn lemma_feed_append(cfg: ConfigView, n: nat, v: MuxView, a: Seq<Outcome>, b: Seq<Outcome>)
    ensures
        feed(cfg, n, v, a + b) == (
            feed(cfg, n, feed(cfg, n, v, a).0, b).0,
            feed(cfg, n, v, a).1 + feed(cfg, n, feed(cfg, n, v, a).0, b).1,
        ),
    decreases b.len(),
{
    if b.len() == 0 {
        assert(a + b =~= a);
        assert(feed(cfg, n, v, a).1 + Seq::<u8>::empty() =~= feed(cfg, n, v, a).1);
    } else {
        lemma_feed_append(cfg, n, v, a, b.drop_last());
        assert((a + b).drop_last() =~= a + b.drop_last());
        assert((a + b).last() == b.last());
        let w = feed(cfg, n, v, a).0;
        let x = feed(cfg, n, v, a).1;
        let y = feed(cfg, n, w, b.drop_last()).1;
        let z = feed(cfg, n, w, b.drop_last()).0;
        if !z.stopped {
            let unit = match emitted(cfg, n, z, b.last()) {
                Some(u) => u,
                None => Seq::empty(),
            };
            assert(x + y + unit =~= x + (y + unit));
        }
    }
}

/// Whether channel `i` is closed in tick `k`: then it stays closed.
proof fn lemma_done_after_ticks(chs: Seq<Seq<Seq<u8>>>, j: nat, stopped: bool, i: int)
    requires
        0 <= i < chs.len(),
    ensures
        done(after_ticks(chs, j, stopped), i) == (j > chs[i].len()),
{
    let v = after_ticks(chs, j, stopped);
    if j > chs[i].len() {
        let k = chs[i].len() as int;
        assert(v.ticks[k] == tick_outcomes(chs, k));
        assert(v.ticks[k][i] is None);
    }
    if done(v, i) {
        let k = choose|k: int|
            0 <= k < v.ticks.len() && 0 <= i < v.ticks[k].len() && (#[trigger] v.ticks[k])[i] is None;
        assert(v.ticks[k] == tick_outcomes(chs, k));
    }
}

/// Feeding the first `p` outcomes of a tick in which no outcome ends the
/// session only gathers them.
proof fn lemma_tick_prefix(cfg: ConfigView, chs: Seq<Seq<Seq<u8>>>, j: nat, p: nat)
    requires
        p < chs.len(),
        forall|q: int| 0 <= q < p ==> !terminates(cfg, #[trigger] tick_outcomes(chs, j as int)[q]),
    ensures
        feed(cfg, chs.len(), after_ticks(chs, j, false), tick_outcomes(chs, j as int).take(p as int))
            == (
            MuxView {
                ticks: after_ticks(chs, j, false).ticks,
                cur: tick_outcomes(chs, j as int).take(p as int),
                stopped: false,
            },
            Seq::<u8>::empty(),
        ),
    decreases p,
{
    let outs = tick_outcomes(chs, j as int);
    let v = after_ticks(chs, j, false);
    if p == 0 {
        assert(outs.take(0) =~= Seq::<Outcome>::empty());
        assert(v.cur =~= outs.take(0));
    } else {
        lemma_tick_prefix(cfg, chs, j, (p - 1) as nat);
        assert(outs.take(p as int).drop_last() =~= outs.take(p - 1));
        assert(outs.take(p - 1).push(outs[p - 1]) =~= outs.take(p as int));
        assert(!terminates(cfg, outs[p - 1]));
        assert(Seq::<u8>::empty() + Seq::<u8>::empty() =~= Seq::<u8>::empty());
    }
}

/// A tick in which no outcome ends the session is gathered whole, then
/// written if it holds a record.
proof fn lemma_full_tick(cfg: ConfigView, chs: Seq<Seq<Seq<u8>>>, j: nat)
    requires
        chs.len() > 0,
        forall|q: int| 0 <= q < chs.len() ==> !terminates(cfg, #[trigger] tick_outcomes(chs, j as int)[q]),
    ensures
        feed(cfg, chs.len(), after_ticks(chs, j, false), tick_outcomes(chs, j as int)) == (
            after_ticks(chs, j + 1, all_done(after_ticks(chs, j + 1, false), chs.len())),
            if exists|i: int| 0 <= i < chs.len() && j < (#[trigger] chs[i]).len() {
                tick_unit(cfg, tick_outcomes(chs, j as int))
            } else {
                Seq::<u8>::empty()
            },
        ),
{
    let n = chs.len();
    let outs = tick_outcomes(chs, j as int);
    let v = after_ticks(chs, j, false);
    lemma_tick_prefix(cfg, chs, j, (n - 1) as nat);
    assert(outs.drop_last() =~= outs.take(n - 1));
    assert(outs.take(n - 1).push(outs.last()) =~= outs);
    assert(!terminates(cfg, outs[n - 1]));
    let w = MuxView { ticks: v.ticks, cur: outs.take(n - 1), stopped: false };
    assert(v.ticks.push(outs) =~= after_ticks(chs, j + 1, false).ticks);
    let u = after_ticks(chs, j + 1, false);
    if exists|i: int| 0 <= i < n && j < (#[trigger] chs[i]).len() {
        let i = choose|i: int| 0 <= i < n && j < (#[trigger] chs[i]).len();
        assert(outs[i] is Some);
    } else {
        assert forall|i: int| 0 <= i < outs.len() implies !(#[trigger] outs[i] is Some) by {
            assert(!(j < chs[i].len()));
        }
    }
    assert(Seq::<u8>::empty() + tick_unit(cfg, outs) =~= tick_unit(cfg, outs));
}

/// In a tick where some outcome ends the session, feeding stops there and
/// writes nothing.
proof fn lemma_terminating_prefix(cfg: ConfigView, chs: Seq<Seq<Seq<u8>>>, j: nat, p: nat)
    requires
        p <= chs.len(),
        exists|q: int| 0 <= q < p && terminates(cfg, #[trigger] tick_outcomes(chs, j as int)[q]),
    ensures
        ({
            let r = feed(
                cfg,
                chs.len(),
                after_ticks(chs, j, false),
                tick_outcomes(chs, j as int).take(p as int),
            );
            &&& r.0.stopped
            &&& r.1 == Seq::<u8>::empty()
            &&& r.0.cur.len() > 0
            &&& r.0.cur.last() is None
        }),
    decreases p,
{
    let outs = tick_outcomes(chs, j as int);
    assert(outs.take(p as int).drop_last() =~= outs.take(p - 1));
    if exists|q: int| 0 <= q < p - 1 && terminates(cfg, #[trigger] outs[q]) {
        lemma_terminating_prefix(cfg, chs, j, (p - 1) as nat);
    } else {
        lemma_tick_prefix(cfg, chs, j, (p - 1) as nat);
        assert(outs.take(p as int).last() == outs[p - 1]);
    }
}

/// After each complete tick that precedes the end of the session, the
/// multiplexer is between ticks and has written those ticks' units.
proof fn lemma_ticks(cfg: ConfigView, chs: Seq<Seq<Seq<u8>>>, j: nat)
    requires
        chs.len() > 0,
        j <= tick_count(cfg, chs),
    ensures
        feed(cfg, chs.len(), initial(chs.len()), events(chs, j)) == (
            after_ticks(chs, j, false),
            output_upto(cfg, chs, j),
        ),
    decreases j,
{
    let n = chs.len();
    if j == 0 {
        assert(after_ticks(chs, 0, false).ticks =~= Seq::<Seq<Outcome>>::empty());
    } else {
        lemma_ticks(cfg, chs, (j - 1) as nat);
        lemma_feed_append(cfg, n, initial(n), events(chs, (j - 1) as nat), tick_outcomes(chs, j - 1));
        lemma_min_len(chs);
        lemma_max_len(chs);
        let outs = tick_outcomes(chs, j - 1);
        assert forall|q: int| 0 <= q < n implies !terminates(cfg, #[trigger] outs[q]) by {
            if cfg.finished == Finished::Terminate {
                assert(j - 1 < chs[q].len());
            }
        }
        lemma_full_tick(cfg, chs, (j - 1) as nat);
        let u = after_ticks(chs, j, false);
        if cfg.finished == Finished::Terminate {
            assert(j - 1 < chs[0].len());
            assert(!done(u, 0)) by {
                lemma_done_after_ticks(chs, j, false, 0);
            }
        } else {
            let i = choose|i: int| 0 <= i < n && max_len(chs) == (#[trigger] chs[i]).len();
            assert(j - 1 < chs[i].len());
            assert(!done(u, i)) by {
                lemma_done_after_ticks(chs, j, false, i);
            }
        }
    }
}

/// Driving the multiplexer with what the channels yield writes exactly
/// [`session_output`], tick after tick, and ends the session: under
/// `Terminate` on the first closed channel in the middle of a tick,
/// otherwise between ticks once every channel has been seen closed.
pub proof fn lemma_session(cfg: ConfigView, chs: Seq<Seq<Seq<u8>>>)
    ensures
        ({
            let n = chs.len();
            let r = feed(cfg, n, initial(n), events(chs, tick_count(cfg, chs) + 1));
            &&& r.1 == session_output(cfg, chs)
            &&& r.0.stopped
            &&& n > 0 && cfg.finished == Finished::Terminate ==> r.0.cur.len() > 0
                && r.0.cur.last() is None
            &&& n > 0 && cfg.finished != Finished::Terminate ==> r.0.cur.len() == 0
                && all_done(r.0, n)
        }),
{
    let n = chs.len();
    let t = tick_count(cfg, chs);
    if n == 0 {
        lemma_feed_stopped(cfg, n, initial(n), events(chs, t + 1));
    } else {
        lemma_min_len(chs);
        lemma_max_len(chs);
        if cfg.finished == Finished::Terminate {
            lemma_ticks(cfg, chs, t);
            lemma_feed_append(cfg, n, initial(n), events(chs, t), tick_outcomes(chs, t as int));
            let c = choose|i: int| 0 <= i < n && min_len(chs) == (#[trigger] chs[i]).len();
            assert(terminates(cfg, tick_outcomes(chs, t as int)[c]));
            lemma_terminating_prefix(cfg, chs, t, n);
            assert(tick_outcomes(chs, t as int).take(n as int) =~= tick_outcomes(chs, t as int));
            assert(output_upto(cfg, chs, t) + Seq::<u8>::empty() =~= output_upto(cfg, chs, t));
        } else {
            lemma_ticks(cfg, chs, t);
            lemma_feed_append(cfg, n, initial(n), events(chs, t), tick_outcomes(chs, t as int));
            lemma_full_tick(cfg, chs, t);
            let u = after_ticks(chs, t + 1, false);
            assert(all_done(u, n)) by {
                assert forall|i: int| 0 <= i < n implies #[trigger] done(u, i) by {
                    lemma_done_after_ticks(chs, t + 1, false, i);
                }
            }
            let v = after_ticks(chs, t + 1, true);
            assert(all_done(v, n)) by {
                assert forall|i: int| 0 <= i < n implies #[trigger] done(v, i) by {
                    lemma_done_after_ticks(chs, t + 1, true, i);
                    lemma_done_after_ticks(chs, t + 1, false, i);
                }
            }
            assert forall|i: int| 0 <= i < n implies !(t < (#[trigger] chs[i]).len()) by {}
            let x = output_upto(cfg, chs, t);
            assert(x + Seq::<u8>::empty() =~= x);
        }
    }
}

/// The channels' records as plain sequences.
pub open spec fn channels_view(chs: Seq<Vec<Vec<u8>>>) -> Seq<Seq<Seq<u8>>> {
    Seq::new(chs.len(), |i: int| Seq::new(chs[i]@.len(), |j: int| chs[i]@[j]@))
}

/// The number of ticks that write an output unit, for channels already
/// gathered in full.
pub fn count_ticks(config: &MuxConfig, channels: &Vec<Vec<Vec<u8>>>) -> (r: usize)
    ensures
        r == tick_count(config.view(), channels_view(channels@)),
{
    let ghost chs = channels_view(channels@);
    let n = channels.len();
    let terminate = config.finished == Finished::Terminate;
    let mut m: usize = 0;
    let mut i: usize = 0;
    while i < n
        invariant
            i <= n,
            n == channels@.len(),
            chs == channels_view(channels@),
            terminate == (config.finished == Finished::Terminate),
            m == (if terminate {
                min_len(chs.take(i as int))
            } else {
                max_len(chs.take(i as int))
            }),
        decreases n - i,
    {
        let len = channels[i].len();
        assert(chs.take(i + 1).drop_last() =~= chs.take(i as int));
        assert(chs.take(i + 1).last() == chs[i as int]);
        if terminate {
            if i == 0 || len < m {
                m = len;
            }
        } else if len > m {
            m = len;
        }
        i = i + 1;
    }
    assert(chs.take(n as int) =~= chs);
    m
}

/// The receive outcome of tick `k` for one channel gathered in full.
fn outcome_of_channel(channel: &Vec<Vec<u8>>, k: usize) -> (r: Option<Vec<u8>>)
    ensures
        crate::mux::outcome_of(r) == outcome_at(Seq::new(channel@.len(), |j: int| channel@[j]@), k as int),
{
    if k < channel.len() {
        let mut rec: Vec<u8> = Vec::new();
        append_bytes(&mut rec, channel[k].as_slice());
        Some(rec)
    } else {
        None
    }
}

/// Runs a whole session over channels whose records are known in advance:
/// channel `i` yields `channels[i]` in order and then closes. Returns every
/// byte the session writes.
pub fn run_session(config: MuxConfig, channels: &Vec<Vec<Vec<u8>>>) -> (r: Vec<u8>)
    ensures
        r@ == session_output(config.view(), channels_view(channels@)),
{
    let ghost cfg = config.view();
    let ghost chs = channels_view(channels@);
    let n = channels.len();
    let ghost nn = n as nat;
    let t = count_ticks(&config, channels);
    let mut m = Multiplexer::new(config, n);
    let mut out: Vec<u8> = Vec::new();
    let mut k: usize = 0;
    assert(events(chs, 0) =~= Seq::<Outcome>::empty());
    loop
        invariant
            k <= t,
            n == channels@.len(),
            chs == channels_view(channels@),
            nn == n,
            t == tick_count(cfg, chs),
            m.wf(),
            m.channels() == nn,
            m.view() == feed(m.spec_config(), nn, initial(nn), events(chs, k as nat)).0,
            out@ == feed(m.spec_config(), nn, initial(nn), events(chs, k as nat)).1,
            m.spec_config() == cfg,
            cfg == config.view(),
        decreases t - k,
    {
        let mut i: usize = 0;
        let ghost before = events(chs, k as nat);
        assert(before + tick_outcomes(chs, k as int).take(0) =~= before);
        while i < n
            invariant
                i <= n,
                k <= t,
                n == channels@.len(),
                chs == channels_view(channels@),
                nn == n,
                m.wf(),
                m.channels() == nn,
                m.spec_config() == cfg,
                cfg == config.view(),
                before == events(chs, k as nat),
                m.view() == feed(cfg, nn, initial(nn), before + tick_outcomes(chs, k as int).take(i as int)).0,
                out@ == feed(cfg, nn, initial(nn), before + tick_outcomes(chs, k as int).take(i as int)).1,
            decreases n - i,
        {
            let ghost evs = before + tick_outcomes(chs, k as int).take(i as int);
            let ghost next = before + tick_outcomes(chs, k as int).take(i + 1);
            assert(next.drop_last() =~= evs);
            assert(chs[i as int] =~= Seq::new(channels@[i as int]@.len(), |j: int| channels@[i as int]@[j]@));
            assert(next.last() == outcome_at(chs[i as int], k as int));
            if !m.is_finished() {
                let o = outcome_of_channel(&channels[i], k);
                let unit = m.receive(o);
                match unit {
                    Some(u) => {
                        append_bytes(&mut out, u.as_slice());
                    },
                    None => {
                        assert(out@ + Seq::<u8>::empty() =~= out@);
                    },
                }
            }
            i = i + 1;
        }
        assert(before + tick_outcomes(chs, k as int).take(n as int) =~= events(chs, (k + 1) as nat));
        if k == t {
            proof {
                lemma_session(cfg, chs);
            }
            return out;
        }
        k = k + 1;
    }
}

proof fn lemma_output_prefix(cfg: ConfigView, chs: Seq<Seq<Seq<u8>>>, a: nat, b: nat)
    requires
        a <= b,
    ensures
        output_upto(cfg, chs, a).len() <= output_upto(cfg, chs, b).len(),
        output_upto(cfg, chs, b).subrange(0, output_upto(cfg, chs, a).len() as int)
            == output_upto(cfg, chs, a),
    decreases b,
{
    if a < b {
        lemma_output_prefix(cfg, chs, a, (b - 1) as nat);
        let p = output_upto(cfg, chs, (b - 1) as nat);
        let u = tick_unit(cfg, tick_outcomes(chs, b - 1));
        assert((p + u).subrange(0, output_upto(cfg, chs, a).len() as int) =~= p.subrange(
            0,
            output_upto(cfg, chs, a).len() as int,
        ));
    } else {
        assert(output_upto(cfg, chs, b).subrange(0, output_upto(cfg, chs, b).len() as int)
            =~= output_upto(cfg, chs, b));
    }
}

/// Where the unit of tick `k` starts in the output.
pub open spec fn tick_start(cfg: ConfigView, chs: Seq<Seq<Seq<u8>>>, k: nat) -> int {
    output_upto(cfg, chs, k).len() as int
}

/// Ticks are written in order and whole: the unit of tick `k` fills the
/// output from where tick `k` starts to where tick `k + 1` starts, and the
/// unit of the next tick comes right after it.
pub proof fn lemma_tick_order(cfg: ConfigView, chs: Seq<Seq<Seq<u8>>>, k: nat)
    requires
        k < tick_count(cfg, chs),
    ensures
        tick_start(cfg, chs, k) + tick_unit(cfg, tick_outcomes(chs, k as int)).len()
            == tick_start(cfg, chs, k + 1),
        tick_start(cfg, chs, k + 1) <= session_output(cfg, chs).len(),
        session_output(cfg, chs).subrange(tick_start(cfg, chs, k), tick_start(cfg, chs, k + 1))
            == tick_unit(cfg, tick_outcomes(chs, k as int)),
        k + 1 < tick_count(cfg, chs) ==> session_output(cfg, chs).subrange(
            tick_start(cfg, chs, k + 1),
            tick_start(cfg, chs, k + 2),
        ) == tick_unit(cfg, tick_outcomes(chs, (k + 1) as int)),
{
    let t = tick_count(cfg, chs);
    let s = session_output(cfg, chs);
    lemma_output_prefix(cfg, chs, k + 1, t);
    let p = output_upto(cfg, chs, k);
    let u = tick_unit(cfg, tick_outcomes(chs, k as int));
    assert(s.subrange(tick_start(cfg, chs, k), tick_start(cfg, chs, k + 1)) =~= (p + u).subrange(
        p.len() as int,
        (p + u).len() as int,
    ));
    assert((p + u).subrange(p.len() as int, (p + u).len() as int) =~= u);
    if k + 1 < t {
        lemma_output_prefix(cfg, chs, k + 2, t);
        let q = output_upto(cfg, chs, k + 1);
        let w = tick_unit(cfg, tick_outcomes(chs, (k + 1) as int));
        assert(s.subrange(tick_start(cfg, chs, k + 1), tick_start(cfg, chs, k + 2)) =~= (q
            + w).subrange(q.len() as int, (q + w).len() as int));
        assert((q + w).subrange(q.len() as int, (q + w).len() as int) =~= w);
    }
}

/// Under `Terminate`, when channel `j` closes at tick `t` and no channel
/// closed earlier, the output holds ticks before `t` only: whatever the
/// lower channels gave in tick `t` is dropped.
pub proof fn lemma_terminate_discards(cfg: ConfigView, chs: Seq<Seq<Seq<u8>>>, j: int, t: nat)
    requires
        cfg.finished == Finished::Terminate,
        0 <= j < chs.len(),
        chs[j].len() == t,
        forall|i: int| 0 <= i < chs.len() ==> t <= (#[trigger] chs[i]).len(),
    ensures
        tick_count(cfg, chs) == t,
        session_output(cfg, chs) == output_upto(cfg, chs, t),
{
    lemma_min_len(chs);
}

/// Under `Ignore` or `Blank`, a closed channel stays closed in every later
/// tick that is written, and fills its slot there with the policy's
/// placeholder: nothing, or a bare terminator (line mode) or blank pad
/// (paste mode).
pub proof fn lemma_closed_persists(cfg: ConfigView, chs: Seq<Seq<Seq<u8>>>, i: int, k: nat)
    requires
        cfg.finished != Finished::Terminate,
        0 <= i < chs.len(),
        chs[i].len() <= k < tick_count(cfg, chs),
    ensures
        tick_outcomes(chs, k as int)[i] is None,
        has_record(tick_outcomes(chs, k as int)),
        line_part(cfg, tick_outcomes(chs, k as int)[i]) == (if cfg.finished == Finished::Blank {
            cfg.terminator
        } else {
            Seq::<u8>::empty()
        }),
        paste_piece(cfg, tick_outcomes(chs, k as int)[i]) == (if cfg.finished == Finished::Blank {
            seq![BLANK_PAD]
        } else {
            Seq::<u8>::empty()
        }),
{
    lemma_max_len(chs);
    let c = choose|c: int| 0 <= c < chs.len() && max_len(chs) == (#[trigger] chs[c]).len();
    assert(tick_outcomes(chs, k as int)[c] is Some);
}

} // verus!
