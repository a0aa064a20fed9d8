//! The notification dispatcher: matching announcements against each
//! destination's watches and batching the rendered lines under the
//! transport's payload limit.

use vstd::prelude::*;
use vstd::string::{StrSliceExecFns, StringExecFns};

use crate::db::{wants_spec, Reg, RegV};
use crate::ir_watcher::{Announcement, AnnouncementV};
use crate::render::{render_spec, MAX_TIMESTAMP};
use crate::seqs::{first_where, lemma_first_where};

verus! {

/// The transport's payload limit, a safety margin under the platform's
/// hard cap.
pub const TRANSPORT_LIMIT: usize = 1950;

/// One line offered to the buffer: if it does not fit on top of what is
/// buffered (joined with a newline), the buffer is sent first; the line
/// then starts or extends the new buffer.
pub open spec fn add_step(buf: Seq<char>, out: Seq<Seq<char>>, line: Seq<char>) -> (
    Seq<char>,
    Seq<Seq<char>>,
) {
    let overflow = buf.len() + 1 + line.len() > TRANSPORT_LIMIT;
    let out2 = if overflow && buf.len() > 0 {
        out.push(buf)
    } else {
        out
    };
    let buf2 = if overflow || buf.len() == 0 {
        line
    } else {
        buf + "\n"@ + line
    };
    (buf2, out2)
}

/// A final flush: a non-empty buffer becomes one outbound message.
pub open spec fn flush_step(buf: Seq<char>, out: Seq<Seq<char>>) -> Seq<Seq<char>> {
    if buf.len() > 0 {
        out.push(buf)
    } else {
        out
    }
}

/// The messages a sequence of lines produces, starting from a given
/// buffer state, flushing the remainder at the end.
pub open spec fn batch_rec(lines: Seq<Seq<char>>, buf: Seq<char>, out: Seq<Seq<char>>) -> Seq<
    Seq<char>,
>
    decreases lines.len(),
{
    if lines.len() == 0 {
        flush_step(buf, out)
    } else {
        let s = add_step(buf, out, lines[0]);
        batch_rec(lines.drop_first(), s.0, s.1)
    }
}

/// The messages a sequence of lines produces from an empty buffer.
pub open spec fn batches(lines: Seq<Seq<char>>) -> Seq<Seq<char>> {
    batch_rec(lines, Seq::empty(), Seq::empty())
}

/// Batching keeps every outbound message within the transport limit and
/// never produces an empty message, as long as no single line exceeds
/// the limit and the starting state already satisfies both bounds.
pub proof fn lemma_batches_bounded(lines: Seq<Seq<char>>, buf: Seq<char>, out: Seq<Seq<char>>)
    requires
        forall|i: int| 0 <= i < lines.len() ==> (#[trigger] lines[i]).len() <= TRANSPORT_LIMIT,
        buf.len() <= TRANSPORT_LIMIT,
        forall|i: int| 0 <= i < out.len() ==> 1 <= (#[trigger] out[i]).len() <= TRANSPORT_LIMIT,
    ensures
        forall|i: int|
            0 <= i < batch_rec(lines, buf, out).len() ==> 1 <= (#[trigger] batch_rec(
                lines,
                buf,
                out,
            )[i]).len() <= TRANSPORT_LIMIT,
    decreases lines.len(),
{
    if lines.len() > 0 {
        let s = add_step(buf, out, lines[0]);
        reveal_strlit("\n");
        assert("\n"@.len() == 1);
        assert(forall|i: int|
            1 <= i < lines.len() ==> (#[trigger] lines[i]).len() == lines.drop_first()[i
                - 1].len());
        assert(forall|i: int|
            0 <= i < lines.drop_first().len() ==> (#[trigger] lines.drop_first()[i]).len()
                <= TRANSPORT_LIMIT);
        lemma_batches_bounded(lines.drop_first(), s.0, s.1);
        assert(batch_rec(lines, buf, out) == batch_rec(lines.drop_first(), s.0, s.1));
    }
}

/// A per-destination message buffer. Lines accumulate joined by
/// newlines; whatever would not fit under the transport limit is moved
/// to `out` as one finished message.
#[derive(Debug)]
pub struct Messenger {
    pub ch: u64,
    pub buf: String,
    pub out: Vec<String>,
}

impl Messenger {
    /// An empty buffer for one destination.
    pub fn new(ch: u64) -> (r: Messenger)
        ensures
            r.ch == ch,
            r.buf@ == Seq::<char>::empty(),
            r.out.deep_view() == Seq::<Seq<char>>::empty(),
    {
        let r = Messenger { ch, buf: String::new(), out: Vec::new() };
        proof {
            assert(r.out.deep_view() =~= Seq::<Seq<char>>::empty());
        }
        r
    }

    /// Offers one line to the buffer.
    pub fn add(&mut self, line: &str)
        ensures
            final(self).ch == old(self).ch,
            final(self).buf@ == add_step(old(self).buf@, old(self).out.deep_view(), line@).0,
            final(self).out.deep_view() == add_step(
                old(self).buf@,
                old(self).out.deep_view(),
                line@,
            ).1,
    {
        let line_len = line.unicode_len();
        let overflow = line_len > TRANSPORT_LIMIT - 1 || self.buf.as_str().unicode_len()
            > TRANSPORT_LIMIT - 1 - line_len;
        if overflow {
            self.flush();
        }
        if self.buf.as_str().unicode_len() > 0 {
            self.buf.append("\n");
        }
        self.buf.append(line);
        proof {
            let s = add_step(old(self).buf@, old(self).out.deep_view(), line@);
            assert(self.buf@ =~= s.0);
            assert(self.out.deep_view() =~= s.1);
        }
    }

    /// Sends the buffer as one message, if it holds anything.
    pub fn flush(&mut self)
        ensures
            final(self).ch == old(self).ch,
            final(self).buf@ == Seq::<char>::empty(),
            final(self).out.deep_view() == flush_step(
                old(self).buf@,
                old(self).out.deep_view(),
            ),
    {
        if self.buf.as_str().unicode_len() > 0 {
            let ghost before = self.out.deep_view();
            let mut msg = String::new();
            core::mem::swap(&mut msg, &mut self.buf);
            self.out.push(msg);
            proof {
                assert(self.out.deep_view() =~= before.push(old(self).buf@));
            }
        }
    }
}

/// The announcements for a given series.
pub open spec fn ann_series_matches(id: i64) -> spec_fn(AnnouncementV) -> bool {
    |a: AnnouncementV| a.series.series_id == id
}

/// An announcement the matcher and renderer can work with: sound
/// thresholds and counts, a consistent series id, and a start time in
/// the renderer's range.
pub open spec fn ann_ok(a: AnnouncementV) -> bool {
    &&& a.wf()
    &&& a.curr.series_id == a.series.series_id
    &&& 0 <= a.curr.start_time <= MAX_TIMESTAMP
}

/// The lines one destination's watches produce, in stored watch order:
/// for each watch whose series has an announcement it accepts, the
/// rendered sentence. Announcements the engine could not have produced
/// (inconsistent ids, negative counts, out-of-range times) are dropped,
/// never rendered.
pub open spec fn channel_lines(regs: Seq<RegV>, anns: Seq<AnnouncementV>, now: i64) -> Seq<
    Seq<char>,
>
    decreases regs.len(),
{
    if regs.len() == 0 {
        Seq::empty()
    } else {
        let rest = channel_lines(regs.drop_first(), anns, now);
        let reg = regs[0];
        let i = first_where(anns, ann_series_matches(reg.series_id));
        if i == -1 {
            rest
        } else {
            let a = anns[i];
            if ann_ok(a) && wants_spec(reg, a) {
                seq![render_spec(a, now)] + rest
            } else {
                rest
            }
        }
    }
}

/// The whole dispatch: for every destination group, the batched messages
/// of its lines, tagged with the destination, groups in the given order.
pub open spec fn announce_spec(
    groups: Seq<(u64, Vec<Reg>)>,
    anns: Seq<AnnouncementV>,
    now: i64,
) -> Seq<(u64, Seq<char>)>
    decreases groups.len(),
{
    if groups.len() == 0 {
        Seq::empty()
    } else {
        let ch = groups[0].0;
        let msgs = batches(channel_lines(groups[0].1.deep_view(), anns, now));
        msgs.map_values(|m: Seq<char>| (ch, m)) + announce_spec(groups.drop_first(), anns, now)
    }
}

/// The destination-and-text pairs a produced vector stands for.
pub open spec fn pairs_view(s: Seq<(u64, String)>) -> Seq<(u64, Seq<char>)> {
    s.map_values(|p: (u64, String)| (p.0, p.1@))
}

/// Finds the first announcement for a series.
fn find_announcement(anns: &Vec<Announcement>, id: i64) -> (r: Option<usize>)
    ensures
        match r {
            Some(i) => first_where(anns.deep_view(), ann_series_matches(id)) == i as int && (
            i as int) < anns.deep_view().len(),
            None => first_where(anns.deep_view(), ann_series_matches(id)) == -1,
        },
{
    let ghost dv = anns.deep_view();
    let n = anns.len();
    let mut i: usize = 0;
    while i < n
        invariant
            i <= n,
            n == anns@.len(),
            dv == anns.deep_view(),
            forall|j: int| 0 <= j < i ==> !#[trigger] ann_series_matches(id)(dv[j]),
        decreases n - i,
    {
        if anns[i].series.series_id == id {
            proof {
                assert(ann_series_matches(id)(dv[i as int]));
                lemma_first_where(dv, ann_series_matches(id));
            }
            return Some(i);
        }
        proof {
            assert(!ann_series_matches(id)(dv[i as int]));
        }
        i += 1;
    }
    proof {
        lemma_first_where(dv, ann_series_matches(id));
    }
    None
}

/// Whether the dispatcher may hand this announcement to the matcher and
/// renderer.
fn check_ann(a: &Announcement) -> (b: bool)
    ensures
        b == ann_ok(a@),
{
    a.series.reg_split >= 1 && a.series.reg_official >= 0 && a.prev.entry_count >= 0
        && a.curr.entry_count >= 0 && a.curr.series_id == a.series.series_id
        && a.curr.start_time >= 0 && a.curr.start_time <= MAX_TIMESTAMP
}

/// Matches every destination's watches against one poll's announcements
/// and returns the outbound messages: batched under the transport limit,
/// one destination's messages in watch order, destinations in the given
/// group order.
pub fn announce(regs: &Vec<(u64, Vec<Reg>)>, anns: &Vec<Announcement>, now: i64) -> (out: Vec<
    (u64, String),
>)
    requires
        0 <= now <= MAX_TIMESTAMP,
    ensures
        pairs_view(out@) == announce_spec(regs@, anns.deep_view(), now),
{
    let ghost adv = anns.deep_view();
    let mut out: Vec<(u64, String)> = Vec::new();
    proof {
        assert(regs@.skip(0) =~= regs@);
        assert(pairs_view(out@) =~= Seq::<(u64, Seq<char>)>::empty());
        assert(pairs_view(out@) + announce_spec(regs@, adv, now) =~= announce_spec(
            regs@,
            adv,
            now,
        ));
    }
    let gn = regs.len();
    let mut g: usize = 0;
    while g < gn
        invariant
            g <= gn,
            gn == regs@.len(),
            adv == anns.deep_view(),
            0 <= now <= MAX_TIMESTAMP,
            announce_spec(regs@, adv, now) == pairs_view(out@) + announce_spec(
                regs@.skip(g as int),
                adv,
                now,
            ),
        decreases gn - g,
    {
        proof {
            assert(regs@.skip(g as int)[0] == regs@[g as int]);
            assert(regs@.skip(g as int).drop_first() =~= regs@.skip(g as int + 1));
        }
        let ch = regs[g].0;
        let group = &regs[g].1;
        let ghost gdv = group.deep_view();
        let ghost lines = channel_lines(gdv, adv, now);
        let mut msgr = Messenger::new(ch);
        proof {
            assert(gdv.skip(0) =~= gdv);
        }
        let rn = group.len();
        let mut ri: usize = 0;
        while ri < rn
            invariant
                ri <= rn,
                rn == group@.len(),
                gdv == group.deep_view(),
                adv == anns.deep_view(),
                0 <= now <= MAX_TIMESTAMP,
                msgr.ch == ch,
                batch_rec(
                    channel_lines(gdv.skip(ri as int), adv, now),
                    msgr.buf@,
                    msgr.out.deep_view(),
                ) == batches(channel_lines(gdv, adv, now)),
            decreases rn - ri,
        {
            proof {
                assert(gdv.skip(ri as int)[0] == gdv[ri as int]);
                assert(gdv.skip(ri as int).drop_first() =~= gdv.skip(ri as int + 1));
            }
            let reg = &group[ri];
            let ghost sub_lines = channel_lines(gdv.skip(ri as int), adv, now);
            match find_announcement(anns, reg.series_id) {
                None => {},
                Some(ai) => {
                    proof {
                        lemma_first_where(adv, ann_series_matches(reg@.series_id));
                    }
                    let a = &anns[ai];
                    if check_ann(a) {
                        if reg.wants(a) {
                            let line = a.render(now);
                            proof {
                                assert(sub_lines[0] == render_spec(a@, now));
                                assert(sub_lines.drop_first() =~= channel_lines(
                                    gdv.skip(ri as int + 1),
                                    adv,
                                    now,
                                ));
                            }
                            msgr.add(line.as_str());
                        }
                    }
                },
            }
            ri += 1;
        }
        proof {
            assert(channel_lines(gdv.skip(rn as int), adv, now) =~= Seq::<Seq<char>>::empty());
        }
        msgr.flush();
        let ghost msgs = msgr.out.deep_view();
        proof {
            assert(msgs == batches(channel_lines(gdv, adv, now)));
        }
        let ghost base = out@;
        let mn = msgr.out.len();
        let mut t: usize = 0;
        while t < mn
            invariant
                t <= mn,
                mn == msgr.out@.len(),
                msgs == msgr.out.deep_view(),
                out@.len() == base.len() + t,
                forall|u: int| 0 <= u < base.len() ==> #[trigger] out@[u] == base[u],
                forall|u: int|
                    base.len() <= u < out@.len() ==> (#[trigger] out@[u]).0 == ch && out@[u].1@
                        == msgs[u - base.len()],
            decreases mn - t,
        {
            let msg = msgr.out[t].clone();
            out.push((ch, msg));
            t += 1;
        }
        proof {
            assert(pairs_view(out@) =~~= pairs_view(base) + msgs.map_values(
                |m: Seq<char>| (ch, m),
            ));
            assert(pairs_view(base) + (msgs.map_values(|m: Seq<char>| (ch, m)) + announce_spec(
                regs@.skip(g as int + 1),
                adv,
                now,
            )) =~~= pairs_view(out@) + announce_spec(regs@.skip(g as int + 1), adv, now));
        }
        g += 1;
    }
    proof {
        assert(announce_spec(regs@.skip(gn as int), adv, now) =~= Seq::<(u64, Seq<char>)>::empty());
        assert(pairs_view(out@) + Seq::<(u64, Seq<char>)>::empty() =~= pairs_view(out@));
    }
    out
}

} // verus!
