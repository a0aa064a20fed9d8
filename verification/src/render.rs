//! Rendering announcements and time-to-start into the sentences that go
//! out to destinations.

use vstd::prelude::*;
use vstd::string::StringExecFns;

use crate::db::SeasonInfoV;
use crate::ir::{num_splits_spec, RaceGuideEntry, RaceGuideEntryV};
use crate::ir_watcher::{Announcement, AnnouncementType, AnnouncementV};
use crate::text::{dec_str, i64_str, int_str, u64_str};

verus! {

/// Latest timestamp (Unix seconds) the renderer accepts; keeps the time
/// arithmetic far away from the integer limits.
pub const MAX_TIMESTAMP: i64 = 253402300800;

/// Whole minutes in a span of seconds, truncated toward zero.
pub open spec fn minutes_of(secs: int) -> int {
    if secs >= 0 {
        secs / 60
    } else {
        -((-secs) / 60)
    }
}

/// Whole minutes in a span of seconds, truncated toward zero.
pub fn minutes_i64(secs: i64) -> (m: i64)
    requires
        secs > i64::MIN,
    ensures
        m == minutes_of(secs as int),
        0 <= m <= secs || secs < 0 <= -m,
{
    if secs >= 0 {
        let q: u64 = (secs as u64) / 60;
        proof {
            assert(q <= secs) by (nonlinear_arith)
                requires
                    q == secs as u64 as int / 60,
                    secs >= 0,
            ;
        }
        q as i64
    } else {
        let pos = -secs;
        let q: u64 = (pos as u64) / 60;
        proof {
            assert(q <= pos) by (nonlinear_arith)
                requires
                    q == pos as u64 as int / 60,
                    pos >= 0,
            ;
        }
        -(q as i64)
    }
}

/// The official/split qualifier for one snapshot: empty below the
/// official threshold, an official marker for a single split, otherwise
/// the split count.
pub open spec fn split_text_spec(e: RaceGuideEntryV, si: SeasonInfoV) -> Seq<char> {
    let n = num_splits_spec(e.entry_count as int, si.reg_split as int);
    if e.entry_count < si.reg_official {
        ""@
    } else if n < 2 {
        "Official! "@
    } else {
        dec_str(n as nat) + " splits! "@
    }
}

/// The time-to-start phrase of a count announcement.
pub open spec fn count_starts_spec(curr: RaceGuideEntryV, now: i64) -> Seq<char> {
    let to_start = curr.start_time - now;
    if minutes_of(to_start) < 1 {
        "less than a minute! \u{1f3ce}"@
    } else {
        let m = minutes_of(to_start + 29);
        int_str(m) + " minute"@ + (if m == 1 {
            ""@
        } else {
            "s"@
        })
    }
}

/// The sentence one announcement renders to, at a given current time.
pub open spec fn render_spec(a: AnnouncementV, now: i64) -> Seq<char> {
    match a.ann_type {
        AnnouncementType::Open => a.series.name + ": Registration open!, "@ + int_str(
            minutes_of(a.curr.start_time - now + 29),
        ) + " minutes til race time"@,
        AnnouncementType::Count => a.series.name + ": "@ + dec_str(a.curr.entry_count as nat)
            + " registered. "@ + split_text_spec(a.curr, a.series) + "Session starts in "@
            + count_starts_spec(a.curr, now),
        AnnouncementType::Closed => a.series.name + ": registration closed \u{26d4} "@ + dec_str(
            a.prev.entry_count as nat,
        ) + " registered "@ + split_text_spec(a.prev, a.series) + "."@,
    }
}

/// Renders the official/split qualifier for one snapshot.
fn split_text(e: &RaceGuideEntry, reg_official: i64, reg_split: i64) -> (r: String)
    requires
        reg_split >= 1,
        reg_official >= 0,
        e@.wf(),
    ensures
        ({
            let si = SeasonInfoV { reg_official, reg_split, ..arbitrary() };
            r@ == split_text_spec(e@, si)
        }),
{
    let n = e.num_splits(reg_split);
    let r = if e.entry_count < reg_official {
        String::new()
    } else if n < 2 {
        String::from_str("Official! ")
    } else {
        let mut s = u64_str(n as u64);
        s.append(" splits! ");
        s
    };
    proof {
        reveal_strlit("");
        let si = SeasonInfoV { reg_official, reg_split, ..arbitrary() };
        assert(r@ =~= split_text_spec(e@, si));
    }
    r
}

impl Announcement {
    /// The outbound sentence for this announcement, given the time now,
    /// both as Unix seconds.
    pub fn render(&self, now: i64) -> (r: String)
        requires
            self@.wf(),
            0 <= now <= MAX_TIMESTAMP,
            0 <= self.curr.start_time <= MAX_TIMESTAMP,
        ensures
            r@ == render_spec(self@, now),
    {
        match self.ann_type {
            AnnouncementType::Open => {
                let mut s = self.series.name.clone();
                s.append(": Registration open!, ");
                let m = minutes_i64(self.curr.start_time - now + 29);
                let ms = i64_str(m);
                s.append(ms.as_str());
                s.append(" minutes til race time");
                proof {
                    assert(s@ =~= render_spec(self@, now));
                }
                s
            },
            AnnouncementType::Count => {
                let mut s = self.series.name.clone();
                s.append(": ");
                let cs = u64_str(self.curr.entry_count as u64);
                s.append(cs.as_str());
                s.append(" registered. ");
                let st = split_text(&self.curr, self.series.reg_official, self.series.reg_split);
                s.append(st.as_str());
                s.append("Session starts in ");
                let to_start = self.curr.start_time - now;
                if minutes_i64(to_start) < 1 {
                    s.append("less than a minute! \u{1f3ce}");
                } else {
                    let m = minutes_i64(to_start + 29);
                    let ms = i64_str(m);
                    s.append(ms.as_str());
                    s.append(" minute");
                    if m != 1 {
                        s.append("s");
                    } else {
                        proof {
                            reveal_strlit("");
                        }
                    }
                }
                proof {
                    reveal_strlit("");
                    assert(s@ =~= render_spec(self@, now));
                }
                s
            },
            AnnouncementType::Closed => {
                let mut s = self.series.name.clone();
                s.append(": registration closed \u{26d4} ");
                let cs = u64_str(self.prev.entry_count as u64);
                s.append(cs.as_str());
                s.append(" registered ");
                let st = split_text(&self.prev, self.series.reg_official, self.series.reg_split);
                s.append(st.as_str());
                s.append(".");
                proof {
                    assert(s@ =~= render_spec(self@, now));
                }
                s
            },
        }
    }
}

} // verus!
