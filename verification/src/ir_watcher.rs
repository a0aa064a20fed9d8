//! The per-series registration state machine: it compares each poll's
//! snapshot with the previous one and emits at most one announcement per
//! series per poll, and the catalog join that feeds it.

use vstd::prelude::*;

use crate::db::{season_info_spec, SeasonInfo, SeasonInfoV};
use crate::ir::{num_splits_spec, RaceGuideEntry, RaceGuideEntryV, Season, Series};
use crate::seqs::{first_where, lemma_first_where};

verus! {

/// What the poll loop hands to the notification side: a fresh catalog, or
/// the announcements of one poll iteration.
#[derive(Debug)]
pub enum RaceGuideEvent {
    Seasons(Vec<SeasonInfo>),
    Announcements(Vec<Announcement>),
}

/// The kind of registration transition an announcement reports.
#[derive(Debug, Clone, Copy, PartialEq, Eq, Structural)]
pub enum AnnouncementType {
    Open,
    Count,
    Closed,
}

/// One detected transition for one series: the snapshots on both sides of
/// it, and the series' catalog record for thresholds and naming.
#[derive(Debug, Clone, PartialEq, Eq)]
pub struct Announcement {
    pub series: SeasonInfo,
    pub prev: RaceGuideEntry,
    pub curr: RaceGuideEntry,
    pub ann_type: AnnouncementType,
}

/// Mathematical value of an `Announcement`.
pub struct AnnouncementV {
    pub series: SeasonInfoV,
    pub prev: RaceGuideEntryV,
    pub curr: RaceGuideEntryV,
    pub ann_type: AnnouncementType,
}

impl View for Announcement {
    type V = AnnouncementV;

    open spec fn view(&self) -> AnnouncementV {
        AnnouncementV {
            series: self.series@,
            prev: self.prev@,
            curr: self.curr@,
            ann_type: self.ann_type,
        }
    }
}

impl DeepView for Announcement {
    type V = AnnouncementV;

    open spec fn deep_view(&self) -> AnnouncementV {
        self.view()
    }
}

impl AnnouncementV {
    /// Thresholds and counts the split derivation can work with.
    pub open spec fn wf(self) -> bool {
        &&& self.series.wf()
        &&& self.prev.wf()
        &&& self.curr.wf()
    }
}

/// Whether the split count differs between the two snapshots.
pub open spec fn splits_changed_spec(a: AnnouncementV) -> bool {
    num_splits_spec(a.prev.entry_count as int, a.series.reg_split as int) != num_splits_spec(
        a.curr.entry_count as int,
        a.series.reg_split as int,
    )
}

impl Announcement {
    fn new(
        series: SeasonInfo,
        prev: RaceGuideEntry,
        curr: RaceGuideEntry,
        ann_type: AnnouncementType,
    ) -> (r: Announcement)
        ensures
            r@ == (AnnouncementV { series: series@, prev: prev@, curr: curr@, ann_type }),
    {
        Announcement { series, prev, curr, ann_type }
    }

    /// Whether the number of splits changed between the two snapshots.
    pub fn splits_changed(&self) -> (b: bool)
        requires
            self@.wf(),
        ensures
            b == splits_changed_spec(self@),
    {
        self.prev.num_splits(self.series.reg_split) != self.curr.num_splits(self.series.reg_split)
    }
}

/// The transition rule: what one series announces when snapshot `curr`
/// arrives while `prev` was held.
pub open spec fn transition(prev: RaceGuideEntryV, curr: RaceGuideEntryV) -> Option<
    AnnouncementType,
> {
    if prev.session_id is None && curr.session_id is Some {
        Some(AnnouncementType::Open)
    } else if prev.session_id is Some && curr.session_id is Some && prev.entry_count
        != curr.entry_count && (prev.entry_count > 0 || curr.entry_count > 0) {
        Some(AnnouncementType::Count)
    } else if prev.session_id is Some && curr.session_id is None && prev.entry_count > 0 {
        Some(AnnouncementType::Closed)
    } else {
        None
    }
}

/// One series' slot in the diff engine: the catalog record and the last
/// snapshot seen, if any.
#[derive(Debug, Clone, PartialEq, Eq)]
pub struct SeriesReg {
    pub series: SeasonInfo,
    pub race_guide: Option<RaceGuideEntry>,
}

/// Mathematical value of a `SeriesReg`.
pub struct SeriesRegV {
    pub series: SeasonInfoV,
    pub race_guide: Option<RaceGuideEntryV>,
}

impl View for SeriesReg {
    type V = SeriesRegV;

    open spec fn view(&self) -> SeriesRegV {
        SeriesRegV {
            series: self.series@,
            race_guide: match self.race_guide {
                Some(e) => Some(e@),
                None => None,
            },
        }
    }
}

impl DeepView for SeriesReg {
    type V = SeriesRegV;

    open spec fn deep_view(&self) -> SeriesRegV {
        self.view()
    }
}

/// The slot after a snapshot arrived: the snapshot is stored whether or
/// not anything was announced.
pub open spec fn updated_reg(reg: SeriesRegV, e: RaceGuideEntryV) -> SeriesRegV {
    SeriesRegV { series: reg.series, race_guide: Some(e) }
}

/// What one slot announces for an arriving snapshot: nothing on the first
/// observation, otherwise whatever the transition rule says.
pub open spec fn update_result(reg: SeriesRegV, e: RaceGuideEntryV) -> Option<AnnouncementV> {
    match reg.race_guide {
        None => None,
        Some(prev) => match transition(prev, e) {
            None => None,
            Some(t) => Some(AnnouncementV { series: reg.series, prev, curr: e, ann_type: t }),
        },
    }
}

impl SeriesReg {
    /// A fresh slot: no snapshot seen yet.
    pub fn new(s: &SeasonInfo) -> (r: SeriesReg)
        ensures
            r@.series == s@,
            r@.race_guide is None,
    {
        SeriesReg { series: s.duplicate(), race_guide: None }
    }

    /// Feeds one snapshot into the slot: stores it and reports the
    /// transition, if any.
    pub fn update(&mut self, e: RaceGuideEntry) -> (r: Option<Announcement>)
        ensures
            final(self)@ == updated_reg(old(self)@, e@),
            r.deep_view() == update_result(old(self)@, e@),
    {
        if self.race_guide.is_none() {
            self.race_guide = Some(e);
            return None;
        }
        let prev = self.race_guide.take().unwrap();
        let ann = if prev.session_id.is_none() && e.session_id.is_some() {
            Some(
                Announcement::new(
                    self.series.duplicate(),
                    prev,
                    e.duplicate(),
                    AnnouncementType::Open,
                ),
            )
        } else if prev.session_id.is_some() && e.session_id.is_some() && prev.entry_count
            != e.entry_count && (prev.entry_count > 0 || e.entry_count > 0) {
            Some(
                Announcement::new(
                    self.series.duplicate(),
                    prev,
                    e.duplicate(),
                    AnnouncementType::Count,
                ),
            )
        } else if prev.session_id.is_some() && e.session_id.is_none() && prev.entry_count > 0 {
            Some(
                Announcement::new(
                    self.series.duplicate(),
                    prev,
                    e.duplicate(),
                    AnnouncementType::Closed,
                ),
            )
        } else {
            None
        };
        self.race_guide = Some(e);
        ann
    }
}

/// The first snapshot observed for a series never produces an
/// announcement: the first observation only establishes the baseline.
pub proof fn lemma_first_snapshot_silent(reg: SeriesRegV, e: RaceGuideEntryV)
    requires
        reg.race_guide is None,
    ensures
        update_result(reg, e) is None,
{
}

/// A session appearing where none was held announces exactly an opening,
/// whatever the entry counts are.
pub proof fn lemma_open_always_announced(prev: RaceGuideEntryV, curr: RaceGuideEntryV)
    requires
        prev.session_id is None,
        curr.session_id is Some,
    ensures
        transition(prev, curr) == Some(AnnouncementType::Open),
{
}

/// Two open sessions with identical entry counts announce nothing.
pub proof fn lemma_equal_counts_silent(prev: RaceGuideEntryV, curr: RaceGuideEntryV)
    requires
        prev.session_id is Some,
        curr.session_id is Some,
        prev.entry_count == curr.entry_count,
    ensures
        transition(prev, curr) is None,
{
}

/// The slot states whose series carries the given id.
pub open spec fn state_id_matches(id: i64) -> spec_fn(SeriesRegV) -> bool {
    |sr: SeriesRegV| sr.series.series_id == id
}

/// The series ids that occur in a sequence of guide entries.
pub open spec fn prefix_ids(entries: Seq<RaceGuideEntryV>) -> Set<i64> {
    Set::new(|id: i64| exists|j: int| 0 <= j < entries.len() && entries[j].series_id == id)
}

/// One whole poll iteration over the slot table: entries are walked in
/// order, only the first entry per series counts, unknown series are
/// ignored, and each processed entry updates its slot and contributes at
/// most one announcement.
pub open spec fn process_spec(
    states: Seq<SeriesRegV>,
    entries: Seq<RaceGuideEntryV>,
    seen: Set<i64>,
) -> (Seq<SeriesRegV>, Seq<AnnouncementV>)
    decreases entries.len(),
{
    if entries.len() == 0 {
        (states, Seq::empty())
    } else {
        let e = entries[0];
        if seen.contains(e.series_id) {
            process_spec(states, entries.drop_first(), seen)
        } else {
            let seen2 = seen.insert(e.series_id);
            let i = first_where(states, state_id_matches(e.series_id));
            if i == -1 {
                process_spec(states, entries.drop_first(), seen2)
            } else {
                let reg = states[i];
                let rest = process_spec(
                    states.update(i, updated_reg(reg, e)),
                    entries.drop_first(),
                    seen2,
                );
                match update_result(reg, e) {
                    None => rest,
                    Some(a) => (rest.0, seq![a] + rest.1),
                }
            }
        }
    }
}

/// Whether the entry at `k` repeats a series id seen earlier in the poll.
fn seen_in_prefix(entries: &Vec<RaceGuideEntry>, k: usize) -> (b: bool)
    requires
        k < entries@.len(),
    ensures
        b == prefix_ids(entries.deep_view().take(k as int)).contains(
            entries@[k as int].series_id,
        ),
{
    let id = entries[k].series_id;
    let mut j: usize = 0;
    while j < k
        invariant
            j <= k,
            k < entries@.len(),
            id == entries@[k as int].series_id,
            forall|t: int| 0 <= t < j ==> #[trigger] entries@[t].series_id != id,
        decreases k - j,
    {
        if entries[j].series_id == id {
            proof {
                let dv = entries.deep_view();
                assert(dv.take(k as int)[j as int].series_id == id);
            }
            return true;
        }
        j += 1;
    }
    proof {
        let dv = entries.deep_view();
        assert(forall|t: int|
            0 <= t < k ==> #[trigger] dv.take(k as int)[t].series_id == entries@[t].series_id);
    }
    false
}

/// Finds the slot of the series with the given id, if it is tracked.
fn find_series(states: &Vec<SeriesReg>, id: i64) -> (r: Option<usize>)
    ensures
        match r {
            Some(i) => first_where(states.deep_view(), state_id_matches(id)) == i as int && (
            i as int) < states.deep_view().len(),
            None => first_where(states.deep_view(), state_id_matches(id)) == -1,
        },
{
    let ghost dv = states.deep_view();
    let n = states.len();
    let mut i: usize = 0;
    while i < n
        invariant
            i <= n,
            n == states@.len(),
            dv == states.deep_view(),
            forall|j: int| 0 <= j < i ==> !#[trigger] state_id_matches(id)(dv[j]),
        decreases n - i,
    {
        if states[i].series.series_id == id {
            proof {
                assert(state_id_matches(id)(dv[i as int]));
                lemma_first_where(dv, state_id_matches(id));
            }
            return Some(i);
        }
        proof {
            assert(!state_id_matches(id)(dv[i as int]));
        }
        i += 1;
    }
    proof {
        lemma_first_where(dv, state_id_matches(id));
    }
    None
}

/// One poll iteration: deduplicates the guide by series id (first entry
/// wins), routes each kept entry into its slot, and collects the
/// announcements in the order the entries arrived.
pub fn process_guide(states: &mut Vec<SeriesReg>, entries: &Vec<RaceGuideEntry>) -> (anns: Vec<
    Announcement,
>)
    ensures
        ({
            let r = process_spec(old(states).deep_view(), entries.deep_view(), Set::empty());
            &&& final(states).deep_view() == r.0
            &&& anns.deep_view() == r.1
        }),
{
    let ghost dv = entries.deep_view();
    let ghost target = process_spec(states.deep_view(), dv, Set::empty());
    proof {
        assert(dv.skip(0) =~= dv);
        assert(prefix_ids(dv.take(0)) =~= Set::<i64>::empty());
    }
    let mut anns: Vec<Announcement> = Vec::new();
    let n = entries.len();
    let mut k: usize = 0;
    while k < n
        invariant
            k <= n,
            n == entries@.len(),
            dv == entries.deep_view(),
            process_spec(states.deep_view(), dv.skip(k as int), prefix_ids(dv.take(k as int))).0
                == target.0,
            target.1 == anns.deep_view() + process_spec(
                states.deep_view(),
                dv.skip(k as int),
                prefix_ids(dv.take(k as int)),
            ).1,
        decreases n - k,
    {
        let ghost rem = dv.skip(k as int);
        let ghost seen = prefix_ids(dv.take(k as int));
        proof {
            assert(rem[0] == dv[k as int]);
            assert(rem.drop_first() =~= dv.skip(k as int + 1));
        }
        let dup = seen_in_prefix(entries, k);
        if dup {
            proof {
                assert(prefix_ids(dv.take(k as int + 1)) =~= seen) by {
                    assert(forall|t: int|
                        0 <= t < k ==> dv.take(k as int + 1)[t] == #[trigger] dv.take(
                            k as int,
                        )[t]);
                    assert(dv.take(k as int + 1)[k as int] == dv[k as int]);
                    assert(forall|t: int|
                        0 <= t < k + 1 ==> dv.take(k as int)[t - 1 + 1] == #[trigger] dv.take(
                            k as int + 1,
                        )[t] || t == k);
                }
            }
        } else {
            let id = entries[k].series_id;
            proof {
                assert(dv[k as int].series_id == id);
                assert(seen.insert(id) =~= prefix_ids(dv.take(k as int + 1))) by {
                    assert(forall|t: int|
                        0 <= t < k ==> dv.take(k as int + 1)[t] == #[trigger] dv.take(
                            k as int,
                        )[t]);
                    assert(dv.take(k as int + 1)[k as int] == dv[k as int]);
                }
            }
            let found = find_series(states, id);
            match found {
                None => {},
                Some(i) => {
                    let ghost prev_dv = states.deep_view();
                    let ghost reg = prev_dv[i as int];
                    let e = entries[k].duplicate();
                    let ghost anns_before = anns.deep_view();
                    let ghost rest = process_spec(
                        prev_dv.update(i as int, updated_reg(reg, dv[k as int])),
                        rem.drop_first(),
                        seen.insert(id),
                    );
                    let sr = &mut states[i];
                    let a = sr.update(e);
                    proof {
                        assert(states.deep_view() =~= prev_dv.update(
                            i as int,
                            updated_reg(reg, dv[k as int]),
                        ));
                    }
                    match a {
                        Some(ann) => {
                            anns.push(ann);
                            proof {
                                assert(anns.deep_view() =~= anns_before.push(ann.deep_view()));
                                assert(anns_before + (seq![ann.deep_view()] + rest.1)
                                    =~= anns.deep_view() + rest.1);
                            }
                        },
                        None => {},
                    }
                },
            }
        }
        k += 1;
    }
    proof {
        assert(dv.skip(n as int).len() == 0);
        assert(anns.deep_view() + Seq::<AnnouncementV>::empty() =~= anns.deep_view());
    }
    anns
}

/// A poll iteration never adds, removes or re-keys slots: each slot
/// keeps its series record, only its stored snapshot can change.
pub proof fn lemma_process_preserves_slots(
    states: Seq<SeriesRegV>,
    entries: Seq<RaceGuideEntryV>,
    seen: Set<i64>,
)
    ensures
        process_spec(states, entries, seen).0.len() == states.len(),
        forall|i: int|
            0 <= i < states.len() ==> (#[trigger] process_spec(states, entries, seen).0[i]).series
                == states[i].series,
    decreases entries.len(),
{
    if entries.len() > 0 {
        let e = entries[0];
        if seen.contains(e.series_id) {
            lemma_process_preserves_slots(states, entries.drop_first(), seen);
        } else {
            let seen2 = seen.insert(e.series_id);
            let i = first_where(states, state_id_matches(e.series_id));
            if i == -1 {
                lemma_process_preserves_slots(states, entries.drop_first(), seen2);
            } else {
                lemma_first_where(states, state_id_matches(e.series_id));
                let states2 = states.update(i, updated_reg(states[i], e));
                lemma_process_preserves_slots(states2, entries.drop_first(), seen2);
                assert(states2.len() == states.len());
                assert(forall|j: int|
                    0 <= j < states.len() ==> (#[trigger] states2[j]).series
                        == states[j].series);
                assert(process_spec(states, entries, seen).0 == process_spec(
                    states2,
                    entries.drop_first(),
                    seen2,
                ).0);
            }
        }
    }
}

/// The series an announcement reports on.
pub open spec fn announced_series() -> spec_fn(AnnouncementV) -> i64 {
    |a: AnnouncementV| a.curr.series_id
}

/// One poll iteration announces each series at most once, and never a
/// series whose id was already seen before the iteration: repeated guide
/// entries for one series leave exactly the first one in effect.
pub proof fn lemma_one_announcement_per_series(
    states: Seq<SeriesRegV>,
    entries: Seq<RaceGuideEntryV>,
    seen: Set<i64>,
)
    ensures
        ({
            let anns = process_spec(states, entries, seen).1;
            &&& forall|t: int|
                0 <= t < anns.len() ==> !seen.contains(
                    announced_series()(#[trigger] anns[t]),
                )
            &&& crate::seqs::unique_by(anns, announced_series())
        }),
    decreases entries.len(),
{
    if entries.len() > 0 {
        let e = entries[0];
        if seen.contains(e.series_id) {
            lemma_one_announcement_per_series(states, entries.drop_first(), seen);
        } else {
            let seen2 = seen.insert(e.series_id);
            let i = first_where(states, state_id_matches(e.series_id));
            if i == -1 {
                lemma_one_announcement_per_series(states, entries.drop_first(), seen2);
            } else {
                let reg = states[i];
                let states2 = states.update(i, updated_reg(reg, e));
                lemma_one_announcement_per_series(states2, entries.drop_first(), seen2);
                let rest = process_spec(states2, entries.drop_first(), seen2).1;
                match update_result(reg, e) {
                    None => {},
                    Some(a) => {
                        let anns = seq![a] + rest;
                        assert(announced_series()(a) == e.series_id);
                        assert(forall|t: int|
                            0 <= t < rest.len() ==> !seen2.contains(
                                announced_series()(#[trigger] rest[t]),
                            ));
                        assert(forall|t: int|
                            1 <= t < anns.len() ==> #[trigger] anns[t] == rest[t - 1]);
                    },
                }
            }
        }
    }
}

/// The series records whose id matches.
pub open spec fn series_id_matches(id: i64) -> spec_fn(Series) -> bool {
    |s: Series| s.series_id == id
}

/// The catalog the daily sync derives: every season joined with its
/// series record, skipping seasons whose series is absent from the feed
/// and seasons without a schedule entry for their current race week.
pub open spec fn build_infos_spec(series: Seq<Series>, seasons: Seq<Season>) -> Seq<SeasonInfoV>
    decreases seasons.len(),
{
    if seasons.len() == 0 {
        Seq::empty()
    } else {
        let rest = build_infos_spec(series, seasons.drop_first());
        let si = first_where(series, series_id_matches(seasons[0].series_id));
        if si == -1 {
            rest
        } else {
            match season_info_spec(series[si], seasons[0]) {
                None => rest,
                Some(v) => seq![v] + rest,
            }
        }
    }
}

/// Finds the series record with the given id in the fetched series list.
fn find_series_record(series: &Vec<Series>, id: i64) -> (r: Option<usize>)
    ensures
        match r {
            Some(i) => first_where(series@, series_id_matches(id)) == i as int && (i as int)
                < series@.len(),
            None => first_where(series@, series_id_matches(id)) == -1,
        },
{
    let n = series.len();
    let mut i: usize = 0;
    while i < n
        invariant
            i <= n,
            n == series@.len(),
            forall|j: int| 0 <= j < i ==> !#[trigger] series_id_matches(id)(series@[j]),
        decreases n - i,
    {
        if series[i].series_id == id {
            proof {
                assert(series_id_matches(id)(series@[i as int]));
                lemma_first_where(series@, series_id_matches(id));
            }
            return Some(i);
        }
        proof {
            assert(!series_id_matches(id)(series@[i as int]));
        }
        i += 1;
    }
    proof {
        lemma_first_where(series@, series_id_matches(id));
    }
    None
}

/// The compute part of the daily catalog sync: joins the fetched series
/// and season lists into normalized records, in season order.
pub fn build_season_infos(series: &Vec<Series>, seasons: &Vec<Season>) -> (r: Vec<SeasonInfo>)
    ensures
        r.deep_view() == build_infos_spec(series@, seasons@),
{
    let mut r: Vec<SeasonInfo> = Vec::new();
    proof {
        assert(seasons@.skip(0) =~= seasons@);
        assert(r.deep_view() =~= Seq::<SeasonInfoV>::empty());
        assert(r.deep_view() + build_infos_spec(series@, seasons@) =~= build_infos_spec(
            series@,
            seasons@,
        ));
    }
    let n = seasons.len();
    let mut k: usize = 0;
    while k < n
        invariant
            k <= n,
            n == seasons@.len(),
            build_infos_spec(series@, seasons@) == r.deep_view() + build_infos_spec(
                series@,
                seasons@.skip(k as int),
            ),
        decreases n - k,
    {
        let ghost sfx = seasons@.skip(k as int);
        proof {
            assert(sfx[0] == seasons@[k as int]);
            assert(sfx.drop_first() =~= seasons@.skip(k as int + 1));
        }
        let ghost before = r.deep_view();
        let ghost rest = build_infos_spec(series@, seasons@.skip(k as int + 1));
        match find_series_record(series, seasons[k].series_id) {
            None => {},
            Some(si) => {
                match SeasonInfo::new(&series[si], &seasons[k]) {
                    None => {},
                    Some(info) => {
                        r.push(info);
                        proof {
                            assert(r.deep_view() =~= before.push(info.deep_view()));
                            assert(before + (seq![info.deep_view()] + rest) =~= r.deep_view()
                                + rest);
                        }
                    },
                }
            },
        }
        k += 1;
    }
    proof {
        assert(build_infos_spec(series@, seasons@.skip(n as int)) =~= Seq::<SeasonInfoV>::empty());
        assert(r.deep_view() + Seq::<SeasonInfoV>::empty() =~= r.deep_view());
    }
    r
}

} // verus!
