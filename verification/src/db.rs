//! Catalog records: the normalized per-series information derived from
//! the upstream series and season feeds.

use vstd::pervasive::VecAdditionalExecFns;
use vstd::prelude::*;
use vstd::string::StringExecFns;

use crate::ir::{Schedule, Season, Series};
use crate::ir_watcher::{splits_changed_spec, Announcement, AnnouncementType, AnnouncementV};
use crate::seqs::{
    first_where, keep_where, lemma_first_where, lemma_keep_where_contains,
    lemma_keep_where_unique_by, unique_by,
};
use crate::text::{i64_str, int_str, lower_of, lowercase};

verus! {

/// Normalized information about one series: thresholds, current race week
/// and track, as derived by the daily catalog sync.
#[derive(Debug, Clone, PartialEq, Eq)]
pub struct SeasonInfo {
    pub series_id: i64,
    pub name: String,
    pub reg_official: i64,
    pub reg_split: i64,
    pub week: i64,
    pub track_name: String,
    pub track_config: String,
    pub track_cat: Option<String>,
    pub lc_name: String,
}

/// Mathematical value of a `SeasonInfo`.
pub struct SeasonInfoV {
    pub series_id: i64,
    pub name: Seq<char>,
    pub reg_official: i64,
    pub reg_split: i64,
    pub week: i64,
    pub track_name: Seq<char>,
    pub track_config: Seq<char>,
    pub track_cat: Option<Seq<char>>,
    pub lc_name: Seq<char>,
}

impl View for SeasonInfo {
    type V = SeasonInfoV;

    open spec fn view(&self) -> SeasonInfoV {
        SeasonInfoV {
            series_id: self.series_id,
            name: self.name@,
            reg_official: self.reg_official,
            reg_split: self.reg_split,
            week: self.week,
            track_name: self.track_name@,
            track_config: self.track_config@,
            track_cat: match self.track_cat {
                Some(c) => Some(c@),
                None => None,
            },
            lc_name: self.lc_name@,
        }
    }
}

impl DeepView for SeasonInfo {
    type V = SeasonInfoV;

    open spec fn deep_view(&self) -> SeasonInfoV {
        self.view()
    }
}

impl SeasonInfoV {
    /// Thresholds the split derivation and the matcher can work with.
    pub open spec fn wf(self) -> bool {
        &&& self.reg_split >= 1
        &&& self.reg_official >= 0
    }
}

/// The schedule entries that belong to a given race week.
pub open spec fn week_matches(week: i64) -> spec_fn(Schedule) -> bool {
    |sc: Schedule| sc.race_week_num == week
}

/// What the catalog sync derives for one series and season: `None` when
/// the season has no schedule entry for its current race week, otherwise
/// the normalized record, built from the first matching schedule entry.
pub open spec fn season_info_spec(series: Series, season: Season) -> Option<SeasonInfoV> {
    let w = first_where(season.schedules@, week_matches(season.race_week));
    if w == -1 {
        None
    } else {
        let sc = season.schedules@[w];
        Some(
            SeasonInfoV {
                series_id: series.series_id,
                name: series.series_name@,
                reg_official: series.min_starters,
                reg_split: series.max_starters,
                week: season.race_week,
                track_name: sc.track.track_name@,
                track_config: match sc.track.config_name {
                    Some(c) => c@,
                    None => Seq::empty(),
                },
                track_cat: match sc.track.category {
                    Some(c) => Some(c@),
                    None => None,
                },
                lc_name: lower_of(series.series_name@),
            },
        )
    }
}

impl SeasonInfo {
    /// Joins one series with one season: the season's current race week
    /// must have a schedule entry, otherwise the season is skipped.
    pub fn new(series: &Series, season: &Season) -> (r: Option<SeasonInfo>)
        ensures
            r.deep_view() == season_info_spec(*series, *season),
    {
        let n = season.schedules.len();
        let mut i: usize = 0;
        let mut found: Option<usize> = None;
        while i < n
            invariant_except_break
                found is None,
                forall|j: int|
                    0 <= j < i ==> !#[trigger] week_matches(season.race_week)(
                        season.schedules@[j],
                    ),
            invariant
                i <= n,
                n == season.schedules@.len(),
            ensures
                match found {
                    Some(fi) => {
                        &&& fi < n
                        &&& week_matches(season.race_week)(season.schedules@[fi as int])
                        &&& forall|j: int|
                            0 <= j < fi ==> !#[trigger] week_matches(season.race_week)(
                                season.schedules@[j],
                            )
                    },
                    None => forall|j: int|
                        0 <= j < n ==> !#[trigger] week_matches(season.race_week)(
                            season.schedules@[j],
                        ),
                },
            decreases n - i,
        {
            if season.schedules[i].race_week_num == season.race_week {
                found = Some(i);
                break;
            }
            i += 1;
        }
        proof {
            lemma_first_where(season.schedules@, week_matches(season.race_week));
        }
        match found {
            None => None,
            Some(fi) => {
                let sc = &season.schedules[fi];
                Some(
                    SeasonInfo {
                        series_id: series.series_id,
                        name: series.series_name.clone(),
                        reg_official: series.min_starters,
                        reg_split: series.max_starters,
                        week: season.race_week,
                        track_name: sc.track.track_name.clone(),
                        track_config: match &sc.track.config_name {
                            Some(c) => c.clone(),
                            None => String::new(),
                        },
                        track_cat: match &sc.track.category {
                            Some(c) => Some(c.clone()),
                            None => None,
                        },
                        lc_name: lowercase(series.series_name.as_str()),
                    },
                )
            },
        }
    }

    /// A field-for-field copy.
    pub fn duplicate(&self) -> (r: SeasonInfo)
        ensures
            r == *self,
    {
        SeasonInfo {
            series_id: self.series_id,
            name: self.name.clone(),
            reg_official: self.reg_official,
            reg_split: self.reg_split,
            week: self.week,
            track_name: self.track_name.clone(),
            track_config: self.track_config.clone(),
            track_cat: match &self.track_cat {
                Some(c) => Some(c.clone()),
                None => None,
            },
            lc_name: self.lc_name.clone(),
        }
    }
}

/// One watch: a destination's configuration for one series.
#[derive(Debug, Clone, PartialEq, Eq)]
pub struct Reg {
    pub guild: Option<u64>,
    pub channel: u64,
    pub series_id: i64,
    pub series_name: String,
    pub min_reg: i64,
    pub max_reg: i64,
    pub open: bool,
    pub close: bool,
}

/// Mathematical value of a `Reg`.
pub struct RegV {
    pub guild: Option<u64>,
    pub channel: u64,
    pub series_id: i64,
    pub series_name: Seq<char>,
    pub min_reg: i64,
    pub max_reg: i64,
    pub open: bool,
    pub close: bool,
}

impl View for Reg {
    type V = RegV;

    open spec fn view(&self) -> RegV {
        RegV {
            guild: self.guild,
            channel: self.channel,
            series_id: self.series_id,
            series_name: self.series_name@,
            min_reg: self.min_reg,
            max_reg: self.max_reg,
            open: self.open,
            close: self.close,
        }
    }
}

impl DeepView for Reg {
    type V = RegV;

    open spec fn deep_view(&self) -> RegV {
        self.view()
    }
}

/// The matching rule: which announcements a watch accepts.
pub open spec fn wants_spec(reg: RegV, a: AnnouncementV) -> bool {
    match a.ann_type {
        AnnouncementType::Open => reg.open,
        AnnouncementType::Closed => reg.close && a.prev.entry_count >= reg.min_reg,
        AnnouncementType::Count => (a.curr.entry_count >= reg.min_reg && a.curr.entry_count
            <= reg.max_reg) || splits_changed_spec(a),
    }
}

impl Reg {
    /// Whether this watch accepts the announcement. Callers look watches
    /// up by series id, so the ids must already agree.
    pub fn wants(&self, ann: &Announcement) -> (b: bool)
        requires
            self.series_id == ann@.curr.series_id,
            ann@.wf(),
        ensures
            b == wants_spec(self@, ann@),
    {
        match ann.ann_type {
            AnnouncementType::Open => self.open,
            AnnouncementType::Closed => self.close && ann.prev.entry_count >= self.min_reg,
            AnnouncementType::Count => (ann.curr.entry_count >= self.min_reg
                && ann.curr.entry_count <= self.max_reg) || ann.splits_changed(),
        }
    }

    /// A field-for-field copy.
    pub fn duplicate(&self) -> (r: Reg)
        ensures
            r == *self,
    {
        Reg {
            guild: self.guild,
            channel: self.channel,
            series_id: self.series_id,
            series_name: self.series_name.clone(),
            min_reg: self.min_reg,
            max_reg: self.max_reg,
            open: self.open,
            close: self.close,
        }
    }
}

/// A count announcement whose split count changed matches every watch,
/// even when the current entry count lies outside the configured band.
pub proof fn lemma_split_change_always_matches(reg: RegV, a: AnnouncementV)
    requires
        a.ann_type == AnnouncementType::Count,
        splits_changed_spec(a),
    ensures
        wants_spec(reg, a),
{
}

/// How a watch describes itself to its subscriber.
pub open spec fn describe_spec(reg: RegV) -> Seq<char> {
    reg.series_name + " between "@ + int_str(reg.min_reg as int) + " and "@ + int_str(
        reg.max_reg as int,
    ) + " entries."@ + (if reg.open && reg.close {
        " I'll also say when registration opens and closes."@
    } else if reg.open {
        " I'll also say when registration opens."@
    } else if reg.close {
        " I'll also say when registration closes."@
    } else {
        ""@
    })
}

impl Reg {
    /// The sentence the subscriber sees when listing this watch.
    pub fn describe(&self) -> (r: String)
        requires
            self.min_reg > i64::MIN,
            self.max_reg > i64::MIN,
        ensures
            r@ == describe_spec(self@),
    {
        let mut s = self.series_name.clone();
        s.append(" between ");
        let mn = i64_str(self.min_reg);
        s.append(mn.as_str());
        s.append(" and ");
        let mx = i64_str(self.max_reg);
        s.append(mx.as_str());
        s.append(" entries.");
        if self.open && self.close {
            s.append(" I'll also say when registration opens and closes.");
        } else if self.open {
            s.append(" I'll also say when registration opens.");
        } else if self.close {
            s.append(" I'll also say when registration closes.");
        }
        proof {
            reveal_strlit("");
            assert(""@ =~= Seq::<char>::empty());
            assert(s@ =~= describe_spec(self@));
        }
        s
    }
}

/// One row of the series table: the catalog record and whether the last
/// sync still saw the series.
#[derive(Debug, Clone, PartialEq, Eq)]
pub struct SeriesRow {
    pub info: SeasonInfo,
    pub active: bool,
}

/// Mathematical value of a `SeriesRow`.
pub struct SeriesRowV {
    pub info: SeasonInfoV,
    pub active: bool,
}

impl View for SeriesRow {
    type V = SeriesRowV;

    open spec fn view(&self) -> SeriesRowV {
        SeriesRowV { info: self.info@, active: self.active }
    }
}

impl DeepView for SeriesRow {
    type V = SeriesRowV;

    open spec fn deep_view(&self) -> SeriesRowV {
        self.view()
    }
}

/// One row of the watch table, with its audit fields. Timestamps are Unix
/// seconds, assigned by the store's caller at write time.
#[derive(Debug, Clone, PartialEq, Eq)]
pub struct WatchRow {
    pub guild: Option<u64>,
    pub channel: u64,
    pub series_id: i64,
    pub min_reg: i64,
    pub max_reg: i64,
    pub open: bool,
    pub close: bool,
    pub created_by: String,
    pub created_date: i64,
    pub modified_date: Option<i64>,
}

/// Mathematical value of a `WatchRow`.
pub struct WatchRowV {
    pub guild: Option<u64>,
    pub channel: u64,
    pub series_id: i64,
    pub min_reg: i64,
    pub max_reg: i64,
    pub open: bool,
    pub close: bool,
    pub created_by: Seq<char>,
    pub created_date: i64,
    pub modified_date: Option<i64>,
}

impl View for WatchRow {
    type V = WatchRowV;

    open spec fn view(&self) -> WatchRowV {
        WatchRowV {
            guild: self.guild,
            channel: self.channel,
            series_id: self.series_id,
            min_reg: self.min_reg,
            max_reg: self.max_reg,
            open: self.open,
            close: self.close,
            created_by: self.created_by@,
            created_date: self.created_date,
            modified_date: self.modified_date,
        }
    }
}

impl DeepView for WatchRow {
    type V = WatchRowV;

    open spec fn deep_view(&self) -> WatchRowV {
        self.view()
    }
}

impl WatchRow {
    /// A field-for-field copy.
    pub fn duplicate(&self) -> (r: WatchRow)
        ensures
            r == *self,
    {
        WatchRow {
            guild: self.guild,
            channel: self.channel,
            series_id: self.series_id,
            min_reg: self.min_reg,
            max_reg: self.max_reg,
            open: self.open,
            close: self.close,
            created_by: self.created_by.clone(),
            created_date: self.created_date,
            modified_date: self.modified_date,
        }
    }
}

/// The key of the series table.
pub open spec fn series_key() -> spec_fn(SeriesRowV) -> i64 {
    |r: SeriesRowV| r.info.series_id
}

/// The natural key of the watch table.
pub open spec fn watch_key() -> spec_fn(WatchRowV) -> (u64, i64) {
    |w: WatchRowV| (w.channel, w.series_id)
}

/// The series rows with the given series id.
pub open spec fn series_row_matches(id: i64) -> spec_fn(SeriesRowV) -> bool {
    |r: SeriesRowV| r.info.series_id == id
}

/// The pending records with the given series id.
pub open spec fn info_id_matches(id: i64) -> spec_fn(SeasonInfoV) -> bool {
    |s: SeasonInfoV| s.series_id == id
}

/// The key of a pending catalog record.
pub open spec fn info_key() -> spec_fn(SeasonInfoV) -> i64 {
    |s: SeasonInfoV| s.series_id
}

/// The watch rows with the given destination and series.
pub open spec fn watch_key_matches(ch: u64, sid: i64) -> spec_fn(WatchRowV) -> bool {
    |w: WatchRowV| w.channel == ch && w.series_id == sid
}

/// The watch rows whose destination differs.
pub open spec fn channel_differs(ch: u64) -> spec_fn(WatchRowV) -> bool {
    |w: WatchRowV| w.channel != ch
}

/// The watch rows whose parent grouping differs.
pub open spec fn guild_differs(g: u64) -> spec_fn(WatchRowV) -> bool {
    |w: WatchRowV| w.guild != Some(g)
}

/// The catalog and watch store: a series table keyed by series id and a
/// watch table keyed by (destination, series).
#[derive(Debug)]
pub struct Db {
    pub series: Vec<SeriesRow>,
    pub watches: Vec<WatchRow>,
}

impl Db {
    /// The store's invariant: unique keys in both tables, and every watch
    /// row clamped so that `max_reg` exceeds `min_reg`.
    pub open spec fn inv(self) -> bool {
        &&& unique_by(self.series.deep_view(), series_key())
        &&& unique_by(self.watches.deep_view(), watch_key())
        &&& forall|i: int|
            0 <= i < self.watches.deep_view().len() ==> (#[trigger] self.watches.deep_view()[i]).max_reg
                >= self.watches.deep_view()[i].min_reg + 1
    }

    /// An empty store.
    pub fn new() -> (r: Db)
        ensures
            r.inv(),
            r.series.deep_view().len() == 0,
            r.watches.deep_view().len() == 0,
    {
        Db { series: Vec::new(), watches: Vec::new() }
    }
}

/// Finds the series row with the given id.
fn find_series_row(series: &Vec<SeriesRow>, id: i64) -> (r: Option<usize>)
    ensures
        match r {
            Some(i) => first_where(series.deep_view(), series_row_matches(id)) == i as int && (
            i as int) < series.deep_view().len(),
            None => first_where(series.deep_view(), series_row_matches(id)) == -1,
        },
{
    let ghost dv = series.deep_view();
    let n = series.len();
    let mut i: usize = 0;
    while i < n
        invariant
            i <= n,
            n == series@.len(),
            dv == series.deep_view(),
            forall|j: int| 0 <= j < i ==> !#[trigger] series_row_matches(id)(dv[j]),
        decreases n - i,
    {
        if series[i].info.series_id == id {
            proof {
                assert(series_row_matches(id)(dv[i as int]));
                lemma_first_where(dv, series_row_matches(id));
            }
            return Some(i);
        }
        proof {
            assert(!series_row_matches(id)(dv[i as int]));
        }
        i += 1;
    }
    proof {
        lemma_first_where(dv, series_row_matches(id));
    }
    None
}

/// Finds the watch row with the given key.
fn find_watch(watches: &Vec<WatchRow>, ch: u64, sid: i64) -> (r: Option<usize>)
    ensures
        match r {
            Some(i) => first_where(watches.deep_view(), watch_key_matches(ch, sid)) == i as int
                && (i as int) < watches.deep_view().len(),
            None => first_where(watches.deep_view(), watch_key_matches(ch, sid)) == -1,
        },
{
    let ghost dv = watches.deep_view();
    let n = watches.len();
    let mut i: usize = 0;
    while i < n
        invariant
            i <= n,
            n == watches@.len(),
            dv == watches.deep_view(),
            forall|j: int| 0 <= j < i ==> !#[trigger] watch_key_matches(ch, sid)(dv[j]),
        decreases n - i,
    {
        if watches[i].channel == ch && watches[i].series_id == sid {
            proof {
                assert(watch_key_matches(ch, sid)(dv[i as int]));
                lemma_first_where(dv, watch_key_matches(ch, sid));
            }
            return Some(i);
        }
        proof {
            assert(!watch_key_matches(ch, sid)(dv[i as int]));
        }
        i += 1;
    }
    proof {
        lemma_first_where(dv, watch_key_matches(ch, sid));
    }
    None
}

/// A pending catalog write: the records gathered during one sync, applied
/// to the store in one step.
#[derive(Debug)]
pub struct SeriesUpdater {
    pub pending: Vec<SeasonInfo>,
}

/// One record merged into the pending batch: a record with the same id is
/// replaced, a new one appended.
pub open spec fn upsert_info_spec(pending: Seq<SeasonInfoV>, s: SeasonInfoV) -> Seq<SeasonInfoV> {
    let i = first_where(pending, info_id_matches(s.series_id));
    if i == -1 {
        pending.push(s)
    } else {
        pending.update(i, s)
    }
}

impl SeriesUpdater {
    /// Unique series ids in the batch.
    pub open spec fn inv(self) -> bool {
        unique_by(self.pending.deep_view(), info_key())
    }

    /// Merges one record into the batch.
    pub fn upsert(&mut self, s: &SeasonInfo)
        requires
            old(self).inv(),
        ensures
            final(self).inv(),
            final(self).pending.deep_view() == upsert_info_spec(
                old(self).pending.deep_view(),
                s@,
            ),
    {
        let ghost dv = self.pending.deep_view();
        let n = self.pending.len();
        let mut i: usize = 0;
        while i < n
            invariant
                i <= n,
                n == self.pending@.len(),
                dv == self.pending.deep_view(),
                dv == old(self).pending.deep_view(),
                unique_by(dv, info_key()),
                forall|j: int| 0 <= j < i ==> !#[trigger] info_id_matches(s@.series_id)(dv[j]),
            decreases n - i,
        {
            if self.pending[i].series_id == s.series_id {
                proof {
                    assert(info_id_matches(s@.series_id)(dv[i as int]));
                    lemma_first_where(dv, info_id_matches(s@.series_id));
                    assert(first_where(dv, info_id_matches(s@.series_id)) == i as int);
                }
                self.pending.set(i, s.duplicate());
                proof {
                    let nw = self.pending.deep_view();
                    assert(nw =~= dv.update(i as int, s@));
                    assert forall|a: int, b: int| 0 <= a < b < nw.len() implies
                        #[trigger] info_key()(nw[a]) != #[trigger] info_key()(nw[b]) by {
                        assert(info_key()(dv[a]) != info_key()(dv[b]));
                        assert(dv[i as int].series_id == s@.series_id);
                    }
                }
                return ;
            }
            proof {
                assert(!info_id_matches(s@.series_id)(dv[i as int]));
            }
            i += 1;
        }
        proof {
            lemma_first_where(dv, info_id_matches(s@.series_id));
        }
        self.pending.push(s.duplicate());
        proof {
            let nw = self.pending.deep_view();
            assert(nw =~= dv.push(s@));
            assert forall|a: int, b: int| 0 <= a < b < nw.len() implies #[trigger] info_key()(
                nw[a],
            ) != #[trigger] info_key()(nw[b]) by {
                if b < dv.len() {
                    assert(info_key()(dv[a]) != info_key()(dv[b]));
                } else {
                    assert(!info_id_matches(s@.series_id)(dv[a]));
                    assert(nw[b].series_id == s@.series_id);
                }
            }
        }
    }
}

impl Db {
    /// Begins a catalog sync: an empty batch to fill and commit.
    pub fn start_series_update(&self) -> (u: SeriesUpdater)
        ensures
            u.inv(),
            u.pending.deep_view().len() == 0,
    {
        SeriesUpdater { pending: Vec::new() }
    }
}

/// Every row marked inactive, contents kept.
pub open spec fn deactivate(rows: Seq<SeriesRowV>) -> Seq<SeriesRowV> {
    rows.map_values(|r: SeriesRowV| SeriesRowV { info: r.info, active: false })
}

/// One record written into the series table as active: replacing the row
/// with its id, or appended as a new row.
pub open spec fn upsert_row_spec(rows: Seq<SeriesRowV>, p: SeasonInfoV) -> Seq<SeriesRowV> {
    let i = first_where(rows, series_row_matches(p.series_id));
    if i == -1 {
        rows.push(SeriesRowV { info: p, active: true })
    } else {
        rows.update(i, SeriesRowV { info: p, active: true })
    }
}

/// The batch applied left to right.
pub open spec fn apply_pending(rows: Seq<SeriesRowV>, pending: Seq<SeasonInfoV>) -> Seq<
    SeriesRowV,
>
    decreases pending.len(),
{
    if pending.len() == 0 {
        rows
    } else {
        apply_pending(upsert_row_spec(rows, pending[0]), pending.drop_first())
    }
}

/// What a committed sync leaves in the series table: everything inactive
/// first, then every fetched record upserted as active, so a series that
/// disappeared from the feed is now inactive without losing its row.
pub open spec fn commit_spec(rows: Seq<SeriesRowV>, pending: Seq<SeasonInfoV>) -> Seq<SeriesRowV> {
    apply_pending(deactivate(rows), pending)
}

impl SeriesUpdater {
    /// Commits the batch: marks every existing row inactive, then writes
    /// each pending record as active. The watch table is untouched.
    pub fn commit(self, db: &mut Db)
        requires
            old(db).inv(),
        ensures
            final(db).inv(),
            final(db).watches == old(db).watches,
            final(db).series.deep_view() == commit_spec(
                old(db).series.deep_view(),
                self.pending.deep_view(),
            ),
    {
        let ghost rows0 = db.series.deep_view();
        let ghost pdv = self.pending.deep_view();
        let n = db.series.len();
        let mut i: usize = 0;
        while i < n
            invariant
                i <= n,
                n == db.series@.len(),
                db.watches == old(db).watches,
                db.series.deep_view().len() == rows0.len(),
                forall|j: int|
                    0 <= j < i ==> #[trigger] db.series.deep_view()[j] == deactivate(rows0)[j],
                forall|j: int|
                    i <= j < rows0.len() ==> #[trigger] db.series.deep_view()[j] == rows0[j],
            decreases n - i,
        {
            let ghost prev = db.series.deep_view();
            let info = db.series[i].info.duplicate();
            db.series.set(i, SeriesRow { info, active: false });
            proof {
                assert(forall|j: int|
                    0 <= j < rows0.len() && j != i ==> #[trigger] db.series.deep_view()[j]
                        == prev[j]);
                assert(prev[i as int] == rows0[i as int]);
                assert(deactivate(rows0)[i as int] == (SeriesRowV {
                    info: rows0[i as int].info,
                    active: false,
                }));
                assert(db.series.deep_view()[i as int] == (SeriesRowV {
                    info: prev[i as int].info,
                    active: false,
                }));
            }
            i += 1;
        }
        proof {
            assert(db.series.deep_view() =~= deactivate(rows0));
            assert(unique_by(db.series.deep_view(), series_key())) by {
                assert(forall|a: int, b: int|
                    0 <= a < b < rows0.len() ==> #[trigger] series_key()(deactivate(rows0)[a])
                        == series_key()(rows0[a]) && #[trigger] series_key()(
                        deactivate(rows0)[b],
                    ) == series_key()(rows0[b]));
            }
            assert(pdv.skip(0) =~= pdv);
        }
        let m = self.pending.len();
        let mut k: usize = 0;
        while k < m
            invariant
                k <= m,
                m == self.pending@.len(),
                pdv == self.pending.deep_view(),
                db.watches == old(db).watches,
                unique_by(db.series.deep_view(), series_key()),
                apply_pending(db.series.deep_view(), pdv.skip(k as int)) == commit_spec(
                    rows0,
                    pdv,
                ),
            decreases m - k,
        {
            proof {
                assert(pdv.skip(k as int)[0] == pdv[k as int]);
                assert(pdv.skip(k as int).drop_first() =~= pdv.skip(k as int + 1));
            }
            let ghost cur = db.series.deep_view();
            let p = self.pending[k].duplicate();
            match find_series_row(&db.series, p.series_id) {
                Some(idx) => {
                    db.series.set(idx, SeriesRow { info: p, active: true });
                    proof {
                        assert(db.series.deep_view() =~= upsert_row_spec(cur, pdv[k as int]));
                        lemma_first_where(cur, series_row_matches(pdv[k as int].series_id));
                        let nw = db.series.deep_view();
                        assert(series_row_matches(pdv[k as int].series_id)(cur[idx as int]));
                        assert forall|a: int, b: int| 0 <= a < b < nw.len() implies
                            #[trigger] series_key()(nw[a]) != #[trigger] series_key()(nw[b]) by {
                            assert(series_key()(cur[a]) != series_key()(cur[b]));
                            assert(series_key()(cur[idx as int]) == pdv[k as int].series_id);
                        }
                    }
                },
                None => {
                    proof {
                        lemma_first_where(cur, series_row_matches(pdv[k as int].series_id));
                    }
                    db.series.push(SeriesRow { info: p, active: true });
                    proof {
                        assert(db.series.deep_view() =~= upsert_row_spec(cur, pdv[k as int]));
                        let nw = db.series.deep_view();
                        assert forall|a: int, b: int| 0 <= a < b < nw.len() implies
                            #[trigger] series_key()(nw[a]) != #[trigger] series_key()(nw[b]) by {
                            if b < cur.len() {
                                assert(series_key()(cur[a]) != series_key()(cur[b]));
                            } else {
                                assert(!series_row_matches(pdv[k as int].series_id)(cur[a]));
                                assert(nw[b].info.series_id == pdv[k as int].series_id);
                            }
                        }
                    }
                },
            }
            k += 1;
        }
        proof {
            assert(pdv.skip(m as int).len() == 0);
        }
    }
}

/// The catalog the active rows hold, in stored order.
pub open spec fn active_infos(rows: Seq<SeriesRowV>) -> Seq<SeasonInfoV>
    decreases rows.len(),
{
    if rows.len() == 0 {
        Seq::empty()
    } else {
        let rest = active_infos(rows.drop_first());
        if rows[0].active {
            seq![rows[0].info] + rest
        } else {
            rest
        }
    }
}

impl Db {
    /// The active catalog: one record per series the last sync still saw.
    pub fn get_series(&self) -> (r: Vec<SeasonInfo>)
        ensures
            r.deep_view() == active_infos(self.series.deep_view()),
    {
        let ghost dv = self.series.deep_view();
        let mut r: Vec<SeasonInfo> = Vec::new();
        proof {
            assert(dv.skip(0) =~= dv);
            assert(r.deep_view() + active_infos(dv) =~= active_infos(dv));
        }
        let n = self.series.len();
        let mut k: usize = 0;
        while k < n
            invariant
                k <= n,
                n == self.series@.len(),
                dv == self.series.deep_view(),
                active_infos(dv) == r.deep_view() + active_infos(dv.skip(k as int)),
            decreases n - k,
        {
            proof {
                assert(dv.skip(k as int)[0] == dv[k as int]);
                assert(dv.skip(k as int).drop_first() =~= dv.skip(k as int + 1));
            }
            let ghost before = r.deep_view();
            if self.series[k].active {
                r.push(self.series[k].info.duplicate());
                proof {
                    assert(r.deep_view() =~= before.push(dv[k as int].info));
                    assert(before + (seq![dv[k as int].info] + active_infos(
                        dv.skip(k as int + 1),
                    )) =~= r.deep_view() + active_infos(dv.skip(k as int + 1)));
                }
            }
            k += 1;
        }
        proof {
            assert(active_infos(dv.skip(n as int)) =~= Seq::<SeasonInfoV>::empty());
            assert(r.deep_view() + Seq::<SeasonInfoV>::empty() =~= r.deep_view());
        }
        r
    }
}

/// `max_reg` clamped to at least `min_reg + 1`.
pub open spec fn clamped_max(reg: RegV) -> int {
    if reg.max_reg >= reg.min_reg + 1 {
        reg.max_reg as int
    } else {
        reg.min_reg + 1
    }
}

/// What an upsert leaves in the watch table: a new row with the caller's
/// audit fields, or the existing row with its configuration replaced, its
/// creation audit kept and its modification stamped.
pub open spec fn upsert_watch_spec(
    rows: Seq<WatchRowV>,
    reg: RegV,
    by: Seq<char>,
    now: i64,
) -> Seq<WatchRowV> {
    let i = first_where(rows, watch_key_matches(reg.channel, reg.series_id));
    if i == -1 {
        rows.push(
            WatchRowV {
                guild: reg.guild,
                channel: reg.channel,
                series_id: reg.series_id,
                min_reg: reg.min_reg,
                max_reg: clamped_max(reg) as i64,
                open: reg.open,
                close: reg.close,
                created_by: by,
                created_date: now,
                modified_date: None,
            },
        )
    } else {
        let r0 = rows[i];
        rows.update(
            i,
            WatchRowV {
                guild: r0.guild,
                channel: r0.channel,
                series_id: r0.series_id,
                min_reg: reg.min_reg,
                max_reg: clamped_max(reg) as i64,
                open: reg.open,
                close: reg.close,
                created_by: r0.created_by,
                created_date: r0.created_date,
                modified_date: Some(now),
            },
        )
    }
}

impl Db {
    /// Creates or replaces the watch for `(reg.channel, reg.series_id)`.
    /// The stored `max_reg` is clamped to at least `min_reg + 1`.
    pub fn upsert_reg(&mut self, reg: &Reg, created_by: &str, now: i64)
        requires
            old(self).inv(),
            reg.min_reg < i64::MAX,
        ensures
            final(self).inv(),
            final(self).series == old(self).series,
            final(self).watches.deep_view() == upsert_watch_spec(
                old(self).watches.deep_view(),
                reg@,
                created_by@,
                now,
            ),
    {
        let ghost dv = self.watches.deep_view();
        let clamped: i64 = if reg.max_reg >= reg.min_reg + 1 {
            reg.max_reg
        } else {
            reg.min_reg + 1
        };
        match find_watch(&self.watches, reg.channel, reg.series_id) {
            Some(i) => {
                let r0 = self.watches[i].duplicate();
                self.watches.set(i, WatchRow {
                    guild: r0.guild,
                    channel: r0.channel,
                    series_id: r0.series_id,
                    min_reg: reg.min_reg,
                    max_reg: clamped,
                    open: reg.open,
                    close: reg.close,
                    created_by: r0.created_by,
                    created_date: r0.created_date,
                    modified_date: Some(now),
                });
                proof {
                    lemma_first_where(dv, watch_key_matches(reg@.channel, reg@.series_id));
                    let nw = self.watches.deep_view();
                    assert(nw =~= upsert_watch_spec(dv, reg@, created_by@, now));
                    assert(watch_key_matches(reg@.channel, reg@.series_id)(dv[i as int]));
                    assert forall|a: int, b: int| 0 <= a < b < nw.len() implies
                        #[trigger] watch_key()(nw[a]) != #[trigger] watch_key()(nw[b]) by {
                        assert(watch_key()(dv[a]) != watch_key()(dv[b]));
                        assert(watch_key()(dv[i as int]) == (reg@.channel, reg@.series_id));
                    }
                }
            },
            None => {
                proof {
                    lemma_first_where(dv, watch_key_matches(reg@.channel, reg@.series_id));
                }
                self.watches.push(
                    WatchRow {
                        guild: reg.guild,
                        channel: reg.channel,
                        series_id: reg.series_id,
                        min_reg: reg.min_reg,
                        max_reg: clamped,
                        open: reg.open,
                        close: reg.close,
                        created_by: created_by.to_owned(),
                        created_date: now,
                        modified_date: None,
                    },
                );
                proof {
                    let nw = self.watches.deep_view();
                    assert(nw =~= upsert_watch_spec(dv, reg@, created_by@, now));
                    assert forall|a: int, b: int| 0 <= a < b < nw.len() implies
                        #[trigger] watch_key()(nw[a]) != #[trigger] watch_key()(nw[b]) by {
                        if b < dv.len() {
                            assert(watch_key()(dv[a]) != watch_key()(dv[b]));
                        } else {
                            assert(!watch_key_matches(reg@.channel, reg@.series_id)(dv[a]));
                            assert(watch_key()(nw[b]) == (reg@.channel, reg@.series_id));
                        }
                    }
                }
            },
        }
    }
}

/// What a single delete leaves: the first (and, under the invariant,
/// only) row with the key removed, or everything unchanged.
pub open spec fn remove_watch_spec(rows: Seq<WatchRowV>, ch: u64, sid: i64) -> Seq<WatchRowV> {
    let i = first_where(rows, watch_key_matches(ch, sid));
    if i == -1 {
        rows
    } else {
        rows.remove(i)
    }
}

impl Db {
    /// Deletes the watch for one destination and series; the result says
    /// how many rows went away.
    pub fn delete_reg(&mut self, channel: u64, series_id: i64) -> (n: usize)
        requires
            old(self).inv(),
        ensures
            final(self).inv(),
            final(self).series == old(self).series,
            final(self).watches.deep_view() == remove_watch_spec(
                old(self).watches.deep_view(),
                channel,
                series_id,
            ),
            n == old(self).watches.deep_view().len() - final(self).watches.deep_view().len(),
    {
        let ghost dv = self.watches.deep_view();
        match find_watch(&self.watches, channel, series_id) {
            Some(i) => {
                self.watches.remove(i);
                proof {
                    assert(self.watches.deep_view() =~= dv.remove(i as int));
                    let nw = self.watches.deep_view();
                    assert(unique_by(nw, watch_key())) by {
                        assert(forall|a: int|
                            0 <= a < nw.len() ==> #[trigger] watch_key()(nw[a]) == watch_key()(
                                dv[if a < i as int {
                                    a
                                } else {
                                    a + 1
                                }],
                            ));
                    }
                }
                1
            },
            None => 0,
        }
    }

    /// Deletes every watch of one destination; the result says how many
    /// rows went away.
    pub fn delete_channel(&mut self, channel: u64) -> (n: usize)
        requires
            old(self).inv(),
        ensures
            final(self).inv(),
            final(self).series == old(self).series,
            final(self).watches.deep_view() == keep_where(
                old(self).watches.deep_view(),
                channel_differs(channel),
            ),
            n == old(self).watches.deep_view().len() - final(self).watches.deep_view().len(),
    {
        let ghost dv = self.watches.deep_view();
        let mut kept: Vec<WatchRow> = Vec::new();
        proof {
            assert(dv.skip(0) =~= dv);
            assert(kept.deep_view() + keep_where(dv, channel_differs(channel)) =~= keep_where(
                dv,
                channel_differs(channel),
            ));
        }
        let n = self.watches.len();
        let mut k: usize = 0;
        while k < n
            invariant
                k <= n,
                n == self.watches@.len(),
                dv == self.watches.deep_view(),
                kept.deep_view().len() <= k,
                keep_where(dv, channel_differs(channel)) == kept.deep_view() + keep_where(
                    dv.skip(k as int),
                    channel_differs(channel),
                ),
            decreases n - k,
        {
            proof {
                assert(dv.skip(k as int)[0] == dv[k as int]);
                assert(dv.skip(k as int).drop_first() =~= dv.skip(k as int + 1));
            }
            let ghost before = kept.deep_view();
            if self.watches[k].channel != channel {
                kept.push(self.watches[k].duplicate());
                proof {
                    assert(kept.deep_view() =~= before.push(dv[k as int]));
                    assert(before + (seq![dv[k as int]] + keep_where(
                        dv.skip(k as int + 1),
                        channel_differs(channel),
                    )) =~= kept.deep_view() + keep_where(
                        dv.skip(k as int + 1),
                        channel_differs(channel),
                    ));
                }
            }
            k += 1;
        }
        proof {
            assert(keep_where(dv.skip(n as int), channel_differs(channel)) =~= Seq::<
                WatchRowV,
            >::empty());
            assert(kept.deep_view() + Seq::<WatchRowV>::empty() =~= kept.deep_view());
            lemma_keep_where_unique_by(dv, channel_differs(channel), watch_key());
            lemma_keep_where_contains(dv, channel_differs(channel));
            assert(forall|i: int|
                0 <= i < kept.deep_view().len() ==> (#[trigger] kept.deep_view()[i]).max_reg
                    >= kept.deep_view()[i].min_reg + 1) by {
                let kd = kept.deep_view();
                assert forall|i: int| 0 <= i < kd.len() implies (#[trigger] kd[i]).max_reg
                    >= kd[i].min_reg + 1 by {
                    assert(kd.contains(kd[i]));
                    let m = choose|m: int| 0 <= m < dv.len() && dv[m] == kd[i];
                }
            }
        }
        let removed = self.watches.len() - kept.len();
        self.watches = kept;
        removed
    }

    /// Deletes every watch whose parent grouping matches; the result says
    /// how many rows went away.
    pub fn delete_guild(&mut self, guild: u64) -> (n: usize)
        requires
            old(self).inv(),
        ensures
            final(self).inv(),
            final(self).series == old(self).series,
            final(self).watches.deep_view() == keep_where(
                old(self).watches.deep_view(),
                guild_differs(guild),
            ),
            n == old(self).watches.deep_view().len() - final(self).watches.deep_view().len(),
    {
        let ghost dv = self.watches.deep_view();
        let mut kept: Vec<WatchRow> = Vec::new();
        proof {
            assert(dv.skip(0) =~= dv);
            assert(kept.deep_view() + keep_where(dv, guild_differs(guild)) =~= keep_where(
                dv,
                guild_differs(guild),
            ));
        }
        let n = self.watches.len();
        let mut k: usize = 0;
        while k < n
            invariant
                k <= n,
                n == self.watches@.len(),
                dv == self.watches.deep_view(),
                kept.deep_view().len() <= k,
                keep_where(dv, guild_differs(guild)) == kept.deep_view() + keep_where(
                    dv.skip(k as int),
                    guild_differs(guild),
                ),
            decreases n - k,
        {
            proof {
                assert(dv.skip(k as int)[0] == dv[k as int]);
                assert(dv.skip(k as int).drop_first() =~= dv.skip(k as int + 1));
            }
            let ghost before = kept.deep_view();
            let keep = match self.watches[k].guild {
                Some(g) => g != guild,
                None => true,
            };
            if keep {
                kept.push(self.watches[k].duplicate());
                proof {
                    assert(kept.deep_view() =~= before.push(dv[k as int]));
                    assert(before + (seq![dv[k as int]] + keep_where(
                        dv.skip(k as int + 1),
                        guild_differs(guild),
                    )) =~= kept.deep_view() + keep_where(
                        dv.skip(k as int + 1),
                        guild_differs(guild),
                    ));
                }
            }
            k += 1;
        }
        proof {
            assert(keep_where(dv.skip(n as int), guild_differs(guild)) =~= Seq::<
                WatchRowV,
            >::empty());
            assert(kept.deep_view() + Seq::<WatchRowV>::empty() =~= kept.deep_view());
            lemma_keep_where_unique_by(dv, guild_differs(guild), watch_key());
            lemma_keep_where_contains(dv, guild_differs(guild));
            assert(forall|i: int|
                0 <= i < kept.deep_view().len() ==> (#[trigger] kept.deep_view()[i]).max_reg
                    >= kept.deep_view()[i].min_reg + 1) by {
                let kd = kept.deep_view();
                assert forall|i: int| 0 <= i < kd.len() implies (#[trigger] kd[i]).max_reg
                    >= kd[i].min_reg + 1 by {
                    assert(kd.contains(kd[i]));
                    let m = choose|m: int| 0 <= m < dv.len() && dv[m] == kd[i];
                }
            }
        }
        let removed = self.watches.len() - kept.len();
        self.watches = kept;
        removed
    }
}

/// A watch row joined with its series' name.
pub open spec fn reg_of(w: WatchRowV, name: Seq<char>) -> RegV {
    RegV {
        guild: w.guild,
        channel: w.channel,
        series_id: w.series_id,
        series_name: name,
        min_reg: w.min_reg,
        max_reg: w.max_reg,
        open: w.open,
        close: w.close,
    }
}

/// The watches of one destination, joined with the series table: rows
/// whose series the table does not know are left out.
pub open spec fn channel_regs_spec(
    watches: Seq<WatchRowV>,
    series: Seq<SeriesRowV>,
    ch: u64,
) -> Seq<RegV>
    decreases watches.len(),
{
    if watches.len() == 0 {
        Seq::empty()
    } else {
        let rest = channel_regs_spec(watches.drop_first(), series, ch);
        let w = watches[0];
        if w.channel != ch {
            rest
        } else {
            let i = first_where(series, series_row_matches(w.series_id));
            if i == -1 {
                rest
            } else {
                seq![reg_of(w, series[i].info.name)] + rest
            }
        }
    }
}

impl Db {
    /// The watches stored for one destination, in stored order, each
    /// carrying its series' name.
    pub fn channel_regs(&self, ch: u64) -> (r: Vec<Reg>)
        ensures
            r.deep_view() == channel_regs_spec(
                self.watches.deep_view(),
                self.series.deep_view(),
                ch,
            ),
    {
        let ghost dv = self.watches.deep_view();
        let ghost sv = self.series.deep_view();
        let mut r: Vec<Reg> = Vec::new();
        proof {
            assert(dv.skip(0) =~= dv);
            assert(r.deep_view() + channel_regs_spec(dv, sv, ch) =~= channel_regs_spec(
                dv,
                sv,
                ch,
            ));
        }
        let n = self.watches.len();
        let mut k: usize = 0;
        while k < n
            invariant
                k <= n,
                n == self.watches@.len(),
                dv == self.watches.deep_view(),
                sv == self.series.deep_view(),
                channel_regs_spec(dv, sv, ch) == r.deep_view() + channel_regs_spec(
                    dv.skip(k as int),
                    sv,
                    ch,
                ),
            decreases n - k,
        {
            proof {
                assert(dv.skip(k as int)[0] == dv[k as int]);
                assert(dv.skip(k as int).drop_first() =~= dv.skip(k as int + 1));
            }
            let ghost before = r.deep_view();
            if self.watches[k].channel == ch {
                match find_series_row(&self.series, self.watches[k].series_id) {
                    None => {},
                    Some(si) => {
                        let w = &self.watches[k];
                        r.push(
                            Reg {
                                guild: w.guild,
                                channel: w.channel,
                                series_id: w.series_id,
                                series_name: self.series[si].info.name.clone(),
                                min_reg: w.min_reg,
                                max_reg: w.max_reg,
                                open: w.open,
                                close: w.close,
                            },
                        );
                        proof {
                            let made = reg_of(dv[k as int], sv[si as int].info.name);
                            assert(r.deep_view() =~= before.push(made));
                            assert(before + (seq![made] + channel_regs_spec(
                                dv.skip(k as int + 1),
                                sv,
                                ch,
                            )) =~= r.deep_view() + channel_regs_spec(
                                dv.skip(k as int + 1),
                                sv,
                                ch,
                            ));
                        }
                    },
                }
            }
            k += 1;
        }
        proof {
            assert(channel_regs_spec(dv.skip(n as int), sv, ch) =~= Seq::<RegV>::empty());
            assert(r.deep_view() + Seq::<RegV>::empty() =~= r.deep_view());
        }
        r
    }
}

/// The distinct destinations among the first `k` watch rows, in order of
/// first appearance.
pub open spec fn channels_upto(watches: Seq<WatchRowV>, k: int) -> Seq<u64>
    decreases k,
{
    if k <= 0 {
        Seq::empty()
    } else {
        let rest = channels_upto(watches, k - 1);
        let ch = watches[k - 1].channel;
        if exists|j: int| 0 <= j < k - 1 && watches[j].channel == ch {
            rest
        } else {
            rest.push(ch)
        }
    }
}

/// A destination is listed exactly when some prefix row names it.
pub proof fn lemma_channels_upto_membership(watches: Seq<WatchRowV>, k: int)
    requires
        0 <= k <= watches.len(),
    ensures
        forall|c: u64|
            #[trigger] channels_upto(watches, k).contains(c) <==> exists|j: int|
                0 <= j < k && watches[j].channel == c,
    decreases k,
{
    if k > 0 {
        lemma_channels_upto_membership(watches, k - 1);
        let prev = channels_upto(watches, k - 1);
        let cur = channels_upto(watches, k);
        let ch = watches[k - 1].channel;
        assert forall|c: u64| #[trigger] cur.contains(c) implies exists|j: int|
            0 <= j < k && watches[j].channel == c by {
            if prev.contains(c) {
            } else {
                let i = choose|i: int| 0 <= i < cur.len() && cur[i] == c;
                assert(c == ch);
                assert(watches[k - 1].channel == c);
            }
        }
        assert forall|c: u64| (exists|j: int| 0 <= j < k && watches[j].channel == c) implies
            #[trigger] cur.contains(c) by {
            let j = choose|j: int| 0 <= j < k && watches[j].channel == c;
            if j < k - 1 {
                assert(prev.contains(c));
                if exists|t: int| 0 <= t < k - 1 && watches[t].channel == ch {
                } else {
                    let i = choose|i: int| 0 <= i < prev.len() && prev[i] == c;
                    assert(cur[i] == c);
                }
            } else {
                if exists|t: int| 0 <= t < k - 1 && watches[t].channel == ch {
                    assert(prev.contains(c));
                } else {
                    assert(cur[cur.len() - 1] == ch);
                }
            }
        }
    }
}

impl Db {
    /// Every destination's watches, grouped by destination in order of
    /// first appearance, each group in stored order.
    pub fn regs(&self) -> (r: Vec<(u64, Vec<Reg>)>)
        ensures
            r@.len() == channels_upto(
                self.watches.deep_view(),
                self.watches.deep_view().len() as int,
            ).len(),
            forall|t: int|
                0 <= t < r@.len() ==> (#[trigger] r@[t]).0 == channels_upto(
                    self.watches.deep_view(),
                    self.watches.deep_view().len() as int,
                )[t] && r@[t].1.deep_view() == channel_regs_spec(
                    self.watches.deep_view(),
                    self.series.deep_view(),
                    r@[t].0,
                ),
    {
        let ghost dv = self.watches.deep_view();
        let ghost sv = self.series.deep_view();
        let mut chans: Vec<u64> = Vec::new();
        proof {
            assert(chans@ =~= channels_upto(dv, 0));
        }
        let n = self.watches.len();
        let mut k: usize = 0;
        while k < n
            invariant
                k <= n,
                n == self.watches@.len(),
                dv == self.watches.deep_view(),
                chans@ == channels_upto(dv, k as int),
            decreases n - k,
        {
            let ch = self.watches[k].channel;
            let mut dup = false;
            let m = chans.len();
            let mut t: usize = 0;
            while t < m
                invariant_except_break
                    !dup,
                    forall|u: int| 0 <= u < t ==> chans@[u] != ch,
                invariant
                    t <= m,
                    m == chans@.len(),
                ensures
                    dup ==> chans@.contains(ch),
                    !dup ==> !chans@.contains(ch),
                decreases m - t,
            {
                if chans[t] == ch {
                    dup = true;
                    break;
                }
                t += 1;
            }
            proof {
                lemma_channels_upto_membership(dv, k as int);
                assert(dv[k as int].channel == ch);
            }
            if !dup {
                chans.push(ch);
                proof {
                    assert(chans@ =~= channels_upto(dv, k as int + 1));
                }
            } else {
                proof {
                    assert(chans@ =~= channels_upto(dv, k as int + 1));
                }
            }
            k += 1;
        }
        let mut r: Vec<(u64, Vec<Reg>)> = Vec::new();
        let cn = chans.len();
        let mut t: usize = 0;
        while t < cn
            invariant
                t <= cn,
                cn == chans@.len(),
                dv == self.watches.deep_view(),
                sv == self.series.deep_view(),
                chans@ == channels_upto(dv, dv.len() as int),
                r@.len() == t,
                forall|u: int|
                    0 <= u < t ==> (#[trigger] r@[u]).0 == chans@[u] && r@[u].1.deep_view()
                        == channel_regs_spec(dv, sv, chans@[u]),
            decreases cn - t,
        {
            let ch = chans[t];
            let regs = self.channel_regs(ch);
            r.push((ch, regs));
            t += 1;
        }
        r
    }
}

/// Round trip: a watch written to the store and read back through its
/// destination's list comes back with the same configuration, only the
/// stored `max_reg` clamped and the name joined from the series table.
pub proof fn lemma_watch_round_trip(
    watches: Seq<WatchRowV>,
    series: Seq<SeriesRowV>,
    reg: RegV,
    by: Seq<char>,
    now: i64,
)
    requires
        reg.min_reg < i64::MAX,
        ({
            let si = first_where(series, series_row_matches(reg.series_id));
            si != -1 && series[si].info.name == reg.series_name
        }),
        ({
            let wi = first_where(watches, watch_key_matches(reg.channel, reg.series_id));
            wi != -1 ==> watches[wi].guild == reg.guild
        }),
    ensures
        ({
            let rows2 = upsert_watch_spec(watches, reg, by, now);
            let regs2 = channel_regs_spec(rows2, series, reg.channel);
            exists|t: int|
                0 <= t < regs2.len() && regs2[t] == (RegV {
                    max_reg: clamped_max(reg) as i64,
                    ..reg
                })
        }),
{
    let rows2 = upsert_watch_spec(watches, reg, by, now);
    let i = first_where(watches, watch_key_matches(reg.channel, reg.series_id));
    lemma_first_where(watches, watch_key_matches(reg.channel, reg.series_id));
    let j = if i == -1 {
        watches.len() as int
    } else {
        i
    };
    assert(0 <= j < rows2.len());
    assert(rows2[j].channel == reg.channel);
    assert(rows2[j].series_id == reg.series_id);
    lemma_channel_regs_covers(rows2, series, reg.channel, j);
    let t = choose|t: int|
        0 <= t < channel_regs_spec(rows2, series, reg.channel).len() && channel_regs_spec(
            rows2,
            series,
            reg.channel,
        )[t] == reg_of(
            rows2[j],
            series[first_where(series, series_row_matches(rows2[j].series_id))].info.name,
        );
    assert(channel_regs_spec(rows2, series, reg.channel)[t] == (RegV {
        max_reg: clamped_max(reg) as i64,
        ..reg
    }));
}

/// Every stored row of a destination whose series the table knows shows
/// up in that destination's list.
pub proof fn lemma_channel_regs_covers(
    watches: Seq<WatchRowV>,
    series: Seq<SeriesRowV>,
    ch: u64,
    j: int,
)
    requires
        0 <= j < watches.len(),
        watches[j].channel == ch,
        first_where(series, series_row_matches(watches[j].series_id)) != -1,
    ensures
        ({
            let regs = channel_regs_spec(watches, series, ch);
            let name = series[first_where(
                series,
                series_row_matches(watches[j].series_id),
            )].info.name;
            exists|t: int| 0 <= t < regs.len() && regs[t] == reg_of(watches[j], name)
        }),
    decreases watches.len(),
{
    let regs = channel_regs_spec(watches, series, ch);
    let name = series[first_where(series, series_row_matches(watches[j].series_id))].info.name;
    if j == 0 {
        assert(regs[0] == reg_of(watches[0], name));
    } else {
        let tail = watches.drop_first();
        assert(tail[j - 1] == watches[j]);
        lemma_channel_regs_covers(tail, series, ch, j - 1);
        let rest = channel_regs_spec(tail, series, ch);
        let t0 = choose|t: int| 0 <= t < rest.len() && rest[t] == reg_of(tail[j - 1], name);
        let w = watches[0];
        if w.channel != ch {
            assert(regs[t0] == reg_of(watches[j], name));
        } else {
            let i = first_where(series, series_row_matches(w.series_id));
            if i == -1 {
                assert(regs[t0] == reg_of(watches[j], name));
            } else {
                assert(regs[t0 + 1] == reg_of(watches[j], name));
            }
        }
    }
}

} // verus!
