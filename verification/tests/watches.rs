use regbot::cmds::default_watch_bounds;
use regbot::db::{Reg, SeasonInfo};
use regbot::ir::RaceGuideEntry;
use regbot::ir_watcher::{Announcement, AnnouncementType};

fn info(official: i64, split: i64) -> SeasonInfo {
    SeasonInfo {
        series_id: 1,
        name: "GT3".to_string(),
        reg_official: official,
        reg_split: split,
        week: 1,
        track_name: "Spa".to_string(),
        track_config: String::new(),
        track_cat: None,
        lc_name: "gt3".to_string(),
    }
}

fn entry(session: Option<i64>, count: i64) -> RaceGuideEntry {
    RaceGuideEntry {
        season_id: 101,
        start_time: 1600,
        super_session: false,
        series_id: 1,
        race_week_num: 1,
        end_time: String::new(),
        session_id: session,
        entry_count: count,
    }
}

fn watch(min: i64, max: i64, open: bool, close: bool) -> Reg {
    Reg {
        guild: None,
        channel: 7,
        series_id: 1,
        series_name: "GT3".to_string(),
        min_reg: min,
        max_reg: max,
        open,
        close,
    }
}

fn ann(official: i64, split: i64, kind: AnnouncementType, prev: RaceGuideEntry, curr: RaceGuideEntry) -> Announcement {
    Announcement { series: info(official, split), prev, curr, ann_type: kind }
}

#[test]
fn open_matches_only_when_asked() {
    let a = ann(10, 20, AnnouncementType::Open, entry(None, 0), entry(Some(5), 0));
    assert!(watch(5, 15, true, false).wants(&a));
    assert!(!watch(5, 15, false, true).wants(&a));
}

#[test]
fn close_gated_by_min_reg_on_previous_count() {
    // notify_on_close with min_reg = 5: a close at 3 entries is
    // suppressed, one at 5 entries is delivered.
    let low = ann(10, 20, AnnouncementType::Closed, entry(Some(5), 3), entry(None, 0));
    let at = ann(10, 20, AnnouncementType::Closed, entry(Some(5), 5), entry(None, 0));
    let w = watch(5, 15, false, true);
    assert!(!w.wants(&low));
    assert!(w.wants(&at));
}

#[test]
fn close_needs_the_flag() {
    let a = ann(10, 20, AnnouncementType::Closed, entry(Some(5), 9), entry(None, 0));
    assert!(!watch(5, 15, true, false).wants(&a));
}

#[test]
fn count_matches_inside_band() {
    let a = ann(10, 20, AnnouncementType::Count, entry(Some(5), 2), entry(Some(5), 4));
    assert!(watch(3, 5, false, false).wants(&a));
}

#[test]
fn count_outside_band_without_split_change_does_not_match() {
    let a = ann(10, 100, AnnouncementType::Count, entry(Some(5), 2), entry(Some(5), 10));
    assert!(!watch(3, 5, false, false).wants(&a));
}

#[test]
fn count_outside_band_with_split_change_matches() {
    // 9 -> 11 entries with a split threshold of 10 changes the split
    // count, so the watch matches although 11 lies outside [3, 5].
    let a = ann(10, 10, AnnouncementType::Count, entry(Some(5), 9), entry(Some(5), 11));
    assert!(a.splits_changed());
    assert!(watch(3, 5, false, false).wants(&a));
}

#[test]
fn default_bounds_from_thresholds() {
    let (mn, mx) = default_watch_bounds(&info(10, 20), None, None);
    assert_eq!((mn, mx), (5, 15));
}

#[test]
fn given_bounds_are_kept() {
    let (mn, mx) = default_watch_bounds(&info(10, 20), Some(4), Some(9));
    assert_eq!((mn, mx), (4, 9));
}

#[test]
fn bounds_clamped_to_min_plus_one() {
    let (mn, mx) = default_watch_bounds(&info(10, 20), Some(50), Some(40));
    assert_eq!((mn, mx), (50, 51));
}

#[test]
fn describe_mentions_bounds_and_flags() {
    assert_eq!(
        watch(3, 5, false, false).describe(),
        "GT3 between 3 and 5 entries."
    );
    assert_eq!(
        watch(3, 5, true, false).describe(),
        "GT3 between 3 and 5 entries. I'll also say when registration opens."
    );
    assert_eq!(
        watch(3, 5, false, true).describe(),
        "GT3 between 3 and 5 entries. I'll also say when registration closes."
    );
    assert_eq!(
        watch(3, 5, true, true).describe(),
        "GT3 between 3 and 5 entries. I'll also say when registration opens and closes."
    );
}
