use regbot::db::SeasonInfo;
use regbot::ir::RaceGuideEntry;
use regbot::ir_watcher::{process_guide, AnnouncementType, SeriesReg};

fn info(id: i64, name: &str, official: i64, split: i64) -> SeasonInfo {
    SeasonInfo {
        series_id: id,
        name: name.to_string(),
        reg_official: official,
        reg_split: split,
        week: 3,
        track_name: "Spa".to_string(),
        track_config: "GP".to_string(),
        track_cat: Some("road".to_string()),
        lc_name: name.to_lowercase(),
    }
}

fn entry(id: i64, session: Option<i64>, count: i64, start: i64) -> RaceGuideEntry {
    RaceGuideEntry {
        season_id: 100 + id,
        start_time: start,
        super_session: false,
        series_id: id,
        race_week_num: 3,
        end_time: String::new(),
        session_id: session,
        entry_count: count,
    }
}

#[test]
fn first_snapshot_is_silent() {
    let mut sr = SeriesReg::new(&info(1, "GT3", 10, 20));
    let ann = sr.update(entry(1, Some(7), 12, 1000));
    assert!(ann.is_none());
    assert_eq!(sr.race_guide, Some(entry(1, Some(7), 12, 1000)));
}

#[test]
fn opening_always_announced() {
    let mut sr = SeriesReg::new(&info(1, "GT3", 10, 20));
    assert!(sr.update(entry(1, None, 0, 1000)).is_none());
    let ann = sr.update(entry(1, Some(7), 0, 1000)).expect("expected an announcement");
    assert!(matches!(ann.ann_type, AnnouncementType::Open));
    assert_eq!(ann.prev, entry(1, None, 0, 1000));
    assert_eq!(ann.curr, entry(1, Some(7), 0, 1000));
}

#[test]
fn equal_counts_are_silent() {
    let mut sr = SeriesReg::new(&info(1, "GT3", 10, 20));
    assert!(sr.update(entry(1, Some(7), 5, 1000)).is_none());
    assert!(sr.update(entry(1, Some(7), 5, 2000)).is_none());
    assert_eq!(sr.race_guide, Some(entry(1, Some(7), 5, 2000)));
}

#[test]
fn count_change_announced() {
    let mut sr = SeriesReg::new(&info(1, "GT3", 10, 20));
    assert!(sr.update(entry(1, Some(7), 2, 1000)).is_none());
    let ann = sr.update(entry(1, Some(7), 10, 1000)).expect("expected an announcement");
    assert!(matches!(ann.ann_type, AnnouncementType::Count));
}

#[test]
fn zero_to_zero_change_is_silent() {
    let mut sr = SeriesReg::new(&info(1, "GT3", 10, 20));
    assert!(sr.update(entry(1, Some(7), 0, 1000)).is_none());
    assert!(sr.update(entry(1, Some(8), 0, 1000)).is_none());
}

#[test]
fn close_with_entries_announced() {
    let mut sr = SeriesReg::new(&info(1, "GT3", 10, 20));
    assert!(sr.update(entry(1, Some(7), 9, 1000)).is_none());
    let ann = sr.update(entry(1, None, 0, 1000)).expect("expected an announcement");
    assert!(matches!(ann.ann_type, AnnouncementType::Closed));
    assert_eq!(ann.prev.entry_count, 9);
}

#[test]
fn close_with_no_entries_is_silent() {
    let mut sr = SeriesReg::new(&info(1, "GT3", 10, 20));
    assert!(sr.update(entry(1, Some(7), 0, 1000)).is_none());
    assert!(sr.update(entry(1, None, 0, 1000)).is_none());
}

#[test]
fn num_splits_values() {
    assert_eq!(entry(1, None, 1, 0).num_splits(10), 1);
    assert_eq!(entry(1, None, 21, 0).num_splits(10), 3);
    assert_eq!(entry(1, None, 0, 0).num_splits(10), 1);
    assert_eq!(entry(1, None, 10, 0).num_splits(10), 1);
    assert_eq!(entry(1, None, 11, 0).num_splits(10), 2);
}

#[test]
fn splits_changed_detected() {
    let mut sr = SeriesReg::new(&info(1, "GT3", 10, 10));
    assert!(sr.update(entry(1, Some(7), 9, 1000)).is_none());
    let ann = sr.update(entry(1, Some(7), 11, 1000)).expect("expected an announcement");
    assert!(ann.splits_changed());
}

#[test]
fn poll_dedup_keeps_first_entry_only() {
    // Three guide entries for the same series in one poll: only the first
    // updates the slot, and at most one announcement comes out.
    let mut states = vec![SeriesReg {
        series: info(1, "GT3", 10, 20),
        race_guide: Some(entry(1, Some(7), 2, 500)),
    }];
    let entries = vec![
        entry(1, Some(7), 6, 1000),
        entry(1, Some(7), 30, 2000),
        entry(1, Some(7), 50, 3000),
    ];
    let anns = process_guide(&mut states, &entries);
    assert_eq!(anns.len(), 1);
    assert!(matches!(anns[0].ann_type, AnnouncementType::Count));
    assert_eq!(anns[0].curr.entry_count, 6);
    assert_eq!(states[0].race_guide, Some(entry(1, Some(7), 6, 1000)));
}

#[test]
fn poll_ignores_unknown_series() {
    let mut states = vec![SeriesReg {
        series: info(1, "GT3", 10, 20),
        race_guide: Some(entry(1, Some(7), 2, 500)),
    }];
    let entries = vec![entry(99, Some(7), 6, 1000)];
    let anns = process_guide(&mut states, &entries);
    assert!(anns.is_empty());
    assert_eq!(states[0].race_guide, Some(entry(1, Some(7), 2, 500)));
}

#[test]
fn poll_announces_independent_series() {
    let mut states = vec![
        SeriesReg { series: info(1, "GT3", 10, 20), race_guide: Some(entry(1, None, 0, 500)) },
        SeriesReg { series: info(2, "MX5", 8, 16), race_guide: Some(entry(2, Some(3), 4, 500)) },
    ];
    let entries = vec![entry(1, Some(9), 0, 1000), entry(2, Some(3), 5, 1000)];
    let anns = process_guide(&mut states, &entries);
    assert_eq!(anns.len(), 2);
    assert!(matches!(anns[0].ann_type, AnnouncementType::Open));
    assert!(matches!(anns[1].ann_type, AnnouncementType::Count));
}
