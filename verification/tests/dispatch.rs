use regbot::announce::{announce, Messenger, TRANSPORT_LIMIT};
use regbot::db::{Reg, SeasonInfo};
use regbot::ir::RaceGuideEntry;
use regbot::ir_watcher::{Announcement, AnnouncementType};

fn info(id: i64, name: &str, official: i64, split: i64) -> SeasonInfo {
    SeasonInfo {
        series_id: id,
        name: name.to_string(),
        reg_official: official,
        reg_split: split,
        week: 1,
        track_name: "Spa".to_string(),
        track_config: String::new(),
        track_cat: None,
        lc_name: name.to_lowercase(),
    }
}

fn entry(id: i64, session: Option<i64>, count: i64, start: i64) -> RaceGuideEntry {
    RaceGuideEntry {
        season_id: 100 + id,
        start_time: start,
        super_session: false,
        series_id: id,
        race_week_num: 1,
        end_time: String::new(),
        session_id: session,
        entry_count: count,
    }
}

fn ann(kind: AnnouncementType, prev: RaceGuideEntry, curr: RaceGuideEntry) -> Announcement {
    Announcement { series: info(1, "GT3", 10, 20), prev, curr, ann_type: kind }
}

fn watch(channel: u64, series: i64, min: i64, max: i64, open: bool, close: bool) -> Reg {
    Reg {
        guild: None,
        channel,
        series_id: series,
        series_name: "GT3".to_string(),
        min_reg: min,
        max_reg: max,
        open,
        close,
    }
}

#[test]
fn three_long_lines_make_two_messages() {
    // Lines of 900, 900 and 900 characters under a limit of 1950: the
    // first two share one message of 1801 characters, the third goes
    // alone.
    assert_eq!(TRANSPORT_LIMIT, 1950);
    let line = "x".repeat(900);
    let mut m = Messenger::new(7);
    m.add(&line);
    m.add(&line);
    m.add(&line);
    m.flush();
    assert_eq!(m.out.len(), 2);
    assert_eq!(m.out[0].len(), 1801);
    assert_eq!(m.out[1].len(), 900);
}

#[test]
fn short_lines_share_one_message() {
    let mut m = Messenger::new(7);
    m.add("one");
    m.add("two");
    m.flush();
    assert_eq!(m.out, vec!["one\ntwo".to_string()]);
}

#[test]
fn flush_of_empty_buffer_sends_nothing() {
    let mut m = Messenger::new(7);
    m.flush();
    assert!(m.out.is_empty());
}

#[test]
fn render_open_announcement() {
    let a = ann(AnnouncementType::Open, entry(1, None, 0, 1000), entry(1, Some(5), 0, 1600));
    // 600 seconds to start, plus the 29-second rounding offset.
    assert_eq!(a.render(1000), "GT3: Registration open!, 10 minutes til race time");
}

#[test]
fn render_count_announcement_official() {
    let a = ann(AnnouncementType::Count, entry(1, Some(5), 2, 1600), entry(1, Some(5), 12, 1600));
    assert_eq!(a.render(1000), "GT3: 12 registered. Official! Session starts in 10 minutes");
}

#[test]
fn render_count_announcement_below_official() {
    let a = ann(AnnouncementType::Count, entry(1, Some(5), 2, 1600), entry(1, Some(5), 9, 1600));
    assert_eq!(a.render(1000), "GT3: 9 registered. Session starts in 10 minutes");
}

#[test]
fn render_count_announcement_splits() {
    let a = ann(AnnouncementType::Count, entry(1, Some(5), 2, 1600), entry(1, Some(5), 25, 1600));
    assert_eq!(a.render(1000), "GT3: 25 registered. 2 splits! Session starts in 10 minutes");
}

#[test]
fn render_count_less_than_a_minute() {
    let a = ann(AnnouncementType::Count, entry(1, Some(5), 2, 1030), entry(1, Some(5), 12, 1030));
    assert_eq!(
        a.render(1000),
        "GT3: 12 registered. Official! Session starts in less than a minute! \u{1f3ce}"
    );
}

#[test]
fn render_count_singular_minute() {
    let a = ann(AnnouncementType::Count, entry(1, Some(5), 2, 1060), entry(1, Some(5), 12, 1060));
    assert_eq!(
        a.render(1000),
        "GT3: 12 registered. Official! Session starts in 1 minute"
    );
}

#[test]
fn render_closed_announcement() {
    let a = ann(AnnouncementType::Closed, entry(1, Some(5), 12, 1600), entry(1, None, 0, 1600));
    assert_eq!(a.render(1000), "GT3: registration closed \u{26d4} 12 registered Official! .");
}

#[test]
fn announce_sends_only_to_matching_watches() {
    let groups = vec![
        (7u64, vec![watch(7, 1, 3, 30, true, false)]),
        (8u64, vec![watch(8, 2, 3, 30, true, false)]),
    ];
    let anns = vec![ann(
        AnnouncementType::Count,
        entry(1, Some(5), 2, 1600),
        entry(1, Some(5), 12, 1600),
    )];
    let out = announce(&groups, &anns, 1000);
    assert_eq!(out.len(), 1);
    assert_eq!(out[0].0, 7);
    assert_eq!(out[0].1, "GT3: 12 registered. Official! Session starts in 10 minutes");
}

#[test]
fn announce_batches_per_destination_in_watch_order() {
    let groups = vec![(
        7u64,
        vec![watch(7, 1, 3, 30, false, true), watch(7, 1, 3, 30, true, true)],
    )];
    let anns = vec![ann(
        AnnouncementType::Closed,
        entry(1, Some(5), 12, 1600),
        entry(1, None, 0, 1600),
    )];
    let out = announce(&groups, &anns, 1000);
    assert_eq!(out.len(), 1);
    let expected = "GT3: registration closed \u{26d4} 12 registered Official! .";
    assert_eq!(out[0].1, format!("{}\n{}", expected, expected));
}

#[test]
fn announce_nothing_for_unmatched_destination() {
    let groups = vec![(7u64, vec![watch(7, 1, 3, 30, false, false)])];
    let anns = vec![ann(
        AnnouncementType::Open,
        entry(1, None, 0, 1600),
        entry(1, Some(5), 0, 1600),
    )];
    let out = announce(&groups, &anns, 1000);
    assert!(out.is_empty());
}
