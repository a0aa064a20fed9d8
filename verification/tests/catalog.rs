use regbot::db::SeasonInfo;
use regbot::ir::{Schedule, Season, Series, Track};
use regbot::ir_watcher::build_season_infos;

fn series(id: i64, name: &str, min: i64, max: i64) -> Series {
    Series {
        category: "road".to_string(),
        category_id: 2,
        eligible: true,
        max_starters: max,
        min_starters: min,
        oval_caution_type: 0,
        road_caution_type: 2,
        search_filters: None,
        series_id: id,
        series_name: name.to_string(),
        series_short_name: name.to_string(),
    }
}

fn schedule(id: i64, week: i64, track: &str, config: Option<&str>) -> Schedule {
    Schedule {
        series_id: id,
        season_id: 100 + id,
        race_week_num: week,
        series_name: "GT3 Sprint".to_string(),
        season_name: "Season 1".to_string(),
        track: Track {
            track_id: 9,
            track_name: track.to_string(),
            config_name: config.map(|c| c.to_string()),
            category: Some("road".to_string()),
        },
    }
}

fn season(id: i64, week: i64, schedules: Vec<Schedule>) -> Season {
    Season {
        active: true,
        official: true,
        start_date: 0,
        race_week: week,
        max_weeks: 12,
        season_id: 100 + id,
        season_quarter: 1,
        season_year: 2024,
        series_id: id,
        season_name: "Season 1".to_string(),
        schedules,
    }
}

#[test]
fn join_derives_normalized_record() {
    let sr = series(1, "GT3 Sprint", 10, 20);
    let se = season(1, 2, vec![schedule(1, 1, "Monza", None), schedule(1, 2, "Spa", Some("GP"))]);
    let si = SeasonInfo::new(&sr, &se).expect("expected a record");
    assert_eq!(si.series_id, 1);
    assert_eq!(si.name, "GT3 Sprint");
    assert_eq!(si.reg_official, 10);
    assert_eq!(si.reg_split, 20);
    assert_eq!(si.week, 2);
    assert_eq!(si.track_name, "Spa");
    assert_eq!(si.track_config, "GP");
    assert_eq!(si.track_cat, Some("road".to_string()));
    assert_eq!(si.lc_name, "gt3 sprint");
}

#[test]
fn season_without_matching_week_is_skipped() {
    let sr = series(1, "GT3 Sprint", 10, 20);
    let se = season(1, 7, vec![schedule(1, 1, "Monza", None)]);
    assert!(SeasonInfo::new(&sr, &se).is_none());
}

#[test]
fn missing_config_name_becomes_empty() {
    let sr = series(1, "GT3 Sprint", 10, 20);
    let se = season(1, 1, vec![schedule(1, 1, "Monza", None)]);
    let si = SeasonInfo::new(&sr, &se).expect("expected a record");
    assert_eq!(si.track_config, "");
}

#[test]
fn build_joins_by_series_id() {
    let all_series = vec![series(1, "GT3 Sprint", 10, 20), series(2, "MX5 Cup", 8, 16)];
    let seasons = vec![
        season(2, 1, vec![schedule(2, 1, "Okayama", None)]),
        season(1, 1, vec![schedule(1, 1, "Monza", None)]),
    ];
    let infos = build_season_infos(&all_series, &seasons);
    assert_eq!(infos.len(), 2);
    assert_eq!(infos[0].series_id, 2);
    assert_eq!(infos[0].reg_official, 8);
    assert_eq!(infos[1].series_id, 1);
    assert_eq!(infos[1].reg_official, 10);
}

#[test]
fn build_skips_season_of_unknown_series() {
    let all_series = vec![series(1, "GT3 Sprint", 10, 20)];
    let seasons = vec![
        season(5, 1, vec![schedule(5, 1, "Okayama", None)]),
        season(1, 1, vec![schedule(1, 1, "Monza", None)]),
    ];
    let infos = build_season_infos(&all_series, &seasons);
    assert_eq!(infos.len(), 1);
    assert_eq!(infos[0].series_id, 1);
}
