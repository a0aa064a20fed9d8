use regbot::db::{Db, Reg, SeasonInfo};

fn info(id: i64, name: &str) -> SeasonInfo {
    SeasonInfo {
        series_id: id,
        name: name.to_string(),
        reg_official: 10,
        reg_split: 20,
        week: 1,
        track_name: "Monza".to_string(),
        track_config: String::new(),
        track_cat: None,
        lc_name: name.to_lowercase(),
    }
}

fn watch(channel: u64, series: i64, name: &str, min: i64, max: i64) -> Reg {
    Reg {
        guild: Some(42),
        channel,
        series_id: series,
        series_name: name.to_string(),
        min_reg: min,
        max_reg: max,
        open: true,
        close: false,
    }
}

fn store_with_series() -> Db {
    let mut db = Db::new();
    let mut up = db.start_series_update();
    up.upsert(&info(1, "GT3 Sprint"));
    up.upsert(&info(2, "MX5 Cup"));
    up.commit(&mut db);
    db
}

#[test]
fn upsert_clamps_max_reg() {
    // A watch written with min_reg=50, max_reg=40 is stored as (50, 51).
    let mut db = store_with_series();
    db.upsert_reg(&watch(7, 1, "GT3 Sprint", 50, 40), "alice", 1000);
    let regs = db.channel_regs(7);
    assert_eq!(regs.len(), 1);
    assert_eq!(regs[0].min_reg, 50);
    assert_eq!(regs[0].max_reg, 51);
}

#[test]
fn watch_round_trip() {
    // Writing a watch and reading the destination's watches back gives
    // identical fields; timestamps live only in the stored row.
    let mut db = store_with_series();
    let w = watch(7, 1, "GT3 Sprint", 5, 15);
    db.upsert_reg(&w, "alice", 1000);
    let regs = db.channel_regs(7);
    assert_eq!(regs.len(), 1);
    assert_eq!(regs[0], w);
    assert_eq!(db.watches[0].created_by, "alice");
    assert_eq!(db.watches[0].created_date, 1000);
    assert_eq!(db.watches[0].modified_date, None);
}

#[test]
fn upsert_replaces_existing_watch() {
    let mut db = store_with_series();
    db.upsert_reg(&watch(7, 1, "GT3 Sprint", 5, 15), "alice", 1000);
    db.upsert_reg(&watch(7, 1, "GT3 Sprint", 6, 16), "bob", 2000);
    assert_eq!(db.watches.len(), 1);
    assert_eq!(db.watches[0].min_reg, 6);
    assert_eq!(db.watches[0].max_reg, 16);
    assert_eq!(db.watches[0].created_by, "alice");
    assert_eq!(db.watches[0].created_date, 1000);
    assert_eq!(db.watches[0].modified_date, Some(2000));
}

#[test]
fn delete_reg_removes_one_watch() {
    let mut db = store_with_series();
    db.upsert_reg(&watch(7, 1, "GT3 Sprint", 5, 15), "alice", 1000);
    db.upsert_reg(&watch(7, 2, "MX5 Cup", 5, 15), "alice", 1000);
    assert_eq!(db.delete_reg(7, 1), 1);
    assert_eq!(db.delete_reg(7, 1), 0);
    let regs = db.channel_regs(7);
    assert_eq!(regs.len(), 1);
    assert_eq!(regs[0].series_id, 2);
}

#[test]
fn delete_channel_removes_all_of_it() {
    let mut db = store_with_series();
    db.upsert_reg(&watch(7, 1, "GT3 Sprint", 5, 15), "alice", 1000);
    db.upsert_reg(&watch(7, 2, "MX5 Cup", 5, 15), "alice", 1000);
    db.upsert_reg(&watch(8, 1, "GT3 Sprint", 5, 15), "bob", 1000);
    assert_eq!(db.delete_channel(7), 2);
    assert!(db.channel_regs(7).is_empty());
    assert_eq!(db.channel_regs(8).len(), 1);
}

#[test]
fn delete_guild_cascades() {
    let mut db = store_with_series();
    let mut other = watch(9, 2, "MX5 Cup", 5, 15);
    other.guild = Some(77);
    db.upsert_reg(&watch(7, 1, "GT3 Sprint", 5, 15), "alice", 1000);
    db.upsert_reg(&other, "bob", 1000);
    assert_eq!(db.delete_guild(42), 1);
    assert!(db.channel_regs(7).is_empty());
    assert_eq!(db.channel_regs(9).len(), 1);
}

#[test]
fn sync_marks_missing_series_inactive() {
    let mut db = store_with_series();
    let mut up = db.start_series_update();
    up.upsert(&info(2, "MX5 Cup"));
    up.commit(&mut db);
    let active = db.get_series();
    assert_eq!(active.len(), 1);
    assert_eq!(active[0].series_id, 2);
    // The row of the vanished series is kept, only inactive.
    assert_eq!(db.series.len(), 2);
    assert!(!db.series[0].active);
}

#[test]
fn watch_survives_series_going_inactive() {
    let mut db = store_with_series();
    db.upsert_reg(&watch(7, 1, "GT3 Sprint", 5, 15), "alice", 1000);
    let mut up = db.start_series_update();
    up.upsert(&info(2, "MX5 Cup"));
    up.commit(&mut db);
    // The join still finds the inactive series' name.
    let regs = db.channel_regs(7);
    assert_eq!(regs.len(), 1);
    assert_eq!(regs[0].series_name, "GT3 Sprint");
}

#[test]
fn watch_of_unknown_series_degrades_to_absent() {
    let mut db = store_with_series();
    let mut w = watch(7, 55, "Ghost", 5, 15);
    w.series_name = "Ghost".to_string();
    db.upsert_reg(&w, "alice", 1000);
    assert!(db.channel_regs(7).is_empty());
    assert_eq!(db.watches.len(), 1);
}

#[test]
fn regs_groups_by_channel_in_first_seen_order() {
    let mut db = store_with_series();
    db.upsert_reg(&watch(8, 1, "GT3 Sprint", 5, 15), "a", 1);
    db.upsert_reg(&watch(7, 1, "GT3 Sprint", 5, 15), "a", 1);
    db.upsert_reg(&watch(8, 2, "MX5 Cup", 5, 15), "a", 1);
    let grouped = db.regs();
    assert_eq!(grouped.len(), 2);
    assert_eq!(grouped[0].0, 8);
    assert_eq!(grouped[0].1.len(), 2);
    assert_eq!(grouped[1].0, 7);
    assert_eq!(grouped[1].1.len(), 1);
}
