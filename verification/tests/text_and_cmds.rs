use base64::Engine;
use sha2::Digest;

use regbot::cmds::{reg_choices, series_choices, watch_list_message, HelpCommand, HELP_MSG};
use regbot::db::{Reg, SeasonInfo};
use regbot::ir::mask;
use regbot::poll::{next_backoff, next_poll_deadline, same_utc_day};
use regbot::text::{i64_str, lowercase, str_contains, trim, u64_str};

fn info(id: i64, name: &str) -> SeasonInfo {
    SeasonInfo {
        series_id: id,
        name: name.to_string(),
        reg_official: 10,
        reg_split: 20,
        week: 1,
        track_name: "Spa".to_string(),
        track_config: String::new(),
        track_cat: None,
        lc_name: name.to_lowercase(),
    }
}

fn watch(series: i64, name: &str) -> Reg {
    Reg {
        guild: None,
        channel: 7,
        series_id: series,
        series_name: name.to_string(),
        min_reg: 3,
        max_reg: 5,
        open: false,
        close: false,
    }
}

#[test]
fn mask_hashes_secret_with_normalized_id() {
    // The mask is the base64 of SHA-256 over the secret followed by the
    // trimmed, lowercased identifier.
    let got = mask("hunter2", "  UserName ");
    let mut hasher = sha2::Sha256::new();
    hasher.update("hunter2username".as_bytes());
    let expected = base64::engine::general_purpose::STANDARD.encode(hasher.finalize());
    assert_eq!(got, expected);
    assert_eq!(got.len(), 44);
}

#[test]
fn mask_depends_on_identifier_case_folding() {
    assert_eq!(mask("s", "ABC"), mask("s", "abc"));
    assert_ne!(mask("s", "abc"), mask("s", "abd"));
}

#[test]
fn lowercase_and_trim_behave() {
    assert_eq!(lowercase("AbC dEf"), "abc def");
    assert_eq!(trim("  x y  "), "x y");
}

#[test]
fn substring_search() {
    assert!(str_contains("gt3 sprint", "sprint"));
    assert!(str_contains("gt3 sprint", ""));
    assert!(!str_contains("gt3 sprint", "cup"));
    assert!(!str_contains("gt", "gt3"));
}

#[test]
fn decimal_rendering() {
    assert_eq!(u64_str(0), "0");
    assert_eq!(u64_str(42), "42");
    assert_eq!(u64_str(1950), "1950");
    assert_eq!(i64_str(-7), "-7");
    assert_eq!(i64_str(120), "120");
}

#[test]
fn series_autocomplete_filters_case_insensitively() {
    let catalog = vec![info(1, "GT3 Sprint"), info(2, "MX5 Cup"), info(3, "GT4 Cup")];
    let choices = series_choices(&catalog, "CUP");
    assert_eq!(choices.len(), 2);
    assert_eq!(choices[0], ("MX5 Cup".to_string(), 2));
    assert_eq!(choices[1], ("GT4 Cup".to_string(), 3));
}

#[test]
fn series_autocomplete_caps_at_twenty_five() {
    let mut catalog = Vec::new();
    for i in 0..30 {
        catalog.push(info(i, &format!("Series {}", i)));
    }
    let choices = series_choices(&catalog, "series");
    assert_eq!(choices.len(), 25);
    assert_eq!(choices[0].1, 0);
    assert_eq!(choices[24].1, 24);
}

#[test]
fn reg_autocomplete_filters_watches() {
    let regs = vec![watch(1, "GT3 Sprint"), watch(2, "MX5 Cup")];
    let choices = reg_choices(&regs, "mx5");
    assert_eq!(choices.len(), 1);
    assert_eq!(choices[0], ("MX5 Cup".to_string(), 2));
}

#[test]
fn watch_list_text() {
    let regs = vec![watch(1, "GT3 Sprint"), watch(2, "MX5 Cup")];
    assert_eq!(
        watch_list_message(&regs),
        "Will post about race registrations for:\n\u{2981} GT3 Sprint between 3 and 5 entries.\n\u{2981} MX5 Cup between 3 and 5 entries."
    );
}

#[test]
fn help_command_text() {
    let h = HelpCommand;
    assert_eq!(h.name(), "help");
    assert_eq!(h.text(), HELP_MSG);
    assert!(h.text().contains("/watch"));
}

#[test]
fn backoff_doubles_to_the_cap() {
    let mut b = 1u64;
    let mut seen = Vec::new();
    for _ in 0..9 {
        seen.push(b);
        b = next_backoff(b);
    }
    assert_eq!(seen, vec![1, 2, 4, 8, 16, 32, 64, 128.min(120), 120]);
}

#[test]
fn utc_day_boundary() {
    assert!(same_utc_day(0, 86399));
    assert!(!same_utc_day(86399, 86400));
    assert!(same_utc_day(86400, 172799));
}

#[test]
fn poll_deadline_is_fixed_interval_from_start() {
    assert_eq!(next_poll_deadline(1000), 1061);
}
