//! Data model of the upstream scheduling API: series, seasons, schedules
//! and the race guide, together with the split-count derivation and the
//! credential masking used when talking to the authentication endpoint.

use vstd::prelude::*;
use vstd::string::StringExecFns;
use vstd::utf8::encode_utf8;

use base64::Engine;
use sha2::Digest;

use crate::text::{lower_of, lowercase, trim_of, trim};

verus! {

/// One session entry from the upstream race guide. `start_time` is a Unix
/// timestamp in seconds; `session_id` is present exactly when a session
/// object currently exists for the series (registration window open).
#[derive(Debug, Clone, PartialEq, Eq)]
pub struct RaceGuideEntry {
    pub season_id: i64,
    pub start_time: i64,
    pub super_session: bool,
    pub series_id: i64,
    pub race_week_num: i64,
    pub end_time: String,
    pub session_id: Option<i64>,
    pub entry_count: i64,
}

/// Mathematical value of a `RaceGuideEntry`.
pub struct RaceGuideEntryV {
    pub season_id: i64,
    pub start_time: i64,
    pub super_session: bool,
    pub series_id: i64,
    pub race_week_num: i64,
    pub end_time: Seq<char>,
    pub session_id: Option<i64>,
    pub entry_count: i64,
}

impl View for RaceGuideEntry {
    type V = RaceGuideEntryV;

    open spec fn view(&self) -> RaceGuideEntryV {
        RaceGuideEntryV {
            season_id: self.season_id,
            start_time: self.start_time,
            super_session: self.super_session,
            series_id: self.series_id,
            race_week_num: self.race_week_num,
            end_time: self.end_time@,
            session_id: self.session_id,
            entry_count: self.entry_count,
        }
    }
}

impl RaceGuideEntryV {
    /// A snapshot the engine can work with: a non-negative entry count.
    pub open spec fn wf(self) -> bool {
        self.entry_count >= 0
    }
}

/// Split count for a given entry count: one split for an empty or single
/// field, one more for each further `split_at` entries.
pub open spec fn num_splits_spec(entry_count: int, split_at: int) -> int
    recommends
        split_at >= 1,
{
    if entry_count <= 0 {
        1
    } else {
        1 + (entry_count - 1) / split_at
    }
}

impl DeepView for RaceGuideEntry {
    type V = RaceGuideEntryV;

    open spec fn deep_view(&self) -> RaceGuideEntryV {
        self.view()
    }
}

impl RaceGuideEntry {
    /// A field-for-field copy.
    pub fn duplicate(&self) -> (r: RaceGuideEntry)
        ensures
            r == *self,
    {
        RaceGuideEntry {
            season_id: self.season_id,
            start_time: self.start_time,
            super_session: self.super_session,
            series_id: self.series_id,
            race_week_num: self.race_week_num,
            end_time: self.end_time.clone(),
            session_id: self.session_id,
            entry_count: self.entry_count,
        }
    }

    /// How many parallel sessions this entry's registration count produces
    /// when the field splits every `split_at` entries.
    pub fn num_splits(&self, split_at: i64) -> (n: i64)
        requires
            split_at >= 1,
            self@.wf(),
        ensures
            n == num_splits_spec(self.entry_count as int, split_at as int),
            1 <= n <= self.entry_count + 1,
    {
        if self.entry_count == 0 {
            1
        } else {
            let q: u64 = ((self.entry_count - 1) as u64) / (split_at as u64);
            proof {
                assert(q <= self.entry_count - 1) by (nonlinear_arith)
                    requires
                        q == (self.entry_count - 1) as u64 as int / (split_at as u64 as int),
                        split_at >= 1,
                        self.entry_count >= 1,
                ;
            }
            1 + (q as i64)
        }
    }
}

/// The race guide: a lookahead window of upcoming sessions across all
/// series. A series may appear several times within the window.
#[derive(Debug, Clone, PartialEq, Eq)]
pub struct RaceGuide {
    pub subscribed: bool,
    pub sessions: Vec<RaceGuideEntry>,
    pub block_begin_time: String,
    pub block_end_time: String,
    pub success: bool,
}

/// One race week of a season's schedule.
#[derive(Debug, Clone)]
pub struct Schedule {
    pub series_id: i64,
    pub season_id: i64,
    pub race_week_num: i64,
    pub series_name: String,
    pub season_name: String,
    pub track: Track,
}

/// The track a schedule entry runs on.
#[derive(Debug, Clone)]
pub struct Track {
    pub track_id: i64,
    pub track_name: String,
    pub config_name: Option<String>,
    pub category: Option<String>,
}

/// A season: a time-bounded instance of a series, divided into race weeks.
/// `start_date` is a Unix timestamp in seconds.
#[derive(Debug, Clone)]
pub struct Season {
    pub active: bool,
    pub official: bool,
    pub start_date: i64,
    pub race_week: i64,
    pub max_weeks: i64,
    pub season_id: i64,
    pub season_quarter: i64,
    pub season_year: i64,
    pub series_id: i64,
    pub season_name: String,
    pub schedules: Vec<Schedule>,
}

/// A series: a recurring event category with fixed entry thresholds.
#[derive(Debug, Clone)]
pub struct Series {
    pub category: String,
    pub category_id: i64,
    pub eligible: bool,
    pub max_starters: i64,
    pub min_starters: i64,
    pub oval_caution_type: i64,
    pub road_caution_type: i64,
    pub search_filters: Option<String>,
    pub series_id: i64,
    pub series_name: String,
    pub series_short_name: String,
}

/// The season-list endpoint's answer for one year and quarter.
#[derive(Debug, Clone)]
pub struct SeasonList {
    pub season_quarter: i64,
    pub season_year: i64,
    pub seasons: Vec<SeasonBasic>,
}

/// One season as the season-list endpoint reports it.
#[derive(Debug, Clone)]
pub struct SeasonBasic {
    pub season_id: i64,
    pub series_id: i64,
    pub season_name: String,
    pub series_name: String,
    pub official: bool,
    pub season_year: i64,
    pub season_quarter: i64,
    pub license_group: i64,
    pub fixed_setup: bool,
    pub driver_changes: bool,
}

/// What SHA-256 returns for a byte sequence.
pub uninterp spec fn sha256_of(b: Seq<u8>) -> Seq<u8>;

/// What standard base64 encoding returns for a byte sequence.
pub uninterp spec fn base64_of(b: Seq<u8>) -> Seq<char>;

/// Relies on sha2's Sha256 through the Digest interface: a 32-byte digest
/// that depends on the input bytes alone.
#[verifier::external_body]
fn sha256(data: &[u8]) -> (r: Vec<u8>)
    ensures
        r@ == sha256_of(data@),
        r@.len() == 32,
{
    let mut hasher = sha2::Sha256::new();
    hasher.update(data);
    hasher.finalize().to_vec()
}

/// Relies on base64's STANDARD engine: the padded standard alphabet
/// encoding, four characters for every started group of three bytes.
#[verifier::external_body]
fn base64_encode(data: &[u8]) -> (r: String)
    ensures
        r@ == base64_of(data@),
        r@.len() == 4 * ((data@.len() + 2) / 3),
{
    base64::engine::general_purpose::STANDARD.encode(data)
}

/// Masks a credential before it goes to the authentication endpoint: the
/// secret is concatenated with the trimmed, lowercased account identifier,
/// hashed with SHA-256 and base64-encoded.
pub fn mask(secret: &str, id: &str) -> (r: String)
    ensures
        r@ == base64_of(sha256_of(encode_utf8(secret@ + lower_of(trim_of(id@))))),
{
    let normalized_id = lowercase(trim(id));
    let mut combined = secret.to_owned();
    combined.append(normalized_id.as_str());
    let digest = sha256(combined.as_str().as_bytes());
    base64_encode(digest.as_slice())
}

} // verus!
