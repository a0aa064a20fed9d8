//! The compute side of the subscriber command surface: default watch
//! bounds, autocomplete filtering and the watch-list text. The chat
//! platform itself is a collaborator outside the library.

use vstd::prelude::*;
use vstd::string::{StrSliceExecFns, StringExecFns};

use crate::db::{describe_spec, Reg, RegV, SeasonInfo, SeasonInfoV};
use crate::text::{contains_seq, lower_of, lowercase, str_contains};

verus! {

/// How many autocomplete choices are offered at most.
pub const MAX_CHOICES: usize = 25;

/// The watch bounds a request resolves to: caller-supplied values where
/// given, otherwise half the official threshold and the midpoint between
/// the official and split thresholds; the upper bound always exceeds the
/// lower by at least one.
pub open spec fn default_bounds_spec(si: SeasonInfoV, mn: Option<i64>, mx: Option<i64>) -> (
    int,
    int,
) {
    let min_reg = match mn {
        Some(m) => m as int,
        None => si.reg_official as int / 2,
    };
    let max0 = match mx {
        Some(m) => m as int,
        None => (si.reg_split - si.reg_official) / 2 + si.reg_official,
    };
    let max_reg = if max0 >= min_reg + 1 {
        max0
    } else {
        min_reg + 1
    };
    (min_reg, max_reg)
}

/// Resolves the bounds of a watch request against the series' catalog
/// record.
pub fn default_watch_bounds(series: &SeasonInfo, min_reg: Option<i64>, max_reg: Option<i64>) -> (r:
    (i64, i64))
    requires
        series@.wf(),
        series.reg_official <= series.reg_split,
        match min_reg {
            Some(m) => m < i64::MAX,
            None => true,
        },
    ensures
        r.0 == default_bounds_spec(series@, min_reg, max_reg).0,
        r.1 == default_bounds_spec(series@, min_reg, max_reg).1,
{
    let mn: i64 = match min_reg {
        Some(m) => m,
        None => ((series.reg_official as u64) / 2) as i64,
    };
    let mx0: i64 = match max_reg {
        Some(m) => m,
        None => {
            let half: u64 = ((series.reg_split - series.reg_official) as u64) / 2;
            proof {
                assert(half <= series.reg_split - series.reg_official) by (nonlinear_arith)
                    requires
                        half == (series.reg_split - series.reg_official) as u64 as int / 2,
                        series.reg_split >= series.reg_official,
                ;
            }
            (half as i64) + series.reg_official
        },
    };
    proof {
        assert(series.reg_official as u64 as int / 2 <= series.reg_official) by (nonlinear_arith)
            requires
                series.reg_official >= 0,
        ;
    }
    if mx0 >= mn + 1 {
        (mn, mx0)
    } else {
        (mn, mn + 1)
    }
}

/// The name-and-id pairs a choice vector stands for.
pub open spec fn choices_view(s: Seq<(String, i64)>) -> Seq<(Seq<char>, i64)> {
    s.map_values(|p: (String, i64)| (p.0@, p.1))
}

/// The first `cap` catalog records whose lowercase name contains the
/// needle, as autocomplete choices in catalog order.
pub open spec fn series_choices_spec(
    catalog: Seq<SeasonInfoV>,
    needle: Seq<char>,
    cap: int,
) -> Seq<(Seq<char>, i64)>
    decreases catalog.len(),
{
    if catalog.len() == 0 || cap <= 0 {
        Seq::empty()
    } else if contains_seq(catalog[0].lc_name, needle) {
        seq![(catalog[0].name, catalog[0].series_id)] + series_choices_spec(
            catalog.drop_first(),
            needle,
            cap - 1,
        )
    } else {
        series_choices_spec(catalog.drop_first(), needle, cap)
    }
}

/// Autocomplete over the catalog: the series whose name contains the
/// search text, case-insensitively, capped at the platform's choice
/// limit.
pub fn series_choices(catalog: &Vec<SeasonInfo>, search: &str) -> (r: Vec<(String, i64)>)
    ensures
        choices_view(r@) == series_choices_spec(
            catalog.deep_view(),
            lower_of(search@),
            MAX_CHOICES as int,
        ),
{
    let ghost dv = catalog.deep_view();
    let ghost needle = lower_of(search@);
    let needle_str = lowercase(search);
    let mut r: Vec<(String, i64)> = Vec::new();
    proof {
        assert(dv.skip(0) =~= dv);
        assert(choices_view(r@) =~~= Seq::<(Seq<char>, i64)>::empty());
        assert(choices_view(r@) + series_choices_spec(dv, needle, MAX_CHOICES as int)
            =~~= series_choices_spec(dv, needle, MAX_CHOICES as int));
    }
    let n = catalog.len();
    let mut k: usize = 0;
    while k < n && r.len() < MAX_CHOICES
        invariant
            k <= n,
            n == catalog@.len(),
            dv == catalog.deep_view(),
            needle == needle_str@,
            r@.len() <= MAX_CHOICES,
            series_choices_spec(dv, needle, MAX_CHOICES as int) == choices_view(r@)
                + series_choices_spec(
                dv.skip(k as int),
                needle,
                MAX_CHOICES as int - r@.len() as int,
            ),
        decreases n - k,
    {
        proof {
            assert(dv.skip(k as int)[0] == dv[k as int]);
            assert(dv.skip(k as int).drop_first() =~= dv.skip(k as int + 1));
        }
        let ghost before = r@;
        if str_contains(catalog[k].lc_name.as_str(), needle_str.as_str()) {
            let name = catalog[k].name.clone();
            let id = catalog[k].series_id;
            r.push((name, id));
            proof {
                assert(choices_view(r@) =~~= choices_view(before).push(
                    (dv[k as int].name, dv[k as int].series_id),
                ));
                assert(choices_view(before) + (seq![(dv[k as int].name, dv[k as int].series_id)]
                    + series_choices_spec(
                    dv.skip(k as int + 1),
                    needle,
                    MAX_CHOICES as int - r@.len() as int,
                )) =~~= choices_view(r@) + series_choices_spec(
                    dv.skip(k as int + 1),
                    needle,
                    MAX_CHOICES as int - r@.len() as int,
                ));
            }
        }
        k += 1;
    }
    proof {
        if k < n {
            assert(r@.len() == MAX_CHOICES);
            assert(series_choices_spec(dv.skip(k as int), needle, 0) =~~= Seq::<
                (Seq<char>, i64),
            >::empty());
        } else {
            assert(dv.skip(n as int).len() == 0);
        }
        assert(choices_view(r@) + Seq::<(Seq<char>, i64)>::empty() =~~= choices_view(r@));
    }
    r
}

/// The first `cap` watches whose series name contains the needle,
/// case-insensitively, as autocomplete choices in stored order.
pub open spec fn reg_choices_spec(regs: Seq<RegV>, needle: Seq<char>, cap: int) -> Seq<
    (Seq<char>, i64),
>
    decreases regs.len(),
{
    if regs.len() == 0 || cap <= 0 {
        Seq::empty()
    } else if contains_seq(lower_of(regs[0].series_name), needle) {
        seq![(regs[0].series_name, regs[0].series_id)] + reg_choices_spec(
            regs.drop_first(),
            needle,
            cap - 1,
        )
    } else {
        reg_choices_spec(regs.drop_first(), needle, cap)
    }
}

/// Autocomplete over a destination's watches: the watched series whose
/// name contains the search text, case-insensitively, capped at the
/// platform's choice limit.
pub fn reg_choices(regs: &Vec<Reg>, search: &str) -> (r: Vec<(String, i64)>)
    ensures
        choices_view(r@) == reg_choices_spec(
            regs.deep_view(),
            lower_of(search@),
            MAX_CHOICES as int,
        ),
{
    let ghost dv = regs.deep_view();
    let ghost needle = lower_of(search@);
    let needle_str = lowercase(search);
    let mut r: Vec<(String, i64)> = Vec::new();
    proof {
        assert(dv.skip(0) =~= dv);
        assert(choices_view(r@) =~~= Seq::<(Seq<char>, i64)>::empty());
        assert(choices_view(r@) + reg_choices_spec(dv, needle, MAX_CHOICES as int)
            =~~= reg_choices_spec(dv, needle, MAX_CHOICES as int));
    }
    let n = regs.len();
    let mut k: usize = 0;
    while k < n && r.len() < MAX_CHOICES
        invariant
            k <= n,
            n == regs@.len(),
            dv == regs.deep_view(),
            needle == needle_str@,
            r@.len() <= MAX_CHOICES,
            reg_choices_spec(dv, needle, MAX_CHOICES as int) == choices_view(r@)
                + reg_choices_spec(
                dv.skip(k as int),
                needle,
                MAX_CHOICES as int - r@.len() as int,
            ),
        decreases n - k,
    {
        proof {
            assert(dv.skip(k as int)[0] == dv[k as int]);
            assert(dv.skip(k as int).drop_first() =~= dv.skip(k as int + 1));
        }
        let ghost before = r@;
        let lc = lowercase(regs[k].series_name.as_str());
        if str_contains(lc.as_str(), needle_str.as_str()) {
            let name = regs[k].series_name.clone();
            let id = regs[k].series_id;
            r.push((name, id));
            proof {
                assert(choices_view(r@) =~~= choices_view(before).push(
                    (dv[k as int].series_name, dv[k as int].series_id),
                ));
                assert(choices_view(before) + (seq![
                    (dv[k as int].series_name, dv[k as int].series_id),
                ] + reg_choices_spec(
                    dv.skip(k as int + 1),
                    needle,
                    MAX_CHOICES as int - r@.len() as int,
                )) =~~= choices_view(r@) + reg_choices_spec(
                    dv.skip(k as int + 1),
                    needle,
                    MAX_CHOICES as int - r@.len() as int,
                ));
            }
        }
        k += 1;
    }
    proof {
        if k < n {
            assert(r@.len() == MAX_CHOICES);
            assert(reg_choices_spec(dv.skip(k as int), needle, 0) =~~= Seq::<
                (Seq<char>, i64),
            >::empty());
        } else {
            assert(dv.skip(n as int).len() == 0);
        }
        assert(choices_view(r@) + Seq::<(Seq<char>, i64)>::empty() =~~= choices_view(r@));
    }
    r
}

/// A watch whose bounds the description can render.
pub open spec fn describable(reg: RegV) -> bool {
    reg.min_reg > i64::MIN && reg.max_reg > i64::MIN
}

/// One listed line per watch, each on its own row.
pub open spec fn watch_lines_spec(regs: Seq<RegV>) -> Seq<char>
    decreases regs.len(),
{
    if regs.len() == 0 {
        Seq::empty()
    } else {
        (if describable(regs[0]) {
            "\n\u{2981} "@ + describe_spec(regs[0])
        } else {
            Seq::empty()
        }) + watch_lines_spec(regs.drop_first())
    }
}

/// The message listing a destination's watches.
pub open spec fn watch_list_spec(regs: Seq<RegV>) -> Seq<char> {
    "Will post about race registrations for:"@ + watch_lines_spec(regs)
}

/// Builds the message listing a destination's watches, one per line.
pub fn watch_list_message(regs: &Vec<Reg>) -> (r: String)
    ensures
        r@ == watch_list_spec(regs.deep_view()),
{
    let ghost dv = regs.deep_view();
    let mut s = String::from_str("Will post about race registrations for:");
    proof {
        assert(dv.skip(0) =~= dv);
        assert(s@ + watch_lines_spec(dv) =~= watch_list_spec(dv));
    }
    let n = regs.len();
    let mut k: usize = 0;
    while k < n
        invariant
            k <= n,
            n == regs@.len(),
            dv == regs.deep_view(),
            watch_list_spec(dv) == s@ + watch_lines_spec(dv.skip(k as int)),
        decreases n - k,
    {
        proof {
            assert(dv.skip(k as int)[0] == dv[k as int]);
            assert(dv.skip(k as int).drop_first() =~= dv.skip(k as int + 1));
        }
        let reg = &regs[k];
        if reg.min_reg > i64::MIN && reg.max_reg > i64::MIN {
            s.append("\n\u{2981} ");
            let d = reg.describe();
            s.append(d.as_str());
        }
        k += 1;
    }
    proof {
        assert(watch_lines_spec(dv.skip(n as int)) =~= Seq::<char>::empty());
        assert(s@ + Seq::<char>::empty() =~= s@);
    }
    s
}

/// What the help command answers.
pub const HELP_MSG: &'static str = "Hey there, I'm Reginald. While I sip my coffee I'll keep an eye on race registrations for you. Let me know what series you're interested in and I'll message a channel when I see some activity for that series. Use the /watch command to select a series.\n\nYou can control how many race entries are needed before i say anything with the min_reg option. I can also stop yammering on about it once there's a critical mass registered, use the max_reg option. If you want to always know when race registration opens or closes, you can use the open and close options to turn that on.\n\nBy default I'll start reporting registrations at 50% of official and stop if it reaches halfway between official and splitting.\n\nThe entry/split numbers reported at registration closed might not match exactly the race session(s) as you can't get the numbers until the end of the race.\n\nIf you forget what you asked for, you can /watching to find out. You can also /nomore if you don't care about a series anymore.";

/// The help command: a fixed explanation of the watch commands.
pub struct HelpCommand;

impl HelpCommand {
    /// The command's name on the platform.
    pub fn name(&self) -> (r: &'static str)
        ensures
            r@ == "help"@,
    {
        "help"
    }

    /// The help text.
    pub fn text(&self) -> (r: &'static str)
        ensures
            r@ == HELP_MSG@,
    {
        HELP_MSG
    }
}

} // verus!
