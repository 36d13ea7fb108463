use vstd::prelude::*;
use vstd::arithmetic::div_mod::{lemma_div_is_ordered, lemma_div_multiples_vanish};
use vstd::arithmetic::mul::lemma_mul_inequality;
use vstd::string::StringExecFns;
use crate::dates::{now_timestamp, week_end_date, week_end_of};
use crate::entry::{BeerEntry, EntryView, valid_entry};
use crate::error::BrewLogError;
use crate::store::{BrewLog, entries_view, spec_get};

verus! {

/// A historical average consumption rate over a date range, derived from
/// entry data and never persisted. Volumes are in hundredths of a
/// millilitre. The daily average divides the total volume by the number of
/// entries in range, not by the number of distinct calendar days.
pub struct Baseline {
    pub average_daily_consumption: u128,
    pub average_weekly_consumption: u128,
    pub calculated_date: String,
}

/// The mathematical image of a baseline.
pub ghost struct BaselineView {
    pub average_daily_consumption: int,
    pub average_weekly_consumption: int,
    pub calculated_date: Seq<char>,
}

impl View for Baseline {
    type V = BaselineView;

    open spec fn view(&self) -> BaselineView {
        BaselineView {
            average_daily_consumption: self.average_daily_consumption as int,
            average_weekly_consumption: self.average_weekly_consumption as int,
            calculated_date: self.calculated_date@,
        }
    }
}

/// A period's computed averages. `reduction_percentage` is a placeholder
/// that is always zero, pending a real comparison against a stored
/// baseline.
pub struct ProgressStats {
    pub current_daily_average: u128,
    pub current_weekly_average: u128,
    pub reduction_percentage: i64,
    pub period_start: String,
    pub period_end: String,
}

/// The mathematical image of progress stats.
pub ghost struct ProgressStatsView {
    pub current_daily_average: int,
    pub current_weekly_average: int,
    pub reduction_percentage: int,
    pub period_start: Seq<char>,
    pub period_end: Seq<char>,
}

impl View for ProgressStats {
    type V = ProgressStatsView;

    open spec fn view(&self) -> ProgressStatsView {
        ProgressStatsView {
            current_daily_average: self.current_daily_average as int,
            current_weekly_average: self.current_weekly_average as int,
            reduction_percentage: self.reduction_percentage as int,
            period_start: self.period_start@,
            period_end: self.period_end@,
        }
    }
}

/// The summed volume of a sequence of entries.
pub open spec fn total_volume(entries: Seq<EntryView>) -> int
    decreases entries.len(),
{
    if entries.len() == 0 {
        0
    } else {
        total_volume(entries.drop_last()) + entries.last().volume_ml
    }
}

/// Sums the volumes of validated entries; the sum of positive volumes that
/// each fit a machine word cannot leave the accumulator's range.
fn sum_volumes(entries: &Vec<BeerEntry>) -> (total: u128)
    requires
        forall|i: int| 0 <= i < entries@.len() ==> valid_entry((#[trigger] entries@[i])@),
    ensures
        total as int == total_volume(entries_view(entries@)),
        total as int <= entries@.len() * (i64::MAX as int),
{
    let mut total: u128 = 0;
    let mut i: usize = 0;
    proof {
        assert(entries@.take(0) =~= Seq::<BeerEntry>::empty());
        assert(entries_view(entries@.take(0)) =~= Seq::<EntryView>::empty());
    }
    while i < entries.len()
        invariant
            i <= entries@.len(),
            forall|k: int| 0 <= k < entries@.len() ==> valid_entry((#[trigger] entries@[k])@),
            total as int == total_volume(entries_view(entries@.take(i as int))),
            0 <= total as int <= i * (i64::MAX as int),
        decreases entries@.len() - i,
    {
        let v: i64 = entries[i].volume_ml;
        proof {
            assert(valid_entry(entries@[i as int]@));
            let s0 = entries_view(entries@.take(i as int));
            let s1 = entries_view(entries@.take(i + 1));
            assert(entries@.take(i + 1) =~= entries@.take(i as int).push(entries@[i as int]));
            assert(s1 =~= s0.push(entries@[i as int]@));
            assert(s1.drop_last() =~= s0);
            assert(total_volume(s1) == total_volume(s0) + v as int);
            lemma_mul_inequality(i as int, usize::MAX as int, i64::MAX as int);
            assert((usize::MAX as int) * (i64::MAX as int) + (i64::MAX as int) < u128::MAX as int)
                by (nonlinear_arith);
        }
        total = total + (v as u128);
        i = i + 1;
    }
    proof {
        assert(entries@.take(entries@.len() as int) =~= entries@);
    }
    total
}

/// The per-entry daily average and the derived weekly average of a
/// non-empty entry vector: the total volume divided by the entry count
/// (integer division), and seven times that.
fn compute_averages(entries: &Vec<BeerEntry>) -> (r: (u128, u128))
    requires
        entries@.len() > 0,
        forall|i: int| 0 <= i < entries@.len() ==> valid_entry((#[trigger] entries@[i])@),
    ensures
        r.0 as int == total_volume(entries_view(entries@)) / (entries@.len() as int),
        r.1 as int == 7 * (total_volume(entries_view(entries@)) / (entries@.len() as int)),
{
    let total = sum_volumes(entries);
    let count: u128 = entries.len() as u128;
    proof {
        lemma_div_is_ordered(
            total as int,
            (count as int) * (i64::MAX as int),
            count as int,
        );
        lemma_div_multiples_vanish(i64::MAX as int, count as int);
        assert((total as int) / (count as int) <= i64::MAX as int);
    }
    let avg = total / count;
    let avgw = avg * 7;
    (avg, avgw)
}

impl BrewLog {
    /// The summed volume over all entries dated within the single-day range
    /// `[date, date]`; zero, not an error, when nothing matches.
    pub fn get_daily_consumption(&self, date: String) -> (result: Result<u128, BrewLogError>)
        requires
            self@.wf(),
        ensures
            result matches Ok(t) && t as int == total_volume(spec_get(self@, date@, date@)),
    {
        let entries = match self.get_beer_entries(date.clone(), date) {
            Ok(v) => v,
            Err(e) => return Err(e),
        };
        Ok(sum_volumes(&entries))
    }

    /// The summed volume over the inclusive seven-day window starting at
    /// the given date; an unparseable date is `InvalidInput`.
    pub fn get_weekly_consumption(&self, week_start_date: String) -> (result: Result<
        u128,
        BrewLogError,
    >)
        requires
            self@.wf(),
        ensures
            week_end_of(week_start_date@) is None ==> (result matches Err(e)
                && e is InvalidInput),
            week_end_of(week_start_date@) matches Some(endd) ==> (result matches Ok(t) && t as int
                == total_volume(spec_get(self@, week_start_date@, endd))),
    {
        let end_date = match week_end_date(week_start_date.as_str()) {
            Some(d) => d,
            None => {
                return Err(BrewLogError::InvalidInput(String::from_str("Invalid date format")));
            },
        };
        let entries = match self.get_beer_entries(week_start_date, end_date) {
            Ok(v) => v,
            Err(e) => return Err(e),
        };
        Ok(sum_volumes(&entries))
    }

    /// The per-entry averages over a date range, as a baseline for later
    /// comparison; an empty range is `NotFound`.
    pub fn calculate_baseline(&self, start_date: String, end_date: String) -> (result: Result<
        Baseline,
        BrewLogError,
    >)
        requires
            self@.wf(),
        ensures
            ({
                let es = spec_get(self@, start_date@, end_date@);
                &&& (result is Err <==> es.len() == 0)
                &&& (result matches Err(e) ==> e is NotFound)
                &&& (result matches Ok(b) ==> b@.average_daily_consumption == total_volume(es) / (
                es.len() as int) && b@.average_weekly_consumption == 7 * (total_volume(es) / (
                es.len() as int)))
            }),
    {
        let entries = match self.get_beer_entries(start_date, end_date) {
            Ok(v) => v,
            Err(e) => return Err(e),
        };
        if entries.len() == 0 {
            return Err(
                BrewLogError::NotFound(
                    String::from_str("No entries found for baseline calculation"),
                ),
            );
        }
        let averages = compute_averages(&entries);
        Ok(
            Baseline {
                average_daily_consumption: averages.0,
                average_weekly_consumption: averages.1,
                calculated_date: now_timestamp(),
            },
        )
    }

    /// The per-entry averages over a period; the reduction percentage is a
    /// placeholder fixed at zero. An empty period is `NotFound`.
    pub fn get_progress_stats(&self, period_start: String, period_end: String) -> (result: Result<
        ProgressStats,
        BrewLogError,
    >)
        requires
            self@.wf(),
        ensures
            ({
                let es = spec_get(self@, period_start@, period_end@);
                &&& (result is Err <==> es.len() == 0)
                &&& (result matches Err(e) ==> e is NotFound)
                &&& (result matches Ok(b) ==> b@.current_daily_average == total_volume(es) / (
                es.len() as int) && b@.current_weekly_average == 7 * (total_volume(es) / (
                es.len() as int)) && b@.reduction_percentage == 0 && b@.period_start
                    == period_start@ && b@.period_end == period_end@)
            }),
    {
        let entries = match self.get_beer_entries(period_start.clone(), period_end.clone()) {
            Ok(v) => v,
            Err(e) => return Err(e),
        };
        if entries.len() == 0 {
            return Err(
                BrewLogError::NotFound(
                    String::from_str("No entries found for progress calculation"),
                ),
            );
        }
        let averages = compute_averages(&entries);
        Ok(
            ProgressStats {
                current_daily_average: averages.0,
                current_weekly_average: averages.1,
                reduction_percentage: 0,
                period_start: period_start,
                period_end: period_end,
            },
        )
    }
}

} // verus!
