//! Runs of consecutive days: a sorted list of dates is written as the
//! shortest list of ranges that holds the same days.

use crate::date::{
    lemma_at_own_number, lemma_day_is_at, lemma_day_number_bounds, lemma_same_day_number,
    CalendarDate,
};
use crate::text::range_joiner;
use vstd::prelude::*;
use vstd::string::*;

verus! {

/// Every day from `first` to `last`, both included, in order; empty where
/// `last` lies before `first`.
pub open spec fn days_between(first: CalendarDate, last: CalendarDate) -> Seq<CalendarDate> {
    if first@ <= last@ {
        Seq::new((last@ - first@ + 1) as nat, |i: int| CalendarDate::at(first@ + i))
    } else {
        Seq::empty()
    }
}

/// A run of consecutive days, from `start` to `end`, both included.
#[derive(Clone, Copy, Debug, PartialEq, Eq, Structural)]
pub struct DateRange {
    pub start: CalendarDate,
    pub end: CalendarDate,
}

impl DateRange {
    /// Whether both ends are days of the calendar and the start does not lie
    /// after the end.
    pub open spec fn wf(self) -> bool {
        self.start.valid() && self.end.valid() && self.start@ <= self.end@
    }

    /// The days of the range, in order.
    pub open spec fn days(self) -> Seq<CalendarDate> {
        days_between(self.start, self.end)
    }

    /// Whether `date` is one of the days of the range.
    pub open spec fn covers(self, date: CalendarDate) -> bool {
        date.valid() && self.start@ <= date@ <= self.end@
    }

    /// The written form of the range: the one date of a range of one day,
    /// and the two ends with ` :: ` between them otherwise.
    pub open spec fn text(self) -> Seq<char> {
        if self.start == self.end {
            self.start.text()
        } else {
            self.start.text() + range_joiner() + self.end.text()
        }
    }

    /// The written form of the range.
    pub fn render(&self) -> (text: String)
        ensures
            text@ == self.text(),
    {
        if self.start == self.end {
            self.start.to_text()
        } else {
            let mut text = self.start.to_text();
            let end_text = self.end.to_text();
            proof {
                reveal_strlit(" :: ");
                assert(" :: "@ =~= range_joiner());
            }
            text.append(" :: ");
            text.append(end_text.as_str());
            text
        }
    }
}

/// The ranges that a scan of `dates` from left to right yields: a date that
/// is the day after the end of the current run extends that run, and any
/// other date closes it and starts a new one.
pub open spec fn runs(dates: Seq<CalendarDate>) -> Seq<DateRange>
    decreases dates.len(),
{
    if dates.len() == 0 {
        Seq::empty()
    } else {
        let before = runs(dates.drop_last());
        let date = dates.last();
        if before.len() > 0 && date@ == before.last().end@ + 1 {
            before.drop_last().push(DateRange { start: before.last().start, end: date })
        } else {
            before.push(DateRange { start: date, end: date })
        }
    }
}

/// The days of all `ranges`, one range after the other.
pub open spec fn all_days(ranges: Seq<DateRange>) -> Seq<CalendarDate>
    decreases ranges.len(),
{
    if ranges.len() == 0 {
        Seq::empty()
    } else {
        all_days(ranges.drop_last()) + ranges.last().days()
    }
}

/// Whether each date of `dates` lies before the next: ascending, with no
/// date twice.
pub open spec fn ascending(dates: Seq<CalendarDate>) -> bool {
    forall|i: int, j: int| 0 <= i < j < dates.len() ==> dates[i]@ < dates[j]@
}

/// Whether every date of `dates` is a day of the calendar.
pub open spec fn all_valid(dates: Seq<CalendarDate>) -> bool {
    forall|i: int| 0 <= i < dates.len() ==> (#[trigger] dates[i]).valid()
}

/// The days from one valid date to another are days of the calendar with
/// consecutive day numbers: the first date, then each day after the one
/// before, up to the last date.
pub proof fn lemma_days_between_are_consecutive(first: CalendarDate, last: CalendarDate)
    requires
        first.valid(),
        last.valid(),
        first@ <= last@,
    ensures
        days_between(first, last).len() == last@ - first@ + 1,
        days_between(first, last).first() == first,
        days_between(first, last).last() == last,
        forall|i: int|
            0 <= i < days_between(first, last).len() ==> (#[trigger] days_between(
                first,
                last,
            )[i]).valid() && days_between(first, last)[i]@ == first@ + i,
{
    lemma_at_own_number(first);
    lemma_at_own_number(last);
    lemma_day_number_bounds(first);
    lemma_day_number_bounds(last);
    assert forall|i: int| 0 <= i < days_between(first, last).len() implies (#[trigger] days_between(
        first,
        last,
    )[i]).valid() && days_between(first, last)[i]@ == first@ + i by {
        lemma_day_is_at(first@ + i);
    }
}

/// A range that ends one day later has the same days and that day after
/// them.
proof fn lemma_days_extend(range: DateRange, date: CalendarDate)
    requires
        range.wf(),
        date.valid(),
        date@ == range.end@ + 1,
    ensures
        (DateRange { start: range.start, end: date }).days() == range.days().push(date),
{
    lemma_at_own_number(date);
    let longer = DateRange { start: range.start, end: date };
    assert(longer.days() =~= range.days().push(date));
}

/// The days of a range of one day are that day.
pub proof fn lemma_days_single(date: CalendarDate)
    requires
        date.valid(),
    ensures
        (DateRange { start: date, end: date }).days() == seq![date],
{
    lemma_at_own_number(date);
    assert((DateRange { start: date, end: date }).days() =~= seq![date]);
}

/// The ranges of a scan hold exactly the dates scanned, in their order, and
/// no range can be joined to the next: the ranges are sound, their days one
/// after the other are the dates themselves, no range starts on the day
/// after the one before it ends, and the last range ends with the last date.
pub proof fn lemma_runs_hold_the_dates(dates: Seq<CalendarDate>)
    requires
        all_valid(dates),
    ensures
        forall|k: int| 0 <= k < runs(dates).len() ==> (#[trigger] runs(dates)[k]).wf(),
        all_days(runs(dates)) == dates,
        forall|k: int|
            0 <= k < runs(dates).len() - 1 ==> (#[trigger] runs(dates)[k]).end@ + 1 != runs(
                dates,
            )[k + 1].start@,
        dates.len() == 0 <==> runs(dates).len() == 0,
        dates.len() > 0 ==> runs(dates).last().end == dates.last(),
    decreases dates.len(),
{
    if dates.len() > 0 {
        let shorter = dates.drop_last();
        let before = runs(shorter);
        let date = dates.last();
        assert(all_valid(shorter));
        assert(date == dates[dates.len() - 1]);
        lemma_runs_hold_the_dates(shorter);
        assert(dates =~= shorter.push(date));
        if before.len() > 0 && date@ == before.last().end@ + 1 {
            let last = before.last();
            let longer = DateRange { start: last.start, end: date };
            let after = before.drop_last().push(longer);
            assert(runs(dates) == after);
            lemma_days_extend(last, date);
            assert(after.drop_last() =~= before.drop_last());
            assert(all_days(after) =~= all_days(before).push(date));
            assert forall|k: int| 0 <= k < after.len() - 1 implies (#[trigger] after[k]).end@ + 1
                != after[k + 1].start@ by {
                assert(after[k] == before[k]);
                assert(after[k + 1].start == before[k + 1].start);
            }
        } else {
            let single = DateRange { start: date, end: date };
            let after = before.push(single);
            assert(runs(dates) == after);
            lemma_days_single(date);
            assert(after.drop_last() =~= before);
            assert(all_days(after) =~= all_days(before).push(date));
            assert forall|k: int| 0 <= k < after.len() - 1 implies (#[trigger] after[k]).end@ + 1
                != after[k + 1].start@ by {
                assert(after[k] == before[k]);
                if k + 1 < before.len() {
                    assert(after[k + 1] == before[k + 1]);
                }
            }
        }
    }
}

/// Where the dates scanned are ascending, two days or more lie between the
/// end of a range and the start of the next: the ranges are in order, do
/// not overlap and do not touch.
pub proof fn lemma_runs_of_ascending_dates(dates: Seq<CalendarDate>)
    requires
        all_valid(dates),
        ascending(dates),
    ensures
        forall|k: int|
            0 <= k < runs(dates).len() - 1 ==> (#[trigger] runs(dates)[k]).end@ + 2 <= runs(
                dates,
            )[k + 1].start@,
    decreases dates.len(),
{
    if dates.len() > 0 {
        let shorter = dates.drop_last();
        let before = runs(shorter);
        let date = dates.last();
        assert(all_valid(shorter));
        assert(ascending(shorter));
        lemma_runs_of_ascending_dates(shorter);
        lemma_runs_hold_the_dates(shorter);
        if before.len() > 0 && date@ == before.last().end@ + 1 {
            let after = before.drop_last().push(
                DateRange { start: before.last().start, end: date },
            );
            assert forall|k: int| 0 <= k < after.len() - 1 implies (#[trigger] after[k]).end@ + 2
                <= after[k + 1].start@ by {
                assert(after[k] == before[k]);
                assert(after[k + 1].start == before[k + 1].start);
            }
        } else {
            let after = before.push(DateRange { start: date, end: date });
            assert forall|k: int| 0 <= k < after.len() - 1 implies (#[trigger] after[k]).end@ + 2
                <= after[k + 1].start@ by {
                assert(after[k] == before[k]);
                if k + 1 < before.len() {
                    assert(after[k + 1] == before[k + 1]);
                } else {
                    assert(before.last().end == shorter.last());
                    assert(shorter.last() == dates[dates.len() - 2]);
                    assert(date == dates[dates.len() - 1]);
                }
            }
        }
    }
}

/// A date is among the days of a list of sound ranges exactly when one of
/// the ranges covers it.
pub proof fn lemma_all_days_are_covered(ranges: Seq<DateRange>, date: CalendarDate)
    requires
        forall|k: int| 0 <= k < ranges.len() ==> (#[trigger] ranges[k]).wf(),
    ensures
        all_days(ranges).contains(date) <==> exists|k: int|
            0 <= k < ranges.len() && (#[trigger] ranges[k]).covers(date),
    decreases ranges.len(),
{
    if ranges.len() > 0 {
        let shorter = ranges.drop_last();
        let last = ranges.last();
        lemma_all_days_are_covered(shorter, date);
        let earlier = all_days(shorter);
        let days = last.days();
        assert(last.wf());
        if all_days(ranges).contains(date) {
            let i = choose|i: int| 0 <= i < all_days(ranges).len() && all_days(ranges)[i] == date;
            if i < earlier.len() {
                assert(earlier[i] == date);
                let k = choose|k: int| 0 <= k < shorter.len() && (#[trigger] shorter[k]).covers(
                    date,
                );
                assert(ranges[k].covers(date));
            } else {
                let offset = i - earlier.len();
                assert(days[offset] == date);
                lemma_day_is_at(last.start@ + offset);
                assert(ranges[ranges.len() - 1].covers(date));
            }
        }
        if exists|k: int| 0 <= k < ranges.len() && (#[trigger] ranges[k]).covers(date) {
            let k = choose|k: int| 0 <= k < ranges.len() && (#[trigger] ranges[k]).covers(date);
            if k < shorter.len() {
                assert(shorter[k].covers(date));
                let i = choose|i: int| 0 <= i < earlier.len() && earlier[i] == date;
                assert(all_days(ranges)[i] == date);
            } else {
                lemma_at_own_number(date);
                let offset = date@ - last.start@;
                assert(days[offset] == date);
                assert(all_days(ranges)[earlier.len() + offset] == date);
            }
        }
    }
}

/// The ranges of a scan cover exactly the dates scanned: expanded day by
/// day, they are the set of those dates.
pub proof fn lemma_runs_cover_the_dates(dates: Seq<CalendarDate>, date: CalendarDate)
    requires
        all_valid(dates),
    ensures
        dates.contains(date) <==> exists|k: int|
            0 <= k < runs(dates).len() && (#[trigger] runs(dates)[k]).covers(date),
{
    lemma_runs_hold_the_dates(dates);
    lemma_all_days_are_covered(runs(dates), date);
}

/// What one more date does to the ranges of a scan.
proof fn lemma_runs_push(scanned: Seq<CalendarDate>, date: CalendarDate)
    ensures
        runs(scanned.push(date)) == if runs(scanned).len() > 0 && date@ == runs(
            scanned,
        ).last().end@ + 1 {
            runs(scanned).drop_last().push(
                DateRange { start: runs(scanned).last().start, end: date },
            )
        } else {
            runs(scanned).push(DateRange { start: date, end: date })
        },
{
    assert(scanned.push(date).drop_last() =~= scanned);
}

/// The last of the days of a list of ranges is the end of the last range,
/// and the days before it are the days of the ranges before and all but the
/// last day of the last range.
proof fn lemma_last_of_all_days(ranges: Seq<DateRange>)
    requires
        ranges.len() > 0,
        ranges.last().wf(),
    ensures
        all_days(ranges).len() > 0,
        all_days(ranges).last() == ranges.last().end,
        all_days(ranges).drop_last() == all_days(ranges.drop_last()) + ranges.last().days().drop_last(),
{
    let days = ranges.last().days();
    lemma_at_own_number(ranges.last().end);
    assert(days[days.len() - 1] == ranges.last().end);
    assert(all_days(ranges).drop_last() =~= all_days(ranges.drop_last()) + days.drop_last());
}

/// A sound range without its last day, where it has more than one day, is
/// a sound range that ends on the day before.
proof fn lemma_days_shorten(range: DateRange)
    requires
        range.wf(),
        range.start@ < range.end@,
    ensures
        (DateRange { start: range.start, end: CalendarDate::at(range.end@ - 1) }).wf(),
        CalendarDate::at(range.end@ - 1)@ == range.end@ - 1,
        (DateRange { start: range.start, end: CalendarDate::at(range.end@ - 1) }).days()
            == range.days().drop_last(),
{
    lemma_day_number_bounds(range.start);
    lemma_day_number_bounds(range.end);
    lemma_day_is_at(range.end@ - 1);
    let shortened = DateRange { start: range.start, end: CalendarDate::at(range.end@ - 1) };
    assert(shortened.days() =~= range.days().drop_last());
}

/// One step of the proof that the ranges of a scan are the only ones: the
/// same ranges without the last day.
proof fn lemma_ranges_without_last_day(ranges: Seq<DateRange>) -> (others: Seq<DateRange>)
    requires
        ranges.len() > 0,
        forall|k: int| 0 <= k < ranges.len() ==> (#[trigger] ranges[k]).wf(),
        forall|k: int|
            0 <= k < ranges.len() - 1 ==> (#[trigger] ranges[k]).end@ + 1 != ranges[k + 1].start@,
    ensures
        forall|k: int| 0 <= k < others.len() ==> (#[trigger] others[k]).wf(),
        forall|k: int|
            0 <= k < others.len() - 1 ==> (#[trigger] others[k]).end@ + 1 != others[k + 1].start@,
        all_days(others) == all_days(ranges).drop_last(),
        ranges.last().start@ == ranges.last().end@ ==> others == ranges.drop_last() && (
        others.len() > 0 ==> others.last().end@ + 1 != ranges.last().end@),
        ranges.last().start@ < ranges.last().end@ ==> others.len() == ranges.len()
            && others.drop_last() == ranges.drop_last() && others.last().start
            == ranges.last().start && others.last().end@ + 1 == ranges.last().end@,
{
    let last = ranges.last();
    let rest = ranges.drop_last();
    assert(last.wf());
    lemma_last_of_all_days(ranges);
    if last.start@ == last.end@ {
        lemma_days_single(last.start);
        lemma_same_day_number(last.start, last.end);
        assert(last.days().drop_last() =~= Seq::<CalendarDate>::empty());
        assert(all_days(rest) =~= all_days(ranges).drop_last());
        assert forall|k: int| 0 <= k < rest.len() implies (#[trigger] rest[k]).wf() by {
            assert(rest[k] == ranges[k]);
        }
        assert forall|k: int| 0 <= k < rest.len() - 1 implies (#[trigger] rest[k]).end@ + 1
            != rest[k + 1].start@ by {
            assert(rest[k] == ranges[k]);
            assert(rest[k + 1] == ranges[k + 1]);
        }
        if rest.len() > 0 {
            assert(rest.last() == ranges[ranges.len() - 2]);
        }
        rest
    } else {
        lemma_days_shorten(last);
        let shortened = DateRange { start: last.start, end: CalendarDate::at(last.end@ - 1) };
        let others = rest.push(shortened);
        assert(others.drop_last() =~= rest);
        assert(others.last() == shortened);
        assert forall|k: int| 0 <= k < others.len() implies (#[trigger] others[k]).wf() by {
            if k < rest.len() {
                assert(others[k] == ranges[k]);
            }
        }
        assert forall|k: int| 0 <= k < others.len() - 1 implies (#[trigger] others[k]).end@ + 1
            != others[k + 1].start@ by {
            assert(others[k] == ranges[k]);
            assert(others[k + 1].start == ranges[k + 1].start);
        }
        others
    }
}

/// The ranges of a scan are the only ranges that hold the dates scanned and
/// cannot be joined: any list of sound ranges whose days, one after the
/// other, are the dates, and of which none starts on the day after the one
/// before it ends, is the list that the scan yields.
pub proof fn lemma_runs_are_the_only_ranges(dates: Seq<CalendarDate>, ranges: Seq<DateRange>)
    requires
        all_valid(dates),
        forall|k: int| 0 <= k < ranges.len() ==> (#[trigger] ranges[k]).wf(),
        all_days(ranges) == dates,
        forall|k: int|
            0 <= k < ranges.len() - 1 ==> (#[trigger] ranges[k]).end@ + 1 != ranges[k + 1].start@,
    ensures
        ranges == runs(dates),
    decreases dates.len(),
{
    if ranges.len() == 0 {
        assert(ranges =~= runs(dates));
    } else {
        let last = ranges.last();
        assert(last.wf());
        lemma_last_of_all_days(ranges);
        let date = dates.last();
        let shorter = dates.drop_last();
        assert(dates =~= shorter.push(date));
        assert(all_valid(shorter));
        let others = lemma_ranges_without_last_day(ranges);
        lemma_runs_are_the_only_ranges(shorter, others);
        lemma_runs_push(shorter, date);
        if last.start@ == last.end@ {
            lemma_same_day_number(last.start, last.end);
            assert(ranges =~= others.push(DateRange { start: date, end: date }));
        } else {
            assert(ranges =~= others.drop_last().push(
                DateRange { start: others.last().start, end: date },
            ));
        }
    }
}

/// The ranges of consecutive days in `dates`, scanned from left to right.
///
/// The ranges hold exactly the dates given, in their order, and no range
/// can be joined to the next. Where the dates are ascending, the ranges are
/// in order with two days or more between one and the next.
pub fn compress(dates: &Vec<CalendarDate>) -> (ranges: Vec<DateRange>)
    ensures
        ranges@ == runs(dates@),
        all_valid(dates@),
        forall|k: int| 0 <= k < ranges.len() ==> (#[trigger] ranges[k]).wf(),
        all_days(ranges@) == dates@,
        forall|k: int|
            0 <= k < ranges.len() - 1 ==> (#[trigger] ranges[k]).end@ + 1 != ranges[k + 1].start@,
        ascending(dates@) ==> forall|k: int|
            0 <= k < ranges.len() - 1 ==> (#[trigger] ranges[k]).end@ + 2 <= ranges[k + 1].start@,
{
    let mut ranges: Vec<DateRange> = Vec::new();
    if dates.len() == 0 {
        proof {
            lemma_runs_hold_the_dates(dates@);
        }
        return ranges;
    }
    let mut start = dates[0];
    let mut end = dates[0];
    proof {
        use_type_invariant(&start);
        lemma_runs_push(Seq::empty(), start);
        assert(dates@.subrange(0, 1) =~= Seq::<CalendarDate>::empty().push(start));
        assert(ranges@ =~= runs(Seq::empty()));
    }
    let mut index: usize = 1;
    while index < dates.len()
        invariant
            1 <= index <= dates.len(),
            forall|j: int| 0 <= j < index ==> (#[trigger] dates@[j]).valid(),
            runs(dates@.subrange(0, index as int)) == ranges@.push(DateRange { start, end }),
        decreases dates.len() - index,
    {
        let date = dates[index];
        let extends = date.follows(&end);
        proof {
            let scanned = dates@.subrange(0, index as int);
            lemma_runs_push(scanned, date);
            assert(dates@.subrange(0, index + 1) =~= scanned.push(date));
            assert(ranges@.push(DateRange { start, end }).drop_last() =~= ranges@);
        }
        if extends {
            end = date;
        } else {
            ranges.push(DateRange { start, end });
            start = date;
            end = date;
        }
        index = index + 1;
    }
    ranges.push(DateRange { start, end });
    proof {
        assert(dates@.subrange(0, index as int) =~= dates@);
        lemma_runs_hold_the_dates(dates@);
        if ascending(dates@) {
            lemma_runs_of_ascending_dates(dates@);
        }
    }
    ranges
}

} // verus!
