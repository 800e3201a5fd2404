//! The sections of the day and the clock ranges that make them up.

use vstd::prelude::*;

verus! {

/// How many minutes a day has.
pub const MINUTES_PER_DAY: u16 = 1440;

/// How many seconds a minute has.
pub const SECONDS_PER_MINUTE: u64 = 60;

/// A named part of the day.
#[derive(Clone, Copy, Debug, PartialEq, Eq, Structural)]
pub enum DaySection {
    Morning,
    Afternoon,
    Evening,
    Night,
}

impl DaySection {
    /// The name of the section, in lower case.
    pub open spec fn name_spec(self) -> Seq<char> {
        match self {
            DaySection::Morning => "morning"@,
            DaySection::Afternoon => "afternoon"@,
            DaySection::Evening => "evening"@,
            DaySection::Night => "night"@,
        }
    }

    /// The name of the section, in lower case.
    pub fn name(&self) -> (name: &'static str)
        ensures
            name@ == self.name_spec(),
    {
        match self {
            DaySection::Morning => "morning",
            DaySection::Afternoon => "afternoon",
            DaySection::Evening => "evening",
            DaySection::Night => "night",
        }
    }
}

/// The minute of the day at `now`, a time in seconds on the local wall
/// clock, counted from a midnight.
pub open spec fn minute_of_day(now: u64) -> int {
    (now / SECONDS_PER_MINUTE) as int % MINUTES_PER_DAY as int
}

/// A stretch of the clock that belongs to one section: the minutes of the day
/// from `start` up to, and without, `end`. Where `end` is not after `start`
/// the stretch runs over midnight.
#[derive(Clone, Copy, Debug, PartialEq, Eq, Structural)]
pub struct SectionRange {
    pub section: DaySection,
    pub start: u16,
    pub end: u16,
}

impl SectionRange {
    /// Whether the stretch holds the given minute of the day.
    pub open spec fn covers(self, minute: int) -> bool {
        if self.start < self.end {
            self.start <= minute < self.end
        } else {
            self.start <= minute || minute < self.end
        }
    }

    /// Both bounds are minutes of the day.
    pub open spec fn within_day(self) -> bool {
        self.start < MINUTES_PER_DAY && self.end < MINUTES_PER_DAY
    }

    /// Whether the stretch holds the given minute of the day.
    pub fn holds(&self, minute: u16) -> (r: bool)
        ensures
            r == self.covers(minute as int),
    {
        if self.start < self.end {
            self.start <= minute && minute < self.end
        } else {
            self.start <= minute || minute < self.end
        }
    }
}

/// The range at `index` is the only one that holds the minute.
pub open spec fn sole_cover(ranges: Seq<SectionRange>, minute: int, index: int) -> bool {
    &&& 0 <= index < ranges.len()
    &&& ranges[index].covers(minute)
    &&& forall|j: int| 0 <= j < ranges.len() && ranges[j].covers(minute) ==> j == index
}

/// Exactly one of the ranges holds the minute.
pub open spec fn covered_once(ranges: Seq<SectionRange>, minute: int) -> bool {
    exists|index: int| sole_cover(ranges, minute, index)
}

/// Every range lies within the day, and every minute of the day lies in
/// exactly one of them: they leave no gap and do not overlap.
pub open spec fn is_schedule(ranges: Seq<SectionRange>) -> bool {
    &&& forall|j: int| 0 <= j < ranges.len() ==> (#[trigger] ranges[j]).within_day()
    &&& forall|minute: int|
        0 <= minute < MINUTES_PER_DAY ==> #[trigger] covered_once(ranges, minute)
}

/// Why a list of ranges is no schedule.
#[derive(Clone, Copy, Debug, PartialEq, Eq, Structural)]
pub enum ScheduleError {
    /// The range at this index has a bound that is no minute of the day.
    BoundOutOfDay(usize),
    /// No range holds this minute of the day.
    Gap(u16),
    /// More than one range holds this minute of the day.
    Overlap(u16),
}

/// Whether `fault` is the first fault of the ranges: the first range with a
/// bound outside the day, else the first minute of the day that is not in
/// exactly one range.
pub open spec fn schedule_fault(ranges: Seq<SectionRange>, fault: ScheduleError) -> bool {
    match fault {
        ScheduleError::BoundOutOfDay(index) => {
            &&& index < ranges.len()
            &&& !ranges[index as int].within_day()
            &&& forall|j: int| 0 <= j < index ==> (#[trigger] ranges[j]).within_day()
        },
        ScheduleError::Gap(minute) => {
            &&& forall|j: int| 0 <= j < ranges.len() ==> (#[trigger] ranges[j]).within_day()
            &&& minute < MINUTES_PER_DAY
            &&& forall|j: int|
                0 <= j < ranges.len() ==> !(#[trigger] ranges[j]).covers(minute as int)
            &&& forall|m: int| 0 <= m < minute ==> #[trigger] covered_once(ranges, m)
        },
        ScheduleError::Overlap(minute) => {
            &&& forall|j: int| 0 <= j < ranges.len() ==> (#[trigger] ranges[j]).within_day()
            &&& minute < MINUTES_PER_DAY
            &&& exists|i: int, j: int|
                0 <= i < j < ranges.len() && (#[trigger] ranges[i]).covers(minute as int) && (
                #[trigger] ranges[j]).covers(minute as int)
            &&& forall|m: int| 0 <= m < minute ==> #[trigger] covered_once(ranges, m)
        },
    }
}

/// The ranges of a day, each with its section.
pub struct DaySchedule {
    ranges: Vec<SectionRange>,
}

impl View for DaySchedule {
    type V = Seq<SectionRange>;

    closed spec fn view(&self) -> Seq<SectionRange> {
        self.ranges@
    }
}

impl DaySchedule {
    /// The ranges lie within the day and partition it.
    #[verifier::type_invariant]
    pub open spec fn well_formed(self) -> bool {
        is_schedule(self@)
    }

    /// The section of the one range that holds the minute.
    pub open spec fn section_at(self, minute: int) -> DaySection {
        self@[choose|index: int| sole_cover(self@, minute, index)].section
    }

    /// Makes a schedule of the ranges, or names their first fault.
    pub fn new(ranges: Vec<SectionRange>) -> (r: Result<DaySchedule, ScheduleError>)
        ensures
            match r {
                Ok(schedule) => schedule@ == ranges@ && is_schedule(ranges@),
                Err(fault) => schedule_fault(ranges@, fault),
            },
    {
        let mut k: usize = 0;
        while k < ranges.len()
            invariant
                k <= ranges.len(),
                forall|j: int| 0 <= j < k ==> (#[trigger] ranges@[j]).within_day(),
            decreases ranges.len() - k,
        {
            if !(ranges[k].start < MINUTES_PER_DAY && ranges[k].end < MINUTES_PER_DAY) {
                return Err(ScheduleError::BoundOutOfDay(k));
            }
            k += 1;
        }
        let mut minute: u16 = 0;
        while minute < MINUTES_PER_DAY
            invariant
                minute <= MINUTES_PER_DAY,
                forall|j: int| 0 <= j < ranges@.len() ==> (#[trigger] ranges@[j]).within_day(),
                forall|m: int| 0 <= m < minute ==> #[trigger] covered_once(ranges@, m),
            decreases MINUTES_PER_DAY - minute,
        {
            let mut found: Option<usize> = None;
            let mut j: usize = 0;
            while j < ranges.len()
                invariant
                    j <= ranges.len(),
                    minute < MINUTES_PER_DAY,
                    forall|i: int| 0 <= i < ranges@.len() ==> (#[trigger] ranges@[i]).within_day(),
                    forall|m: int| 0 <= m < minute ==> #[trigger] covered_once(ranges@, m),
                    match found {
                        None => forall|i: int|
                            0 <= i < j ==> !(#[trigger] ranges@[i]).covers(minute as int),
                        Some(f) => {
                            &&& f < j
                            &&& ranges@[f as int].covers(minute as int)
                            &&& forall|i: int|
                                0 <= i < j && (#[trigger] ranges@[i]).covers(minute as int) ==> i
                                    == f
                        },
                    },
                decreases ranges.len() - j,
            {
                if ranges[j].holds(minute) {
                    match found {
                        Some(f) => {
                            return Err(ScheduleError::Overlap(minute));
                        },
                        None => {
                            found = Some(j);
                        },
                    }
                }
                j += 1;
            }
            match found {
                None => {
                    return Err(ScheduleError::Gap(minute));
                },
                Some(f) => {
                    assert(sole_cover(ranges@, minute as int, f as int));
                },
            }
            minute += 1;
        }
        Ok(DaySchedule { ranges })
    }

    /// The ranges of an ordinary day: morning from 05:00, afternoon from
    /// 12:00, evening from 17:00, night from 22:00.
    pub open spec fn standard_ranges() -> Seq<SectionRange> {
        seq![
            SectionRange { section: DaySection::Morning, start: 300, end: 720 },
            SectionRange { section: DaySection::Afternoon, start: 720, end: 1020 },
            SectionRange { section: DaySection::Evening, start: 1020, end: 1320 },
            SectionRange { section: DaySection::Night, start: 1320, end: 300 },
        ]
    }

    /// The schedule of an ordinary day.
    pub fn standard() -> (schedule: DaySchedule)
        ensures
            schedule@ == DaySchedule::standard_ranges(),
    {
        let mut ranges: Vec<SectionRange> = Vec::new();
        ranges.push(SectionRange { section: DaySection::Morning, start: 300, end: 720 });
        ranges.push(SectionRange { section: DaySection::Afternoon, start: 720, end: 1020 });
        ranges.push(SectionRange { section: DaySection::Evening, start: 1020, end: 1320 });
        ranges.push(SectionRange { section: DaySection::Night, start: 1320, end: 300 });
        assert forall|minute: int| 0 <= minute < MINUTES_PER_DAY implies #[trigger] covered_once(
            ranges@,
            minute,
        ) by {
            if minute < 300 {
                assert(sole_cover(ranges@, minute, 3));
            } else if minute < 720 {
                assert(sole_cover(ranges@, minute, 0));
            } else if minute < 1020 {
                assert(sole_cover(ranges@, minute, 1));
            } else if minute < 1320 {
                assert(sole_cover(ranges@, minute, 2));
            } else {
                assert(sole_cover(ranges@, minute, 3));
            }
        }
        assert(ranges@ =~= DaySchedule::standard_ranges());
        DaySchedule { ranges }
    }

    /// The ranges, in the order in which they were given.
    pub fn ranges(&self) -> (ranges: &Vec<SectionRange>)
        ensures
            ranges@ == self@,
            is_schedule(self@),
    {
        proof {
            use_type_invariant(self);
        }
        &self.ranges
    }

    /// The section of the day at `now`, a time in seconds on the local wall
    /// clock, counted from a midnight.
    pub fn resolve(&self, now: u64) -> (section: DaySection)
        ensures
            section == self.section_at(minute_of_day(now)),
            exists|index: int|
                sole_cover(self@, minute_of_day(now), index) && self@[index].section == section,
    {
        proof {
            use_type_invariant(self);
        }
        let minute: u16 = ((now / SECONDS_PER_MINUTE) % (MINUTES_PER_DAY as u64)) as u16;
        assert(covered_once(self@, minute as int));
        let ghost sole = choose|index: int| sole_cover(self@, minute as int, index);
        let mut j: usize = 0;
        while !self.ranges[j].holds(minute)
            invariant
                0 <= j <= sole < self.ranges.len(),
                self.ranges@ == self@,
                sole_cover(self@, minute as int, sole),
            decreases sole - j,
        {
            j += 1;
        }
        self.ranges[j].section
    }
}

/// Ranges that have a fault are no schedule.
pub proof fn law_fault_excludes_schedule(ranges: Seq<SectionRange>, fault: ScheduleError)
    requires
        schedule_fault(ranges, fault),
    ensures
        !is_schedule(ranges),
{
    if is_schedule(ranges) {
        match fault {
            ScheduleError::BoundOutOfDay(index) => {
                assert(ranges[index as int].within_day());
            },
            ScheduleError::Gap(minute) => {
                assert(covered_once(ranges, minute as int));
            },
            ScheduleError::Overlap(minute) => {
                assert(covered_once(ranges, minute as int));
            },
        }
    }
}

/// Ranges have at most one first fault.
pub proof fn law_fault_is_unique(ranges: Seq<SectionRange>, a: ScheduleError, b: ScheduleError)
    requires
        schedule_fault(ranges, a),
        schedule_fault(ranges, b),
    ensures
        a == b,
{
    let minute_a: int = match a {
        ScheduleError::BoundOutOfDay(_) => -1,
        ScheduleError::Gap(m) => m as int,
        ScheduleError::Overlap(m) => m as int,
    };
    let minute_b: int = match b {
        ScheduleError::BoundOutOfDay(_) => -1,
        ScheduleError::Gap(m) => m as int,
        ScheduleError::Overlap(m) => m as int,
    };
    match (a, b) {
        (ScheduleError::BoundOutOfDay(i), ScheduleError::BoundOutOfDay(j)) => {
            assert(ranges[i as int].within_day() || i >= j);
            assert(ranges[j as int].within_day() || j >= i);
        },
        (ScheduleError::BoundOutOfDay(i), _) => {
            assert(ranges[i as int].within_day());
        },
        (_, ScheduleError::BoundOutOfDay(j)) => {
            assert(ranges[j as int].within_day());
        },
        _ => {
            if minute_a < minute_b {
                assert(covered_once(ranges, minute_a));
            } else if minute_b < minute_a {
                assert(covered_once(ranges, minute_b));
            }
        },
    }
}

/// The ranges of a schedule cover the whole day without gap or overlap, and
/// at every time exactly one of them holds the minute of the day, so the
/// time has one section and only one.
pub proof fn law_every_time_has_one_section(schedule: DaySchedule, now: u64)
    requires
        schedule.well_formed(),
    ensures
        forall|minute: int|
            0 <= minute < MINUTES_PER_DAY ==> #[trigger] covered_once(schedule@, minute),
        0 <= minute_of_day(now) < MINUTES_PER_DAY,
        exists|index: int|
            sole_cover(schedule@, minute_of_day(now), index) && schedule@[index].section
                == schedule.section_at(minute_of_day(now)),
{
    assert(covered_once(schedule@, minute_of_day(now)));
}

} // verus!
