//! The dump's reference date: the calendar day before the Eastern-time
//! civil date of the earliest major update among the regions.

use vstd::prelude::*;
use chrono::Datelike;
use crate::DumpError;
use crate::region::Region;

verus! {

/// A plain civil date.
#[derive(Clone, Copy, Debug, PartialEq, Eq, Structural)]
pub struct CivilDate {
    pub year: i32,
    pub month: u8,
    pub day: u8,
}

pub open spec fn civil_date_ok(d: CivilDate) -> bool {
    1 <= d.month <= 12 && 1 <= d.day <= 31
}

/// The civil date one calendar day before the Eastern-time date of the
/// given instant; a function of the epoch alone.
pub uninterp spec fn eastern_prev_day_of(epoch: i64) -> Option<(i32, u8, u8)>;

/// Relies on chrono's DateTime::from_timestamp, the Eastern zone of
/// chrono-tz, checked_sub_days, date_naive and the Datelike getters: the
/// civil date one day before the instant's Eastern date. The zone
/// database is compiled in, so the result depends on the epoch alone;
/// chrono documents month in 1..=12 and day in 1..=31.
#[verifier::external_body]
pub fn eastern_prev_civil_day(epoch: i64) -> (r: Option<(i32, u8, u8)>)
    ensures
        r == eastern_prev_day_of(epoch),
        r is Some ==> 1 <= (r->0).1 <= 12 && 1 <= (r->0).2 <= 31,
{
    let dt = chrono::DateTime::from_timestamp(epoch, 0)?;
    let dt = dt.with_timezone(&chrono_tz::US::Eastern);
    let dt = dt.checked_sub_days(chrono::Days::new(1))?;
    let d = dt.date_naive();
    Some((d.year(), d.month() as u8, d.day() as u8))
}

/// Whether some region lacks a major-update timestamp. Such a region
/// sorts below every timestamped one, so the snapshot boundary cannot be
/// determined.
pub open spec fn some_last_major_missing(rs: Seq<Region>) -> bool {
    exists|i: int| 0 <= i < rs.len() && (#[trigger] rs[i]).last_major is None
}

/// The least major-update timestamp, meaningful when none is missing.
pub open spec fn min_last_major(rs: Seq<Region>) -> i64
    decreases rs.len(),
{
    if rs.len() <= 1 {
        rs[0].last_major->0
    } else {
        let m = min_last_major(rs.drop_last());
        let v = rs.last().last_major->0;
        if v < m {
            v
        } else {
            m
        }
    }
}

/// The calendar date the upstream system considers the snapshot to
/// represent: the day before the Eastern date of the earliest major
/// update. Fails when the region list is empty, some region has no
/// major-update timestamp, or the instant has no representable date.
pub fn compute_dump_date(regions: &Vec<Region>) -> (r: Result<CivilDate, DumpError>)
    ensures
        regions@.len() == 0 ==> r == Result::<CivilDate, DumpError>::Err(
            DumpError::MissingAggregate,
        ),
        regions@.len() > 0 && some_last_major_missing(regions@) ==> r == Result::<
            CivilDate,
            DumpError,
        >::Err(DumpError::MissingAggregate),
        regions@.len() > 0 && !some_last_major_missing(regions@) ==> match eastern_prev_day_of(
            min_last_major(regions@),
        ) {
            Some(d) => {
                &&& r is Ok
                &&& r->Ok_0 == (CivilDate { year: d.0, month: d.1, day: d.2 })
                &&& civil_date_ok(r->Ok_0)
            },
            None => r == Result::<CivilDate, DumpError>::Err(DumpError::MissingAggregate),
        },
{
    if regions.len() == 0 {
        return Err(DumpError::MissingAggregate);
    }
    let mut best: i64 = match regions[0].last_major {
        Some(v) => v,
        None => {
            proof {
                assert(regions@[0].last_major is None);
            }
            return Err(DumpError::MissingAggregate);
        },
    };
    let mut i: usize = 1;
    while i < regions.len()
        invariant
            1 <= i <= regions@.len(),
            forall|j: int| 0 <= j < i ==> (#[trigger] regions@[j]).last_major is Some,
            best == min_last_major(regions@.take(i as int)),
        decreases regions@.len() - i,
    {
        match regions[i].last_major {
            Some(v) => {
                proof {
                    let t = regions@.take(i + 1);
                    assert(t.drop_last() =~= regions@.take(i as int));
                    assert(t.last() == regions@[i as int]);
                }
                if v < best {
                    best = v;
                }
            },
            None => {
                proof {
                    assert(regions@[i as int].last_major is None);
                }
                return Err(DumpError::MissingAggregate);
            },
        }
        i = i + 1;
    }
    proof {
        assert(regions@.take(regions@.len() as int) =~= regions@);
        assert(!some_last_major_missing(regions@));
    }
    match eastern_prev_civil_day(best) {
        Some(d) => Ok(CivilDate { year: d.0, month: d.1, day: d.2 }),
        None => Err(DumpError::MissingAggregate),
    }
}

} // verus!
