use srsglass::date::{compute_dump_date, CivilDate};
use srsglass::region::Region;
use srsglass::DumpError;

fn region_with_major(last_major: Option<i64>) -> Region {
    Region { last_major, ..Region::default() }
}

#[test]
fn epoch_zero_rolls_back_to_the_prior_eastern_day() {
    // Epoch 0 is 1969-12-31 19:00 in US Eastern time; one day earlier is
    // 1969-12-30.
    let regions = vec![region_with_major(Some(0))];
    let d = compute_dump_date(&regions).unwrap();
    assert_eq!(d, CivilDate { year: 1969, month: 12, day: 30 });
}

#[test]
fn modern_epoch_gives_the_day_before_the_eastern_date() {
    // 1700000000 is 2023-11-14 17:13:20 in US Eastern time.
    let regions = vec![region_with_major(Some(1700000000))];
    let d = compute_dump_date(&regions).unwrap();
    assert_eq!(d, CivilDate { year: 2023, month: 11, day: 13 });
}

#[test]
fn earliest_update_wins() {
    let regions = vec![
        region_with_major(Some(1700000000)),
        region_with_major(Some(1600000000)),
        region_with_major(Some(1800000000)),
    ];
    // 1600000000 is 2020-09-13 08:26:40 in US Eastern time.
    let d = compute_dump_date(&regions).unwrap();
    assert_eq!(d, CivilDate { year: 2020, month: 9, day: 12 });
}

#[test]
fn empty_region_list_cannot_date_the_dump() {
    assert_eq!(compute_dump_date(&vec![]), Err(DumpError::MissingAggregate));
}

#[test]
fn missing_major_timestamp_cannot_date_the_dump() {
    let regions = vec![region_with_major(Some(1700000000)), region_with_major(None)];
    assert_eq!(compute_dump_date(&regions), Err(DumpError::MissingAggregate));
}
