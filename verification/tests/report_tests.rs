use srsglass::classify::Category;
use srsglass::date::CivilDate;
use srsglass::region::Region;
use srsglass::report::{total_population, Dump};
use srsglass::DumpError;

fn region(name: &str, population: i32, nations_before: i32, votes: i32, exec: bool) -> Region {
    Region {
        name: Some(name.to_string()),
        factbook: Some("A factbook".to_string()),
        population: Some(population),
        delegate_votes: Some(votes),
        delegate_exec: Some(exec),
        last_major: Some(1700000000),
        last_minor: Some(1700040000),
        nations_before: Some(nations_before),
        embassies: vec!["One".to_string(), "Two".to_string()],
    }
}

fn sample_date() -> CivilDate {
    CivilDate { year: 2023, month: 11, day: 13 }
}

fn dump(regions: Vec<Region>, governorless: Vec<String>, passwordless: Vec<String>) -> Dump {
    Dump { dump_date: sample_date(), regions, governorless, passwordless }
}

#[test]
fn categories_follow_the_priority_order() {
    let regions = vec![
        region("Both", 100, 0, 3, false),
        region("Neither", 100, 100, 3, false),
        region("ExecPwdless", 100, 200, 3, true),
        region("PlainPwdless", 100, 300, 3, false),
        region("GovlessLocked", 100, 400, 3, true),
    ];
    let governorless = vec!["Both".to_string(), "GovlessLocked".to_string()];
    let passwordless =
        vec!["Both".to_string(), "ExecPwdless".to_string(), "PlainPwdless".to_string()];
    let report = dump(regions, governorless, passwordless).report(5350, 3550, 0).unwrap();
    let cats: Vec<Category> = report.rows.iter().map(|r| r.category).collect();
    assert_eq!(
        cats,
        vec![
            Category::FullyOpen,
            Category::Locked,
            Category::DelegateRisk,
            Category::Neutral,
            Category::Locked,
        ]
    );
}

#[test]
fn membership_in_both_sets_is_fully_open_and_in_neither_is_locked() {
    let regions = vec![region("Open", 50, 0, 1, true), region("Shut", 50, 50, 1, true)];
    let governorless = vec!["Open".to_string()];
    let passwordless = vec!["Open".to_string()];
    let report = dump(regions, governorless, passwordless).report(5350, 3550, 0).unwrap();
    assert_eq!(report.rows[0].category, Category::FullyOpen);
    assert_eq!(report.rows[1].category, Category::Locked);
}

#[test]
fn zero_votes_flagged_and_positive_votes_lose_self_endorsement() {
    let regions = vec![region("Zero", 50, 0, 0, false), region("Five", 50, 50, 5, false)];
    let report = dump(regions, vec![], vec![]).report(5350, 3550, 0).unwrap();
    assert_eq!(report.rows[0].delegate_votes, 0);
    assert_eq!(report.rows[0].endorsements, 0);
    assert!(report.rows[0].zero_votes);
    assert_eq!(report.rows[1].delegate_votes, 5);
    assert_eq!(report.rows[1].endorsements, 4);
    assert!(!report.rows[1].zero_votes);
}

#[test]
fn precision_four_is_rejected_before_any_region_is_processed() {
    // The region would fail assembly (population missing), but the
    // configuration error comes first.
    let broken = Region { population: None, ..region("A", 1, 0, 1, false) };
    let d = dump(vec![broken], vec![], vec![]);
    assert!(matches!(d.report(5350, 3550, 4), Err(DumpError::InvalidConfiguration)));
    assert!(matches!(d.report(5350, 3550, -1), Err(DumpError::InvalidConfiguration)));
}

#[test]
fn empty_dump_has_no_total() {
    let d = dump(vec![], vec![], vec![]);
    assert!(matches!(d.report(5350, 3550, 0), Err(DumpError::MissingAggregate)));
}

#[test]
fn zero_total_population_fails_the_run() {
    let d = dump(vec![region("A", 0, 0, 1, false)], vec![], vec![]);
    assert!(matches!(d.report(5350, 3550, 0), Err(DumpError::MissingAggregate)));
}

#[test]
fn total_comes_from_the_last_region() {
    let regions = vec![region("A", 400, 0, 1, false), region("B", 600, 400, 1, false)];
    assert_eq!(total_population(&regions), Some(1000));
    let report = dump(regions, vec![], vec![]).report(5350, 3550, 0).unwrap();
    assert_eq!(report.total_population, 1000);
}

#[test]
fn incomplete_regions_are_silently_dropped() {
    let mut incomplete = region("NoFactbook", 100, 400, 1, false);
    incomplete.factbook = None;
    let regions = vec![region("A", 400, 0, 1, false), incomplete, region("B", 600, 500, 1, false)];
    let report = dump(regions, vec![], vec![]).report(5350, 3550, 0).unwrap();
    let names: Vec<&str> = report.rows.iter().map(|r| r.name.as_str()).collect();
    assert_eq!(names, vec!["A", "B"]);
}

#[test]
fn missing_delegate_authority_does_not_drop_the_region() {
    let mut r = region("NoAuth", 100, 0, 1, false);
    r.delegate_exec = None;
    let passwordless = vec!["NoAuth".to_string()];
    let report = dump(vec![r], vec![], passwordless).report(5350, 3550, 0).unwrap();
    assert_eq!(report.rows.len(), 1);
    // Without authority information rule two cannot fire.
    assert_eq!(report.rows[0].category, Category::Neutral);
}

#[test]
fn links_are_lowercased_with_underscores() {
    let report =
        dump(vec![region("The North Pacific", 10, 0, 1, false)], vec![], vec![])
            .report(5350, 3550, 0)
            .unwrap();
    assert_eq!(report.rows[0].link, "https://www.nationstates.net/region=the_north_pacific");
}

#[test]
fn long_cells_are_truncated_to_the_sink_limit() {
    let mut r = region("Wordy", 10, 0, 1, false);
    r.factbook = Some("x".repeat(40000));
    r.embassies = (0..4000).map(|i| format!("embassy{}", i)).collect();
    let report = dump(vec![r], vec![], vec![]).report(5350, 3550, 0).unwrap();
    assert_eq!(report.rows[0].factbook.chars().count(), 32767);
    assert_eq!(report.rows[0].embassies.chars().count(), 32767);
    let joined: String = (0..4000).map(|i| format!("embassy{}", i)).collect::<Vec<_>>().join(",");
    assert!(joined.starts_with(report.rows[0].embassies.as_str()));
}

#[test]
fn rows_carry_the_estimated_durations() {
    let regions = vec![region("A", 500, 0, 1, false), region("B", 500, 500, 1, false)];
    let report = dump(regions, vec![], vec![]).report(3600, 1800, 0).unwrap();
    let major = report.rows[1].major;
    let minor = report.rows[1].minor;
    assert_eq!((major.hours, major.minutes, major.seconds), (0, 30, 0));
    assert_eq!((minor.hours, minor.minutes, minor.seconds), (0, 15, 0));
}

#[test]
fn classification_is_idempotent_across_runs() {
    let regions = vec![
        region("Both", 100, 0, 3, false),
        region("Neither", 100, 100, 3, false),
        region("ExecPwdless", 100, 200, 3, true),
    ];
    let governorless = vec!["Both".to_string()];
    let passwordless = vec!["Both".to_string(), "ExecPwdless".to_string()];
    let d = dump(regions, governorless, passwordless);
    let first = d.report(5350, 3550, 0).unwrap();
    let second = d.report(5350, 3550, 0).unwrap();
    let a: Vec<Category> = first.rows.iter().map(|r| r.category).collect();
    let b: Vec<Category> = second.rows.iter().map(|r| r.category).collect();
    assert_eq!(a, b);
}
