use california_dashboard::client::{DEFAULT_CONCURRENCY, DEFAULT_TIMEOUT_SECS};
use california_dashboard::model::{FetchSpec, SchoolRecord};
use california_dashboard::web::{
    apply_base_url, check_pull_settings, job_id, normalize_base_url, oldest_finished, plan_job,
    row_limit, search_limit, JobProgress, JobStatus,
};

#[test]
fn base_url_override_preserves_identity_and_dashboard_year() {
    let mut specs = vec![FetchSpec {
        school: SchoolRecord {
            cds_code: "01000010000001".to_owned(),
            school_name: "Example".to_owned(),
            county: None,
            district: None,
            city: None,
        },
        year: 2025,
        dashboard_year_id: 11,
        url: "unused".to_owned(),
    }];
    apply_base_url(&mut specs, "http://127.0.0.1:9000/Reports/");
    assert_eq!(
        specs[0].url,
        "http://127.0.0.1:9000/Reports/01000010000001/11/SummaryCards"
    );
}

#[test]
fn pull_settings_bounds() {
    assert!(check_pull_settings(50, true, 10).is_ok());
    assert_eq!(check_pull_settings(0, true, 10).unwrap_err(), "concurrency must be between 1 and 64");
    assert_eq!(check_pull_settings(65, true, 10).unwrap_err(), "concurrency must be between 1 and 64");
    assert_eq!(check_pull_settings(50, false, 10).unwrap_err(), "requests_per_second must be between 1 and 1000");
    assert_eq!(check_pull_settings(50, true, 121).unwrap_err(), "timeout_seconds must be between 1 and 120");
}

#[test]
fn job_plans_are_deduplicated_sorted_and_bounded() {
    let codes = vec![" 00000000000002 ".to_owned(), "".to_owned(), "00000000000001".to_owned(), "00000000000002".to_owned()];
    let plan = plan_job(&codes, false, &vec![2025, 2024, 2025], 50, true, 10, 0).unwrap();
    assert_eq!(plan.cds_codes, vec!["00000000000001", "00000000000002"]);
    assert_eq!(plan.years, vec![2024, 2025]);
    assert_eq!(plan.total, 4);

    assert_eq!(
        plan_job(&codes, true, &vec![2024], 50, true, 10, 5).unwrap_err(),
        "choose either explicit schools or all active schools, not both"
    );
    assert_eq!(plan_job(&vec![], false, &vec![2024], 50, true, 10, 5).unwrap_err(), "choose at least one school");
    assert_eq!(plan_job(&codes, false, &vec![], 50, true, 10, 5).unwrap_err(), "choose at least one reporting year");
    assert_eq!(
        plan_job(&vec![], true, &vec![2024, 2025], 50, true, 10, 60_000).unwrap_err(),
        "the requested job has 120000 pulls; the local safety limit is 100000"
    );
    assert_eq!(plan_job(&vec![], true, &vec![2024, 2025], 50, true, 10, usize::MAX).unwrap_err(), "the requested job is too large");
    let all = plan_job(&vec![], true, &vec![2024], 50, true, 10, 7).unwrap();
    assert_eq!(all.total, 7);
}

#[test]
fn progress_never_exceeds_the_total() {
    let mut progress = JobProgress::new(4);
    progress.record(6, 3);
    assert_eq!(progress.completed, 4);
    assert_eq!(progress.failed, 3);
    progress.finish(3);
    assert_eq!(progress, JobProgress { completed: 4, total: 4, succeeded: 3, failed: 1 });
}

#[test]
fn the_oldest_finished_job_is_forgotten_first() {
    let jobs = vec![(5, JobStatus::Running), (9, JobStatus::Completed), (7, JobStatus::Failed), (7, JobStatus::Completed)];
    assert_eq!(oldest_finished(&jobs), Some(2));
    assert_eq!(oldest_finished(&vec![(1, JobStatus::Queued)]), None);
}

#[test]
fn limits_ids_and_base_urls() {
    assert_eq!(search_limit(500), 100);
    assert_eq!(search_limit(25), 25);
    assert_eq!(row_limit(10_000), 5_000);
    assert_eq!(job_id(255, 16), "ff-10");
    assert_eq!(normalize_base_url(Some("  http://x/Reports//  ".to_owned())).as_deref(), Some("http://x/Reports"));
    assert_eq!(normalize_base_url(Some(" / ".to_owned())), None);
    assert_eq!(normalize_base_url(None), None);
}

fn rate_in_range(requests_per_second: f64) -> bool {
    requests_per_second.is_finite() && (1.0..=1_000.0).contains(&requests_per_second)
}

#[test]
fn pull_setting_bounds_are_enforced() {
    let default_rate = 1_000.0;
    assert_eq!(DEFAULT_CONCURRENCY, 50);
    assert_eq!(DEFAULT_TIMEOUT_SECS, 10);
    assert!(check_pull_settings(DEFAULT_CONCURRENCY, rate_in_range(default_rate), DEFAULT_TIMEOUT_SECS).is_ok());
    assert!(check_pull_settings(0, rate_in_range(default_rate), DEFAULT_TIMEOUT_SECS).is_err());
    assert!(check_pull_settings(DEFAULT_CONCURRENCY, rate_in_range(f64::NAN), DEFAULT_TIMEOUT_SECS).is_err());
}
