use california_dashboard::client::{check_client_limits, ClientError, DEFAULT_MAX_PAYLOAD_BYTES};
use california_dashboard::model::SchoolRecord;
use california_dashboard::resolver::{DirectoryRow, MatchKind, ResolverError, SchoolResolver};
use california_dashboard::years::{dashboard_year_id, summary_cards_url, SUPPORTED_YEARS};

/// The directory rows of the test cache: the active schools feed the
/// resolver, every identified row feeds the directory.
fn fixture_rows() -> Vec<(&'static str, &'static str, &'static str, &'static str, &'static str, &'static str)> {
    vec![
        ("00000000000001", "Lincoln Elementary", "Active", "Alpha", "North District", "Riverside"),
        ("00000000000002", "Lincoln Elementary", "Active", "Beta", "South District", "Riverside"),
        ("00000000000003", "Pomona High School", "Active", "Los Angeles", "Pomona Unified", "Pomona"),
        ("00000000000004", "Ponderosa Academy", "Active", "Orange", "Coast Unified", "Irvine"),
        ("00000000000005", "Closed School", "Closed", "Orange", "Coast Unified", "Irvine"),
        ("00000000000006", "Active Academy", "Active", "San Diego", "Mesa District", "San Diego"),
    ]
}

fn fixture_resolver() -> SchoolResolver {
    let rows = fixture_rows();
    let schools = rows
        .iter()
        .filter(|row| row.2 == "Active")
        .map(|row| SchoolRecord {
            cds_code: row.0.to_owned(),
            school_name: row.1.to_owned(),
            county: Some(row.3.to_owned()),
            district: Some(row.4.to_owned()),
            city: Some(row.5.to_owned()),
        })
        .collect();
    let directory = rows
        .iter()
        .map(|row| DirectoryRow {
            cds_code: row.0.to_owned(),
            district: Some(row.4.to_owned()),
            school: Some(row.1.to_owned()),
            status: Some(row.2.to_owned()),
        })
        .collect();
    SchoolResolver::from_database_rows(schools, directory).unwrap()
}

#[test]
fn year_mapping_and_url_are_exact() {
    assert_eq!(
        SUPPORTED_YEARS,
        [2017, 2018, 2019, 2020, 2021, 2022, 2023, 2024, 2025]
    );
    assert_eq!(
        SUPPORTED_YEARS.map(|year| dashboard_year_id(year).unwrap()),
        [3, 4, 5, 6, 7, 8, 9, 10, 11]
    );
    assert_eq!(dashboard_year_id(2026), None);
    assert_eq!(
        summary_cards_url("19649071995901", 2025).unwrap(),
        "https://api.caschooldashboard.org/Reports/19649071995901/11/SummaryCards"
    );
    assert!(summary_cards_url("123", 2025).is_err());
}

#[test]
fn resolver_retains_duplicate_names_and_reports_ambiguity() {
    let resolver = fixture_resolver();
    assert_eq!(resolver.len(), 5);
    assert_eq!(resolver.directory_records().len(), 6);
    assert!(
        resolver
            .directory_records()
            .iter()
            .any(|record| record.school == "Closed School" && record.status == "Closed")
    );
    let all_map = resolver.build_all_schools_map(&[2024, 2025]).unwrap();
    let years_of = |name: &str| {
        all_map
            .iter()
            .find(|(display, _)| display == name)
            .map(|(_, years)| years.clone())
    };
    assert!(years_of("Lincoln Elementary (00000000000001)").is_some());
    assert!(years_of("Lincoln Elementary (00000000000002)").is_some());
    assert_eq!(years_of("Pomona High School").unwrap(), [2024, 2025]);
    let specs = resolver
        .fetch_specs_for_queries(
            &["Lincoln Elementary (00000000000001)".to_owned()],
            &[2024, 2025],
        )
        .unwrap();
    assert_eq!(specs.len(), 2);
    assert!(
        specs
            .iter()
            .all(|spec| spec.school.cds_code == "00000000000001")
    );
    assert_eq!(
        resolver
            .school_by_cds("00000000000002")
            .unwrap()
            .county
            .as_deref(),
        Some("Beta")
    );

    let selected = resolver.resolve("00000000000002").unwrap();
    assert_eq!(selected.kind, MatchKind::ExactCds);
    assert_eq!(selected.school.cds_code, "00000000000002");

    let ambiguous = resolver.resolve("Lincoln Elementary").unwrap_err();
    match ambiguous {
        ResolverError::Ambiguous { candidates, .. } => {
            assert_eq!(candidates.len(), 2);
            assert_eq!(candidates[0].cds_code, "00000000000001");
            assert_eq!(candidates[1].cds_code, "00000000000002");
        }
        other => panic!("expected ambiguity, got {other:?}"),
    }
}

#[test]
fn resolver_matching_and_search_are_deterministic() {
    let resolver = fixture_resolver();
    assert!(matches!(
        resolver.resolve("Pomo"),
        Err(ResolverError::NotFound(_))
    ));

    let substring = resolver.resolve("Pomona High").unwrap();
    assert_eq!(substring.kind, MatchKind::Substring);
    assert_eq!(substring.school.cds_code, "00000000000003");

    let fuzzy = resolver.resolve("Ponderosa Acadmy").unwrap();
    assert_eq!(fuzzy.kind, MatchKind::Levenshtein);
    assert_eq!(fuzzy.distance, Some(1));

    assert_eq!(resolver.search("north district", 10).len(), 1);
    assert_eq!(resolver.search("beta", 10).len(), 1);
    assert_eq!(resolver.search("riverside", 10).len(), 2);

    let specs = resolver
        .fetch_specs(
            &["00000000000003".to_owned(), "00000000000004".to_owned()],
            &[2024, 2025],
        )
        .unwrap();
    assert_eq!(specs.len(), 4);
    assert_eq!(specs[0].school.cds_code, "00000000000003");
    assert_eq!(specs[0].year, 2024);
    assert_eq!(specs[1].year, 2025);
    assert_eq!(specs[2].school.cds_code, "00000000000004");
}

#[test]
fn invalid_client_configuration_is_rejected() {
    let error = match check_client_limits(0, true, false, DEFAULT_MAX_PAYLOAD_BYTES) {
        Ok(_) => panic!("zero concurrency unexpectedly accepted"),
        Err(error) => error,
    };
    assert!(matches!(error, ClientError::InvalidConfiguration(_)));
}

#[test]
fn resolver_refuses_duplicate_and_malformed_cache_rows() {
    let school = |cds: &str, name: &str| SchoolRecord {
        cds_code: cds.to_owned(),
        school_name: name.to_owned(),
        county: None,
        district: None,
        city: None,
    };
    let duplicate = SchoolResolver::from_database_rows(
        vec![school("00000000000001", "A"), school("00000000000001", "B")],
        Vec::new(),
    );
    assert!(matches!(duplicate, Err(ResolverError::DuplicateCdsCode(code)) if code == "00000000000001"));
    let malformed = SchoolResolver::from_database_rows(vec![school("12", "A")], Vec::new());
    assert!(matches!(malformed, Err(ResolverError::InvalidDatabaseCdsCode(code)) if code == "12"));
    let unnamed = SchoolResolver::from_database_rows(vec![school("00000000000001", "  ")], Vec::new());
    assert!(matches!(unnamed, Err(ResolverError::EmptySchoolName(code)) if code == "00000000000001"));
}

#[test]
fn directory_rows_keep_districts_and_skip_layout_rows() {
    let resolver = SchoolResolver::from_database_rows(
        Vec::new(),
        vec![
            DirectoryRow {
                cds_code: " 01100170000000 ".to_owned(),
                district: Some("Alameda County Office of Education".to_owned()),
                school: None,
                status: Some("Active".to_owned()),
            },
            DirectoryRow {
                cds_code: "Total Records =".to_owned(),
                district: None,
                school: None,
                status: None,
            },
        ],
    )
    .unwrap();
    let records = resolver.directory_records();
    assert_eq!(records.len(), 1);
    assert_eq!(records[0].record_type, "District");
    assert_eq!(records[0].cds_code, "01100170000000");
    assert_eq!(records[0].school, "No Data");
    assert!(resolver.is_empty());
}

#[test]
fn all_requests_are_laid_out_school_by_school() {
    let resolver = fixture_resolver();
    let years = [2023, 2025];
    let specs = resolver.all_fetch_specs(&years).unwrap();
    let schools = resolver.schools();
    assert_eq!(specs.len(), schools.len() * years.len());
    for (i, school) in schools.iter().enumerate() {
        for (j, year) in years.iter().enumerate() {
            let spec = &specs[i * years.len() + j];
            assert_eq!(spec.school.cds_code, school.cds_code);
            assert_eq!(spec.year, *year);
            assert_eq!(spec.url, summary_cards_url(&school.cds_code, *year).unwrap());
        }
    }
}
