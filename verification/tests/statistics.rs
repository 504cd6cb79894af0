use california_dashboard::json::JsonValue;
use california_dashboard::model::{
    FetchOutcome, FetchSpec, FetchStatus, Indicator, Measure, Provenance, SchoolRecord, SummaryCard,
};
use california_dashboard::statistics::{
    indicator_definitions, narrative_for_row, narrative_from_rows, FavorableDirection, MissingReason,
    NumberTexts, ReportModel,
};
use california_dashboard::METHOD_VERSION;

fn provenance(url: &str) -> Provenance {
    Provenance {
        source_url: url.to_owned(),
        retrieved_at_utc: "2026-01-01T00:00:00Z".to_owned(),
        payload_sha256: Some("abc".to_owned()),
        payload_bytes: 10,
        http_status: Some(200),
        attempts: 1,
        method_version: METHOD_VERSION.to_owned(),
    }
}

fn school(cds: &str) -> SchoolRecord {
    SchoolRecord {
        cds_code: cds.to_owned(),
        school_name: "Example School".to_owned(),
        county: None,
        district: None,
        city: None,
    }
}

fn card(measure: Measure<f64>, year: u16, indicator_id: u8) -> SummaryCard<f64> {
    SummaryCard {
        school: school("00123456789012"),
        year,
        dashboard_year_id: 11,
        indicators: vec![Indicator {
            indicator_id,
            category: "test".to_owned(),
            primary_json: "null".to_owned(),
            secondary_json: "null".to_owned(),
            primary: Some(measure),
            secondary: Some(Measure {
                status: Some(50.0),
                count: Some(1_000),
                ..Measure::default()
            }),
        }],
        provenance: provenance("https://example.test"),
        raw_data: String::new(),
        raw_json_data: JsonValue::Null,
    }
}

#[test]
fn privacy_and_small_counts_remove_all_primary_numbers() {
    for measure in [
        Measure {
            status: Some(987_654.321),
            change: Some(876_543.21),
            count: Some(300),
            performance: Some(5),
            is_private_data: Some(true),
            ..Measure::default()
        },
        Measure {
            status: Some(987_654.321),
            change: Some(876_543.21),
            count: Some(10),
            performance: Some(5),
            is_private_data: Some(false),
            ..Measure::default()
        },
    ] {
        let report = ReportModel::from_cards(&[card(measure, 2024, 2)]);
        let row = &report.rows[1];
        assert!(row.status.is_none());
        assert!(row.official_change.is_none());
        assert!(row.count.is_none());
        assert!(row.performance.is_none());
        assert!(row.gap_terms().is_none());
    }
}

#[test]
fn gaps_have_raw_and_direction_adjusted_signs() {
    let report = ReportModel::from_cards(&[card(
        Measure {
            status: Some(40.0),
            count: Some(30),
            ..Measure::default()
        },
        2024,
        2,
    )]);
    let suspension = &report.rows[1];
    let (school, comparison) = suspension.gap_terms().unwrap();
    let raw = school - comparison;
    let sign = match suspension.favorable_direction {
        FavorableDirection::Higher => 1.0,
        FavorableDirection::Lower => -1.0,
    };
    assert_eq!(raw, -10.0);
    assert_eq!(raw * sign, 10.0);
}

#[test]
fn all_indicator_definitions_are_present() {
    let definitions = indicator_definitions();
    assert_eq!(definitions.len(), 8);
    assert_eq!(
        definitions[0].favorable_direction,
        FavorableDirection::Lower
    );
    assert_eq!(definitions[7].status_unit, "science points (0–100)");
}

#[test]
fn year_specific_fields_follow_published_dashboard_rules() {
    let measure = Measure {
        status: Some(55.0),
        change: Some(2.0),
        change_id: Some(3),
        performance: Some(4),
        red: Some(1),
        green: Some(2),
        count: Some(100),
        ..Measure::default()
    };
    let report_2022 = ReportModel::from_cards(&[card(measure.clone(), 2022, 8)]);
    let science_2022 = &report_2022.rows[7];
    assert_eq!(science_2022.status, Some(55.0));
    assert_eq!(science_2022.official_change, None);
    assert_eq!(science_2022.change_id, None);
    assert_eq!(science_2022.performance, None);
    assert_eq!(science_2022.red, None);

    let report_2025 = ReportModel::from_cards(&[card(measure, 2025, 8)]);
    let science_2025 = &report_2025.rows[7];
    assert_eq!(science_2025.official_change, Some(2.0));
    assert_eq!(science_2025.performance, Some(4));
    assert_eq!(science_2025.red, Some(1));
    assert!(science_2025.informational_only);
}

#[test]
fn only_a_nonzero_performance_level_is_displayed() {
    // A performance level of 0 means "no color" and must not be displayed,
    // even though the status value is present and reportable.
    let zero = ReportModel::from_cards(&[card(
        Measure {
            status: Some(88.0),
            performance: Some(0),
            count: Some(500),
            ..Measure::default()
        },
        2024,
        4,
    )]);
    let graduation = &zero.rows[3];
    assert_eq!(graduation.status, Some(88.0));
    assert_eq!(graduation.performance, None);

    let nonzero = ReportModel::from_cards(&[card(
        Measure {
            status: Some(88.0),
            performance: Some(5),
            count: Some(500),
            ..Measure::default()
        },
        2024,
        4,
    )]);
    assert_eq!(nonzero.rows[3].performance, Some(5));
}

#[test]
fn rows_carry_trace_ids_reasons_and_cautions() {
    let report = ReportModel::from_cards(&[card(
        Measure { status: Some(0.0), count: Some(20), ..Measure::default() },
        2024,
        1,
    )]);
    assert_eq!(report.rows.len(), 8);
    let row = &report.rows[0];
    assert_eq!(row.trace_id, "00123456789012/2024/I1");
    // A valid zero is kept, and a denominator of 20 carries the caution.
    assert_eq!(row.status, Some(0.0));
    assert!(row.small_n_warning);
    assert!(row.is_reported());
    assert_eq!(row.comparator_status, Some(50.0));
    let missing = &report.rows[4];
    assert_eq!(missing.missing_reason, Some(MissingReason::MissingPrimary));
    assert_eq!(missing.missing_reason_code(), "MISSING_PRIMARY");
    assert_eq!(missing.comparator_missing_reason_code(), "MISSING_COMPARATOR");
    assert_eq!(report.method_version, METHOD_VERSION);
}

#[test]
fn quality_counts_partition_the_rows() {
    let private = Measure { status: Some(1.0), is_private_data: Some(true), ..Measure::default() };
    let small = Measure { status: Some(1.0), count: Some(3), ..Measure::default() };
    let report = ReportModel::from_cards(&[card(private, 2024, 2), card(small, 2023, 3)]);
    let q = report.quality;
    assert_eq!(q.rows_total, 16);
    assert_eq!(q.rows_private, 1);
    assert_eq!(q.rows_small_n_suppressed, 1);
    assert_eq!(q.rows_reported, 0);
    assert_eq!(q.rows_missing, 14);
    assert_eq!(q.rows_reported + q.rows_missing + q.rows_private + q.rows_small_n_suppressed, q.rows_total);
    assert_eq!(q.cards_total, 2);
    // Cards are ordered by CDS code and year: the 2023 card comes first.
    assert_eq!(report.rows[0].year, 2023);
    assert_eq!(report.rows[8].year, 2024);
}

#[test]
fn duplicate_and_unexpected_indicators_are_counted_and_last_wins() {
    let mut c = card(Measure { status: Some(1.0), ..Measure::default() }, 2024, 2);
    c.indicators.push(Indicator {
        indicator_id: 2,
        category: "SUSPENSION_RATE".to_owned(),
                primary_json: "null".to_owned(),
                secondary_json: "null".to_owned(),
        primary: Some(Measure { status: Some(7.0), ..Measure::default() }),
        secondary: None,
    });
    c.indicators.push(Indicator { indicator_id: 9, category: "UNKNOWN".to_owned(),
                primary_json: "null".to_owned(),
                secondary_json: "null".to_owned(), primary: None, secondary: None });
    let report = ReportModel::from_cards(&[c]);
    assert_eq!(report.quality.duplicate_indicators, 1);
    assert_eq!(report.quality.unexpected_indicators, 1);
    assert_eq!(report.rows[1].status, Some(7.0));
    assert_eq!(report.rows[1].comparator_missing_reason, Some(MissingReason::MissingComparator));
}

#[test]
fn outcomes_keep_failures_in_a_sorted_log() {
    let spec = |cds: &str, url: &str| FetchSpec { school: school(cds), year: 2024, dashboard_year_id: 10, url: url.to_owned() };
    let outcomes = vec![
        FetchOutcome {
            spec: spec("00000000000002", "https://b"),
            status: FetchStatus::HttpError { status_code: 503 },
            card: None,
            provenance: provenance("https://b"),
        },
        FetchOutcome {
            spec: spec("00000000000001", "https://a"),
            status: FetchStatus::PayloadTooLarge { limit_bytes: 100, declared_bytes: Some(250) },
            card: None,
            provenance: provenance("https://a"),
        },
        FetchOutcome {
            spec: spec("00123456789012", "https://example.test"),
            status: FetchStatus::Success,
            card: Some(card(Measure { status: Some(5.0), ..Measure::default() }, 2024, 1)),
            provenance: provenance("https://example.test"),
        },
    ];
    let report = ReportModel::from_outcomes(&outcomes);
    assert_eq!(report.quality.fetches_total, 3);
    assert_eq!(report.quality.fetches_succeeded, 1);
    assert_eq!(report.quality.fetches_failed, 2);
    assert_eq!(report.rows.len(), 8);
    assert_eq!(report.fetch_log.len(), 3);
    assert_eq!(report.fetch_log[0].cds_code, "00000000000001");
    assert_eq!(report.fetch_log[0].status, "PAYLOAD_TOO_LARGE");
    assert_eq!(report.fetch_log[0].detail, "Declared 250 bytes; limit 100 bytes");
    assert_eq!(report.fetch_log[1].status, "HTTP_ERROR");
    assert_eq!(report.fetch_log[1].detail, "HTTP status 503");
    assert_eq!(report.fetch_log[2].status, "SUCCESS");
    assert_eq!(report.sources[3], format!("Reporting method version: {METHOD_VERSION}"));
    assert_eq!(report.methods.len(), 7);
}

fn no_numbers() -> NumberTexts {
    NumberTexts { status: String::new(), change: String::new(), gaps: None }
}

#[test]
fn narrative_quotes_supplied_numbers_and_cautions() {
    let report = ReportModel::from_cards(&[card(
        Measure { status: Some(12.5), change: Some(-1.0), count: Some(20), ..Measure::default() },
        2024,
        1,
    )]);
    let row = &report.rows[0];
    let numbers = NumberTexts {
        status: "12.5".to_owned(),
        change: "-1".to_owned(),
        gaps: Some(("-37.5".to_owned(), "37.5".to_owned())),
    };
    assert_eq!(
        narrative_for_row(row, &numbers),
        format!(
            "00123456789012/2024/I1: Example School (2024) reported 12.5 {unit} for {name}; the official change field was -1 {change_unit}; the raw comparator gap was -37.5 {unit} and the direction-adjusted gap was 37.5 {unit} (lower is favorable); the known denominator is 11\u{2013}29, so the value should be read cautiously.",
            unit = row.status_unit,
            name = row.indicator_name,
            change_unit = row.change_unit,
        )
    );
}

#[test]
fn narrative_names_the_reason_for_a_withheld_value() {
    let report = ReportModel::from_cards(&[card(
        Measure { status: Some(3.0), is_private_data: Some(true), ..Measure::default() },
        2024,
        2,
    )]);
    let row = &report.rows[1];
    let numbers = NumberTexts { status: "3".to_owned(), change: String::new(), gaps: None };
    assert_eq!(
        narrative_for_row(row, &numbers),
        format!(
            "00123456789012/2024/I2: Example School (2024) has no reportable {} value [PRIVATE_DATA].",
            row.indicator_name
        )
    );
}

#[test]
fn narrative_covers_at_most_two_hundred_rows_and_says_so() {
    let cards: Vec<SummaryCard<f64>> = (0..26)
        .map(|k| {
            let mut c = card(Measure { status: Some(1.0), ..Measure::default() }, 2024, 1);
            c.school.cds_code = format!("{:014}", k);
            c
        })
        .collect();
    let report = ReportModel::from_cards(&cards);
    assert_eq!(report.rows.len(), 208);
    let numbers: Vec<NumberTexts> = report.rows.iter().map(|_| no_numbers()).collect();
    let narrative = narrative_from_rows(&report.rows, &numbers);
    assert_eq!(narrative.len(), 201);
    assert_eq!(narrative[0].trace_id, report.rows[0].trace_id);
    assert_eq!(narrative[200].trace_id, "NARRATIVE_SCOPE");
    assert_eq!(
        narrative[200].text,
        "Narrative text covers 200 of 208 rows in CDS/year/indicator order; the data table retains every row."
    );

    let few = ReportModel::from_cards(&[card(Measure::default(), 2024, 1)]);
    let numbers: Vec<NumberTexts> = few.rows.iter().map(|_| no_numbers()).collect();
    assert_eq!(narrative_from_rows(&few.rows, &numbers).len(), 8);
}

#[test]
fn every_row_carries_its_cards_provenance() {
    let report = ReportModel::from_cards(&[card(Measure { status: Some(4.0), ..Measure::default() }, 2023, 3)]);
    for (index, row) in report.rows.iter().enumerate() {
        assert_eq!(row.source_url, "https://example.test");
        assert_eq!(row.retrieved_at_utc, "2026-01-01T00:00:00Z");
        assert_eq!(row.payload_sha256.as_deref(), Some("abc"));
        assert_eq!(row.method_version, METHOD_VERSION);
        assert_eq!(row.trace_id, format!("00123456789012/2023/I{}", index + 1));
    }
}

#[test]
fn rows_do_not_depend_on_card_order() {
    let a = card(Measure { status: Some(1.0), ..Measure::default() }, 2023, 1);
    let mut b = card(Measure { status: Some(2.0), ..Measure::default() }, 2024, 2);
    b.school.cds_code = "00000000000001".to_owned();
    let first = ReportModel::from_cards(&[a.clone(), b.clone()]);
    let second = ReportModel::from_cards(&[b, a]);
    assert_eq!(first.rows.len(), second.rows.len());
    for (x, y) in first.rows.iter().zip(&second.rows) {
        assert_eq!(x.trace_id, y.trace_id);
        assert_eq!(x.status, y.status);
        assert_eq!(x.comparator_status, y.comparator_status);
    }
    assert_eq!(first.quality.rows_reported, second.quality.rows_reported);
}
