use california_dashboard::json::JsonValue;
use california_dashboard::database::{source_rows, SCHOOL_COLUMNS};
use california_dashboard::model::{FetchSpec, Provenance, SchoolRecord, SummaryCard};
use california_dashboard::payload::parse_indicators;

#[test]
fn parser_skips_non_objects_and_retains_raw_blocks() {
    let parsed = parse_indicators(
        br#"[null,7,{"primary":{"status":"not numeric","cdsCode":42}},{"indicatorId":8,"primary":{"status":12.5},"secondary":{"extra":true}}]"#,
    )
    .unwrap();
    assert_eq!(parsed.len(), 2);
    assert_eq!(parsed[0].indicator_id, 0);
    assert_eq!(parsed[0].category, "UNKNOWN");
    // The status text is kept; it does not read as a number.
    let status = parsed[0].primary.as_ref().unwrap().status.as_deref();
    assert_eq!(status, Some("not numeric"));
    assert!(status.unwrap().parse::<f64>().is_err());
    assert_eq!(parsed[0].primary.as_ref().unwrap().cds_code.as_deref(), Some("42"));
    let primary: serde_json::Value = serde_json::from_str(&parsed[1].primary_json).unwrap();
    let secondary: serde_json::Value = serde_json::from_str(&parsed[1].secondary_json).unwrap();
    assert_eq!(primary["status"], 12.5);
    assert_eq!(secondary["extra"], true);
}

#[test]
fn singleton_and_missing_values_stay_missing() {
    let single = parse_indicators(
        br#"{"indicatorId":8,"primary":{"status":" 3.25 ","count":-4,"red":4294967296,"changeId":-2,"isPrivateData":true,"studentGroup":null}}"#,
    )
    .unwrap();
    assert_eq!(single.len(), 1);
    assert_eq!(single[0].category, "SCIENCE");
    assert_eq!(single[0].secondary_json, "null");
    assert!(single[0].secondary.is_none());
    let m = single[0].primary.as_ref().unwrap();
    assert_eq!(m.status.as_deref(), Some("3.25"));
    assert_eq!(m.change, None);
    assert_eq!(m.count, None);
    assert_eq!(m.red, None);
    assert_eq!(m.change_id, Some(-2));
    assert_eq!(m.is_private_data, Some(true));
    assert_eq!(m.student_group, None);
    assert!(parse_indicators(b"null").unwrap().is_empty());
    assert!(parse_indicators(b"[1, 2]").unwrap().is_empty());
    assert!(parse_indicators(b"not json").is_err());
}

#[test]
fn cards_keep_request_identity_and_payload_text() {
    let spec = FetchSpec {
        school: SchoolRecord {
            cds_code: "01100170000000".to_owned(),
            school_name: "Example".to_owned(),
            county: None,
            district: None,
            city: None,
        },
        year: 2024,
        dashboard_year_id: 10,
        url: "https://example.test".to_owned(),
    };
    let provenance = Provenance {
        source_url: "https://example.test".to_owned(),
        retrieved_at_utc: "2026-01-01T00:00:00Z".to_owned(),
        payload_sha256: None,
        payload_bytes: 2,
        http_status: Some(200),
        attempts: 1,
        method_version: "v".to_owned(),
    };
    let card = SummaryCard::from_payload(&spec, b"[]", provenance).unwrap();
    assert_eq!(card.school.cds_code, "01100170000000");
    assert_eq!(card.year, 2024);
    assert_eq!(card.raw_data, "[]");
    assert!(card.indicators.is_empty());

    let mut card = SummaryCard::from_json_str(r#"{"indicatorId":2,"primary":{"status":1.5}}"#).unwrap();
    assert_eq!(card.indicators.len(), 1);
    assert_eq!(card.indicators[0].indicator_id, 2);
    assert_eq!(card.provenance.payload_bytes, 42);
    card.raw_data = r#"[{"indicatorId":3},{"indicatorId":4}]"#.to_owned();
    card.parse_raw_data().unwrap();
    assert_eq!(card.indicators.len(), 2);
    card.raw_data = "{".to_owned();
    assert!(card.parse_raw_data().is_err());
    assert_eq!(card.indicators.len(), 2);
    card.raw_data.clear();
    card.parse_raw_data().unwrap();
    assert!(card.indicators.is_empty());
}

#[test]
fn source_rows_read_a_bom_csv_without_losing_leading_zeroes() {
    let mut first = vec!["No Data".to_owned(); SCHOOL_COLUMNS.len()];
    first[0] = "01100170000000".to_owned();
    first[6] = "Example School".to_owned();
    first[40] = "37.5".to_owned();
    let csv = format!("\u{feff}{}\n{}\n", SCHOOL_COLUMNS.join(","), first.join(","));
    let rows = source_rows(csv.as_bytes()).unwrap();
    assert_eq!(rows.len(), 1);
    assert_eq!(rows[0][0].as_deref(), Some("01100170000000"));
    assert_eq!(rows[0][6].as_deref(), Some("Example School"));
    assert_eq!(rows[0][40].as_deref(), Some("37.5"));
    assert_eq!(rows[0][3], None);
    assert!(source_rows(b"\xff\xfe,a\n").is_err());
}

#[test]
fn cards_keep_the_json_value_last_read() {
    let mut card = SummaryCard::from_json_str(r#"{ "indicatorId": 2, "primary": {"status": 1.5} }"#).unwrap();
    assert_eq!(card.raw_json_text(), r#"{"indicatorId":2,"primary":{"status":1.5}}"#);
    assert!(matches!(card.raw_json_data(), JsonValue::Object(members) if members.len() == 2));
    card.raw_data = "[ 7 ]".to_owned();
    card.parse_raw_data().unwrap();
    assert_eq!(card.raw_json_text(), "[7]");
    card.raw_data = "{".to_owned();
    assert!(card.parse_raw_data().is_err());
    assert_eq!(card.raw_json_text(), "[7]");
    card.clear();
    assert_eq!(card.raw_json_text(), "[]");
    card.raw_data = "[1]".to_owned();
    card.parse_raw_data().unwrap();
    card.raw_data.clear();
    card.parse_raw_data().unwrap();
    assert_eq!(card.raw_json_text(), "[]");
}
