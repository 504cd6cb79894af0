use california_dashboard::database::{
    clean, column_index, database_validation, field_differences, import_summary, key_rows,
    row_values, schema_sql, shared_rows, DatabaseValidation, RowDifference, SCHOOL_COLUMNS,
};

fn row(cds: Option<&str>, school: &str) -> Vec<Option<String>> {
    let mut values: Vec<Option<String>> = vec![None; SCHOOL_COLUMNS.len()];
    values[0] = cds.map(str::to_owned);
    values[6] = Some(school.to_owned());
    values
}

#[test]
fn cleans_only_the_documented_null_sentinels() {
    assert_eq!(clean(" No Data ").as_deref(), None);
    assert_eq!(clean("N/A").as_deref(), None);
    assert_eq!(clean("").as_deref(), None);
    assert_eq!(clean("NULL").as_deref(), None);
    assert_eq!(clean("null").as_deref(), Some("null"));
    assert_eq!(clean("0").as_deref(), Some("0"));
}

#[test]
fn schema_gives_coordinates_real_affinity() {
    let sql = schema_sql();
    assert!(sql.starts_with("DROP TABLE IF EXISTS schools;\nCREATE TABLE schools (\"CDSCode\" TEXT, \"NCESDist\" TEXT"));
    assert!(sql.contains("\"Latitude\" REAL, \"Longitude\" REAL, \"AdmFName\" TEXT"));
    assert!(sql.ends_with("CREATE INDEX idx_cds ON schools (CDSCode);"));
    assert_eq!(sql.matches(" TEXT").count(), 44);
}

#[test]
fn headers_ignore_byte_order_marks_and_last_repeat_wins() {
    let headers: Vec<String> = vec!["\u{feff}CDSCode".to_owned(), "School".to_owned(), "School".to_owned()];
    assert_eq!(column_index(&headers, "CDSCode"), Some(0));
    assert_eq!(column_index(&headers, "School"), Some(2));
    assert_eq!(column_index(&headers, "County"), None);
}

#[test]
fn record_values_follow_table_columns() {
    let headers: Vec<String> = SCHOOL_COLUMNS.iter().map(|c| c.to_string()).collect();
    let mut record = vec!["No Data".to_owned(); SCHOOL_COLUMNS.len()];
    record[0] = "01100170000000".to_owned();
    record[6] = " Example School ".to_owned();
    let values = row_values(&headers, &record);
    assert_eq!(values.len(), 46);
    assert_eq!(values[0].as_deref(), Some("01100170000000"));
    assert_eq!(values[6].as_deref(), Some("Example School"));
    assert_eq!(values[3], None);
    let short = row_values(&headers, &vec!["01100170000000".to_owned()]);
    assert_eq!(short[0].as_deref(), Some("01100170000000"));
    assert_eq!(short[1], None);
}

#[test]
fn validation_counts_every_issue() {
    let mut validation = DatabaseValidation {
        csv_row_count: 2,
        database_row_count: 2,
        only_in_csv: Vec::new(),
        only_in_database: Vec::new(),
        changed_rows: Vec::new(),
        duplicate_csv_cds_codes: Vec::new(),
        duplicate_database_cds_codes: Vec::new(),
    };
    assert!(validation.is_exact_match());
    assert_eq!(validation.issue_count(), 0);
    validation.only_in_csv.push("01".to_owned());
    validation.changed_rows.push(RowDifference { cds_code: "02".to_owned(), fields: Vec::new() });
    validation.duplicate_database_cds_codes.push("03".to_owned());
    assert!(!validation.is_exact_match());
    assert_eq!(validation.issue_count(), 3);
}

#[test]
fn rows_are_keyed_by_code_with_the_last_row_winning() {
    let rows = vec![
        row(Some("02"), "Second"),
        row(Some("01"), "First"),
        row(None, "No code"),
        row(Some("02"), "Second again"),
        row(Some("03"), "Third"),
        row(Some("02"), "Second once more"),
        row(Some("01"), "First again"),
    ];
    let keyed = key_rows(&rows);
    let codes: Vec<&str> = keyed.rows().iter().map(|(code, _)| code.as_str()).collect();
    assert_eq!(codes, vec!["01", "02", "03"]);
    assert_eq!(keyed.rows()[0].1[6].as_deref(), Some("First again"));
    assert_eq!(keyed.rows()[1].1[6].as_deref(), Some("Second once more"));
    assert_eq!(keyed.repeated(), &vec!["01".to_owned(), "02".to_owned()]);
}

#[test]
fn import_summary_counts_rows_empty_values_and_repeats() {
    let rows = vec![row(Some("01"), "A"), row(Some("01"), "B"), row(None, "C")];
    let summary = import_summary(&rows);
    assert_eq!(summary.rows_inserted, 3);
    // 44 empty values in each coded row and 45 in the row without a code.
    assert_eq!(summary.null_values, 44 + 44 + 45);
    assert_eq!(summary.duplicate_cds_codes, vec!["01".to_owned()]);
}

#[test]
fn validation_reports_one_sided_codes_and_changed_fields() {
    let mut changed = row(Some("02"), "Renamed");
    changed[40] = Some("37.50".to_owned());
    let mut cached = row(Some("02"), "Original");
    cached[40] = Some("37.5".to_owned());
    let csv_rows = vec![row(Some("01"), "Only in file"), changed, row(Some("03"), "Same")];
    let db_rows = vec![cached, row(Some("03"), "Same"), row(Some("04"), "Only cached"), row(Some("04"), "Twice")];
    let csv = key_rows(&csv_rows);
    let database = key_rows(&db_rows);
    let pairs = shared_rows(&csv, &database);
    assert_eq!(pairs, vec![(1, 0), (2, 1)]);
    // The numeric verdicts say the coordinates agree as numbers.
    let verdicts = vec![vec![true; 46], vec![true; 46]];
    let validation = database_validation(3, 4, &csv, &database, &verdicts);
    assert_eq!(validation.csv_row_count, 3);
    assert_eq!(validation.database_row_count, 4);
    assert_eq!(validation.only_in_csv, vec!["01".to_owned()]);
    assert_eq!(validation.only_in_database, vec!["04".to_owned()]);
    assert_eq!(validation.changed_rows.len(), 1);
    assert_eq!(validation.changed_rows[0].cds_code, "02");
    assert_eq!(validation.changed_rows[0].fields.len(), 1);
    assert_eq!(validation.changed_rows[0].fields[0].column, "School");
    assert_eq!(validation.changed_rows[0].fields[0].csv_value.as_deref(), Some("Renamed"));
    assert_eq!(validation.changed_rows[0].fields[0].database_value.as_deref(), Some("Original"));
    assert!(validation.duplicate_csv_cds_codes.is_empty());
    assert_eq!(validation.duplicate_database_cds_codes, vec!["04".to_owned()]);
    assert_eq!(validation.issue_count(), 4);
}

#[test]
fn coordinates_differ_only_when_the_numbers_disagree() {
    let mut left = row(Some("01"), "School");
    let mut right = row(Some("01"), "School");
    left[40] = Some("37.5".to_owned());
    right[40] = Some("37.6".to_owned());
    let mut agree = vec![true; 46];
    assert!(field_differences(&left, &right, &agree).is_empty());
    agree[40] = false;
    let fields = field_differences(&left, &right, &agree);
    assert_eq!(fields.len(), 1);
    assert_eq!(fields[0].column, "Latitude");
    right[41] = Some("-122.1".to_owned());
    let fields = field_differences(&left, &right, &agree);
    assert_eq!(fields.len(), 2);
    assert_eq!(fields[1].column, "Longitude");
    assert_eq!(fields[1].csv_value, None);
}

#[test]
fn rows_compared_with_themselves_match_exactly() {
    let rows = vec![row(Some("02"), "B"), row(Some("01"), "A"), row(Some("02"), "B2")];
    let keyed = key_rows(&rows);
    let again = key_rows(&rows);
    let verdicts = vec![vec![true; 46]; shared_rows(&keyed, &again).len()];
    let validation = database_validation(3, 3, &keyed, &again, &verdicts);
    assert!(validation.only_in_csv.is_empty());
    assert!(validation.only_in_database.is_empty());
    assert!(validation.changed_rows.is_empty());
    assert_eq!(validation.duplicate_csv_cds_codes, vec!["02".to_owned()]);
}
