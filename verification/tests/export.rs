use california_dashboard::json::JsonValue;
use california_dashboard::export::{
    column_headers, csv_safe_text, directory_csv_bytes, escape_html, escape_pdf_text,
    favorable_direction_word, hard_split, html_string, limitation_statements, plural,
    quality_metrics, report_csv_bytes, row_cells, serialize_pdf, winansi_byte, wrap_words,
    years_phrase, pdf_blocks, directory_count_formula, Cell, PdfStyle,
};
use california_dashboard::model::{
    DirectoryRecord, Indicator, Measure, Provenance, SchoolRecord, SummaryCard,
};
use california_dashboard::statistics::{DataQuality, FavorableDirection, ReportModel};
use california_dashboard::METHOD_VERSION;

#[test]
fn csv_neutralizes_formula_prefixes() {
    for dangerous in [
        "=2+2",
        "+SUM(A:A)",
        "-1+1",
        "@cmd",
        "\tformula",
        "\rformula",
    ] {
        assert_eq!(csv_safe_text(dangerous), format!("'{dangerous}"));
    }
    assert_eq!(csv_safe_text("ordinary"), "ordinary");
}

#[test]
fn pdf_text_maps_typographic_glyphs_to_winansi() {
    // Bullet and en dash must become their WinAnsi bytes, not '?'.
    assert_eq!(escape_pdf_text("\u{2022}"), vec![0x95]);
    assert_eq!(
        escape_pdf_text("11\u{2013}29"),
        vec![b'1', b'1', 0x96, b'2', b'9']
    );
    // Parentheses and backslashes are escaped for the PDF literal.
    assert_eq!(escape_pdf_text("a(b)\\c"), b"a\\(b\\)\\\\c".to_vec());
    // An unrepresentable glyph falls back to '?'.
    assert_eq!(escape_pdf_text("\u{1F600}"), vec![b'?']);
}

#[test]
fn winansi_passes_latin1_and_maps_punctuation() {
    assert_eq!(winansi_byte('A'), b'A');
    assert_eq!(winansi_byte('é'), 0xE9);
    assert_eq!(winansi_byte('\u{20AC}'), 0x80);
    assert_eq!(winansi_byte('\u{2014}'), 0x97);
    assert_eq!(winansi_byte('\n'), b'?');
}

#[test]
fn html_escaping_covers_the_five_special_characters() {
    assert_eq!(
        escape_html("Ada <Lovelace> & Turing School"),
        "Ada &lt;Lovelace&gt; &amp; Turing School"
    );
    assert_eq!(escape_html("\"it's\""), "&quot;it&#39;s&quot;");
    assert_eq!(escape_html("plain"), "plain");
}

#[test]
fn wrapping_fits_lines_and_splits_long_words() {
    assert_eq!(
        wrap_words("the quick brown fox jumps", 10),
        vec!["the quick", "brown fox", "jumps"]
    );
    assert_eq!(wrap_words("   ", 8), vec![""]);
    assert_eq!(
        wrap_words("ab abcdefghijklmnop cd", 8),
        vec!["ab", "abcdefgh", "ijklmnop", "cd"]
    );
    assert_eq!(hard_split("abcdefghij", 4), vec!["abcd", "efgh", "ij"]);
    for line in wrap_words("Students absent for 10 percent or more of instructional days.", 12) {
        assert!(line.chars().count() <= 12);
    }
}

#[test]
fn fixed_report_text_and_labels() {
    assert_eq!(years_phrase(&[]), "none");
    assert_eq!(years_phrase(&[2023, 2024, 2025]), "2023, 2024, 2025");
    assert_eq!(plural(1), "");
    assert_eq!(plural(0), "s");
    assert_eq!(favorable_direction_word(FavorableDirection::Lower), "lower");
    assert_eq!(limitation_statements().len(), 6);
    let headers = column_headers();
    assert_eq!(headers.len(), 38);
    assert_eq!(headers[11], "status");
    assert_eq!(headers[26], "raw_comparator_gap");
    let quality = DataQuality {
        fetches_total: 3,
        fetches_succeeded: 2,
        fetches_failed: 1,
        cards_total: 2,
        rows_total: 16,
        rows_reported: 9,
        rows_missing: 5,
        rows_private: 1,
        rows_small_n_suppressed: 1,
        rows_small_n_warning: 2,
        comparators_missing_or_suppressed: 4,
        duplicate_indicators: 0,
        unexpected_indicators: 1,
    };
    let metrics = quality_metrics(&quality);
    assert_eq!(metrics.len(), 13);
    assert_eq!(metrics[0], ("Requests attempted", 3));
    assert_eq!(metrics[6], ("Rows suppressed for privacy", 1));
    assert_eq!(metrics[12], ("Unexpected indicators retained", 1));
}

#[test]
fn pdf_file_is_framed_and_cross_referenced() {
    let pages = vec![b"BT\n/F1 10.00 Tf\nET\n".to_vec()];
    let pdf = serialize_pdf(&pages);
    assert!(pdf.starts_with(b"%PDF-1.7\n"));
    assert!(pdf.ends_with(b"%%EOF\n"));
    let text = String::from_utf8_lossy(&pdf).into_owned();
    assert!(text.contains("2 0 obj\n<< /Type /Pages /Kids [5 0 R] /Count 1 >>\nendobj\n"));
    assert!(text.contains("6 0 obj\n<< /Length 19 >>\nstream\nBT\n/F1 10.00 Tf\nET\n\nendstream\nendobj\n"));
    assert!(text.contains("xref\n0 7\n0000000000 65535 f \n0000000015 00000 n \n"));
    // Every cross-reference offset points at its object.
    let xref_at = text.find("xref\n").unwrap();
    let entries: Vec<usize> = text[xref_at..]
        .lines()
        .skip(3)
        .take(6)
        .map(|line| line[..10].parse().unwrap())
        .collect();
    for (index, offset) in entries.iter().enumerate() {
        assert!(pdf[*offset..].starts_with(format!("{} 0 obj\n", index + 1).as_bytes()));
    }
    let empty = serialize_pdf(&[]);
    assert!(String::from_utf8_lossy(&empty).contains("/Count 1"));
}

fn sample_report() -> ReportModel<f64> {
    let card = SummaryCard {
        school: SchoolRecord {
            cds_code: "01234567890123".to_owned(),
            school_name: "Ada <Lovelace> & Turing School".to_owned(),
            county: Some("Alameda".to_owned()),
            district: Some("Bay Unified".to_owned()),
            city: Some("Oakland".to_owned()),
        },
        year: 2024,
        dashboard_year_id: 10,
        indicators: vec![
            Indicator {
                indicator_id: 1,
                category: "CHRONIC_ABSENTEEISM".to_owned(),
                primary_json: "null".to_owned(),
                secondary_json: "null".to_owned(),
                primary: Some(Measure {
                    status: Some(0.0),
                    change: Some(-1.5),
                    count: Some(500),
                    ..Measure::default()
                }),
                secondary: Some(Measure {
                    status: Some(7.5),
                    count: Some(200_000),
                    ..Measure::default()
                }),
            },
            Indicator {
                indicator_id: 2,
                category: "SUSPENSION_RATE".to_owned(),
                primary_json: "null".to_owned(),
                secondary_json: "null".to_owned(),
                primary: Some(Measure {
                    status: Some(3.0),
                    count: Some(50),
                    is_private_data: Some(true),
                    ..Measure::default()
                }),
                secondary: None,
            },
        ],
        provenance: Provenance {
            source_url: "https://api.caschooldashboard.org/Reports/01234567890123/10/SummaryCards"
                .to_owned(),
            retrieved_at_utc: "2026-07-09T00:00:00Z".to_owned(),
            payload_sha256: Some("deadbeef".to_owned()),
            payload_bytes: 128,
            http_status: Some(200),
            attempts: 1,
            method_version: METHOD_VERSION.to_owned(),
        },
        raw_data: String::new(),
        raw_json_data: JsonValue::Null,
    };
    ReportModel::from_cards(&[card])
}

fn report_html(report: &ReportModel<f64>) -> String {
    let table: Vec<Vec<(String, bool)>> = report
        .rows
        .iter()
        .map(|row| {
            row_cells(row, None, None)
                .iter()
                .map(|(_, cell)| {
                    let text = match cell {
                        Cell::Empty => "\u{2014}".to_owned(),
                        Cell::Text(text) => text.clone(),
                        Cell::Int(value) => value.to_string(),
                        Cell::Float(value) => value.to_string(),
                        Cell::Bool(flag) => if *flag { "Yes" } else { "No" }.to_owned(),
                    };
                    (text, cell.is_empty())
                })
                .collect()
        })
        .collect();
    html_string(report, &table, &Vec::new())
}

#[test]
fn html_escapes_dynamic_content() {
    let report = sample_report();
    let html = report_html(&report);
    assert!(html.contains("Ada &lt;Lovelace&gt; &amp; Turing School"));
    assert!(!html.contains("Ada <Lovelace>"));
    assert!(html.contains(&report.method_version));
}

#[test]
fn report_html_has_working_source_link_logo_and_disclaimer() {
    let html = report_html(&sample_report());
    assert!(html.contains("href=\"https://www.caschooldashboard.org/\""));
    assert!(html.contains("rel=\"noopener noreferrer\""));
    assert!(html.contains("<title>California School Dashboard</title>"));
    assert!(html.contains("Research use only."));
    assert!(html.contains("should be independently verified"));
}

fn number_text(value: f64) -> String {
    let mut text = format!("{value:.3}");
    while text.contains('.') && text.ends_with('0') {
        text.pop();
    }
    if text.ends_with('.') {
        text.pop();
    }
    if text == "-0" { "0".to_owned() } else { text }
}

fn report_csv(report: &ReportModel<f64>) -> String {
    let rows: Vec<Vec<String>> = report
        .rows
        .iter()
        .map(|row| {
            row_cells(row, None, None)
                .iter()
                .map(|(_, cell)| match cell {
                    Cell::Empty => String::new(),
                    Cell::Text(text) => csv_safe_text(text),
                    Cell::Int(number) => number.to_string(),
                    Cell::Float(number) => number_text(*number),
                    Cell::Bool(flag) => flag.to_string(),
                })
                .collect()
        })
        .collect();
    String::from_utf8(report_csv_bytes(&rows).unwrap()).unwrap()
}

#[test]
fn csv_preserves_zero_and_leaves_suppressed_values_blank() {
    let report = sample_report();
    let csv = report_csv(&report);
    let mut reader = csv::Reader::from_reader(csv.as_bytes());
    let headers: Vec<String> = reader.headers().unwrap().iter().map(str::to_owned).collect();
    let status_col = headers.iter().position(|h| h == "status").unwrap();
    let count_col = headers.iter().position(|h| h == "count").unwrap();
    let indicator_col = headers.iter().position(|h| h == "indicator_id").unwrap();

    let mut absenteeism_zero = false;
    let mut suspension_blank = false;
    for record in reader.records() {
        let record = record.unwrap();
        match record.get(indicator_col) {
            Some("1") => {
                assert_eq!(record.get(status_col), Some("0"));
                assert_eq!(record.get(count_col), Some("500"));
                absenteeism_zero = true;
            }
            Some("2") => {
                assert_eq!(record.get(status_col), Some(""));
                assert_eq!(record.get(count_col), Some(""));
                suspension_blank = true;
            }
            _ => {}
        }
    }
    assert!(absenteeism_zero && suspension_blank);
}

#[test]
fn directory_csv_matches_the_reference_schema() {
    let records = vec![DirectoryRecord {
        record_type: "District".to_owned(),
        cds_code: "01100170000000".to_owned(),
        district: "Alameda County Office of Education".to_owned(),
        school: "No Data".to_owned(),
        status: "Active".to_owned(),
    }];
    let csv = String::from_utf8(directory_csv_bytes(&records).unwrap()).unwrap();
    assert!(csv.starts_with("Record Type,CDS Code,District,School,Status\n"));
    assert!(csv.contains("District,01100170000000"));
    assert_eq!(
        csv,
        "Record Type,CDS Code,District,School,Status\nDistrict,01100170000000,Alameda County Office of Education,No Data,Active\n"
    );
}

#[test]
fn directory_csv_neutralizes_formulas_and_quotes_commas() {
    let records = vec![DirectoryRecord {
        record_type: "School".to_owned(),
        cds_code: "01100170000001".to_owned(),
        district: "=HYPERLINK(\"x\")".to_owned(),
        school: "Smith, Jones Academy".to_owned(),
        status: "Active".to_owned(),
    }];
    let csv = String::from_utf8(directory_csv_bytes(&records).unwrap()).unwrap();
    assert!(csv.ends_with("School,01100170000001,\"'=HYPERLINK(\"\"x\"\")\",\"Smith, Jones Academy\",Active\n"));
}

#[test]
fn pdf_lines_follow_the_report_sections() {
    let report = sample_report();
    let blocks = pdf_blocks(&report, &Vec::new());
    assert_eq!(blocks[0], (PdfStyle::Title, "California School Dashboard".to_owned()));
    assert_eq!(blocks[1], (PdfStyle::Subtitle, "Descriptive Report".to_owned()));
    assert_eq!(blocks[2], (PdfStyle::Spacer, String::new()));
    assert_eq!(
        blocks[3],
        (PdfStyle::Body, "Coverage: 1 school, reporting year 2024, 8 data rows.".to_owned())
    );
    assert_eq!(blocks[5], (PdfStyle::Spacer, String::new()));
    assert_eq!(blocks[6], (PdfStyle::Subheading, "Data completeness".to_owned()));
    assert_eq!(blocks[7], (PdfStyle::Bullet, "Requests attempted: 1".to_owned()));
    assert_eq!(blocks[11], (PdfStyle::Bullet, "Rows generated: 8".to_owned()));
    let empty_narrative = blocks
        .iter()
        .position(|block| block.1 == "Row-by-row description")
        .unwrap();
    assert_eq!(
        blocks[empty_narrative + 1],
        (PdfStyle::Body, "No reportable rows were produced for this selection.".to_owned())
    );
    let last = blocks.len() - 1;
    assert_eq!(blocks[last - 2], (PdfStyle::Subheading, "Disclaimer".to_owned()));
    assert!(blocks[last - 1].1.starts_with("Research use only. This report is entirely research-based."));

    let with_text = pdf_blocks(&report, &vec!["First statement.".to_owned()]);
    let heading = with_text
        .iter()
        .position(|block| block.1 == "Row-by-row description")
        .unwrap();
    assert_eq!(with_text[heading + 1], (PdfStyle::Bullet, "First statement.".to_owned()));
    assert_eq!(with_text.len(), blocks.len());
}

#[test]
fn directory_total_counts_the_record_rows() {
    assert_eq!(directory_count_formula(0), "0");
    assert_eq!(directory_count_formula(1), "COUNTA(A2:A2)");
    assert_eq!(directory_count_formula(41), "COUNTA(A2:A42)");
}
