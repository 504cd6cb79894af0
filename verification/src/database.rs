//! The CDE public-school directory cache: its column set and schema, the
//! null sentinels of the source file, header lookup, rows keyed by CDS code,
//! and the summaries of an import and of a comparison between the source
//! file and the cache.
//!
//! Reading the file and the SQLite table happens in the caller; so does the
//! numeric comparison of the two coordinate columns, whose verdicts are
//! handed in.

use vstd::prelude::*;

use crate::model::opt_view;
use crate::order::{key_lt, key_less, lemma_key_total, lemma_key_trans, lemma_text_key_injective, push_text_key, text_key};
use crate::resolver::strictly_increasing;
use crate::text::{chars_of, clone_opt_string, owned, push_str, string_from, trim, trim_string};

verus! {

/// The columns of the `schools` table, in table order.
pub const SCHOOL_COLUMNS: [&'static str; 46] = [
    "CDSCode",
    "NCESDist",
    "NCESSchool",
    "StatusType",
    "County",
    "District",
    "School",
    "Street",
    "StreetAbr",
    "City",
    "Zip",
    "State",
    "MailStreet",
    "MailStrAbr",
    "MailCity",
    "MailZip",
    "MailState",
    "Phone",
    "Ext",
    "FaxNumber",
    "WebSite",
    "OpenDate",
    "ClosedDate",
    "Charter",
    "CharterNum",
    "FundingType",
    "DOC",
    "DOCType",
    "SOC",
    "SOCType",
    "EdOpsCode",
    "EdOpsName",
    "EILCode",
    "EILName",
    "GSoffered",
    "GSserved",
    "Virtual",
    "Magnet",
    "YearRoundYN",
    "FederalDFCDistrictID",
    "Latitude",
    "Longitude",
    "AdmFName",
    "AdmLName",
    "LastUpDate",
    "Multilingual",
];

/// Whether a column holds real numbers (the two coordinates).
pub open spec fn real_column(column: Seq<char>) -> bool {
    column == "Latitude"@ || column == "Longitude"@
}

/// Whether a column holds real numbers.
pub fn is_real_column(column: &str) -> (r: bool)
    ensures
        r == real_column(column@),
{
    let c = owned(column);
    let lat = owned("Latitude");
    let lon = owned("Longitude");
    c == lat || c == lon
}

/// A trimmed value that the source file uses to mean "no value".
pub open spec fn null_sentinel(t: Seq<char>) -> bool {
    t == "No Data"@ || t == "N/A"@ || t.len() == 0 || t == "NULL"@
}

/// A source value, trimmed, or nothing when it is one of the four null
/// sentinels `No Data`, `N/A`, the empty text and `NULL`.
pub open spec fn cleaned(value: Seq<char>) -> Option<Seq<char>> {
    if null_sentinel(trim(value)) {
        None
    } else {
        Some(trim(value))
    }
}

/// Cleans one source value.
pub fn clean(value: &str) -> (r: Option<String>)
    ensures
        crate::model::opt_view(r) == cleaned(value@),
{
    let t = trim_string(value);
    let no_data = owned("No Data");
    let na = owned("N/A");
    let null = owned("NULL");
    if t == no_data || t == na || t.unicode_len() == 0 || t == null {
        None
    } else {
        Some(t)
    }
}

/// A header without its leading byte-order marks.
pub open spec fn strip_bom(h: Seq<char>) -> Seq<char>
    decreases h.len(),
{
    if h.len() > 0 && h[0] == '\u{feff}' {
        strip_bom(h.drop_first())
    } else {
        h
    }
}

fn strip_bom_text(h: &str) -> (r: String)
    ensures
        r@ == strip_bom(h@),
{
    let chars = chars_of(h);
    let mut start: usize = 0;
    assert(chars@.skip(0) =~= chars@);
    while start < chars.len() && chars[start] == '\u{feff}'
        invariant
            chars@ == h@,
            start <= chars@.len(),
            strip_bom(h@) == strip_bom(chars@.skip(start as int)),
        decreases chars@.len() - start,
    {
        assert(chars@.skip(start as int).drop_first() =~= chars@.skip(start + 1));
        start = start + 1;
    }
    let mut out = String::new();
    let mut i: usize = start;
    while i < chars.len()
        invariant
            start <= i <= chars@.len(),
            out@ == chars@.subrange(start as int, i as int),
        decreases chars@.len() - i,
    {
        crate::text::push_char(&mut out, chars[i]);
        i = i + 1;
        assert(out@ =~= chars@.subrange(start as int, i as int));
    }
    assert(chars@.subrange(start as int, chars@.len() as int) =~= chars@.skip(start as int));
    out
}

/// The position of the last header naming `column` (byte-order marks
/// ignored), if any.
pub open spec fn header_position(headers: Seq<String>, column: Seq<char>) -> Option<int>
    decreases headers.len(),
{
    if headers.len() == 0 {
        None
    } else if strip_bom(headers.last()@) == column {
        Some(headers.len() - 1)
    } else {
        header_position(headers.drop_last(), column)
    }
}

/// Where a column sits in the source file's header row; when a header
/// repeats, its last position counts.
pub fn column_index(headers: &Vec<String>, column: &str) -> (r: Option<usize>)
    ensures
        match r {
            Some(i) => header_position(headers@, column@) == Some(i as int),
            None => header_position(headers@, column@) is None,
        },
{
    let target = owned(column);
    let mut i: usize = headers.len();
    assert(headers@.take(i as int) =~= headers@);
    while i > 0
        invariant
            i <= headers@.len(),
            target@ == column@,
            header_position(headers@, column@) == header_position(headers@.take(i as int), column@),
        decreases i,
    {
        assert(headers@.take(i as int).drop_last() =~= headers@.take(i - 1));
        let name = strip_bom_text(headers[i - 1].as_str());
        if name == target {
            return Some(i - 1);
        }
        i = i - 1;
    }
    None
}

/// The cleaned values of one source record in table-column order: a column
/// missing from the header row or from the record reads as empty.
pub open spec fn record_values(headers: Seq<String>, record: Seq<String>, columns: Seq<Seq<char>>) -> Seq<
    Option<Seq<char>>,
> {
    columns.map_values(
        |c: Seq<char>|
            match header_position(headers, c) {
                Some(i) => if i < record.len() {
                    cleaned(record[i]@)
                } else {
                    cleaned(Seq::empty())
                },
                None => cleaned(Seq::empty()),
            },
    )
}

/// The names of the table columns.
pub open spec fn school_columns() -> Seq<Seq<char>> {
    SCHOOL_COLUMNS@.map_values(|c: &'static str| c@)
}

/// The cleaned values of one source record, in table-column order.
pub fn row_values(headers: &Vec<String>, record: &Vec<String>) -> (values: Vec<Option<String>>)
    ensures
        values@.map_values(|v: Option<String>| crate::model::opt_view(v)) == record_values(
            headers@,
            record@,
            school_columns(),
        ),
{
    let ghost target = record_values(headers@, record@, school_columns());
    let mut values: Vec<Option<String>> = Vec::new();
    let mut k: usize = 0;
    while k < 46
        invariant
            k <= 46,
            target == record_values(headers@, record@, school_columns()),
            school_columns().len() == 46,
            values@.len() == k,
            forall|j: int| 0 <= j < k ==> crate::model::opt_view(#[trigger] values@[j]) == target[j],
        decreases 46 - k,
    {
        let column = SCHOOL_COLUMNS[k];
        assert(school_columns()[k as int] == column@);
        let raw: String = match column_index(headers, column) {
            Some(i) => if i < record.len() {
                record[i].clone()
            } else {
                String::new()
            },
            None => String::new(),
        };
        values.push(clean(raw.as_str()));
        k = k + 1;
    }
    assert(values@.map_values(|v: Option<String>| crate::model::opt_view(v)) =~= target);
    values
}

/// The SQL that replaces the `schools` table and its indexes.
pub open spec fn spec_schema_sql() -> Seq<char> {
    "DROP TABLE IF EXISTS schools;\nCREATE TABLE schools ("@ + column_list(school_columns())
        + ");\nCREATE INDEX idx_county ON schools (County);\nCREATE INDEX idx_district ON schools (District);\nCREATE INDEX idx_status ON schools (StatusType);\nCREATE INDEX idx_cds ON schools (CDSCode);"@
}

/// The column definitions: each quoted name with its affinity, joined by ", ".
pub open spec fn column_list(columns: Seq<Seq<char>>) -> Seq<char>
    decreases columns.len(),
{
    if columns.len() == 0 {
        Seq::empty()
    } else if columns.len() == 1 {
        column_definition(columns[0])
    } else {
        column_list(columns.drop_last()) + ", "@ + column_definition(columns.last())
    }
}

/// One column definition: the quoted name and `REAL` or `TEXT`.
pub open spec fn column_definition(column: Seq<char>) -> Seq<char> {
    "\""@ + column + "\" "@ + if real_column(column) {
        "REAL"@
    } else {
        "TEXT"@
    }
}

/// The SQL that replaces the `schools` table: every column with `REAL`
/// affinity for the coordinates and `TEXT` otherwise, and four indexes.
pub fn schema_sql() -> (sql: String)
    ensures
        sql@ == spec_schema_sql(),
{
    let mut sql = owned("DROP TABLE IF EXISTS schools;\nCREATE TABLE schools (");
    let ghost start = sql@;
    let mut k: usize = 0;
    while k < 46
        invariant
            k <= 46,
            school_columns().len() == 46,
            sql@ == start + column_list(school_columns().take(k as int)),
        decreases 46 - k,
    {
        let column = SCHOOL_COLUMNS[k];
        assert(school_columns()[k as int] == column@);
        assert(school_columns().take(k + 1).drop_last() =~= school_columns().take(k as int));
        if k > 0 {
            push_str(&mut sql, ", ");
        }
        push_str(&mut sql, "\"");
        push_str(&mut sql, column);
        push_str(&mut sql, "\" ");
        if is_real_column(column) {
            push_str(&mut sql, "REAL");
        } else {
            push_str(&mut sql, "TEXT");
        }
        proof {
            if k == 0 {
                reveal_strlit("");
                assert(column_list(school_columns().take(0)) =~= Seq::<char>::empty());
            }
        }
        assert(sql@ =~= start + column_list(school_columns().take(k + 1)));
        k = k + 1;
    }
    assert(school_columns().take(46) =~= school_columns());
    push_str(
        &mut sql,
        ");\nCREATE INDEX idx_county ON schools (County);\nCREATE INDEX idx_district ON schools (District);\nCREATE INDEX idx_status ON schools (StatusType);\nCREATE INDEX idx_cds ON schools (CDSCode);",
    );
    sql
}

// ------------------------------------------------------------------------
// Summaries
// ------------------------------------------------------------------------

/// What an import wrote.
#[derive(Debug)]
pub struct ImportSummary {
    pub rows_inserted: usize,
    pub null_values: usize,
    pub duplicate_cds_codes: Vec<String>,
}

/// One column whose value differs between the source file and the cache.
#[derive(Debug)]
pub struct FieldDifference {
    pub column: String,
    pub csv_value: Option<String>,
    pub database_value: Option<String>,
}

/// A school whose row differs between the source file and the cache.
#[derive(Debug)]
pub struct RowDifference {
    pub cds_code: String,
    pub fields: Vec<FieldDifference>,
}

/// The comparison of the source file with the cache.
#[derive(Debug)]
pub struct DatabaseValidation {
    pub csv_row_count: usize,
    pub database_row_count: usize,
    pub only_in_csv: Vec<String>,
    pub only_in_database: Vec<String>,
    pub changed_rows: Vec<RowDifference>,
    pub duplicate_csv_cds_codes: Vec<String>,
    pub duplicate_database_cds_codes: Vec<String>,
}

impl DatabaseValidation {
    /// The number of problems found: codes on one side only, changed rows,
    /// and repeated codes on either side.
    pub open spec fn spec_issue_count(&self) -> nat {
        self.only_in_csv@.len() + self.only_in_database@.len() + self.changed_rows@.len()
            + self.duplicate_csv_cds_codes@.len() + self.duplicate_database_cds_codes@.len()
    }

    /// Whether the cache matches the source file exactly.
    pub fn is_exact_match(&self) -> (r: bool)
        ensures
            r == (self.spec_issue_count() == 0),
            r == (self.only_in_csv@.len() == 0 && self.only_in_database@.len() == 0
                && self.changed_rows@.len() == 0 && self.duplicate_csv_cds_codes@.len() == 0
                && self.duplicate_database_cds_codes@.len() == 0),
    {
        self.only_in_csv.len() == 0 && self.only_in_database.len() == 0
            && self.changed_rows.len() == 0 && self.duplicate_csv_cds_codes.len() == 0
            && self.duplicate_database_cds_codes.len() == 0
    }

    /// The number of problems found.
    pub fn issue_count(&self) -> (n: usize)
        requires
            self.spec_issue_count() <= usize::MAX,
        ensures
            n == self.spec_issue_count(),
    {
        self.only_in_csv.len() + self.only_in_database.len() + self.changed_rows.len()
            + self.duplicate_csv_cds_codes.len() + self.duplicate_database_cds_codes.len()
    }
}

// ------------------------------------------------------------------------
// Rows keyed by CDS code
// ------------------------------------------------------------------------

/// The values of one row, as text.
pub open spec fn values_view(row: Vec<Option<String>>) -> Seq<Option<Seq<char>>> {
    row@.map_values(|v: Option<String>| opt_view(v))
}

/// The values of several rows, as text.
pub open spec fn rows_view(rows: Seq<Vec<Option<String>>>) -> Seq<Seq<Option<Seq<char>>>> {
    rows.map_values(|r: Vec<Option<String>>| values_view(r))
}

/// The CDS code of a row: its first value, where it has one.
pub open spec fn cds_of(row: Seq<Option<Seq<char>>>) -> Option<Seq<char>> {
    if row.len() > 0 {
        row[0]
    } else {
        None
    }
}

/// The rows by CDS code: a later row with the same code replaces an earlier
/// one, and a row without a code is left out.
pub open spec fn rows_by_code(rows: Seq<Seq<Option<Seq<char>>>>) -> Map<Seq<char>, Seq<Option<Seq<char>>>>
    decreases rows.len(),
{
    if rows.len() == 0 {
        Map::empty()
    } else {
        let m = rows_by_code(rows.drop_last());
        match cds_of(rows.last()) {
            Some(k) => m.insert(k, rows.last()),
            None => m,
        }
    }
}

/// The number of rows that carry the code `k`.
pub open spec fn code_count(rows: Seq<Seq<Option<Seq<char>>>>, k: Seq<char>) -> nat
    decreases rows.len(),
{
    if rows.len() == 0 {
        0
    } else {
        code_count(rows.drop_last(), k) + if cds_of(rows.last()) == Some(k) {
            1nat
        } else {
            0nat
        }
    }
}

/// `names` lists the set `s` in sorted order, each once.
pub open spec fn lists_sorted(names: Seq<Seq<char>>, s: Set<Seq<char>>) -> bool {
    &&& strictly_increasing(names)
    &&& forall|i: int| 0 <= i < names.len() ==> s.contains(#[trigger] names[i])
    &&& forall|k: Seq<char>| #[trigger] s.contains(k) ==> names.contains(k)
}

/// A code is counted exactly when some row carries it.
pub proof fn lemma_counted_codes_are_keyed(rows: Seq<Seq<Option<Seq<char>>>>, k: Seq<char>)
    ensures
        code_count(rows, k) > 0 <==> rows_by_code(rows).dom().contains(k),
    decreases rows.len(),
{
    if rows.len() > 0 {
        lemma_counted_codes_are_keyed(rows.drop_last(), k);
    }
}

/// Rows keyed by CDS code, in code order, with the codes that repeat.
pub struct KeyedRows {
    rows: Vec<(String, Vec<Option<String>>)>,
    repeated: Vec<String>,
}

/// The codes of keyed entries.
pub open spec fn entry_codes(e: Seq<(Seq<char>, Seq<Option<Seq<char>>>)>) -> Seq<Seq<char>> {
    e.map_values(|x: (Seq<char>, Seq<Option<Seq<char>>>)| x.0)
}

impl View for KeyedRows {
    type V = Seq<(Seq<char>, Seq<Option<Seq<char>>>)>;

    closed spec fn view(&self) -> Self::V {
        self.rows@.map_values(|e: (String, Vec<Option<String>>)| (e.0@, values_view(e.1)))
    }
}

impl KeyedRows {
    /// The codes that more than one row carried, in code order.
    pub closed spec fn repeated_view(&self) -> Seq<Seq<char>> {
        self.repeated@.map_values(|t: String| t@)
    }

    #[verifier::type_invariant]
    spec fn ordered(&self) -> bool {
        strictly_increasing(entry_codes(self@))
    }

    /// The rows, each with its code, in code order.
    pub fn rows(&self) -> (r: &Vec<(String, Vec<Option<String>>)>)
        ensures
            r@.map_values(|e: (String, Vec<Option<String>>)| (e.0@, values_view(e.1))) == self@,
    {
        &self.rows
    }

    /// The codes that more than one row carried, in code order.
    pub fn repeated(&self) -> (r: &Vec<String>)
        ensures
            r@.map_values(|t: String| t@) == self.repeated_view(),
    {
        &self.repeated
    }
}

/// The entries list the map `m` in code order.
pub open spec fn lists_map(
    e: Seq<(Seq<char>, Seq<Option<Seq<char>>>)>,
    m: Map<Seq<char>, Seq<Option<Seq<char>>>>,
) -> bool {
    &&& strictly_increasing(entry_codes(e))
    &&& forall|i: int| 0 <= i < e.len() ==> m.dom().contains(#[trigger] e[i].0) && m[e[i].0] == e[i].1
    &&& forall|k: Seq<char>| #[trigger] m.dom().contains(k) ==> entry_codes(e).contains(k)
}

/// The text key of a string.
fn code_of(t: &String) -> (code: Vec<i64>)
    ensures
        code@ == text_key(t@),
{
    let chars = chars_of(t.as_str());
    let mut code: Vec<i64> = Vec::new();
    push_text_key(&mut code, chars.as_slice());
    assert(code@ =~= text_key(t@));
    code
}

/// The first position whose code does not sort before `code`.
fn code_position(codes: &Vec<Vec<i64>>, code: &Vec<i64>) -> (p: usize)
    requires
        forall|a: int, b: int| 0 <= a < b < codes@.len() ==> key_lt(#[trigger] codes@[a]@, #[trigger] codes@[b]@),
    ensures
        p <= codes@.len(),
        forall|j: int| 0 <= j < p ==> key_lt(#[trigger] codes@[j]@, code@),
        forall|j: int| p <= j < codes@.len() ==> !key_lt(#[trigger] codes@[j]@, code@),
{
    let mut lo: usize = 0;
    let mut hi: usize = codes.len();
    while lo < hi
        invariant
            lo <= hi <= codes@.len(),
            forall|a: int, b: int| 0 <= a < b < codes@.len() ==> key_lt(#[trigger] codes@[a]@, #[trigger] codes@[b]@),
            forall|j: int| 0 <= j < lo ==> key_lt(#[trigger] codes@[j]@, code@),
            forall|j: int| hi <= j < codes@.len() ==> !key_lt(#[trigger] codes@[j]@, code@),
        decreases hi - lo,
    {
        let mid = lo + (hi - lo) / 2;
        if key_less(codes[mid].as_slice(), code.as_slice()) {
            proof {
                assert forall|j: int| 0 <= j <= mid implies key_lt(#[trigger] codes@[j]@, code@) by {
                    if j < mid {
                        lemma_key_trans(codes@[j]@, codes@[mid as int]@, code@);
                    }
                }
            }
            lo = mid + 1;
        } else {
            proof {
                assert forall|j: int| mid <= j < codes@.len() implies !key_lt(#[trigger] codes@[j]@, code@) by {
                    if j > mid && key_lt(codes@[j]@, code@) {
                        lemma_key_trans(codes@[mid as int]@, codes@[j]@, code@);
                    }
                }
            }
            hi = mid;
        }
    }
    lo
}

/// Where `code` sits among the sorted codes, if it is there.
fn find_code(codes: &Vec<Vec<i64>>, code: &Vec<i64>) -> (r: Option<usize>)
    requires
        forall|a: int, b: int| 0 <= a < b < codes@.len() ==> key_lt(#[trigger] codes@[a]@, #[trigger] codes@[b]@),
    ensures
        match r {
            Some(p) => p < codes@.len() && codes@[p as int]@ == code@,
            None => forall|j: int| 0 <= j < codes@.len() ==> #[trigger] codes@[j]@ != code@,
        },
{
    let p = code_position(codes, code);
    if p < codes.len() && !key_less(code.as_slice(), codes[p].as_slice()) {
        proof {
            lemma_key_total(codes@[p as int]@, code@);
        }
        Some(p)
    } else {
        proof {
            assert forall|j: int| 0 <= j < codes@.len() implies #[trigger] codes@[j]@ != code@ by {
                lemma_key_total(code@, code@);
                if j > p {
                    if codes@[j]@ == code@ {
                        lemma_key_trans(code@, codes@[p as int]@, codes@[j]@);
                    }
                }
            }
        }
        None
    }
}

/// A copy of a row's values.
fn copy_values(row: &Vec<Option<String>>) -> (r: Vec<Option<String>>)
    ensures
        r@ == row@,
{
    let mut r: Vec<Option<String>> = Vec::new();
    let mut i: usize = 0;
    while i < row.len()
        invariant
            i <= row@.len(),
            r@ == row@.take(i as int),
        decreases row@.len() - i,
    {
        r.push(clone_opt_string(&row[i]));
        i = i + 1;
        assert(r@ =~= row@.take(i as int));
    }
    assert(row@.take(row@.len() as int) =~= row@);
    r
}

/// The text view of keyed entries.
pub open spec fn entries_view(e: Seq<(String, Vec<Option<String>>)>) -> Seq<(Seq<char>, Seq<Option<Seq<char>>>)> {
    e.map_values(|x: (String, Vec<Option<String>>)| (x.0@, values_view(x.1)))
}

/// Distinct positions of a strictly increasing list hold distinct codes.
proof fn lemma_increasing_distinct(names: Seq<Seq<char>>, a: int, b: int)
    requires
        strictly_increasing(names),
        0 <= a < names.len(),
        0 <= b < names.len(),
        a != b,
    ensures
        names[a] != names[b],
{
    lemma_key_total(text_key(names[a]), text_key(names[a]));
    if a < b {
        assert(key_lt(text_key(names[a]), text_key(names[b])));
    } else {
        assert(key_lt(text_key(names[b]), text_key(names[a])));
    }
}

/// Inserting a new code at its sorted place keeps the entries listing the
/// map with the new row added.
proof fn lemma_insert_entry(
    e: Seq<(Seq<char>, Seq<Option<Seq<char>>>)>,
    m: Map<Seq<char>, Seq<Option<Seq<char>>>>,
    p: int,
    k: Seq<char>,
    row: Seq<Option<Seq<char>>>,
)
    requires
        lists_map(e, m),
        0 <= p <= e.len(),
        forall|j: int| 0 <= j < p ==> key_lt(text_key(#[trigger] e[j].0), text_key(k)),
        forall|j: int| p <= j < e.len() ==> key_lt(text_key(k), text_key(#[trigger] e[j].0)),
    ensures
        lists_map(e.insert(p, (k, row)), m.insert(k, row)),
{
    let e2 = e.insert(p, (k, row));
    let m2 = m.insert(k, row);
    let c = entry_codes(e);
    let c2 = entry_codes(e2);
    assert(c2 =~= c.insert(p, k));
    lemma_key_total(text_key(k), text_key(k));
    assert forall|a: int, b: int| 0 <= a < b < c2.len() implies key_lt(
        text_key(#[trigger] c2[a]),
        text_key(#[trigger] c2[b]),
    ) by {
        if b < p {
            assert(c2[a] == c[a] && c2[b] == c[b]);
        } else if b == p {
            assert(c2[a] == e[a].0);
        } else if a < p {
            assert(c2[a] == c[a] && c2[b] == c[b - 1]);
        } else if a == p {
            assert(c2[b] == e[b - 1].0);
        } else {
            assert(c2[a] == c[a - 1] && c2[b] == c[b - 1]);
        }
    }
    assert forall|i: int| 0 <= i < e2.len() implies m2.dom().contains(#[trigger] e2[i].0) && m2[e2[i].0]
        == e2[i].1 by {
        if i < p {
            assert(e2[i] == e[i]);
            assert(key_lt(text_key(e[i].0), text_key(k)));
        } else if i > p {
            assert(e2[i] == e[i - 1]);
            assert(key_lt(text_key(k), text_key(e[i - 1].0)));
        }
    }
    assert forall|x: Seq<char>| #[trigger] m2.dom().contains(x) implies c2.contains(x) by {
        if x == k {
            assert(c2[p] == k);
        } else {
            assert(m.dom().contains(x));
            assert(c.contains(x));
            let j = choose|j: int| 0 <= j < c.len() && c[j] == x;
            if j < p {
                assert(c2[j] == x);
            } else {
                assert(c2[j + 1] == x);
            }
        }
    }
}

/// Replacing the row of a code already listed keeps the entries listing the
/// map with that code's row replaced.
proof fn lemma_update_entry(
    e: Seq<(Seq<char>, Seq<Option<Seq<char>>>)>,
    m: Map<Seq<char>, Seq<Option<Seq<char>>>>,
    p: int,
    k: Seq<char>,
    row: Seq<Option<Seq<char>>>,
)
    requires
        lists_map(e, m),
        0 <= p < e.len(),
        e[p].0 == k,
    ensures
        lists_map(e.update(p, (k, row)), m.insert(k, row)),
{
    let e2 = e.update(p, (k, row));
    let m2 = m.insert(k, row);
    assert(entry_codes(e2) =~= entry_codes(e));
    assert forall|i: int| 0 <= i < e2.len() implies m2.dom().contains(#[trigger] e2[i].0) && m2[e2[i].0]
        == e2[i].1 by {
        if i != p {
            lemma_increasing_distinct(entry_codes(e), i, p);
            assert(entry_codes(e)[i] == e[i].0);
        }
    }
    assert forall|x: Seq<char>| #[trigger] m2.dom().contains(x) implies entry_codes(e2).contains(x) by {
        if x == k {
            assert(entry_codes(e2)[p] == k);
        } else {
            assert(m.dom().contains(x));
        }
    }
}

/// The codes carried by more than one row.
pub open spec fn repeated_codes(rows: Seq<Seq<Option<Seq<char>>>>) -> Set<Seq<char>> {
    Set::new(|k: Seq<char>| code_count(rows, k) >= 2)
}

/// Keys rows by their CDS code (the first value) as inserting them in order
/// into a map keyed by code does: a later row replaces an earlier one with
/// the same code, and a row without a code is skipped. The codes that more
/// than one row carried are listed too.
pub fn key_rows(rows: &Vec<Vec<Option<String>>>) -> (keyed: KeyedRows)
    ensures
        lists_map(keyed@, rows_by_code(rows_view(rows@))),
        lists_sorted(keyed.repeated_view(), repeated_codes(rows_view(rows@))),
{
    let ghost rv = rows_view(rows@);
    let mut entries: Vec<(String, Vec<Option<String>>)> = Vec::new();
    let mut codes: Vec<Vec<i64>> = Vec::new();
    let mut twice: Vec<bool> = Vec::new();
    let mut i: usize = 0;
    assert(rv.take(0) =~= Seq::<Seq<Option<Seq<char>>>>::empty());
    assert(entry_codes(entries_view(entries@)) =~= Seq::<Seq<char>>::empty());
    while i < rows.len()
        invariant
            i <= rows@.len(),
            rv == rows_view(rows@),
            codes@.len() == entries@.len(),
            twice@.len() == entries@.len(),
            forall|j: int| 0 <= j < codes@.len() ==> (#[trigger] codes@[j])@ == text_key(entries@[j].0@),
            lists_map(entries_view(entries@), rows_by_code(rv.take(i as int))),
            forall|j: int|
                0 <= j < twice@.len() ==> #[trigger] twice@[j] == (code_count(rv.take(i as int), entries@[j].0@)
                    >= 2),
        decreases rows@.len() - i,
    {
        let row = &rows[i];
        let ghost pre = rv.take(i as int);
        let ghost post = rv.take(i + 1);
        let ghost ev = entries_view(entries@);
        let ghost m = rows_by_code(pre);
        assert(post.drop_last() =~= pre);
        assert(post.last() == values_view(*row));
        if row.len() > 0 && row[0].is_some() {
            let cds: String = match &row[0] {
                Some(c) => c.clone(),
                None => String::new(),
            };
            assert(cds_of(post.last()) == Some(cds@));
            let code = code_of(&cds);
            proof {
                assert forall|a: int, b: int| 0 <= a < b < codes@.len() implies key_lt(
                    #[trigger] codes@[a]@,
                    #[trigger] codes@[b]@,
                ) by {
                    assert(entry_codes(ev)[a] == entries@[a].0@);
                    assert(entry_codes(ev)[b] == entries@[b].0@);
                }
            }
            let p = code_position(&codes, &code);
            let values = copy_values(row);
            assert(values_view(values) == values_view(*row));
            if p < codes.len() && !key_less(code.as_slice(), codes[p].as_slice()) {
                proof {
                    lemma_key_total(codes@[p as int]@, code@);
                    lemma_text_key_injective(entries@[p as int].0@, cds@);
                    lemma_update_entry(ev, m, p as int, cds@, values_view(*row));
                    assert(ev[p as int].0 == cds@);
                    assert(m.dom().contains(cds@));
                    lemma_counted_codes_are_keyed(pre, cds@);
                }
                entries.set(p, (cds, values));
                twice.set(p, true);
                proof {
                    assert(entries_view(entries@) =~= ev.update(p as int, (cds@, values_view(*row))));
                    assert forall|j: int| 0 <= j < twice@.len() implies #[trigger] twice@[j] == (code_count(
                        post,
                        entries@[j].0@,
                    ) >= 2) by {
                        if j != p {
                            lemma_increasing_distinct(entry_codes(ev), j, p as int);
                            assert(entry_codes(ev)[j] == entries@[j].0@);
                        }
                    }
                }
            } else {
                proof {
                    assert forall|j: int| p <= j < ev.len() implies key_lt(
                        text_key(cds@),
                        text_key(#[trigger] ev[j].0),
                    ) by {
                        lemma_key_total(code@, codes@[p as int]@);
                        if j > p {
                            assert(entry_codes(ev)[p as int] == ev[p as int].0);
                            assert(entry_codes(ev)[j] == ev[j].0);
                            lemma_key_trans(code@, codes@[p as int]@, codes@[j]@);
                        }
                    }
                    assert forall|j: int| 0 <= j < p implies key_lt(text_key(#[trigger] ev[j].0), text_key(cds@)) by {
                        assert(codes@[j]@ == text_key(ev[j].0));
                    }
                    lemma_insert_entry(ev, m, p as int, cds@, values_view(*row));
                    if m.dom().contains(cds@) {
                        assert(entry_codes(ev).contains(cds@));
                        let t = choose|t: int| 0 <= t < entry_codes(ev).len() && entry_codes(ev)[t] == cds@;
                        lemma_key_total(text_key(cds@), text_key(cds@));
                        if t < p {
                            assert(key_lt(text_key(ev[t].0), text_key(cds@)));
                        } else {
                            assert(key_lt(text_key(cds@), text_key(ev[t].0)));
                        }
                    }
                    lemma_counted_codes_are_keyed(pre, cds@);
                }
                let ghost cs = codes@;
                let ghost tw = twice@;
                entries.insert(p, (cds, values));
                codes.insert(p, code);
                twice.insert(p, false);
                proof {
                    assert(entries_view(entries@) =~= ev.insert(p as int, (cds@, values_view(*row))));
                    assert forall|j: int| 0 <= j < codes@.len() implies (#[trigger] codes@[j])@ == text_key(
                        entries@[j].0@,
                    ) by {
                        if j > p {
                            assert(codes@[j] == cs[j - 1]);
                        }
                    }
                    assert forall|j: int| 0 <= j < twice@.len() implies #[trigger] twice@[j] == (code_count(
                        post,
                        entries@[j].0@,
                    ) >= 2) by {
                        if j < p {
                            assert(key_lt(text_key(ev[j].0), text_key(cds@)));
                            lemma_key_total(text_key(cds@), text_key(cds@));
                        } else if j > p {
                            assert(entries_view(entries@)[j] == ev[j - 1]);
                            assert(twice@[j] == tw[j - 1]);
                            lemma_key_total(text_key(cds@), text_key(cds@));
                            assert(key_lt(text_key(cds@), text_key(ev[j - 1].0)));
                        }
                    }
                }
            }
        } else {
            assert(cds_of(post.last()) is None);
            assert(rows_by_code(post) == m);
            assert forall|j: int| 0 <= j < twice@.len() implies #[trigger] twice@[j] == (code_count(
                post,
                entries@[j].0@,
            ) >= 2) by {
                assert(code_count(post, entries@[j].0@) == code_count(pre, entries@[j].0@));
            }
        }
        i = i + 1;
    }
    assert(rv.take(rows@.len() as int) =~= rv);
    let ghost ev = entries_view(entries@);
    let mut repeated: Vec<String> = Vec::new();
    let ghost mut origin: Seq<int> = Seq::empty();
    let mut j: usize = 0;
    while j < entries.len()
        invariant
            j <= entries@.len(),
            ev == entries_view(entries@),
            twice@.len() == entries@.len(),
            lists_map(ev, rows_by_code(rv)),
            forall|t: int| 0 <= t < twice@.len() ==> #[trigger] twice@[t] == (code_count(rv, entries@[t].0@) >= 2),
            strictly_increasing(repeated@.map_values(|t: String| t@)),
            origin.len() == repeated@.len(),
            forall|x: int|
                0 <= x < repeated@.len() ==> 0 <= #[trigger] origin[x] < j && twice@[origin[x]]
                    && repeated@[x]@ == entries@[origin[x]].0@,
            forall|t: int|
                0 <= t < j && #[trigger] twice@[t] ==> repeated@.map_values(|r: String| r@).contains(
                    entries@[t].0@,
                ),
        decreases entries@.len() - j,
    {
        if twice[j] {
            let ghost before = repeated@.map_values(|t: String| t@);
            let ghost prev = repeated@;
            repeated.push(entries[j].0.clone());
            proof {
                let names = repeated@.map_values(|t: String| t@);
                assert(names =~= before.push(entries@[j as int].0@));
                assert forall|a: int, b: int| 0 <= a < b < names.len() implies key_lt(
                    text_key(#[trigger] names[a]),
                    text_key(#[trigger] names[b]),
                ) by {
                    if b == names.len() - 1 {
                        let t = origin[a];
                        assert(repeated@[a] == prev[a]);
                        assert(entry_codes(ev)[t] == entries@[t].0@);
                        assert(entry_codes(ev)[j as int] == entries@[j as int].0@);
                    } else {
                        assert(names[a] == before[a] && names[b] == before[b]);
                    }
                }
                origin = origin.push(j as int);
                assert forall|x: int| 0 <= x < repeated@.len() implies 0 <= #[trigger] origin[x] < j + 1
                    && twice@[origin[x]] && repeated@[x]@ == entries@[origin[x]].0@ by {
                    if x < repeated@.len() - 1 {
                        assert(repeated@[x] == prev[x]);
                    }
                }
                assert forall|t: int| 0 <= t < j + 1 && #[trigger] twice@[t] implies names.contains(
                    entries@[t].0@,
                ) by {
                    if t == j {
                        assert(names[names.len() - 1] == entries@[t].0@);
                    } else {
                        assert(before.contains(entries@[t].0@));
                        let x = choose|x: int| 0 <= x < before.len() && before[x] == entries@[t].0@;
                        assert(names[x] == before[x]);
                    }
                }
            }
        }
        j = j + 1;
    }
    proof {
        let names = repeated@.map_values(|t: String| t@);
        let set = repeated_codes(rv);
        assert forall|x: int| 0 <= x < names.len() implies set.contains(#[trigger] names[x]) by {
            let t = origin[x];
            assert(twice@[t]);
        }
        assert forall|k: Seq<char>| #[trigger] set.contains(k) implies names.contains(k) by {
            lemma_counted_codes_are_keyed(rv, k);
            assert(entry_codes(ev).contains(k));
            let t = choose|t: int| 0 <= t < entry_codes(ev).len() && entry_codes(ev)[t] == k;
            assert(twice@[t]);
        }
    }
    KeyedRows { rows: entries, repeated }
}

// ------------------------------------------------------------------------
// Comparing the source file with the cache
// ------------------------------------------------------------------------

/// Whether a column's two values differ: a value on one side only, texts
/// that differ, or, in a real-number column, values that `numbers_agree`
/// says do not match as numbers.
pub open spec fn value_differs(
    column: Seq<char>,
    left: Option<Seq<char>>,
    right: Option<Seq<char>>,
    numbers_agree: bool,
) -> bool {
    match (left, right) {
        (None, None) => false,
        (Some(a), Some(b)) => if real_column(column) {
            !numbers_agree
        } else {
            a != b
        },
        _ => true,
    }
}

/// The contents of a field difference: column, source value, cached value.
pub open spec fn field_view(f: FieldDifference) -> (Seq<char>, Option<Seq<char>>, Option<Seq<char>>) {
    (f.column@, opt_view(f.csv_value), opt_view(f.database_value))
}

/// The differing fields among the columns after the code and before `k`,
/// in column order; `agree[c]` is whether the values of real-number column
/// `c` match as numbers.
pub open spec fn field_diffs(
    csv: Seq<Option<Seq<char>>>,
    db: Seq<Option<Seq<char>>>,
    agree: Seq<bool>,
    k: int,
) -> Seq<(Seq<char>, Option<Seq<char>>, Option<Seq<char>>)>
    decreases k,
{
    if k <= 1 {
        Seq::empty()
    } else {
        let earlier = field_diffs(csv, db, agree, k - 1);
        let c = school_columns()[k - 1];
        if value_differs(c, csv[k - 1], db[k - 1], agree[k - 1]) {
            earlier.push((c, csv[k - 1], db[k - 1]))
        } else {
            earlier
        }
    }
}

/// The fields of two rows of the `schools` table that differ, in column
/// order, leaving out the code itself. `numbers_agree[c]` says whether the
/// values of real-number column `c` match as numbers; it is consulted only
/// for such a column where both sides have a value.
pub fn field_differences(
    csv_row: &Vec<Option<String>>,
    database_row: &Vec<Option<String>>,
    numbers_agree: &Vec<bool>,
) -> (fields: Vec<FieldDifference>)
    requires
        csv_row@.len() >= 46,
        database_row@.len() >= 46,
        numbers_agree@.len() >= 46,
    ensures
        fields@.map_values(|f: FieldDifference| field_view(f)) == field_diffs(
            values_view(*csv_row),
            values_view(*database_row),
            numbers_agree@,
            46,
        ),
{
    let ghost cv = values_view(*csv_row);
    let ghost dv = values_view(*database_row);
    let mut fields: Vec<FieldDifference> = Vec::new();
    let mut k: usize = 1;
    while k < 46
        invariant
            1 <= k <= 46,
            csv_row@.len() >= 46,
            database_row@.len() >= 46,
            numbers_agree@.len() >= 46,
            cv == values_view(*csv_row),
            dv == values_view(*database_row),
            school_columns().len() == 46,
            fields@.map_values(|f: FieldDifference| field_view(f)) == field_diffs(cv, dv, numbers_agree@, k as int),
        decreases 46 - k,
    {
        let column = SCHOOL_COLUMNS[k];
        assert(school_columns()[k as int] == column@);
        assert(cv[k as int] == opt_view(csv_row@[k as int]));
        assert(dv[k as int] == opt_view(database_row@[k as int]));
        let differs = match (&csv_row[k], &database_row[k]) {
            (None, None) => false,
            (Some(a), Some(b)) => if is_real_column(column) {
                !numbers_agree[k]
            } else {
                !(*a == *b)
            },
            _ => true,
        };
        if differs {
            let ghost before = fields@.map_values(|f: FieldDifference| field_view(f));
            let f = FieldDifference {
                column: owned(column),
                csv_value: clone_opt_string(&csv_row[k]),
                database_value: clone_opt_string(&database_row[k]),
            };
            fields.push(f);
            assert(fields@.map_values(|f: FieldDifference| field_view(f)) =~= before.push(
                (column@, cv[k as int], dv[k as int]),
            ));
        }
        k = k + 1;
    }
    fields
}

/// The row listed for `code` among keyed entries, if any.
pub open spec fn entry_row(
    e: Seq<(Seq<char>, Seq<Option<Seq<char>>>)>,
    code: Seq<char>,
) -> Option<Seq<Option<Seq<char>>>>
    decreases e.len(),
{
    if e.len() == 0 {
        None
    } else if e.last().0 == code {
        Some(e.last().1)
    } else {
        entry_row(e.drop_last(), code)
    }
}

/// How many codes of the first entries the second entries list too.
pub open spec fn shared_count(
    a: Seq<(Seq<char>, Seq<Option<Seq<char>>>)>,
    b: Seq<(Seq<char>, Seq<Option<Seq<char>>>)>,
) -> nat
    decreases a.len(),
{
    if a.len() == 0 {
        0
    } else {
        shared_count(a.drop_last(), b) + if entry_row(b, a.last().0) is Some {
            1nat
        } else {
            0nat
        }
    }
}

/// The rows whose fields differ, in code order, each with its differing
/// fields; `agree[s]` holds the numeric verdicts for the `s`-th code that
/// both sides list.
pub open spec fn changed_rows_of(
    csv: Seq<(Seq<char>, Seq<Option<Seq<char>>>)>,
    db: Seq<(Seq<char>, Seq<Option<Seq<char>>>)>,
    agree: Seq<Seq<bool>>,
) -> Seq<(Seq<char>, Seq<(Seq<char>, Option<Seq<char>>, Option<Seq<char>>)>)>
    decreases csv.len(),
{
    if csv.len() == 0 {
        Seq::empty()
    } else {
        let rest = csv.drop_last();
        let earlier = changed_rows_of(rest, db, agree);
        match entry_row(db, csv.last().0) {
            None => earlier,
            Some(db_row) => {
                let fields = field_diffs(csv.last().1, db_row, agree[shared_count(rest, db) as int], 46);
                if fields.len() > 0 {
                    earlier.push((csv.last().0, fields))
                } else {
                    earlier
                }
            },
        }
    }
}

/// The codes of the first entries that the second entries do not list.
pub open spec fn codes_missing_from(
    a: Seq<(Seq<char>, Seq<Option<Seq<char>>>)>,
    b: Seq<(Seq<char>, Seq<Option<Seq<char>>>)>,
) -> Seq<Seq<char>> {
    entry_codes(a).filter(|c: Seq<char>| entry_row(b, c) is None)
}

/// The row of a listed code is the one listed with it.
proof fn lemma_entry_row_found(e: Seq<(Seq<char>, Seq<Option<Seq<char>>>)>, p: int)
    requires
        strictly_increasing(entry_codes(e)),
        0 <= p < e.len(),
    ensures
        entry_row(e, e[p].0) == Some(e[p].1),
    decreases e.len(),
{
    if p < e.len() - 1 {
        lemma_increasing_distinct(entry_codes(e), p, e.len() - 1);
        assert(entry_codes(e)[p] == e[p].0);
        assert(entry_codes(e)[e.len() - 1] == e.last().0);
        let d = e.drop_last();
        assert(entry_codes(d) =~= entry_codes(e).drop_last());
        assert forall|a: int, b: int| 0 <= a < b < entry_codes(d).len() implies key_lt(
            text_key(#[trigger] entry_codes(d)[a]),
            text_key(#[trigger] entry_codes(d)[b]),
        ) by {
            assert(entry_codes(d)[a] == entry_codes(e)[a]);
            assert(entry_codes(d)[b] == entry_codes(e)[b]);
        }
        lemma_entry_row_found(d, p);
    }
}

/// A code that no entry carries has no row.
proof fn lemma_entry_row_absent(e: Seq<(Seq<char>, Seq<Option<Seq<char>>>)>, c: Seq<char>)
    requires
        forall|i: int| 0 <= i < e.len() ==> #[trigger] e[i].0 != c,
    ensures
        entry_row(e, c) is None,
    decreases e.len(),
{
    if e.len() > 0 {
        assert(e.last().0 != c);
        lemma_entry_row_absent(e.drop_last(), c);
    }
}

/// The text keys of the codes of keyed rows, in their order.
fn codes_of(keyed: &KeyedRows) -> (codes: Vec<Vec<i64>>)
    ensures
        codes@.len() == keyed@.len(),
        forall|j: int| 0 <= j < codes@.len() ==> (#[trigger] codes@[j])@ == text_key(keyed@[j].0),
        forall|a: int, b: int| 0 <= a < b < codes@.len() ==> key_lt(#[trigger] codes@[a]@, #[trigger] codes@[b]@),
{
    proof {
        use_type_invariant(keyed);
    }
    let rows = keyed.rows();
    let ghost ev = keyed@;
    let mut codes: Vec<Vec<i64>> = Vec::new();
    let mut j: usize = 0;
    while j < rows.len()
        invariant
            j <= rows@.len(),
            rows@.len() == ev.len(),
            rows@.map_values(|e: (String, Vec<Option<String>>)| (e.0@, values_view(e.1))) == ev,
            codes@.len() == j,
            forall|t: int| 0 <= t < j ==> (#[trigger] codes@[t])@ == text_key(ev[t].0),
        decreases rows@.len() - j,
    {
        assert(ev[j as int].0 == rows@[j as int].0@);
        codes.push(code_of(&rows[j].0));
        j = j + 1;
    }
    assert forall|a: int, b: int| 0 <= a < b < codes@.len() implies key_lt(
        #[trigger] codes@[a]@,
        #[trigger] codes@[b]@,
    ) by {
        assert(entry_codes(ev)[a] == ev[a].0);
        assert(entry_codes(ev)[b] == ev[b].0);
    }
    codes
}

/// The codes of `a` that `b` does not list, in code order.
fn codes_missing(a: &KeyedRows, b: &KeyedRows) -> (r: Vec<String>)
    ensures
        r@.map_values(|t: String| t@) == codes_missing_from(a@, b@),
{
    proof {
        use_type_invariant(b);
    }
    let b_codes = codes_of(b);
    let rows = a.rows();
    let ghost ev = a@;
    let ghost pred = |c: Seq<char>| entry_row(b@, c) is None;
    let mut r: Vec<String> = Vec::new();
    let mut i: usize = 0;
    assert(entry_codes(ev).take(0) =~= Seq::<Seq<char>>::empty());
    proof {
        reveal(Seq::filter);
    }
    while i < rows.len()
        invariant
            i <= rows@.len(),
            rows@.len() == ev.len(),
            rows@.map_values(|e: (String, Vec<Option<String>>)| (e.0@, values_view(e.1))) == ev,
            b_codes@.len() == b@.len(),
            forall|j: int| 0 <= j < b_codes@.len() ==> (#[trigger] b_codes@[j])@ == text_key(b@[j].0),
            forall|x: int, y: int| 0 <= x < y < b_codes@.len() ==> key_lt(#[trigger] b_codes@[x]@, #[trigger] b_codes@[y]@),
            strictly_increasing(entry_codes(b@)),
            pred == (|c: Seq<char>| entry_row(b@, c) is None),
            r@.map_values(|t: String| t@) == entry_codes(ev).take(i as int).filter(pred),
        decreases rows@.len() - i,
    {
        let code = code_of(&rows[i].0);
        let ghost c = rows@[i as int].0@;
        assert(ev[i as int].0 == c);
        assert(entry_codes(ev).take(i + 1).drop_last() =~= entry_codes(ev).take(i as int));
        assert(entry_codes(ev).take(i + 1).last() == c);
        match find_code(&b_codes, &code) {
            Some(p) => {
                proof {
                    lemma_text_key_injective(b@[p as int].0, c);
                    lemma_entry_row_found(b@, p as int);
                    assert(!pred(c));
                    reveal(Seq::filter);
                    assert(entry_codes(ev).take(i + 1).filter(pred) == entry_codes(ev).take(i as int).filter(
                        pred,
                    ));
                }
            },
            None => {
                proof {
                    assert forall|j: int| 0 <= j < b@.len() implies #[trigger] b@[j].0 != c by {
                        assert(b_codes@[j]@ != code@);
                    }
                    lemma_entry_row_absent(b@, c);
                }
                let ghost before = r@.map_values(|t: String| t@);
                r.push(rows[i].0.clone());
                assert(pred(c));
                reveal(Seq::filter);
                assert(entry_codes(ev).take(i + 1).filter(pred) == entry_codes(ev).take(i as int).filter(
                    pred,
                ).push(c));
                assert(r@.map_values(|t: String| t@) =~= before.push(c));
            },
        }
        i = i + 1;
    }
    assert(entry_codes(ev).take(rows@.len() as int) =~= entry_codes(ev));
    r
}

/// Sharing only grows along the first side.
proof fn lemma_shared_monotone(
    ev: Seq<(Seq<char>, Seq<Option<Seq<char>>>)>,
    dv: Seq<(Seq<char>, Seq<Option<Seq<char>>>)>,
    lo: int,
    hi: int,
)
    requires
        0 <= lo <= hi <= ev.len(),
    ensures
        shared_count(ev.take(lo), dv) <= shared_count(ev.take(hi), dv),
    decreases hi - lo,
{
    if hi > lo {
        assert(ev.take(hi).drop_last() =~= ev.take(hi - 1));
        lemma_shared_monotone(ev, dv, lo, hi - 1);
    }
}

/// Entries that share no code add no changed row.
proof fn lemma_unshared_run(
    ev: Seq<(Seq<char>, Seq<Option<Seq<char>>>)>,
    dv: Seq<(Seq<char>, Seq<Option<Seq<char>>>)>,
    agree: Seq<Seq<bool>>,
    lo: int,
    hi: int,
)
    requires
        0 <= lo <= hi <= ev.len(),
        shared_count(ev.take(lo), dv) == shared_count(ev.take(hi), dv),
    ensures
        changed_rows_of(ev.take(hi), dv, agree) == changed_rows_of(ev.take(lo), dv, agree),
    decreases hi - lo,
{
    if hi > lo {
        assert(ev.take(hi).drop_last() =~= ev.take(hi - 1));
        assert(ev.take(hi).last() == ev[hi - 1]);
        lemma_shared_monotone(ev, dv, lo, hi - 1);
        lemma_unshared_run(ev, dv, agree, lo, hi - 1);
    }
}

/// The pairs of shared positions, as `shared_rows` gives them.
pub open spec fn shared_pairs(
    ev: Seq<(Seq<char>, Seq<Option<Seq<char>>>)>,
    dv: Seq<(Seq<char>, Seq<Option<Seq<char>>>)>,
    pairs: Seq<(usize, usize)>,
) -> bool {
    forall|t: int|
        0 <= t < pairs.len() ==> {
            let (a, b) = #[trigger] pairs[t];
            &&& a < ev.len()
            &&& b < dv.len()
            &&& ev[a as int].0 == dv[b as int].0
            &&& shared_count(ev.take(a as int), dv) == t
        }
}

/// The changed rows up to the `s`-th shared position extend those up to the
/// previous one by that position's row, where its fields differ.
proof fn lemma_changed_step(
    ev: Seq<(Seq<char>, Seq<Option<Seq<char>>>)>,
    dv: Seq<(Seq<char>, Seq<Option<Seq<char>>>)>,
    agree: Seq<Seq<bool>>,
    pairs: Seq<(usize, usize)>,
    s: int,
)
    requires
        shared_pairs(ev, dv, pairs),
        strictly_increasing(entry_codes(dv)),
        0 <= s < pairs.len(),
    ensures
        ({
            let a = pairs[s].0 as int;
            let b = pairs[s].1 as int;
            let before = if s == 0 {
                Seq::empty()
            } else {
                changed_rows_of(ev.take(pairs[s - 1].0 + 1), dv, agree)
            };
            let f = field_diffs(ev[a].1, dv[b].1, agree[s], 46);
            changed_rows_of(ev.take(a + 1), dv, agree) == if f.len() > 0 {
                before.push((ev[a].0, f))
            } else {
                before
            }
        }),
{
    let a = pairs[s].0 as int;
    let b = pairs[s].1 as int;
    assert(pairs[s] == (pairs[s].0, pairs[s].1));
    if s == 0 {
        assert(ev.take(0) =~= Seq::<(Seq<char>, Seq<Option<Seq<char>>>)>::empty());
        lemma_unshared_run(ev, dv, agree, 0, a);
    } else {
        let a0 = pairs[s - 1].0 as int;
        let b0 = pairs[s - 1].1 as int;
        assert(pairs[s - 1] == (pairs[s - 1].0, pairs[s - 1].1));
        lemma_entry_row_found(dv, b0);
        assert(ev.take(a0 + 1).drop_last() =~= ev.take(a0));
        assert(ev.take(a0 + 1).last() == ev[a0]);
        if a <= a0 {
            lemma_shared_monotone(ev, dv, a, a0);
        }
        lemma_unshared_run(ev, dv, agree, a0 + 1, a);
    }
    lemma_entry_row_found(dv, b);
    assert(ev.take(a + 1).drop_last() =~= ev.take(a));
    assert(ev.take(a + 1).last() == ev[a]);
}

/// After the last shared position no changed row is added.
proof fn lemma_changed_tail(
    ev: Seq<(Seq<char>, Seq<Option<Seq<char>>>)>,
    dv: Seq<(Seq<char>, Seq<Option<Seq<char>>>)>,
    agree: Seq<Seq<bool>>,
    pairs: Seq<(usize, usize)>,
)
    requires
        shared_pairs(ev, dv, pairs),
        strictly_increasing(entry_codes(dv)),
        pairs.len() == shared_count(ev, dv),
    ensures
        changed_rows_of(ev, dv, agree) == if pairs.len() == 0 {
            Seq::empty()
        } else {
            changed_rows_of(ev.take(pairs[pairs.len() - 1].0 + 1), dv, agree)
        },
{
    assert(ev.take(ev.len() as int) =~= ev);
    if pairs.len() == 0 {
        assert(ev.take(0) =~= Seq::<(Seq<char>, Seq<Option<Seq<char>>>)>::empty());
        lemma_unshared_run(ev, dv, agree, 0, ev.len() as int);
    } else {
        let t = pairs.len() - 1;
        let a0 = pairs[t].0 as int;
        let b0 = pairs[t].1 as int;
        assert(pairs[t] == (pairs[t].0, pairs[t].1));
        lemma_entry_row_found(dv, b0);
        assert(ev.take(a0 + 1).drop_last() =~= ev.take(a0));
        assert(ev.take(a0 + 1).last() == ev[a0]);
        lemma_unshared_run(ev, dv, agree, a0 + 1, ev.len() as int);
    }
}

/// The positions of the rows of both sides that share a code, in the
/// first side's order: the `s`-th pair names the `s`-th shared code.
pub fn shared_rows(csv: &KeyedRows, database: &KeyedRows) -> (pairs: Vec<(usize, usize)>)
    ensures
        pairs@.len() == shared_count(csv@, database@),
        forall|s: int|
            0 <= s < pairs@.len() ==> {
                let (a, b) = #[trigger] pairs@[s];
                &&& a < csv@.len()
                &&& b < database@.len()
                &&& csv@[a as int].0 == database@[b as int].0
                &&& shared_count(csv@.take(a as int), database@) == s
            },
{
    proof {
        use_type_invariant(database);
    }
    let db_codes = codes_of(database);
    let rows = csv.rows();
    let ghost ev = csv@;
    let ghost dv = database@;
    let mut pairs: Vec<(usize, usize)> = Vec::new();
    let mut i: usize = 0;
    assert(ev.take(0) =~= Seq::<(Seq<char>, Seq<Option<Seq<char>>>)>::empty());
    while i < rows.len()
        invariant
            i <= rows@.len(),
            rows@.len() == ev.len(),
            rows@.map_values(|e: (String, Vec<Option<String>>)| (e.0@, values_view(e.1))) == ev,
            dv == database@,
            db_codes@.len() == dv.len(),
            forall|j: int| 0 <= j < db_codes@.len() ==> (#[trigger] db_codes@[j])@ == text_key(dv[j].0),
            forall|x: int, y: int| 0 <= x < y < db_codes@.len() ==> key_lt(#[trigger] db_codes@[x]@, #[trigger] db_codes@[y]@),
            strictly_increasing(entry_codes(dv)),
            pairs@.len() == shared_count(ev.take(i as int), dv),
            forall|s: int|
                0 <= s < pairs@.len() ==> {
                    let (a, b) = #[trigger] pairs@[s];
                    &&& a < i
                    &&& b < dv.len()
                    &&& ev[a as int].0 == dv[b as int].0
                    &&& shared_count(ev.take(a as int), dv) == s
                },
        decreases rows@.len() - i,
    {
        let code = code_of(&rows[i].0);
        let ghost c = rows@[i as int].0@;
        assert(ev[i as int].0 == c);
        assert(ev.take(i + 1).drop_last() =~= ev.take(i as int));
        match find_code(&db_codes, &code) {
            Some(p) => {
                proof {
                    lemma_text_key_injective(dv[p as int].0, c);
                    lemma_entry_row_found(dv, p as int);
                }
                pairs.push((i, p));
            },
            None => {
                proof {
                    assert forall|j: int| 0 <= j < dv.len() implies #[trigger] dv[j].0 != c by {
                        assert(db_codes@[j]@ != code@);
                    }
                    lemma_entry_row_absent(dv, c);
                }
            },
        }
        i = i + 1;
    }
    assert(ev.take(rows@.len() as int) =~= ev);
    pairs
}

/// A copy of a list of texts.
fn copy_strings(v: &Vec<String>) -> (r: Vec<String>)
    ensures
        r@.map_values(|t: String| t@) == v@.map_values(|t: String| t@),
{
    let mut r: Vec<String> = Vec::new();
    let mut i: usize = 0;
    while i < v.len()
        invariant
            i <= v@.len(),
            r@.map_values(|t: String| t@) == v@.take(i as int).map_values(|t: String| t@),
        decreases v@.len() - i,
    {
        let ghost before = r@.map_values(|t: String| t@);
        let t = v[i].clone();
        assert(t@ == v@[i as int]@);
        r.push(t);
        assert(r@.map_values(|t: String| t@) =~= before.push(v@[i as int]@));
        assert(v@.take(i + 1).map_values(|t: String| t@) =~= v@.take(i as int).map_values(|t: String| t@).push(
            v@[i as int]@,
        ));
        i = i + 1;
    }
    assert(v@.take(v@.len() as int) =~= v@);
    r
}

/// The contents of a row difference: the code and its differing fields.
pub open spec fn row_difference_view(r: RowDifference) -> (
    Seq<char>,
    Seq<(Seq<char>, Option<Seq<char>>, Option<Seq<char>>)>,
) {
    (r.cds_code@, r.fields@.map_values(|f: FieldDifference| field_view(f)))
}

/// Compares the source file's rows with the cache's, both keyed by code:
/// the codes on one side only, the rows whose fields differ (field by field,
/// after the code), and the codes that repeat on either side, with the
/// physical row counts. `numbers_agree[s][c]` says whether the values of
/// real-number column `c` match as numbers for the `s`-th shared code (see
/// `shared_rows`).
pub fn database_validation(
    csv_row_count: usize,
    database_row_count: usize,
    csv: &KeyedRows,
    database: &KeyedRows,
    numbers_agree: &Vec<Vec<bool>>,
) -> (v: DatabaseValidation)
    requires
        numbers_agree@.len() == shared_count(csv@, database@),
        forall|s: int| 0 <= s < numbers_agree@.len() ==> (#[trigger] numbers_agree@[s])@.len() >= 46,
        forall|i: int| 0 <= i < csv@.len() ==> (#[trigger] csv@[i]).1.len() >= 46,
        forall|i: int| 0 <= i < database@.len() ==> (#[trigger] database@[i]).1.len() >= 46,
    ensures
        v.csv_row_count == csv_row_count,
        v.database_row_count == database_row_count,
        v.only_in_csv@.map_values(|t: String| t@) == codes_missing_from(csv@, database@),
        v.only_in_database@.map_values(|t: String| t@) == codes_missing_from(database@, csv@),
        v.changed_rows@.map_values(|r: RowDifference| row_difference_view(r)) == changed_rows_of(
            csv@,
            database@,
            numbers_agree@.map_values(|a: Vec<bool>| a@),
        ),
        v.duplicate_csv_cds_codes@.map_values(|t: String| t@) == csv.repeated_view(),
        v.duplicate_database_cds_codes@.map_values(|t: String| t@) == database.repeated_view(),
{
    proof {
        use_type_invariant(database);
    }
    let only_in_csv = codes_missing(csv, database);
    let only_in_database = codes_missing(database, csv);
    let pairs = shared_rows(csv, database);
    let rows = csv.rows();
    let db_rows = database.rows();
    let ghost ev = csv@;
    let ghost dv = database@;
    let ghost agree = numbers_agree@.map_values(|a: Vec<bool>| a@);
    let mut changed: Vec<RowDifference> = Vec::new();
    let mut s: usize = 0;
    assert(ev.take(0) =~= Seq::<(Seq<char>, Seq<Option<Seq<char>>>)>::empty());
    while s < pairs.len()
        invariant
            s <= pairs@.len(),
            pairs@.len() == shared_count(ev, dv),
            numbers_agree@.len() == pairs@.len(),
            forall|t: int| 0 <= t < numbers_agree@.len() ==> (#[trigger] numbers_agree@[t])@.len() >= 46,
            agree == numbers_agree@.map_values(|a: Vec<bool>| a@),
            rows@.len() == ev.len(),
            rows@.map_values(|e: (String, Vec<Option<String>>)| (e.0@, values_view(e.1))) == ev,
            db_rows@.len() == dv.len(),
            db_rows@.map_values(|e: (String, Vec<Option<String>>)| (e.0@, values_view(e.1))) == dv,
            forall|i: int| 0 <= i < ev.len() ==> (#[trigger] ev[i]).1.len() >= 46,
            forall|i: int| 0 <= i < dv.len() ==> (#[trigger] dv[i]).1.len() >= 46,
            strictly_increasing(entry_codes(dv)),
            shared_pairs(ev, dv, pairs@),
            s == 0 ==> changed@.len() == 0,
            s > 0 ==> changed@.map_values(|r: RowDifference| row_difference_view(r)) == changed_rows_of(
                ev.take(pairs@[s - 1].0 + 1),
                dv,
                agree,
            ),
        decreases pairs@.len() - s,
    {
        let (a, b) = pairs[s];
        let csv_row = &rows[a].1;
        let db_row = &db_rows[b].1;
        assert(ev[a as int].1 == values_view(*csv_row));
        assert(dv[b as int].1 == values_view(*db_row));
        let fields = field_differences(csv_row, db_row, &numbers_agree[s]);
        proof {
            lemma_changed_step(ev, dv, agree, pairs@, s as int);
        }
        if fields.len() > 0 {
            let ghost before = changed@.map_values(|r: RowDifference| row_difference_view(r));
            changed.push(RowDifference { cds_code: rows[a].0.clone(), fields });
            assert(changed@.map_values(|r: RowDifference| row_difference_view(r)) =~= before.push(
                (ev[a as int].0, field_diffs(ev[a as int].1, dv[b as int].1, agree[s as int], 46)),
            ));
        }
        s = s + 1;
    }
    proof {
        lemma_changed_tail(ev, dv, agree, pairs@);
    }
    DatabaseValidation {
        csv_row_count,
        database_row_count,
        only_in_csv,
        only_in_database,
        changed_rows: changed,
        duplicate_csv_cds_codes: copy_strings(csv.repeated()),
        duplicate_database_cds_codes: copy_strings(database.repeated()),
    }
}

/// The number of empty values among the table columns of a row.
pub open spec fn empty_values(row: Seq<Option<Seq<char>>>) -> nat {
    row.take(if row.len() < 46 {
        row.len() as int
    } else {
        46
    }).filter(|v: Option<Seq<char>>| v is None).len()
}

/// The number of empty values over all rows.
pub open spec fn total_empty_values(rows: Seq<Seq<Option<Seq<char>>>>) -> nat
    decreases rows.len(),
{
    if rows.len() == 0 {
        0
    } else {
        total_empty_values(rows.drop_last()) + empty_values(rows.last())
    }
}

/// A row has at most as many empty values as table columns.
proof fn lemma_empty_values_bound(row: Seq<Option<Seq<char>>>)
    ensures
        empty_values(row) <= 46,
{
    let k = if row.len() < 46 {
        row.len() as int
    } else {
        46
    };
    row.take(k).lemma_filter_len(|v: Option<Seq<char>>| v is None);
}

/// Counts the empty values among the table columns of a row.
fn count_empty(row: &Vec<Option<String>>) -> (n: usize)
    ensures
        n == empty_values(values_view(*row)),
{
    let ghost rv = values_view(*row);
    let ghost pred = |v: Option<Seq<char>>| v is None;
    let limit: usize = if row.len() < 46 {
        row.len()
    } else {
        46
    };
    let mut n: usize = 0;
    let mut k: usize = 0;
    proof {
        reveal(Seq::filter);
        assert(rv.take(0) =~= Seq::<Option<Seq<char>>>::empty());
    }
    while k < limit
        invariant
            k <= limit,
            limit <= 46,
            limit <= row@.len(),
            limit == if row@.len() < 46 {
                row@.len()
            } else {
                46
            },
            rv == values_view(*row),
            pred == (|v: Option<Seq<char>>| v is None),
            n == rv.take(k as int).filter(pred).len(),
            n <= k,
        decreases limit - k,
    {
        assert(rv.take(k + 1).drop_last() =~= rv.take(k as int));
        assert(rv.take(k + 1).last() == opt_view(row@[k as int]));
        proof {
            reveal(Seq::filter);
        }
        if row[k].is_none() {
            n = n + 1;
        }
        k = k + 1;
    }
    n
}

/// What an import of the given cleaned rows writes: the number of rows, the
/// number of empty values among the table columns, and the codes that more
/// than one row carries, in code order.
pub fn import_summary(rows: &Vec<Vec<Option<String>>>) -> (summary: ImportSummary)
    requires
        rows@.len() * 46 <= usize::MAX,
    ensures
        summary.rows_inserted == rows@.len(),
        summary.null_values == total_empty_values(rows_view(rows@)),
        lists_sorted(
            summary.duplicate_cds_codes@.map_values(|t: String| t@),
            repeated_codes(rows_view(rows@)),
        ),
{
    let ghost rv = rows_view(rows@);
    let mut total: usize = 0;
    let mut i: usize = 0;
    assert(rv.take(0) =~= Seq::<Seq<Option<Seq<char>>>>::empty());
    while i < rows.len()
        invariant
            i <= rows@.len(),
            rows@.len() * 46 <= usize::MAX,
            rv == rows_view(rows@),
            total == total_empty_values(rv.take(i as int)),
            total <= i * 46,
        decreases rows@.len() - i,
    {
        assert(rv.take(i + 1).drop_last() =~= rv.take(i as int));
        assert(rv.take(i + 1).last() == values_view(rows@[i as int]));
        proof {
            lemma_empty_values_bound(values_view(rows@[i as int]));
            assert((i + 1) * 46 <= rows@.len() * 46) by (nonlinear_arith)
                requires
                    i + 1 <= rows@.len(),
            ;
        }
        let n = count_empty(&rows[i]);
        total = total + n;
        i = i + 1;
    }
    assert(rv.take(rows@.len() as int) =~= rv);
    let keyed = key_rows(rows);
    ImportSummary {
        rows_inserted: rows.len(),
        null_values: total,
        duplicate_cds_codes: copy_strings(keyed.repeated()),
    }
}

/// A code has a row exactly when an entry carries it.
pub proof fn lemma_entry_row_some(e: Seq<(Seq<char>, Seq<Option<Seq<char>>>)>, c: Seq<char>)
    ensures
        entry_row(e, c) is Some <==> entry_codes(e).contains(c),
    decreases e.len(),
{
    if e.len() > 0 {
        lemma_entry_row_some(e.drop_last(), c);
        assert(entry_codes(e.drop_last()) =~= entry_codes(e).drop_last());
        assert(entry_codes(e)[e.len() - 1] == e.last().0);
        if entry_codes(e).drop_last().contains(c) {
            let i = choose|i: int| 0 <= i < entry_codes(e).drop_last().len() && entry_codes(e).drop_last()[i] == c;
            assert(entry_codes(e)[i] == c);
        }
        if entry_codes(e).contains(c) && e.last().0 != c {
            let i = choose|i: int| 0 <= i < entry_codes(e).len() && entry_codes(e)[i] == c;
            assert(entry_codes(e).drop_last()[i] == c);
        }
    }
}

/// The codes of one side missing from the other are, in code order, exactly
/// the codes the first side lists and the second does not.
pub proof fn law_missing_codes_are_the_difference(
    a: Seq<(Seq<char>, Seq<Option<Seq<char>>>)>,
    b: Seq<(Seq<char>, Seq<Option<Seq<char>>>)>,
)
    requires
        strictly_increasing(entry_codes(a)),
    ensures
        lists_sorted(
            codes_missing_from(a, b),
            entry_codes(a).to_set().difference(entry_codes(b).to_set()),
        ),
    decreases a.len(),
{
    reveal(Seq::filter);
    let pred = |c: Seq<char>| entry_row(b, c) is None;
    let names = codes_missing_from(a, b);
    let set = entry_codes(a).to_set().difference(entry_codes(b).to_set());
    if a.len() == 0 {
        assert(names.len() == 0);
        assert forall|k: Seq<char>| #[trigger] set.contains(k) implies names.contains(k) by {
            assert(entry_codes(a).len() == 0);
        }
    } else {
        let d = a.drop_last();
        let ca = entry_codes(a);
        assert(entry_codes(d) =~= ca.drop_last());
        assert forall|x: int, y: int| 0 <= x < y < entry_codes(d).len() implies key_lt(
            text_key(#[trigger] entry_codes(d)[x]),
            text_key(#[trigger] entry_codes(d)[y]),
        ) by {
            assert(entry_codes(d)[x] == ca[x]);
            assert(entry_codes(d)[y] == ca[y]);
        }
        law_missing_codes_are_the_difference(d, b);
        let before = codes_missing_from(d, b);
        let last = ca.last();
        assert(ca.last() == a.last().0);
        assert(names == if pred(last) {
            before.push(last)
        } else {
            before
        });
        lemma_entry_row_some(b, last);
        // every earlier name comes before the last code
        assert forall|x: int| 0 <= x < before.len() implies key_lt(text_key(#[trigger] before[x]), text_key(last))
            by {
            assert(entry_codes(d).to_set().contains(before[x]));
            assert(entry_codes(d).contains(before[x]));
            let i = choose|i: int| 0 <= i < entry_codes(d).len() && entry_codes(d)[i] == before[x];
            assert(ca[i] == before[x]);
            assert(ca[ca.len() - 1] == last);
        }
        assert forall|x: int, y: int| 0 <= x < y < names.len() implies key_lt(
            text_key(#[trigger] names[x]),
            text_key(#[trigger] names[y]),
        ) by {
            if y < before.len() {
                assert(names[x] == before[x] && names[y] == before[y]);
            } else {
                assert(names[x] == before[x] && names[y] == last);
            }
        }
        assert forall|x: int| 0 <= x < names.len() implies set.contains(#[trigger] names[x]) by {
            if x < before.len() {
                assert(names[x] == before[x]);
                let dset = entry_codes(d).to_set().difference(entry_codes(b).to_set());
                assert(dset.contains(before[x]));
                assert(entry_codes(d).contains(before[x]));
                let i = choose|i: int| 0 <= i < entry_codes(d).len() && entry_codes(d)[i] == before[x];
                assert(ca[i] == before[x]);
                assert(ca.contains(names[x]));
            } else {
                assert(names[x] == last);
                assert(ca[ca.len() - 1] == last);
                assert(ca.contains(last));
            }
        }
        assert forall|k: Seq<char>| #[trigger] set.contains(k) implies names.contains(k) by {
            assert(ca.contains(k));
            let i = choose|i: int| 0 <= i < ca.len() && ca[i] == k;
            if k == last {
                lemma_entry_row_some(b, k);
                assert(names[names.len() - 1] == k);
            } else {
                assert(i < ca.len() - 1);
                assert(entry_codes(d)[i] == k);
                assert(entry_codes(d).to_set().difference(entry_codes(b).to_set()).contains(k));
                assert(before.contains(k));
                let j = choose|j: int| 0 <= j < before.len() && before[j] == k;
                assert(names[j] == k);
            }
        }
    }
}

/// A row compared with itself differs in no field, where real-number values
/// are found to agree.
proof fn lemma_same_row_no_fields(row: Seq<Option<Seq<char>>>, agree: Seq<bool>, k: int)
    requires
        forall|c: int| 0 <= c < agree.len() ==> #[trigger] agree[c],
        agree.len() >= k,
    ensures
        field_diffs(row, row, agree, k).len() == 0,
    decreases k,
{
    if k > 1 {
        lemma_same_row_no_fields(row, agree, k - 1);
        assert(agree[k - 1]);
    }
}

proof fn lemma_same_side_prefix(
    e: Seq<(Seq<char>, Seq<Option<Seq<char>>>)>,
    agree: Seq<Seq<bool>>,
    k: int,
)
    requires
        strictly_increasing(entry_codes(e)),
        0 <= k <= e.len(),
        agree.len() == shared_count(e, e),
        forall|s: int, c: int| 0 <= s < agree.len() && 0 <= c < agree[s].len() ==> #[trigger] agree[s][c],
        forall|s: int| 0 <= s < agree.len() ==> #[trigger] agree[s].len() >= 46,
    ensures
        changed_rows_of(e.take(k), e, agree).len() == 0,
        shared_count(e.take(k), e) == k,
    decreases k,
{
    if k == 0 {
        assert(e.take(0) =~= Seq::<(Seq<char>, Seq<Option<Seq<char>>>)>::empty());
    } else {
        lemma_same_side_prefix(e, agree, k - 1);
        assert(e.take(k).drop_last() =~= e.take(k - 1));
        assert(e.take(k).last() == e[k - 1]);
        lemma_entry_row_found(e, k - 1);
        lemma_shared_monotone(e, e, k, e.len() as int);
        assert(e.take(e.len() as int) =~= e);
        let s = k - 1;
        assert(s < agree.len());
        assert forall|c: int| 0 <= c < agree[s].len() implies #[trigger] agree[s][c] by {
            assert(agree[s][c]);
        }
        lemma_same_row_no_fields(e[k - 1].1, agree[s], 46);
    }
}

/// Comparing keyed rows with themselves, with every real-number value found
/// to agree, reports no code on one side only and no changed row.
pub proof fn law_identical_sides_match(e: Seq<(Seq<char>, Seq<Option<Seq<char>>>)>, agree: Seq<Seq<bool>>)
    requires
        strictly_increasing(entry_codes(e)),
        agree.len() == shared_count(e, e),
        forall|s: int, c: int| 0 <= s < agree.len() && 0 <= c < agree[s].len() ==> #[trigger] agree[s][c],
        forall|s: int| 0 <= s < agree.len() ==> #[trigger] agree[s].len() >= 46,
    ensures
        codes_missing_from(e, e).len() == 0,
        changed_rows_of(e, e, agree).len() == 0,
{
    law_missing_codes_are_the_difference(e, e);
    let names = codes_missing_from(e, e);
    if names.len() > 0 {
        assert(entry_codes(e).to_set().difference(entry_codes(e).to_set()).contains(names[0]));
    }
    lemma_same_side_prefix(e, agree, e.len() as int);
    assert(e.take(e.len() as int) =~= e);
}

// ------------------------------------------------------------------------
// Reading the CDE source file
// ------------------------------------------------------------------------

/// The header row and the records of a CSV file as the `csv` crate's
/// flexible reader reads them, or `None` where it refuses the bytes.
pub uninterp spec fn csv_table(bytes: Seq<u8>) -> Option<(Seq<Seq<char>>, Seq<Seq<Seq<char>>>)>;

/// The text of several strings.
pub open spec fn string_views(v: Seq<String>) -> Seq<Seq<char>> {
    v.map_values(|t: String| t@)
}

/// `csv::ReaderBuilder` with `flexible(true)` over the bytes, then `headers`
/// and `records`: the header row and every record, or the crate's error
/// message. The crate's parsing (quotes, terminators, a leading byte-order
/// mark) is named here, not stated.
#[verifier::external_body]
fn read_csv_table(bytes: &[u8]) -> (r: Result<(Vec<String>, Vec<Vec<String>>), String>)
    ensures
        match r {
            Ok((h, recs)) => csv_table(bytes@) == Some(
                (string_views(h@), recs@.map_values(|rec: Vec<String>| string_views(rec@))),
            ),
            Err(_) => csv_table(bytes@) is None,
        },
{
    let mut reader = csv::ReaderBuilder::new().flexible(true).from_reader(bytes);
    let headers: Vec<String> = reader.headers().map_err(|e| e.to_string())?.iter().map(str::to_owned).collect();
    let records = reader
        .records()
        .map(|record| record.map(|fields| fields.iter().map(str::to_owned).collect::<Vec<String>>()))
        .collect::<Result<Vec<Vec<String>>, csv::Error>>()
        .map_err(|e| e.to_string())?;
    Ok((headers, records))
}

/// The position of the last header naming `column`, over header texts.
pub open spec fn text_header_position(headers: Seq<Seq<char>>, column: Seq<char>) -> Option<int>
    decreases headers.len(),
{
    if headers.len() == 0 {
        None
    } else if strip_bom(headers.last()) == column {
        Some(headers.len() - 1)
    } else {
        text_header_position(headers.drop_last(), column)
    }
}

/// The cleaned values, in table-column order, of one source record given
/// the header texts: a column missing from the header row or from the record
/// reads as empty.
pub open spec fn source_values(headers: Seq<Seq<char>>, record: Seq<Seq<char>>) -> Seq<Option<Seq<char>>> {
    school_columns().map_values(
        |c: Seq<char>|
            match text_header_position(headers, c) {
                Some(i) => if i < record.len() {
                    cleaned(record[i])
                } else {
                    cleaned(Seq::empty())
                },
                None => cleaned(Seq::empty()),
            },
    )
}

proof fn lemma_header_position_text(headers: Seq<String>, column: Seq<char>)
    ensures
        header_position(headers, column) == text_header_position(string_views(headers), column),
    decreases headers.len(),
{
    if headers.len() > 0 {
        assert(string_views(headers.drop_last()) =~= string_views(headers).drop_last());
        lemma_header_position_text(headers.drop_last(), column);
    }
}

proof fn lemma_header_position_range(headers: Seq<String>, column: Seq<char>)
    ensures
        header_position(headers, column) matches Some(i) ==> 0 <= i < headers.len(),
    decreases headers.len(),
{
    if headers.len() > 0 {
        lemma_header_position_range(headers.drop_last(), column);
    }
}

proof fn lemma_record_values_text(headers: Seq<String>, record: Seq<String>)
    ensures
        record_values(headers, record, school_columns()) == source_values(string_views(headers), string_views(record)),
{
    assert forall|k: int| 0 <= k < school_columns().len() implies #[trigger] record_values(
        headers,
        record,
        school_columns(),
    )[k] == source_values(string_views(headers), string_views(record))[k] by {
        let c = school_columns()[k];
        lemma_header_position_text(headers, c);
        lemma_header_position_range(headers, c);
        assert(string_views(record).len() == record.len());
        match header_position(headers, c) {
            Some(i) => {
                if i < record.len() {
                    assert(string_views(record)[i] == record[i]@);
                }
            },
            None => {},
        }
    }
    assert(record_values(headers, record, school_columns()) =~= source_values(
        string_views(headers),
        string_views(record),
    ));
}

/// Reads the CDE source file's bytes into cleaned rows in table-column order,
/// one per record; the error is the `csv` crate's message.
pub fn source_rows(bytes: &[u8]) -> (r: Result<Vec<Vec<Option<String>>>, String>)
    ensures
        match csv_table(bytes@) {
            Some((h, recs)) => r is Ok && r->Ok_0@.len() == recs.len() && forall|i: int|
                0 <= i < recs.len() ==> values_view(#[trigger] r->Ok_0@[i]) == source_values(h, recs[i]),
            None => r is Err,
        },
{
    let (headers, records) = match read_csv_table(bytes) {
        Ok(table) => table,
        Err(message) => return Err(message),
    };
    let ghost recs = records@.map_values(|rec: Vec<String>| string_views(rec@));
    let mut rows: Vec<Vec<Option<String>>> = Vec::new();
    let mut i: usize = 0;
    while i < records.len()
        invariant
            i <= records@.len(),
            recs == records@.map_values(|rec: Vec<String>| string_views(rec@)),
            rows@.len() == i,
            forall|j: int| 0 <= j < i ==> values_view(#[trigger] rows@[j]) == source_values(string_views(headers@), recs[j]),
        decreases records@.len() - i,
    {
        let values = row_values(&headers, &records[i]);
        proof {
            lemma_record_values_text(headers@, records@[i as int]@);
        }
        rows.push(values);
        i = i + 1;
    }
    Ok(rows)
}

} // verus!
