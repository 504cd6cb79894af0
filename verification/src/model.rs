//! Dashboard records: schools, directory rows, request specifications, fetch
//! provenance and outcomes, and the typed measures of a summary card.

use vstd::prelude::*;

use crate::text::{chars_of, clone_opt_string};
use crate::json::{compact_json, is_empty_array, json_text, JsonValue};

verus! {

/// The view of an optional string.
pub open spec fn opt_view(o: Option<String>) -> Option<Seq<char>> {
    match o {
        Some(s) => Some(s@),
        None => None,
    }
}

/// The published Dashboard category of an indicator identifier.
pub open spec fn spec_indicator_category(indicator_id: u8) -> Option<Seq<char>> {
    if indicator_id == 1 {
        Some("CHRONIC_ABSENTEEISM"@)
    } else if indicator_id == 2 {
        Some("SUSPENSION_RATE"@)
    } else if indicator_id == 3 {
        Some("ENGLISH_LEARNER_PROGRESS"@)
    } else if indicator_id == 4 {
        Some("GRADUATION_RATE"@)
    } else if indicator_id == 5 {
        Some("COLLEGE_CAREER_INDICATOR"@)
    } else if indicator_id == 6 {
        Some("ELA_POINTS_ABOVE_BELOW"@)
    } else if indicator_id == 7 {
        Some("MATHEMATICS"@)
    } else if indicator_id == 8 {
        Some("SCIENCE"@)
    } else {
        None
    }
}

/// The category name the Dashboard publishes for indicator identifiers 1 to 8.
pub fn indicator_category(indicator_id: u8) -> (r: Option<&'static str>)
    ensures
        match r {
            Some(name) => spec_indicator_category(indicator_id) == Some(name@),
            None => spec_indicator_category(indicator_id) is None,
        },
{
    match indicator_id {
        1 => Some("CHRONIC_ABSENTEEISM"),
        2 => Some("SUSPENSION_RATE"),
        3 => Some("ENGLISH_LEARNER_PROGRESS"),
        4 => Some("GRADUATION_RATE"),
        5 => Some("COLLEGE_CAREER_INDICATOR"),
        6 => Some("ELA_POINTS_ABOVE_BELOW"),
        7 => Some("MATHEMATICS"),
        8 => Some("SCIENCE"),
        _ => None,
    }
}

/// An active public school from the CDE directory.
#[derive(Debug)]
pub struct SchoolRecord {
    pub cds_code: String,
    pub school_name: String,
    pub county: Option<String>,
    pub district: Option<String>,
    pub city: Option<String>,
}

/// The text of a school record.
pub struct SchoolView {
    pub cds_code: Seq<char>,
    pub school_name: Seq<char>,
    pub county: Option<Seq<char>>,
    pub district: Option<Seq<char>>,
    pub city: Option<Seq<char>>,
}

impl View for SchoolRecord {
    type V = SchoolView;

    open spec fn view(&self) -> SchoolView {
        SchoolView {
            cds_code: self.cds_code@,
            school_name: self.school_name@,
            county: opt_view(self.county),
            district: opt_view(self.district),
            city: opt_view(self.city),
        }
    }
}

impl Clone for SchoolRecord {
    fn clone(&self) -> (r: Self)
        ensures
            r == *self,
    {
        SchoolRecord {
            cds_code: self.cds_code.clone(),
            school_name: self.school_name.clone(),
            county: clone_opt_string(&self.county),
            district: clone_opt_string(&self.district),
            city: clone_opt_string(&self.city),
        }
    }
}

/// One row of the CDE-style school and district directory.
#[derive(Debug)]
pub struct DirectoryRecord {
    pub record_type: String,
    pub cds_code: String,
    pub district: String,
    pub school: String,
    pub status: String,
}

/// The text of a directory row.
pub struct DirectoryView {
    pub record_type: Seq<char>,
    pub cds_code: Seq<char>,
    pub district: Seq<char>,
    pub school: Seq<char>,
    pub status: Seq<char>,
}

impl View for DirectoryRecord {
    type V = DirectoryView;

    open spec fn view(&self) -> DirectoryView {
        DirectoryView {
            record_type: self.record_type@,
            cds_code: self.cds_code@,
            district: self.district@,
            school: self.school@,
            status: self.status@,
        }
    }
}

impl Clone for DirectoryRecord {
    fn clone(&self) -> (r: Self)
        ensures
            r == *self,
    {
        DirectoryRecord {
            record_type: self.record_type.clone(),
            cds_code: self.cds_code.clone(),
            district: self.district.clone(),
            school: self.school.clone(),
            status: self.status.clone(),
        }
    }
}

/// A single, fully identified network request.
#[derive(Debug)]
pub struct FetchSpec {
    pub school: SchoolRecord,
    pub year: u16,
    pub dashboard_year_id: u8,
    pub url: String,
}

/// The text and numbers of a request specification.
pub struct FetchSpecView {
    pub school: SchoolView,
    pub year: u16,
    pub dashboard_year_id: u8,
    pub url: Seq<char>,
}

impl View for FetchSpec {
    type V = FetchSpecView;

    open spec fn view(&self) -> FetchSpecView {
        FetchSpecView {
            school: self.school@,
            year: self.year,
            dashboard_year_id: self.dashboard_year_id,
            url: self.url@,
        }
    }
}

impl Clone for FetchSpec {
    fn clone(&self) -> (r: Self)
        ensures
            r == *self,
    {
        FetchSpec {
            school: self.school.clone(),
            year: self.year,
            dashboard_year_id: self.dashboard_year_id,
            url: self.url.clone(),
        }
    }
}

/// Reproducibility metadata attached to every fetch result.
#[derive(Debug)]
pub struct Provenance {
    pub source_url: String,
    pub retrieved_at_utc: String,
    pub payload_sha256: Option<String>,
    pub payload_bytes: usize,
    pub http_status: Option<u16>,
    pub attempts: u8,
    pub method_version: String,
}

impl Clone for Provenance {
    fn clone(&self) -> (r: Self)
        ensures
            r == *self,
    {
        Provenance {
            source_url: self.source_url.clone(),
            retrieved_at_utc: self.retrieved_at_utc.clone(),
            payload_sha256: clone_opt_string(&self.payload_sha256),
            payload_bytes: self.payload_bytes,
            http_status: self.http_status,
            attempts: self.attempts,
            method_version: self.method_version.clone(),
        }
    }
}

/// The terminal state of one request. Failures are data, not dropped rows.
#[derive(Debug)]
pub enum FetchStatus {
    Success,
    HttpError { status_code: u16 },
    TransportError { message: String },
    PayloadTooLarge { limit_bytes: usize, declared_bytes: Option<u64> },
    EmptyPayload,
    InvalidJson { message: String },
}

impl Clone for FetchStatus {
    fn clone(&self) -> (r: Self)
        ensures
            r == *self,
    {
        match self {
            FetchStatus::Success => FetchStatus::Success,
            FetchStatus::HttpError { status_code } => FetchStatus::HttpError {
                status_code: *status_code,
            },
            FetchStatus::TransportError { message } => FetchStatus::TransportError {
                message: message.clone(),
            },
            FetchStatus::PayloadTooLarge { limit_bytes, declared_bytes } =>
                FetchStatus::PayloadTooLarge {
                limit_bytes: *limit_bytes,
                declared_bytes: *declared_bytes,
            },
            FetchStatus::EmptyPayload => FetchStatus::EmptyPayload,
            FetchStatus::InvalidJson { message } => FetchStatus::InvalidJson {
                message: message.clone(),
            },
        }
    }
}

impl FetchStatus {
    /// Whether the request produced a parsed card.
    pub fn is_success(&self) -> (r: bool)
        ensures
            r == (*self is Success),
    {
        match self {
            FetchStatus::Success => true,
            _ => false,
        }
    }
}

/// A typed primary or comparison measure of an indicator.
///
/// The numeric `status` and `change` values are carried as `N`; each is
/// `None` when the payload holds no finite number. Missing and
/// privacy-suppressed values remain `None`; a valid zero is kept.
#[derive(Debug, Default)]
pub struct Measure<N> {
    pub cds_code: Option<String>,
    pub indicator_id: Option<u8>,
    pub status: Option<N>,
    pub change: Option<N>,
    pub change_id: Option<i32>,
    pub status_id: Option<i32>,
    pub performance: Option<i32>,
    pub total_groups: Option<u32>,
    pub red: Option<u32>,
    pub orange: Option<u32>,
    pub yellow: Option<u32>,
    pub green: Option<u32>,
    pub blue: Option<u32>,
    pub count: Option<u64>,
    pub student_group: Option<String>,
    pub school_year_id: Option<u8>,
    pub is_private_data: Option<bool>,
}

impl<N: Copy> Clone for Measure<N> {
    fn clone(&self) -> (r: Self)
        ensures
            r == *self,
    {
        Measure {
            cds_code: clone_opt_string(&self.cds_code),
            indicator_id: self.indicator_id,
            status: self.status,
            change: self.change,
            change_id: self.change_id,
            status_id: self.status_id,
            performance: self.performance,
            total_groups: self.total_groups,
            red: self.red,
            orange: self.orange,
            yellow: self.yellow,
            green: self.green,
            blue: self.blue,
            count: self.count,
            student_group: clone_opt_string(&self.student_group),
            school_year_id: self.school_year_id,
            is_private_data: self.is_private_data,
        }
    }
}

/// One Dashboard indicator with its school and comparison measures, and the
/// exact `primary` and `secondary` blocks of the payload as compact JSON
/// text (`null` where a block is absent).
#[derive(Debug)]
pub struct Indicator<N> {
    pub indicator_id: u8,
    pub category: String,
    pub primary_json: String,
    pub secondary_json: String,
    pub primary: Option<Measure<N>>,
    pub secondary: Option<Measure<N>>,
}

fn clone_opt_measure<N: Copy>(m: &Option<Measure<N>>) -> (r: Option<Measure<N>>)
    ensures
        r == *m,
{
    match m {
        Some(x) => Some(x.clone()),
        None => None,
    }
}

impl<N: Copy> Clone for Indicator<N> {
    fn clone(&self) -> (r: Self)
        ensures
            r == *self,
    {
        Indicator {
            indicator_id: self.indicator_id,
            category: self.category.clone(),
            primary_json: self.primary_json.clone(),
            secondary_json: self.secondary_json.clone(),
            primary: clone_opt_measure(&self.primary),
            secondary: clone_opt_measure(&self.secondary),
        }
    }
}

/// A parsed summary card: the school and year it was requested for, its
/// indicators, where it came from, the exact payload text, and the JSON
/// value last read from it.
#[derive(Debug)]
pub struct SummaryCard<N> {
    pub school: SchoolRecord,
    pub year: u16,
    pub dashboard_year_id: u8,
    pub indicators: Vec<Indicator<N>>,
    pub provenance: Provenance,
    pub raw_data: String,
    pub raw_json_data: JsonValue,
}

/// The contents of a summary card that reports are built from; the JSON
/// value last read is stated field by field where it changes.
pub struct CardView<N> {
    pub school: SchoolRecord,
    pub year: u16,
    pub dashboard_year_id: u8,
    pub indicators: Seq<Indicator<N>>,
    pub provenance: Provenance,
    pub raw_data: Seq<char>,
}

impl<N> View for SummaryCard<N> {
    type V = CardView<N>;

    open spec fn view(&self) -> CardView<N> {
        CardView {
            school: self.school,
            year: self.year,
            dashboard_year_id: self.dashboard_year_id,
            indicators: self.indicators@,
            provenance: self.provenance,
            raw_data: self.raw_data@,
        }
    }
}

fn clone_indicators<N: Copy>(v: &Vec<Indicator<N>>) -> (r: Vec<Indicator<N>>)
    ensures
        r@ == v@,
{
    let mut r: Vec<Indicator<N>> = Vec::new();
    let mut i: usize = 0;
    while i < v.len()
        invariant
            i <= v@.len(),
            r@ == v@.take(i as int),
        decreases v@.len() - i,
    {
        r.push(v[i].clone());
        i = i + 1;
        assert(r@ =~= v@.take(i as int));
    }
    assert(v@.take(v@.len() as int) =~= v@);
    r
}

impl<N: Copy> Clone for SummaryCard<N> {
    fn clone(&self) -> (r: Self)
        ensures
            r@ == self@,
    {
        SummaryCard {
            school: self.school.clone(),
            year: self.year,
            dashboard_year_id: self.dashboard_year_id,
            indicators: clone_indicators(&self.indicators),
            provenance: self.provenance.clone(),
            raw_data: self.raw_data.clone(),
            raw_json_data: self.raw_json_data.clone(),
        }
    }
}

/// The complete record of one request: what was asked, how it ended, the
/// card when one was parsed, and provenance.
#[derive(Debug)]
pub struct FetchOutcome<N> {
    pub spec: FetchSpec,
    pub status: FetchStatus,
    pub card: Option<SummaryCard<N>>,
    pub provenance: Provenance,
}

impl<N> FetchOutcome<N> {
    /// Whether the request produced a parsed card.
    pub fn is_success(&self) -> (r: bool)
        ensures
            r == (self.status is Success),
    {
        self.status.is_success()
    }
}

// ------------------------------------------------------------------------
// Working with a card
// ------------------------------------------------------------------------

/// The value of a text of decimal digits.
pub open spec fn digits_value(s: Seq<char>) -> nat
    decreases s.len(),
{
    if s.len() == 0 {
        0
    } else {
        digits_value(s.drop_last()) * 10 + ((s.last() as u32) - 48) as nat
    }
}

/// Whether every character is an ASCII digit.
pub open spec fn all_digits(s: Seq<char>) -> bool {
    forall|i: int| 0 <= i < s.len() ==> '0' <= #[trigger] s[i] <= '9'
}

/// The number a text denotes as `u16::from_str` reads it: an optional `+`,
/// then one or more decimal digits, with a value of at most 65535.
pub open spec fn parsed_u16(s: Seq<char>) -> Option<u16> {
    let d = if s.len() > 0 && s[0] == '+' {
        s.drop_first()
    } else {
        s
    };
    if d.len() > 0 && all_digits(d) && digits_value(d) <= 65535 {
        Some(digits_value(d) as u16)
    } else {
        None
    }
}

proof fn lemma_digits_value_grows(s: Seq<char>, c: char)
    requires
        all_digits(s.push(c)),
    ensures
        digits_value(s.push(c)) >= digits_value(s),
        digits_value(s.push(c)) == digits_value(s) * 10 + ((c as u32) - 48) as nat,
{
    assert(s.push(c).drop_last() =~= s);
    assert(s.push(c)[s.len() as int] == c);
}

/// Reads a year written in decimal, as `str::parse::<u16>` does.
pub fn parse_u16(text: &str) -> (r: Option<u16>)
    ensures
        r == parsed_u16(text@),
{
    let chars = chars_of(text);
    let n = chars.len();
    let start: usize = if n > 0 && chars[0] == '+' { 1 } else { 0 };
    let ghost d = if n > 0 && chars@[0] == '+' {
        chars@.drop_first()
    } else {
        chars@
    };
    assert(d =~= chars@.skip(start as int));
    if start >= n {
        return None;
    }
    let mut value: u32 = 0;
    let mut i: usize = start;
    while i < n
        invariant
            chars@ == text@,
            n == chars@.len(),
            start <= i <= n,
            d == chars@.skip(start as int),
            d == if chars@.len() > 0 && chars@[0] == '+' {
                chars@.drop_first()
            } else {
                chars@
            },
            all_digits(chars@.subrange(start as int, i as int)),
            value as nat == digits_value(chars@.subrange(start as int, i as int)),
            value <= 65535,
        decreases n - i,
    {
        let c = chars[i];
        if !('0' <= c && c <= '9') {
            proof {
                assert(d[i - start] == c);
                assert(!all_digits(d));
            }
            return None;
        }
        let next: u32 = value * 10 + ((c as u32) - 48);
        proof {
            assert(chars@.subrange(start as int, i + 1) =~= chars@.subrange(start as int, i as int).push(c));
            lemma_digits_value_grows(chars@.subrange(start as int, i as int), c);
        }
        if next > 65535 {
            proof {
                let pre = chars@.subrange(start as int, i + 1);
                if all_digits(d) {
                    lemma_digits_prefix_bound(d, (i + 1 - start) as int);
                    assert(d.take((i + 1 - start) as int) =~= pre);
                }
            }
            return None;
        }
        value = next;
        i = i + 1;
    }
    assert(chars@.subrange(start as int, n as int) =~= d);
    Some(value as u16)
}

proof fn lemma_digits_prefix_bound(s: Seq<char>, k: int)
    requires
        0 <= k <= s.len(),
        all_digits(s),
    ensures
        digits_value(s.take(k)) <= digits_value(s),
    decreases s.len(),
{
    if k < s.len() {
        assert(s.drop_last().take(k) =~= s.take(k));
        assert forall|i: int| 0 <= i < s.drop_last().len() implies '0' <= #[trigger] s.drop_last()[i] <= '9' by {
            assert(s.drop_last()[i] == s[i]);
        }
        lemma_digits_prefix_bound(s.drop_last(), k);
        assert(s.drop_last().push(s.last()) =~= s);
        lemma_digits_value_grows(s.drop_last(), s.last());
    } else {
        assert(s.take(k) =~= s);
    }
}

impl<N> SummaryCard<N> {
    /// Replaces the exact payload text.
    pub fn set_raw_data(&mut self, data: String)
        ensures
            final(self)@ == (CardView { raw_data: data@, ..old(self)@ }),
            final(self).raw_json_data == old(self).raw_json_data,
    {
        self.raw_data = data;
    }

    /// The exact payload text.
    pub fn raw_data(&self) -> (r: &str)
        ensures
            r@ == self.raw_data@,
    {
        self.raw_data.as_str()
    }

    /// The JSON value last read from the payload.
    pub fn raw_json_data(&self) -> (r: &JsonValue)
        ensures
            *r == self.raw_json_data,
    {
        &self.raw_json_data
    }

    /// The compact JSON text of the value last read from the payload.
    pub fn raw_json_text(&self) -> (r: String)
        ensures
            r@ == json_text(self.raw_json_data),
    {
        compact_json(&self.raw_json_data)
    }

    /// Empties the card: no payload, an empty JSON array, no indicators, no
    /// school or year, and blank provenance.
    pub fn clear(&mut self)
        ensures
            final(self).raw_data@ == Seq::<char>::empty(),
            is_empty_array(final(self).raw_json_data),
            final(self).indicators@ == Seq::<Indicator<N>>::empty(),
            final(self).school@ == (SchoolView {
                cds_code: Seq::empty(),
                school_name: Seq::empty(),
                county: None,
                district: None,
                city: None,
            }),
            final(self).year == 0,
            final(self).dashboard_year_id == 0,
            final(self).provenance.source_url@ == Seq::<char>::empty(),
            final(self).provenance.retrieved_at_utc@ == Seq::<char>::empty(),
            final(self).provenance.payload_sha256 is None,
            final(self).provenance.payload_bytes == 0,
            final(self).provenance.http_status is None,
            final(self).provenance.attempts == 0,
            final(self).provenance.method_version@ == Seq::<char>::empty(),
    {
        self.raw_data = String::new();
        self.raw_json_data = JsonValue::Array(Vec::new());
        self.indicators = Vec::new();
        self.school = SchoolRecord {
            cds_code: String::new(),
            school_name: String::new(),
            county: None,
            district: None,
            city: None,
        };
        self.year = 0;
        self.dashboard_year_id = 0;
        self.provenance = Provenance {
            source_url: String::new(),
            retrieved_at_utc: String::new(),
            payload_sha256: None,
            payload_bytes: 0,
            http_status: None,
            attempts: 0,
            method_version: String::new(),
        };
    }

    /// Names the school and sets the year from text; a year that does not
    /// parse becomes 0, and an unsupported year has Dashboard year 0.
    pub fn set_metadata(&mut self, school: String, year: &str)
        ensures
            final(self).school.school_name@ == school@,
            final(self).school.cds_code == old(self).school.cds_code,
            final(self).school.county == old(self).school.county,
            final(self).school.district == old(self).school.district,
            final(self).school.city == old(self).school.city,
            final(self).year == match parsed_u16(crate::text::trim(year@)) {
                Some(y) => y,
                None => 0,
            },
            final(self).dashboard_year_id == match crate::years::spec_dashboard_year_id(final(self).year) {
                Some(id) => id,
                None => 0,
            },
            final(self).indicators@ == old(self).indicators@,
            final(self).provenance == old(self).provenance,
            final(self).raw_data == old(self).raw_data,
            final(self).raw_json_data == old(self).raw_json_data,
    {
        self.school.school_name = school;
        let trimmed = crate::text::trim_string(year);
        self.year = match parse_u16(trimmed.as_str()) {
            Some(y) => y,
            None => 0,
        };
        self.dashboard_year_id = match crate::years::dashboard_year_id(self.year) {
            Some(id) => id,
            None => 0,
        };
    }
}

/// The last indicator whose category is `category`.
pub open spec fn last_in_category<N>(inds: Seq<Indicator<N>>, category: Seq<char>) -> Option<Indicator<N>>
    decreases inds.len(),
{
    if inds.len() == 0 {
        None
    } else if inds.last().category@ == category {
        Some(inds.last())
    } else {
        last_in_category(inds.drop_last(), category)
    }
}

/// The categories of the indicators, in order.
pub open spec fn categories<N>(inds: Seq<Indicator<N>>) -> Seq<Seq<char>> {
    inds.map_values(|i: Indicator<N>| i.category@)
}

/// `UTF-8` text decoded from bytes, invalid sequences replaced.
pub uninterp spec fn utf8_lossy(bytes: Seq<u8>) -> Seq<char>;

/// `String::from_utf8_lossy`: the text of the bytes, with every invalid
/// sequence replaced by U+FFFD.
#[verifier::external_body]
pub(crate) fn decode_lossy(bytes: &[u8]) -> (s: String)
    ensures
        s@ == utf8_lossy(bytes@),
{
    String::from_utf8_lossy(bytes).into_owned()
}

fn last_indicator_in<N: Copy>(inds: &Vec<Indicator<N>>, category: &String) -> (r: Option<Indicator<N>>)
    ensures
        r == last_in_category(inds@, category@),
{
    let mut i: usize = inds.len();
    assert(inds@.take(i as int) =~= inds@);
    while i > 0
        invariant
            i <= inds@.len(),
            last_in_category(inds@, category@) == last_in_category(inds@.take(i as int), category@),
        decreases i,
    {
        assert(inds@.take(i as int).drop_last() =~= inds@.take(i - 1));
        if inds[i - 1].category == *category {
            return Some(inds[i - 1].clone());
        }
        i = i - 1;
    }
    None
}

impl<N: Copy> SummaryCard<N> {
    /// A copy of the indicators.
    pub fn indicator_vector(&self) -> (v: Vec<Indicator<N>>)
        ensures
            v@ == self.indicators@,
    {
        clone_indicators(&self.indicators)
    }

    /// Appends payload bytes, decoded as UTF-8 with invalid sequences replaced.
    pub fn append_raw_data(&mut self, data: &[u8])
        ensures
            final(self)@ == (CardView { raw_data: old(self).raw_data@ + utf8_lossy(data@), ..old(self)@ }),
            final(self).raw_json_data == old(self).raw_json_data,
    {
        let text = decode_lossy(data);
        crate::text::push_str(&mut self.raw_data, text.as_str());
    }

    /// The indicators keyed by category, categories in order, each with the
    /// last indicator of that category.
    pub fn category_map(&self) -> (m: Vec<(String, Indicator<N>)>)
        ensures
            crate::resolver::strictly_increasing(m@.map_values(|e: (String, Indicator<N>)| e.0@)),
            m@.map_values(|e: (String, Indicator<N>)| e.0@).to_set() == categories(
                self.indicators@,
            ).to_set(),
            forall|k: int|
                0 <= k < m@.len() ==> Some((#[trigger] m@[k]).1) == last_in_category(
                    self.indicators@,
                    m@[k].0@,
                ),
    {
        let mut names: Vec<String> = Vec::new();
        let mut i: usize = 0;
        while i < self.indicators.len()
            invariant
                i <= self.indicators@.len(),
                names@.map_values(|t: String| t@) == categories(self.indicators@).take(i as int),
            decreases self.indicators@.len() - i,
        {
            let ghost before = names@;
            let c = self.indicators[i].category.clone();
            assert(c@ == categories(self.indicators@)[i as int]);
            names.push(c);
            assert(names@.map_values(|t: String| t@) =~= before.map_values(|t: String| t@).push(c@));
            assert(names@.map_values(|t: String| t@) =~= categories(self.indicators@).take(i + 1));
            i = i + 1;
        }
        assert(categories(self.indicators@).take(self.indicators@.len() as int) =~= categories(self.indicators@));
        let keys = crate::resolver::sorted_unique_texts(&names);
        let ghost kv = keys@.map_values(|t: String| t@);
        let mut m: Vec<(String, Indicator<N>)> = Vec::new();
        let mut k: usize = 0;
        while k < keys.len()
            invariant
                k <= keys@.len(),
                kv == keys@.map_values(|t: String| t@),
                kv.to_set() == categories(self.indicators@).to_set(),
                m@.map_values(|e: (String, Indicator<N>)| e.0@) == kv.take(k as int),
                forall|j: int|
                    0 <= j < m@.len() ==> Some((#[trigger] m@[j]).1) == last_in_category(
                        self.indicators@,
                        m@[j].0@,
                    ),
            decreases keys@.len() - k,
        {
            let key = keys[k].clone();
            assert(kv.to_set().contains(kv[k as int]));
            let found = last_indicator_in(&self.indicators, &key);
            proof {
                let cat = kv[k as int];
                assert(categories(self.indicators@).to_set().contains(cat));
                let w = choose|w: int| 0 <= w < categories(self.indicators@).len() && categories(self.indicators@)[w] == cat;
                lemma_last_in_category_found(self.indicators@, cat, w);
            }
            let ind = match found {
                Some(x) => x,
                None => {
                    proof {
                        assert(false);
                    }
                    return m;
                },
            };
            let ghost before = m@;
            let ghost key_view = key@;
            assert(key_view == kv[k as int]);
            m.push((key, ind));
            assert(m@.map_values(|e: (String, Indicator<N>)| e.0@) =~= before.map_values(
                |e: (String, Indicator<N>)| e.0@,
            ).push(key_view));
            assert(m@.map_values(|e: (String, Indicator<N>)| e.0@) =~= kv.take(k + 1));
            assert forall|j: int| 0 <= j < m@.len() implies Some((#[trigger] m@[j]).1) == last_in_category(
                self.indicators@,
                m@[j].0@,
            ) by {
                if j < before.len() {
                    assert(m@[j] == before[j]);
                }
            }
            k = k + 1;
        }
        assert(kv.take(keys@.len() as int) =~= kv);
        m
    }
}

proof fn lemma_last_in_category_found<N>(inds: Seq<Indicator<N>>, cat: Seq<char>, w: int)
    requires
        0 <= w < inds.len(),
        categories(inds)[w] == cat,
    ensures
        last_in_category(inds, cat) is Some,
    decreases inds.len(),
{
    if inds.last().category@ != cat {
        assert(w < inds.len() - 1);
        assert(categories(inds.drop_last())[w] == categories(inds)[w]);
        lemma_last_in_category_found(inds.drop_last(), cat, w);
    }
}

} // verus!
