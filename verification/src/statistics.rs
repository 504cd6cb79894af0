//! The privacy-preserving canonical report model used by every presentation.
//!
//! One canonical set of rows is built here, and every output consumes it. A
//! measure marked private, or with a known denominator of ten or fewer, never
//! contributes a value to a row. The status and change values are carried as
//! the numeric type `N`; differences between them are left to the caller.

use vstd::prelude::*;

use crate::model::{opt_view, CardView, FetchOutcome, FetchStatus, Indicator, Measure, Provenance, SchoolRecord, SummaryCard};
use crate::text::{clone_opt_string, decimal, owned, push_decimal, push_str};
use crate::METHOD_VERSION;
use crate::order::{is_permutation, key_le, num_key, push_num_key, push_text_key, sorted_stably, stable_order, text_key};
use crate::text::chars_of;

verus! {

/// Why a primary or comparison value is unavailable in the canonical data.
#[derive(Debug, Clone, Copy, PartialEq, Eq, Structural)]
pub enum MissingReason {
    MissingPrimary,
    MissingComparator,
    MissingStatus,
    PrivateData,
    SmallN,
}

/// The stable, machine-readable code of a reason.
pub open spec fn reason_code(r: MissingReason) -> Seq<char> {
    match r {
        MissingReason::MissingPrimary => "MISSING_PRIMARY"@,
        MissingReason::MissingComparator => "MISSING_COMPARATOR"@,
        MissingReason::MissingStatus => "MISSING_STATUS"@,
        MissingReason::PrivateData => "PRIVATE_DATA"@,
        MissingReason::SmallN => "SMALL_N"@,
    }
}

/// The human explanation of a reason.
pub open spec fn reason_explanation(r: MissingReason) -> Seq<char> {
    match r {
        MissingReason::MissingPrimary => "The API did not return a primary measure."@,
        MissingReason::MissingComparator => "The API did not return a comparison measure."@,
        MissingReason::MissingStatus => "The measure did not contain a finite status value."@,
        MissingReason::PrivateData => "The API marked the measure as private."@,
        MissingReason::SmallN => "The known denominator was ten or fewer."@,
    }
}

impl MissingReason {
    /// Stable, machine-readable code used in all exports.
    pub fn code(self) -> (c: &'static str)
        ensures
            c@ == reason_code(self),
    {
        match self {
            MissingReason::MissingPrimary => "MISSING_PRIMARY",
            MissingReason::MissingComparator => "MISSING_COMPARATOR",
            MissingReason::MissingStatus => "MISSING_STATUS",
            MissingReason::PrivateData => "PRIVATE_DATA",
            MissingReason::SmallN => "SMALL_N",
        }
    }

    /// A sentence explaining the reason.
    pub fn explanation(self) -> (e: &'static str)
        ensures
            e@ == reason_explanation(self),
    {
        match self {
            MissingReason::MissingPrimary => "The API did not return a primary measure.",
            MissingReason::MissingComparator => "The API did not return a comparison measure.",
            MissingReason::MissingStatus => "The measure did not contain a finite status value.",
            MissingReason::PrivateData => "The API marked the measure as private.",
            MissingReason::SmallN => "The known denominator was ten or fewer.",
        }
    }
}

/// The direction in which an indicator is conventionally favorable.
#[derive(Debug, Clone, Copy, PartialEq, Eq, Structural)]
pub enum FavorableDirection {
    Higher,
    Lower,
}

/// The label of a direction.
pub open spec fn direction_label(d: FavorableDirection) -> Seq<char> {
    match d {
        FavorableDirection::Higher => "higher is favorable"@,
        FavorableDirection::Lower => "lower is favorable"@,
    }
}

impl FavorableDirection {
    /// A phrase naming the favorable direction.
    pub fn label(self) -> (l: &'static str)
        ensures
            l@ == direction_label(self),
    {
        match self {
            FavorableDirection::Higher => "higher is favorable",
            FavorableDirection::Lower => "lower is favorable",
        }
    }
}

/// Auditable interpretation metadata for a Dashboard indicator.
#[derive(Debug)]
pub struct IndicatorDefinition {
    pub indicator_id: u8,
    pub category: String,
    pub display_name: String,
    pub status_unit: String,
    pub change_unit: String,
    pub favorable_direction: FavorableDirection,
    pub description: String,
}

/// The text of an indicator definition.
pub struct DefinitionView {
    pub indicator_id: u8,
    pub category: Seq<char>,
    pub display_name: Seq<char>,
    pub status_unit: Seq<char>,
    pub change_unit: Seq<char>,
    pub favorable_direction: FavorableDirection,
    pub description: Seq<char>,
}

impl View for IndicatorDefinition {
    type V = DefinitionView;

    open spec fn view(&self) -> DefinitionView {
        DefinitionView {
            indicator_id: self.indicator_id,
            category: self.category@,
            display_name: self.display_name@,
            status_unit: self.status_unit@,
            change_unit: self.change_unit@,
            favorable_direction: self.favorable_direction,
            description: self.description@,
        }
    }
}

/// A definition from its parts.
pub open spec fn def_view(
    indicator_id: u8,
    category: Seq<char>,
    display_name: Seq<char>,
    status_unit: Seq<char>,
    change_unit: Seq<char>,
    favorable_direction: FavorableDirection,
    description: Seq<char>,
) -> DefinitionView {
    DefinitionView {
        indicator_id,
        category,
        display_name,
        status_unit,
        change_unit,
        favorable_direction,
        description,
    }
}

/// The eight Dashboard indicators, in identifier order.
pub open spec fn spec_definitions() -> Seq<DefinitionView> {
    seq![
        def_view(1, "CHRONIC_ABSENTEEISM"@, "Chronic Absenteeism"@, "percent"@, "percentage points"@, FavorableDirection::Lower, "Students absent for 10 percent or more of instructional days."@),
        def_view(2, "SUSPENSION_RATE"@, "Suspension Rate"@, "percent"@, "percentage points"@, FavorableDirection::Lower, "Students suspended at least once during the academic year."@),
        def_view(3, "ENGLISH_LEARNER_PROGRESS"@, "English Learner Progress"@, "percent"@, "percentage points"@, FavorableDirection::Higher, "English learners making progress toward English-language proficiency."@),
        def_view(4, "GRADUATION_RATE"@, "Graduation Rate"@, "percent"@, "percentage points"@, FavorableDirection::Higher, "Students completing high school within the Dashboard graduation-rate definition."@),
        def_view(5, "COLLEGE_CAREER_INDICATOR"@, "College/Career Indicator"@, "percent prepared"@, "percentage points"@, FavorableDirection::Higher, "Graduates meeting the Dashboard prepared criteria for college or career."@),
        def_view(6, "ELA_POINTS_ABOVE_BELOW"@, "English Language Arts"@, "points from standard"@, "points"@, FavorableDirection::Higher, "Average distance above or below the English language arts standard."@),
        def_view(7, "MATHEMATICS"@, "Mathematics"@, "points from standard"@, "points"@, FavorableDirection::Higher, "Average distance above or below the mathematics standard."@),
        def_view(8, "SCIENCE"@, "Science"@, "science points (0–100)"@, "science points"@, FavorableDirection::Higher, "Average California Science Test performance expressed on the Dashboard's 0–100 Science Points scale."@),
    ]
}

fn definition(
    indicator_id: u8,
    category: &str,
    display_name: &str,
    status_unit: &str,
    change_unit: &str,
    favorable_direction: FavorableDirection,
    description: &str,
) -> (d: IndicatorDefinition)
    ensures
        d@ == def_view(
            indicator_id,
            category@,
            display_name@,
            status_unit@,
            change_unit@,
            favorable_direction,
            description@,
        ),
{
    IndicatorDefinition {
        indicator_id,
        category: owned(category),
        display_name: owned(display_name),
        status_unit: owned(status_unit),
        change_unit: owned(change_unit),
        favorable_direction,
        description: owned(description),
    }
}

/// Returns definitions for all eight indicators in stable identifier order.
pub fn indicator_definitions() -> (defs: Vec<IndicatorDefinition>)
    ensures
        defs@.map_values(|d: IndicatorDefinition| d@) == spec_definitions(),
{
    let mut defs: Vec<IndicatorDefinition> = Vec::new();
    defs.push(definition(1, "CHRONIC_ABSENTEEISM", "Chronic Absenteeism", "percent", "percentage points", FavorableDirection::Lower, "Students absent for 10 percent or more of instructional days."));
    defs.push(definition(2, "SUSPENSION_RATE", "Suspension Rate", "percent", "percentage points", FavorableDirection::Lower, "Students suspended at least once during the academic year."));
    defs.push(definition(3, "ENGLISH_LEARNER_PROGRESS", "English Learner Progress", "percent", "percentage points", FavorableDirection::Higher, "English learners making progress toward English-language proficiency."));
    defs.push(definition(4, "GRADUATION_RATE", "Graduation Rate", "percent", "percentage points", FavorableDirection::Higher, "Students completing high school within the Dashboard graduation-rate definition."));
    defs.push(definition(5, "COLLEGE_CAREER_INDICATOR", "College/Career Indicator", "percent prepared", "percentage points", FavorableDirection::Higher, "Graduates meeting the Dashboard prepared criteria for college or career."));
    defs.push(definition(6, "ELA_POINTS_ABOVE_BELOW", "English Language Arts", "points from standard", "points", FavorableDirection::Higher, "Average distance above or below the English language arts standard."));
    defs.push(definition(7, "MATHEMATICS", "Mathematics", "points from standard", "points", FavorableDirection::Higher, "Average distance above or below the mathematics standard."));
    defs.push(definition(8, "SCIENCE", "Science", "science points (0–100)", "science points", FavorableDirection::Higher, "Average California Science Test performance expressed on the Dashboard's 0–100 Science Points scale."));
    assert(defs@.map_values(|d: IndicatorDefinition| d@) =~= spec_definitions());
    defs
}

// ------------------------------------------------------------------------
// Year-specific publication rules
// ------------------------------------------------------------------------

/// Whether the Dashboard published an official performance classification.
pub open spec fn classification_official(year: u16, indicator_id: u8) -> bool {
    !((2020 <= year && year <= 2022) || (year == 2023 && indicator_id == 5))
}

/// Whether an official change was published (not in the 2022 status-only year).
pub open spec fn change_published(year: u16) -> bool {
    year != 2022
}

/// Whether color counts were published (not in 2020 through 2022).
pub open spec fn color_counts_published(year: u16) -> bool {
    !(2020 <= year && year <= 2022)
}

/// The caution attached to a year and indicator, and whether the values are
/// informational only.
pub open spec fn year_caution(year: u16, indicator_id: u8) -> (Option<Seq<char>>, bool) {
    if year == 2020 || year == 2021 {
        (Some("Information-only reporting year; do not interpret values as an official performance classification."@), true)
    } else if year == 2022 {
        (Some("Status-only reporting year; do not infer an official change or performance color."@), false)
    } else if year == 2023 && indicator_id == 5 {
        (Some("The College/Career Indicator had no official performance color in 2023."@), false)
    } else if year == 2025 && indicator_id == 8 {
        (Some("The 2025 Science indicator publishes status, change, and colors for informational use and is not used for accountability."@), true)
    } else {
        (None, false)
    }
}

fn classification_is_official(year: u16, indicator_id: u8) -> (r: bool)
    ensures
        r == classification_official(year, indicator_id),
{
    !((2020 <= year && year <= 2022) || (year == 2023 && indicator_id == 5))
}

fn year_caveat(year: u16, indicator_id: u8) -> (r: (Option<String>, bool))
    ensures
        opt_view(r.0) == year_caution(year, indicator_id).0,
        r.1 == year_caution(year, indicator_id).1,
{
    if year == 2020 || year == 2021 {
        return (Some(owned("Information-only reporting year; do not interpret values as an official performance classification.")), true);
    }
    if year == 2022 {
        return (Some(owned("Status-only reporting year; do not infer an official change or performance color.")), false);
    }
    if year == 2023 && indicator_id == 5 {
        return (Some(owned("The College/Career Indicator had no official performance color in 2023.")), false);
    }
    if year == 2025 && indicator_id == 8 {
        return (Some(owned("The 2025 Science indicator publishes status, change, and colors for informational use and is not used for accountability.")), true);
    }
    (None, false)
}

// ------------------------------------------------------------------------
// Disclosure rules for one measure
// ------------------------------------------------------------------------

/// Why a measure cannot be shown, if it cannot: it is absent, private, has a
/// known denominator of ten or fewer, or has no status value.
pub open spec fn measure_reason<N>(m: Option<Measure<N>>, comparator: bool) -> Option<
    MissingReason,
> {
    match m {
        None => Some(
            if comparator {
                MissingReason::MissingComparator
            } else {
                MissingReason::MissingPrimary
            },
        ),
        Some(m) => if m.is_private_data == Some(true) {
            Some(MissingReason::PrivateData)
        } else if m.count is Some && m.count->0 <= 10 {
            Some(MissingReason::SmallN)
        } else if m.status is None {
            Some(MissingReason::MissingStatus)
        } else {
            None
        },
    }
}

fn reason_of<N>(m: &Option<Measure<N>>, comparator: bool) -> (r: Option<MissingReason>)
    ensures
        r == measure_reason(*m, comparator),
{
    match m {
        None => Some(
            if comparator {
                MissingReason::MissingComparator
            } else {
                MissingReason::MissingPrimary
            },
        ),
        Some(m) => {
            if m.is_private_data == Some(true) {
                return Some(MissingReason::PrivateData);
            }
            match m.count {
                Some(c) => {
                    if c <= 10 {
                        return Some(MissingReason::SmallN);
                    }
                },
                None => {},
            }
            if m.status.is_none() {
                return Some(MissingReason::MissingStatus);
            }
            None
        },
    }
}

/// A known denominator from 11 through 29.
pub open spec fn small_denominator(count: Option<u64>) -> bool {
    count is Some && 11 <= count->0 && count->0 <= 29
}


/// Whether a known denominator is small enough to warrant caution: 11 through 29.
fn is_small_denominator(count: Option<u64>) -> (r: bool)
    ensures
        r == small_denominator(count),
{
    match count {
        Some(c) => 11 <= c && c <= 29,
        None => false,
    }
}

/// A measure with every field absent.
pub open spec fn blank<N>() -> Measure<N> {
    Measure {
        cds_code: None,
        indicator_id: None,
        status: None,
        change: None,
        change_id: None,
        status_id: None,
        performance: None,
        total_groups: None,
        red: None,
        orange: None,
        yellow: None,
        green: None,
        blue: None,
        count: None,
        student_group: None,
        school_year_id: None,
        is_private_data: None,
    }
}

/// The measure whose values may be shown: the measure itself when no reason
/// withholds it, otherwise a measure with every field absent.
pub open spec fn shown<N>(m: Option<Measure<N>>, comparator: bool) -> Measure<N> {
    match m {
        Some(v) => if measure_reason(m, comparator) is None {
            v
        } else {
            blank()
        },
        None => blank(),
    }
}

/// A value that is published only when `allowed`.
pub open spec fn published_if<T>(allowed: bool, v: Option<T>) -> Option<T> {
    if allowed {
        v
    } else {
        None
    }
}

/// A performance level, kept only when it names a color (is nonzero).
pub open spec fn color_level(level: Option<i32>) -> Option<i32> {
    match level {
        Some(l) => if l != 0 {
            Some(l)
        } else {
            None
        },
        None => None,
    }
}

/// The school measure of an indicator, if there is one.
pub open spec fn primary_of<N>(ind: Option<Indicator<N>>) -> Option<Measure<N>> {
    match ind {
        Some(i) => i.primary,
        None => None,
    }
}

/// The comparison measure of an indicator, if there is one.
pub open spec fn secondary_of<N>(ind: Option<Indicator<N>>) -> Option<Measure<N>> {
    match ind {
        Some(i) => i.secondary,
        None => None,
    }
}

/// The trace identifier of a row: `CDS/YEAR/I<indicator>`.
pub open spec fn trace_text(cds: Seq<char>, year: u16, indicator_id: u8) -> Seq<char> {
    cds + "/"@ + decimal(year as nat) + "/I"@ + decimal(indicator_id as nat)
}

/// A privacy-filtered school/year/indicator observation.
///
/// Numeric values are carried as `N`. A withheld measure contributes no value.
#[derive(Debug)]
pub struct CanonicalRow<N> {
    pub trace_id: String,
    pub school_name: String,
    pub cds_code: String,
    pub year: u16,
    pub dashboard_year_id: u8,
    pub indicator_id: u8,
    pub category: String,
    pub indicator_name: String,
    pub status_unit: String,
    pub change_unit: String,
    pub favorable_direction: FavorableDirection,
    /// School status, removed when privacy or small-denominator rules apply.
    pub status: Option<N>,
    /// The Dashboard's supplied change value. It is never recomputed.
    pub official_change: Option<N>,
    pub change_id: Option<i32>,
    pub status_id: Option<i32>,
    pub performance: Option<i32>,
    pub total_groups: Option<u32>,
    pub red: Option<u32>,
    pub orange: Option<u32>,
    pub yellow: Option<u32>,
    pub green: Option<u32>,
    pub blue: Option<u32>,
    pub count: Option<u64>,
    pub student_group: Option<String>,
    /// Public comparison status, subject to the same privacy rules.
    pub comparator_status: Option<N>,
    pub comparator_count: Option<u64>,
    pub missing_reason: Option<MissingReason>,
    pub comparator_missing_reason: Option<MissingReason>,
    /// True only for a published value with a known denominator from 11 to 29.
    pub small_n_warning: bool,
    pub comparator_small_n_warning: bool,
    pub year_caveat: Option<String>,
    pub informational_only: bool,
    pub source_url: String,
    pub retrieved_at_utc: String,
    pub payload_sha256: Option<String>,
    pub method_version: String,
}

/// The contents of a canonical row, with its text as character sequences.
pub struct RowView<N> {
    pub trace_id: Seq<char>,
    pub school_name: Seq<char>,
    pub cds_code: Seq<char>,
    pub year: u16,
    pub dashboard_year_id: u8,
    pub indicator_id: u8,
    pub category: Seq<char>,
    pub indicator_name: Seq<char>,
    pub status_unit: Seq<char>,
    pub change_unit: Seq<char>,
    pub favorable_direction: FavorableDirection,
    pub status: Option<N>,
    pub official_change: Option<N>,
    pub change_id: Option<i32>,
    pub status_id: Option<i32>,
    pub performance: Option<i32>,
    pub total_groups: Option<u32>,
    pub red: Option<u32>,
    pub orange: Option<u32>,
    pub yellow: Option<u32>,
    pub green: Option<u32>,
    pub blue: Option<u32>,
    pub count: Option<u64>,
    pub student_group: Option<Seq<char>>,
    pub comparator_status: Option<N>,
    pub comparator_count: Option<u64>,
    pub missing_reason: Option<MissingReason>,
    pub comparator_missing_reason: Option<MissingReason>,
    pub small_n_warning: bool,
    pub comparator_small_n_warning: bool,
    pub year_caveat: Option<Seq<char>>,
    pub informational_only: bool,
    pub source_url: Seq<char>,
    pub retrieved_at_utc: Seq<char>,
    pub payload_sha256: Option<Seq<char>>,
    pub method_version: Seq<char>,
}

impl<N> View for CanonicalRow<N> {
    type V = RowView<N>;

    open spec fn view(&self) -> RowView<N> {
        RowView {
            trace_id: self.trace_id@,
            school_name: self.school_name@,
            cds_code: self.cds_code@,
            year: self.year,
            dashboard_year_id: self.dashboard_year_id,
            indicator_id: self.indicator_id,
            category: self.category@,
            indicator_name: self.indicator_name@,
            status_unit: self.status_unit@,
            change_unit: self.change_unit@,
            favorable_direction: self.favorable_direction,
            status: self.status,
            official_change: self.official_change,
            change_id: self.change_id,
            status_id: self.status_id,
            performance: self.performance,
            total_groups: self.total_groups,
            red: self.red,
            orange: self.orange,
            yellow: self.yellow,
            green: self.green,
            blue: self.blue,
            count: self.count,
            student_group: opt_view(self.student_group),
            comparator_status: self.comparator_status,
            comparator_count: self.comparator_count,
            missing_reason: self.missing_reason,
            comparator_missing_reason: self.comparator_missing_reason,
            small_n_warning: self.small_n_warning,
            comparator_small_n_warning: self.comparator_small_n_warning,
            year_caveat: opt_view(self.year_caveat),
            informational_only: self.informational_only,
            source_url: self.source_url@,
            retrieved_at_utc: self.retrieved_at_utc@,
            payload_sha256: opt_view(self.payload_sha256),
            method_version: self.method_version@,
        }
    }
}

/// The canonical row for one card, one indicator definition and the
/// indicator the card holds for it (if any).
///
/// A measure that is absent, private, or has a known denominator of ten or
/// fewer contributes no value. Change is published except in 2022; color
/// counts are published except in 2020 through 2022; a performance level is
/// shown only when nonzero and when the year and indicator had an official
/// classification.
pub open spec fn canonical_row<N>(
    card: CardView<N>,
    def: DefinitionView,
    ind: Option<Indicator<N>>,
) -> RowView<N> {
    let p = shown(primary_of(ind), false);
    let c = shown(secondary_of(ind), true);
    let year = card.year;
    let id = def.indicator_id;
    let change_ok = change_published(year);
    let colors_ok = color_counts_published(year);
    RowView {
        trace_id: trace_text(card.school.cds_code@, year, id),
        school_name: card.school.school_name@,
        cds_code: card.school.cds_code@,
        year,
        dashboard_year_id: card.dashboard_year_id,
        indicator_id: id,
        category: def.category,
        indicator_name: def.display_name,
        status_unit: def.status_unit,
        change_unit: def.change_unit,
        favorable_direction: def.favorable_direction,
        status: p.status,
        official_change: published_if(change_ok, p.change),
        change_id: published_if(change_ok, p.change_id),
        status_id: p.status_id,
        performance: published_if(classification_official(year, id), color_level(p.performance)),
        total_groups: p.total_groups,
        red: published_if(colors_ok, p.red),
        orange: published_if(colors_ok, p.orange),
        yellow: published_if(colors_ok, p.yellow),
        green: published_if(colors_ok, p.green),
        blue: published_if(colors_ok, p.blue),
        count: p.count,
        student_group: opt_view(p.student_group),
        comparator_status: c.status,
        comparator_count: c.count,
        missing_reason: measure_reason(primary_of(ind), false),
        comparator_missing_reason: measure_reason(secondary_of(ind), true),
        small_n_warning: small_denominator(p.count),
        comparator_small_n_warning: small_denominator(c.count),
        year_caveat: year_caution(year, id).0,
        informational_only: year_caution(year, id).1,
        source_url: card.provenance.source_url@,
        retrieved_at_utc: card.provenance.retrieved_at_utc@,
        payload_sha256: opt_view(card.provenance.payload_sha256),
        method_version: METHOD_VERSION@,
    }
}

fn blank_measure<N>() -> (m: Measure<N>)
    ensures
        m == blank::<N>(),
{
    Measure {
        cds_code: None,
        indicator_id: None,
        status: None,
        change: None,
        change_id: None,
        status_id: None,
        performance: None,
        total_groups: None,
        red: None,
        orange: None,
        yellow: None,
        green: None,
        blue: None,
        count: None,
        student_group: None,
        school_year_id: None,
        is_private_data: None,
    }
}

fn shown_measure<N: Copy>(m: &Option<Measure<N>>, comparator: bool) -> (r: (Measure<N>, Option<MissingReason>))
    ensures
        r.0 == shown(*m, comparator),
        r.1 == measure_reason(*m, comparator),
{
    let reason = reason_of(m, comparator);
    match m {
        Some(v) => {
            if reason.is_none() {
                (v.clone(), reason)
            } else {
                (blank_measure(), reason)
            }
        },
        None => (blank_measure(), reason),
    }
}

fn color_level_of(level: Option<i32>) -> (r: Option<i32>)
    ensures
        r == color_level(level),
{
    match level {
        Some(l) => if l != 0 {
            Some(l)
        } else {
            None
        },
        None => None,
    }
}

fn trace_id(cds: &String, year: u16, indicator_id: u8) -> (s: String)
    ensures
        s@ == trace_text(cds@, year, indicator_id),
{
    let mut s = cds.clone();
    push_str(&mut s, "/");
    push_decimal(&mut s, year as u64);
    push_str(&mut s, "/I");
    push_decimal(&mut s, indicator_id as u64);
    s
}

fn canonicalize_row<N: Copy>(
    card: &SummaryCard<N>,
    def: &IndicatorDefinition,
    indicator: &Option<Indicator<N>>,
) -> (row: CanonicalRow<N>)
    ensures
        row@ == canonical_row(card@, def@, *indicator),
{
    let none: Option<Measure<N>> = None;
    let (primary, secondary) = match indicator {
        Some(i) => (&i.primary, &i.secondary),
        None => (&none, &none),
    };
    let (p, primary_reason) = shown_measure(primary, false);
    let (c, comparator_reason) = shown_measure(secondary, true);
    let year = card.year;
    let id = def.indicator_id;
    let change_ok = year != 2022;
    let colors_ok = !(2020 <= year && year <= 2022);
    let classification_ok = classification_is_official(year, id);
    let (caveat, informational_only) = year_caveat(year, id);
    CanonicalRow {
        trace_id: trace_id(&card.school.cds_code, year, id),
        school_name: card.school.school_name.clone(),
        cds_code: card.school.cds_code.clone(),
        year,
        dashboard_year_id: card.dashboard_year_id,
        indicator_id: id,
        category: def.category.clone(),
        indicator_name: def.display_name.clone(),
        status_unit: def.status_unit.clone(),
        change_unit: def.change_unit.clone(),
        favorable_direction: def.favorable_direction,
        status: p.status,
        official_change: if change_ok { p.change } else { None },
        change_id: if change_ok { p.change_id } else { None },
        status_id: p.status_id,
        performance: if classification_ok { color_level_of(p.performance) } else { None },
        total_groups: p.total_groups,
        red: if colors_ok { p.red } else { None },
        orange: if colors_ok { p.orange } else { None },
        yellow: if colors_ok { p.yellow } else { None },
        green: if colors_ok { p.green } else { None },
        blue: if colors_ok { p.blue } else { None },
        count: p.count,
        student_group: clone_opt_string(&p.student_group),
        comparator_status: c.status,
        comparator_count: c.count,
        missing_reason: primary_reason,
        comparator_missing_reason: comparator_reason,
        small_n_warning: is_small_denominator(p.count),
        comparator_small_n_warning: is_small_denominator(c.count),
        year_caveat: caveat,
        informational_only,
        source_url: card.provenance.source_url.clone(),
        retrieved_at_utc: card.provenance.retrieved_at_utc.clone(),
        payload_sha256: clone_opt_string(&card.provenance.payload_sha256),
        method_version: owned(METHOD_VERSION),
    }
}

// ------------------------------------------------------------------------
// Indicators of a card
// ------------------------------------------------------------------------

/// The Dashboard publishes indicators 1 through 8.
pub open spec fn expected_indicator(id: u8) -> bool {
    1 <= id && id <= 8
}

/// The last indicator with identifier `id`; a later entry replaces an earlier one.
pub open spec fn last_with_id<N>(inds: Seq<Indicator<N>>, id: u8) -> Option<Indicator<N>>
    decreases inds.len(),
{
    if inds.len() == 0 {
        None
    } else if inds.last().indicator_id == id {
        Some(inds.last())
    } else {
        last_with_id(inds.drop_last(), id)
    }
}

/// Whether some indicator has identifier `id`.
pub open spec fn has_indicator<N>(inds: Seq<Indicator<N>>, id: u8) -> bool {
    exists|i: int| 0 <= i < inds.len() && #[trigger] inds[i].indicator_id == id
}

/// The number of indicators whose identifier is outside 1 through 8.
pub open spec fn unexpected_in<N>(inds: Seq<Indicator<N>>) -> nat
    decreases inds.len(),
{
    if inds.len() == 0 {
        0
    } else {
        unexpected_in(inds.drop_last()) + if expected_indicator(inds.last().indicator_id) {
            0nat
        } else {
            1nat
        }
    }
}

/// The number of indicators that repeat an earlier expected identifier.
pub open spec fn duplicates_in<N>(inds: Seq<Indicator<N>>) -> nat
    decreases inds.len(),
{
    if inds.len() == 0 {
        0
    } else {
        duplicates_in(inds.drop_last()) + if expected_indicator(inds.last().indicator_id)
            && has_indicator(inds.drop_last(), inds.last().indicator_id) {
            1nat
        } else {
            0nat
        }
    }
}

/// The number of indicators over all cards.
pub open spec fn indicator_total<N>(cards: Seq<CardView<N>>) -> nat
    decreases cards.len(),
{
    if cards.len() == 0 {
        0
    } else {
        indicator_total(cards.drop_last()) + cards.last().indicators.len()
    }
}

/// Unexpected indicators over all cards.
pub open spec fn total_unexpected<N>(cards: Seq<CardView<N>>) -> nat
    decreases cards.len(),
{
    if cards.len() == 0 {
        0
    } else {
        total_unexpected(cards.drop_last()) + unexpected_in(cards.last().indicators)
    }
}

/// Repeated indicators over all cards.
pub open spec fn total_duplicates<N>(cards: Seq<CardView<N>>) -> nat
    decreases cards.len(),
{
    if cards.len() == 0 {
        0
    } else {
        total_duplicates(cards.drop_last()) + duplicates_in(cards.last().indicators)
    }
}

proof fn lemma_counts_bounded<N>(inds: Seq<Indicator<N>>)
    ensures
        unexpected_in(inds) + duplicates_in(inds) <= inds.len(),
    decreases inds.len(),
{
    if inds.len() > 0 {
        lemma_counts_bounded(inds.drop_last());
    }
}

/// The indicator the card holds for `id`: the last one with that identifier.
fn last_indicator<N: Copy>(inds: &Vec<Indicator<N>>, id: u8) -> (r: Option<Indicator<N>>)
    ensures
        r == last_with_id(inds@, id),
{
    let mut i: usize = inds.len();
    assert(inds@.take(i as int) =~= inds@);
    while i > 0
        invariant
            i <= inds@.len(),
            last_with_id(inds@, id) == last_with_id(inds@.take(i as int), id),
        decreases i,
    {
        assert(inds@.take(i as int).drop_last() =~= inds@.take(i - 1));
        if inds[i - 1].indicator_id == id {
            return Some(inds[i - 1].clone());
        }
        i = i - 1;
    }
    None
}

/// Counts the unexpected and the repeated indicators of one card.
fn card_issues<N>(inds: &Vec<Indicator<N>>) -> (r: (usize, usize))
    ensures
        r.0 == unexpected_in(inds@),
        r.1 == duplicates_in(inds@),
{
    let mut seen: Vec<bool> = vec![false, false, false, false, false, false, false, false, false];
    let mut unexpected: usize = 0;
    let mut duplicates: usize = 0;
    let mut i: usize = 0;
    while i < inds.len()
        invariant
            i <= inds@.len(),
            seen@.len() == 9,
            forall|k: u8| 1 <= k <= 8 ==> seen@[k as int] == has_indicator(inds@.take(i as int), k),
            unexpected == unexpected_in(inds@.take(i as int)),
            duplicates == duplicates_in(inds@.take(i as int)),
            unexpected + duplicates <= i,
        decreases inds@.len() - i,
    {
        let ghost before = inds@.take(i as int);
        let ghost after = inds@.take(i + 1);
        assert(after.drop_last() =~= before);
        assert(after.last() == inds@[i as int]);
        let id = inds[i].indicator_id;
        proof {
            assert forall|k: u8| 1 <= k <= 8 implies has_indicator(after, k) == (has_indicator(before, k) || id == k) by {
                if has_indicator(before, k) {
                    let w = choose|w: int| 0 <= w < before.len() && #[trigger] before[w].indicator_id == k;
                    assert(after[w] == before[w]);
                }
                if id == k {
                    assert(after[i as int].indicator_id == k);
                }
                if has_indicator(after, k) && id != k {
                    let w = choose|w: int| 0 <= w < after.len() && #[trigger] after[w].indicator_id == k;
                    assert(w < i);
                    assert(before[w] == after[w]);
                }
            }
        }
        if !(1 <= id && id <= 8) {
            unexpected = unexpected + 1;
        } else if seen[id as usize] {
            duplicates = duplicates + 1;
        } else {
            seen.set(id as usize, true);
        }
        i = i + 1;
    }
    assert(inds@.take(inds@.len() as int) =~= inds@);
    (unexpected, duplicates)
}

proof fn lemma_issue_totals<N>(cards: Seq<CardView<N>>)
    ensures
        total_unexpected(cards) + total_duplicates(cards) <= indicator_total(cards),
    decreases cards.len(),
{
    if cards.len() > 0 {
        lemma_issue_totals(cards.drop_last());
        lemma_counts_bounded(cards.last().indicators);
    }
}

proof fn lemma_indicator_total_prefix<N>(cards: Seq<CardView<N>>, i: int)
    requires
        0 <= i <= cards.len(),
    ensures
        indicator_total(cards.take(i)) <= indicator_total(cards),
    decreases cards.len(),
{
    if i < cards.len() {
        assert(cards.drop_last().take(i) =~= cards.take(i));
        lemma_indicator_total_prefix(cards.drop_last(), i);
    } else {
        assert(cards.take(i) =~= cards);
    }
}

/// Counts the unexpected and the repeated indicators over all cards.
fn all_card_issues<N>(cards: &[SummaryCard<N>]) -> (r: (usize, usize))
    requires
        indicator_total(card_views(cards@)) <= usize::MAX,
    ensures
        r.0 == total_unexpected(card_views(cards@)),
        r.1 == total_duplicates(card_views(cards@)),
{
    let ghost cv = card_views(cards@);
    let mut unexpected: usize = 0;
    let mut duplicates: usize = 0;
    let mut i: usize = 0;
    while i < cards.len()
        invariant
            cv == card_views(cards@),
            i <= cards@.len(),
            indicator_total(cv) <= usize::MAX,
            unexpected == total_unexpected(cv.take(i as int)),
            duplicates == total_duplicates(cv.take(i as int)),
        decreases cards@.len() - i,
    {
        let ghost before = cv.take(i as int);
        let ghost after = cv.take(i + 1);
        assert(after.drop_last() =~= before);
        assert(after.last() == cards@[i as int]@);
        let (u, d) = card_issues(&cards[i].indicators);
        proof {
            lemma_issue_totals(after);
            lemma_indicator_total_prefix(cv, i + 1);
        }
        unexpected = unexpected + u;
        duplicates = duplicates + d;
        i = i + 1;
    }
    assert(cv.take(cards@.len() as int) =~= cv);
    (unexpected, duplicates)
}

// ------------------------------------------------------------------------
// Row order and construction
// ------------------------------------------------------------------------

/// Every definition's identifier is its position plus one.
pub proof fn lemma_definition_ids()
    ensures
        spec_definitions().len() == 8,
        forall|j: int| 0 <= j < 8 ==> #[trigger] spec_definitions()[j].indicator_id == j + 1,
{
    assert(spec_definitions()[0].indicator_id == 1);
    assert(spec_definitions()[1].indicator_id == 2);
    assert(spec_definitions()[2].indicator_id == 3);
    assert(spec_definitions()[3].indicator_id == 4);
    assert(spec_definitions()[4].indicator_id == 5);
    assert(spec_definitions()[5].indicator_id == 6);
    assert(spec_definitions()[6].indicator_id == 7);
    assert(spec_definitions()[7].indicator_id == 8);
}

/// The contents of a sequence of cards.
pub open spec fn card_views<N>(cards: Seq<SummaryCard<N>>) -> Seq<CardView<N>> {
    cards.map_values(|c: SummaryCard<N>| c@)
}

/// The sort key of a card: CDS code, then year, then Dashboard year identifier.
pub open spec fn card_key<N>(c: CardView<N>) -> Seq<i64> {
    text_key(c.school.cds_code@) + num_key(c.year as nat) + num_key(c.dashboard_year_id as nat)
}

/// The sort keys of the cards, in their original order.
pub open spec fn card_keys<N>(cards: Seq<CardView<N>>) -> Seq<Seq<i64>> {
    cards.map_values(|c: CardView<N>| card_key(c))
}

/// `order` lists the cards by CDS code, year and Dashboard year identifier,
/// cards with equal keys keeping their original order.
pub open spec fn card_order<N>(cards: Seq<CardView<N>>, order: Seq<usize>) -> bool {
    is_permutation(order, cards.len()) && sorted_stably(card_keys(cards), order)
}

/// The position of the row for the `k`-th card in order and the `j`-th indicator.
pub open spec fn row_at(k: int, j: int) -> int {
    8 * k + j
}

/// The canonical row of a card for the `j`-th definition.
pub open spec fn expected_row<N>(card: CardView<N>, j: int) -> RowView<N> {
    canonical_row(card, spec_definitions()[j], last_with_id(card.indicators, (j + 1) as u8))
}

/// The contents of a sequence of rows.
pub open spec fn row_views<N>(rows: Seq<CanonicalRow<N>>) -> Seq<RowView<N>> {
    rows.map_values(|r: CanonicalRow<N>| r@)
}

/// `rows` holds, for each card in `order`, its eight canonical rows in
/// indicator order.
pub open spec fn rows_follow<N>(
    rows: Seq<RowView<N>>,
    cards: Seq<CardView<N>>,
    order: Seq<usize>,
) -> bool {
    &&& rows.len() == 8 * order.len()
    &&& forall|k: int, j: int|
        0 <= k < order.len() && 0 <= j < 8 ==> #[trigger] rows[row_at(k, j)] == expected_row(
            cards[order[k] as int],
            j,
        )
}

fn card_sort_key<N>(card: &SummaryCard<N>) -> (key: Vec<i64>)
    ensures
        key@ == card_key(card@),
{
    let mut key: Vec<i64> = Vec::new();
    let cds = chars_of(card.school.cds_code.as_str());
    push_text_key(&mut key, cds.as_slice());
    push_num_key(&mut key, card.year as u32);
    push_num_key(&mut key, card.dashboard_year_id as u32);
    assert(key@ =~= card_key(card@));
    key
}

/// The cards' positions sorted by CDS code, year and Dashboard year identifier.
fn card_sort_order<N>(cards: &[SummaryCard<N>]) -> (order: Vec<usize>)
    ensures
        card_order(card_views(cards@), order@),
{
    let mut keys: Vec<Vec<i64>> = Vec::new();
    let mut i: usize = 0;
    while i < cards.len()
        invariant
            i <= cards@.len(),
            keys@.len() == i,
            forall|a: int| 0 <= a < i ==> #[trigger] keys@[a]@ == card_key(cards@[a]@),
        decreases cards@.len() - i,
    {
        keys.push(card_sort_key(&cards[i]));
        i = i + 1;
    }
    let order = stable_order(&keys);
    assert(keys@.map_values(|k: Vec<i64>| k@) =~= card_keys(card_views(cards@)));
    order
}

/// The eight canonical rows of every card, cards in sorted order.
fn build_rows<N: Copy>(cards: &[SummaryCard<N>], defs: &Vec<IndicatorDefinition>) -> (rows: Vec<CanonicalRow<N>>)
    requires
        defs@.map_values(|d: IndicatorDefinition| d@) == spec_definitions(),
        8 * cards@.len() <= usize::MAX,
    ensures
        exists|order: Seq<usize>|
            card_order(card_views(cards@), order) && rows_follow(row_views(rows@), card_views(cards@), order),
{
    proof {
        lemma_definition_ids();
    }
    let order = card_sort_order(cards);
    let n = cards.len();
    let mut rows: Vec<CanonicalRow<N>> = Vec::new();
    let mut k: usize = 0;
    while k < n
        invariant
            n == cards@.len(),
            8 * n <= usize::MAX,
            card_order(card_views(cards@), order@),
            defs@.map_values(|d: IndicatorDefinition| d@) == spec_definitions(),
            spec_definitions().len() == 8,
            forall|j: int| 0 <= j < 8 ==> #[trigger] spec_definitions()[j].indicator_id == j + 1,
            k <= n,
            rows@.len() == 8 * k,
            forall|a: int, j: int|
                0 <= a < k && 0 <= j < 8 ==> #[trigger] rows@[row_at(a, j)]@ == expected_row(
                    cards@[order@[a] as int]@,
                    j,
                ),
        decreases n - k,
    {
        let card = &cards[order[k]];
        let mut j: usize = 0;
        while j < 8
            invariant
                n == cards@.len(),
                8 * n <= usize::MAX,
                k < n,
                order@.len() == n,
                order@[k as int] < n,
                *card == cards@[order@[k as int] as int],
                defs@.map_values(|d: IndicatorDefinition| d@) == spec_definitions(),
                spec_definitions().len() == 8,
                forall|j: int| 0 <= j < 8 ==> #[trigger] spec_definitions()[j].indicator_id == j + 1,
                j <= 8,
                rows@.len() == 8 * k + j,
                forall|a: int, jj: int|
                    0 <= a < k && 0 <= jj < 8 ==> #[trigger] rows@[row_at(a, jj)]@ == expected_row(
                        cards@[order@[a] as int]@,
                        jj,
                    ),
                forall|jj: int|
                    0 <= jj < j ==> #[trigger] rows@[row_at(k as int, jj)]@ == expected_row(card@, jj),
            decreases 8 - j,
        {
            assert(defs@.map_values(|d: IndicatorDefinition| d@)[j as int] == defs@[j as int]@);
            let def = &defs[j];
            let ind = last_indicator(&card.indicators, def.indicator_id);
            let row = canonicalize_row(card, def, &ind);
            let ghost before = rows@;
            rows.push(row);
            proof {
                assert(rows@[row_at(k as int, j as int)] == row);
                assert forall|a: int, jj: int|
                    0 <= a < k && 0 <= jj < 8 implies #[trigger] rows@[row_at(a, jj)]@ == expected_row(
                        cards@[order@[a] as int]@,
                        jj,
                    ) by {
                    assert(rows@[row_at(a, jj)] == before[row_at(a, jj)]);
                }
                assert forall|jj: int| 0 <= jj < j + 1 implies #[trigger] rows@[row_at(k as int, jj)]@ == expected_row(card@, jj) by {
                    if jj < j {
                        assert(rows@[row_at(k as int, jj)] == before[row_at(k as int, jj)]);
                    }
                }
            }
            j = j + 1;
        }
        k = k + 1;
    }
    proof {
        let rv = row_views(rows@);
        let cv = card_views(cards@);
        assert forall|a: int, j: int|
            0 <= a < order@.len() && 0 <= j < 8 implies #[trigger] rv[row_at(a, j)] == expected_row(
                cv[order@[a] as int],
                j,
            ) by {
            assert(rows@[row_at(a, j)]@ == expected_row(cards@[order@[a] as int]@, j));
        }
        assert(rows_follow(rv, cv, order@));
    }
    rows
}

// ------------------------------------------------------------------------
// Data quality
// ------------------------------------------------------------------------

/// Counts describing a report's completeness.
#[derive(Debug, Clone, Copy, PartialEq, Eq, Structural)]
pub struct DataQuality {
    pub fetches_total: usize,
    pub fetches_succeeded: usize,
    pub fetches_failed: usize,
    pub cards_total: usize,
    pub rows_total: usize,
    pub rows_reported: usize,
    pub rows_missing: usize,
    pub rows_private: usize,
    pub rows_small_n_suppressed: usize,
    pub rows_small_n_warning: usize,
    pub comparators_missing_or_suppressed: usize,
    pub duplicate_indicators: usize,
    pub unexpected_indicators: usize,
}

impl Default for DataQuality {
    fn default() -> (q: Self)
        ensures
            q == (DataQuality {
                fetches_total: 0,
                fetches_succeeded: 0,
                fetches_failed: 0,
                cards_total: 0,
                rows_total: 0,
                rows_reported: 0,
                rows_missing: 0,
                rows_private: 0,
                rows_small_n_suppressed: 0,
                rows_small_n_warning: 0,
                comparators_missing_or_suppressed: 0,
                duplicate_indicators: 0,
                unexpected_indicators: 0,
            }),
    {
        DataQuality {
            fetches_total: 0,
            fetches_succeeded: 0,
            fetches_failed: 0,
            cards_total: 0,
            rows_total: 0,
            rows_reported: 0,
            rows_missing: 0,
            rows_private: 0,
            rows_small_n_suppressed: 0,
            rows_small_n_warning: 0,
            comparators_missing_or_suppressed: 0,
            duplicate_indicators: 0,
            unexpected_indicators: 0,
        }
    }
}

/// The number of rows satisfying `p`.
pub open spec fn count_rows<N>(rows: Seq<RowView<N>>, p: spec_fn(RowView<N>) -> bool) -> nat
    decreases rows.len(),
{
    if rows.len() == 0 {
        0
    } else {
        count_rows(rows.drop_last(), p) + if p(rows.last()) {
            1nat
        } else {
            0nat
        }
    }
}

/// A row with a reported status.
pub open spec fn is_reported_row<N>() -> spec_fn(RowView<N>) -> bool {
    |r: RowView<N>| r.status is Some
}

/// A row withheld because its measure is private.
pub open spec fn is_private_row<N>() -> spec_fn(RowView<N>) -> bool {
    |r: RowView<N>| r.missing_reason == Some(MissingReason::PrivateData)
}

/// A row withheld because its known denominator is ten or fewer.
pub open spec fn is_small_n_row<N>() -> spec_fn(RowView<N>) -> bool {
    |r: RowView<N>| r.missing_reason == Some(MissingReason::SmallN)
}

/// A row missing for any other reason.
pub open spec fn is_missing_row<N>() -> spec_fn(RowView<N>) -> bool {
    |r: RowView<N>|
        r.missing_reason is Some && r.missing_reason != Some(MissingReason::PrivateData)
            && r.missing_reason != Some(MissingReason::SmallN)
}

/// A row carrying the small-denominator caution.
pub open spec fn is_cautioned_row<N>() -> spec_fn(RowView<N>) -> bool {
    |r: RowView<N>| r.small_n_warning
}

/// A row whose comparison value is missing or withheld.
pub open spec fn lacks_comparator<N>() -> spec_fn(RowView<N>) -> bool {
    |r: RowView<N>| r.comparator_missing_reason is Some
}

/// The row counts of `q` describe `rows`.
pub open spec fn rows_quality<N>(rows: Seq<RowView<N>>, q: DataQuality) -> bool {
    &&& q.rows_total == rows.len()
    &&& q.rows_reported == count_rows(rows, is_reported_row())
    &&& q.rows_missing == count_rows(rows, is_missing_row())
    &&& q.rows_private == count_rows(rows, is_private_row())
    &&& q.rows_small_n_suppressed == count_rows(rows, is_small_n_row())
    &&& q.rows_small_n_warning == count_rows(rows, is_cautioned_row())
    &&& q.comparators_missing_or_suppressed == count_rows(rows, lacks_comparator())
}

proof fn lemma_count_bounded<N>(rows: Seq<RowView<N>>, p: spec_fn(RowView<N>) -> bool)
    ensures
        count_rows(rows, p) <= rows.len(),
    decreases rows.len(),
{
    if rows.len() > 0 {
        lemma_count_bounded(rows.drop_last(), p);
    }
}

fn quality_from_rows<N>(rows: &Vec<CanonicalRow<N>>) -> (q: DataQuality)
    ensures
        rows_quality(row_views(rows@), q),
        q.fetches_total == 0,
        q.fetches_succeeded == 0,
        q.fetches_failed == 0,
        q.cards_total == 0,
        q.duplicate_indicators == 0,
        q.unexpected_indicators == 0,
{
    let ghost rv = row_views(rows@);
    let mut q = DataQuality::default();
    q.rows_total = rows.len();
    let mut i: usize = 0;
    while i < rows.len()
        invariant
            rv == row_views(rows@),
            i <= rows@.len(),
            q.rows_total == rows@.len(),
            q.fetches_total == 0,
            q.fetches_succeeded == 0,
            q.fetches_failed == 0,
            q.cards_total == 0,
            q.duplicate_indicators == 0,
            q.unexpected_indicators == 0,
            q.rows_reported == count_rows(rv.take(i as int), is_reported_row()),
            q.rows_missing == count_rows(rv.take(i as int), is_missing_row()),
            q.rows_private == count_rows(rv.take(i as int), is_private_row()),
            q.rows_small_n_suppressed == count_rows(rv.take(i as int), is_small_n_row()),
            q.rows_small_n_warning == count_rows(rv.take(i as int), is_cautioned_row()),
            q.comparators_missing_or_suppressed == count_rows(rv.take(i as int), lacks_comparator()),
        decreases rows@.len() - i,
    {
        let ghost before = rv.take(i as int);
        let ghost after = rv.take(i + 1);
        assert(after.drop_last() =~= before);
        assert(after.last() == rows@[i as int]@);
        proof {
            lemma_count_bounded(before, is_reported_row());
            lemma_count_bounded(before, is_missing_row());
            lemma_count_bounded(before, is_private_row());
            lemma_count_bounded(before, is_small_n_row());
            lemma_count_bounded(before, is_cautioned_row());
            lemma_count_bounded(before, lacks_comparator());
        }
        let row = &rows[i];
        if row.status.is_some() {
            q.rows_reported = q.rows_reported + 1;
        }
        match row.missing_reason {
            Some(MissingReason::PrivateData) => q.rows_private = q.rows_private + 1,
            Some(MissingReason::SmallN) => q.rows_small_n_suppressed = q.rows_small_n_suppressed + 1,
            Some(_) => q.rows_missing = q.rows_missing + 1,
            None => {},
        }
        if row.small_n_warning {
            q.rows_small_n_warning = q.rows_small_n_warning + 1;
        }
        if row.comparator_missing_reason.is_some() {
            q.comparators_missing_or_suppressed = q.comparators_missing_or_suppressed + 1;
        }
        i = i + 1;
    }
    assert(rv.take(rows@.len() as int) =~= rv);
    q
}

// ------------------------------------------------------------------------
// The retrieval log
// ------------------------------------------------------------------------

/// One entry of the retrieval log.
#[derive(Debug)]
pub struct FetchLogEntry {
    pub school_name: String,
    pub cds_code: String,
    pub year: u16,
    pub dashboard_year_id: u8,
    pub status: String,
    pub detail: String,
    pub source_url: String,
    pub retrieved_at_utc: String,
    pub payload_sha256: Option<String>,
    pub payload_bytes: usize,
    pub http_status: Option<u16>,
    pub attempts: u8,
    pub method_version: String,
}

/// The contents of a log entry.
pub struct FetchLogView {
    pub school_name: Seq<char>,
    pub cds_code: Seq<char>,
    pub year: u16,
    pub dashboard_year_id: u8,
    pub status: Seq<char>,
    pub detail: Seq<char>,
    pub source_url: Seq<char>,
    pub retrieved_at_utc: Seq<char>,
    pub payload_sha256: Option<Seq<char>>,
    pub payload_bytes: usize,
    pub http_status: Option<u16>,
    pub attempts: u8,
    pub method_version: Seq<char>,
}

impl View for FetchLogEntry {
    type V = FetchLogView;

    open spec fn view(&self) -> FetchLogView {
        FetchLogView {
            school_name: self.school_name@,
            cds_code: self.cds_code@,
            year: self.year,
            dashboard_year_id: self.dashboard_year_id,
            status: self.status@,
            detail: self.detail@,
            source_url: self.source_url@,
            retrieved_at_utc: self.retrieved_at_utc@,
            payload_sha256: opt_view(self.payload_sha256),
            payload_bytes: self.payload_bytes,
            http_status: self.http_status,
            attempts: self.attempts,
            method_version: self.method_version@,
        }
    }
}

/// The contents of a sequence of log entries.
pub open spec fn log_views(log: Seq<FetchLogEntry>) -> Seq<FetchLogView> {
    log.map_values(|e: FetchLogEntry| e@)
}

/// A log entry from its request, status words and provenance.
pub open spec fn log_entry(
    school: SchoolRecord,
    year: u16,
    dashboard_year_id: u8,
    status: Seq<char>,
    detail: Seq<char>,
    prov: Provenance,
) -> FetchLogView {
    FetchLogView {
        school_name: school.school_name@,
        cds_code: school.cds_code@,
        year,
        dashboard_year_id,
        status,
        detail,
        source_url: prov.source_url@,
        retrieved_at_utc: prov.retrieved_at_utc@,
        payload_sha256: opt_view(prov.payload_sha256),
        payload_bytes: prov.payload_bytes,
        http_status: prov.http_status,
        attempts: prov.attempts,
        method_version: prov.method_version@,
    }
}

/// The log entry of a successfully parsed card.
pub open spec fn card_log<N>(card: CardView<N>) -> FetchLogView {
    log_entry(card.school, card.year, card.dashboard_year_id, "SUCCESS"@, Seq::empty(), card.provenance)
}

/// The machine-readable word for a request's terminal state.
pub open spec fn status_word(status: FetchStatus) -> Seq<char> {
    match status {
        FetchStatus::Success => "SUCCESS"@,
        FetchStatus::HttpError { .. } => "HTTP_ERROR"@,
        FetchStatus::TransportError { .. } => "TRANSPORT_ERROR"@,
        FetchStatus::PayloadTooLarge { .. } => "PAYLOAD_TOO_LARGE"@,
        FetchStatus::EmptyPayload => "EMPTY_PAYLOAD"@,
        FetchStatus::InvalidJson { .. } => "INVALID_JSON"@,
    }
}

/// The human detail for a request's terminal state.
pub open spec fn status_detail(status: FetchStatus) -> Seq<char> {
    match status {
        FetchStatus::HttpError { status_code } => "HTTP status "@ + decimal(status_code as nat),
        FetchStatus::TransportError { message } => message@,
        FetchStatus::PayloadTooLarge { limit_bytes, declared_bytes } => match declared_bytes {
            Some(size) => "Declared "@ + decimal(size as nat) + " bytes; limit "@ + decimal(
                limit_bytes as nat,
            ) + " bytes"@,
            None => "Limit "@ + decimal(limit_bytes as nat) + " bytes"@,
        },
        FetchStatus::InvalidJson { message } => message@,
        _ => Seq::empty(),
    }
}

/// The log entry of a completed request.
pub open spec fn outcome_log<N>(outcome: FetchOutcome<N>) -> FetchLogView {
    log_entry(
        outcome.spec.school,
        outcome.spec.year,
        outcome.spec.dashboard_year_id,
        status_word(outcome.status),
        status_detail(outcome.status),
        outcome.provenance,
    )
}

fn fetch_status_text(status: &FetchStatus) -> (r: (&'static str, String))
    ensures
        r.0@ == status_word(*status),
        r.1@ == status_detail(*status),
{
    match status {
        FetchStatus::Success => ("SUCCESS", String::new()),
        FetchStatus::HttpError { status_code } => {
            let mut detail = owned("HTTP status ");
            push_decimal(&mut detail, *status_code as u64);
            ("HTTP_ERROR", detail)
        },
        FetchStatus::TransportError { message } => ("TRANSPORT_ERROR", message.clone()),
        FetchStatus::PayloadTooLarge { limit_bytes, declared_bytes } => {
            let detail = match declared_bytes {
                Some(size) => {
                    let mut d = owned("Declared ");
                    push_decimal(&mut d, *size);
                    push_str(&mut d, " bytes; limit ");
                    push_decimal(&mut d, *limit_bytes as u64);
                    push_str(&mut d, " bytes");
                    d
                },
                None => {
                    let mut d = owned("Limit ");
                    push_decimal(&mut d, *limit_bytes as u64);
                    push_str(&mut d, " bytes");
                    d
                },
            };
            ("PAYLOAD_TOO_LARGE", detail)
        },
        FetchStatus::EmptyPayload => ("EMPTY_PAYLOAD", String::new()),
        FetchStatus::InvalidJson { message } => ("INVALID_JSON", message.clone()),
    }
}

fn log_from_parts(
    school: &SchoolRecord,
    year: u16,
    dashboard_year_id: u8,
    status: String,
    detail: String,
    prov: &Provenance,
) -> (e: FetchLogEntry)
    ensures
        e@ == log_entry(*school, year, dashboard_year_id, status@, detail@, *prov),
{
    FetchLogEntry {
        school_name: school.school_name.clone(),
        cds_code: school.cds_code.clone(),
        year,
        dashboard_year_id,
        status,
        detail,
        source_url: prov.source_url.clone(),
        retrieved_at_utc: prov.retrieved_at_utc.clone(),
        payload_sha256: clone_opt_string(&prov.payload_sha256),
        payload_bytes: prov.payload_bytes,
        http_status: prov.http_status,
        attempts: prov.attempts,
        method_version: prov.method_version.clone(),
    }
}

fn fetch_log_from_card<N>(card: &SummaryCard<N>) -> (e: FetchLogEntry)
    ensures
        e@ == card_log(card@),
{
    let e = log_from_parts(
        &card.school,
        card.year,
        card.dashboard_year_id,
        owned("SUCCESS"),
        String::new(),
        &card.provenance,
    );
    assert(e@ == card_log(card@));
    e
}

fn fetch_log_from_outcome<N>(outcome: &FetchOutcome<N>) -> (e: FetchLogEntry)
    ensures
        e@ == outcome_log(*outcome),
{
    let (status, detail) = fetch_status_text(&outcome.status);
    log_from_parts(
        &outcome.spec.school,
        outcome.spec.year,
        outcome.spec.dashboard_year_id,
        owned(status),
        detail,
        &outcome.provenance,
    )
}

// ------------------------------------------------------------------------
// Methods and sources
// ------------------------------------------------------------------------

/// The contents of a sequence of strings.
pub open spec fn texts(v: Seq<String>) -> Seq<Seq<char>> {
    v.map_values(|t: String| t@)
}

/// The statements of method every report carries.
pub open spec fn spec_methods() -> Seq<Seq<char>> {
    seq![
        "One privacy-filtered canonical row set supplies the UI, CSV, workbook, HTML, and PDF outputs."@,
        "A measure marked private or with a known denominator of 10 or fewer is suppressed in full; its numeric fields do not enter the canonical data."@,
        "Published measures with a known denominator from 11 through 29 carry a caution flag."@,
        "Raw comparator gap equals school status minus comparison status. Direction-adjusted gap reverses the sign only for indicators where lower values are favorable."@,
        "Change is copied from the official API field and is not derived from adjacent years."@,
        "Only direct descriptive values and arithmetic differences are reported. The output does not estimate uncertainty, order schools, combine indicators, or attribute mechanisms."@,
        "Rows and narrative are ordered by CDS code, year, and indicator ID so selection is independent of observed values."@,
    ]
}

/// The sources every report cites.
pub open spec fn spec_sources() -> Seq<Seq<char>> {
    seq![
        "California School Dashboard: https://www.caschooldashboard.org/"@,
        "California School Dashboard API request URLs are recorded per row and in the fetch log."@,
        "California Department of Education public school directory: https://www.cde.ca.gov/ds/si/ds/pubschls.asp"@,
        "Reporting method version: "@ + METHOD_VERSION@,
    ]
}

fn methods_text() -> (v: Vec<String>)
    ensures
        texts(v@) == spec_methods(),
{
    let mut v: Vec<String> = Vec::new();
    v.push(owned("One privacy-filtered canonical row set supplies the UI, CSV, workbook, HTML, and PDF outputs."));
    v.push(owned("A measure marked private or with a known denominator of 10 or fewer is suppressed in full; its numeric fields do not enter the canonical data."));
    v.push(owned("Published measures with a known denominator from 11 through 29 carry a caution flag."));
    v.push(owned("Raw comparator gap equals school status minus comparison status. Direction-adjusted gap reverses the sign only for indicators where lower values are favorable."));
    v.push(owned("Change is copied from the official API field and is not derived from adjacent years."));
    v.push(owned("Only direct descriptive values and arithmetic differences are reported. The output does not estimate uncertainty, order schools, combine indicators, or attribute mechanisms."));
    v.push(owned("Rows and narrative are ordered by CDS code, year, and indicator ID so selection is independent of observed values."));
    assert(texts(v@) =~= spec_methods());
    v
}

fn sources_text() -> (v: Vec<String>)
    ensures
        texts(v@) == spec_sources(),
{
    let mut v: Vec<String> = Vec::new();
    v.push(owned("California School Dashboard: https://www.caschooldashboard.org/"));
    v.push(owned("California School Dashboard API request URLs are recorded per row and in the fetch log."));
    v.push(owned("California Department of Education public school directory: https://www.cde.ca.gov/ds/si/ds/pubschls.asp"));
    let mut version = owned("Reporting method version: ");
    push_str(&mut version, METHOD_VERSION);
    v.push(version);
    assert(texts(v@) =~= spec_sources());
    v
}

impl Clone for FetchLogEntry {
    fn clone(&self) -> (r: Self)
        ensures
            r == *self,
    {
        FetchLogEntry {
            school_name: self.school_name.clone(),
            cds_code: self.cds_code.clone(),
            year: self.year,
            dashboard_year_id: self.dashboard_year_id,
            status: self.status.clone(),
            detail: self.detail.clone(),
            source_url: self.source_url.clone(),
            retrieved_at_utc: self.retrieved_at_utc.clone(),
            payload_sha256: clone_opt_string(&self.payload_sha256),
            payload_bytes: self.payload_bytes,
            http_status: self.http_status,
            attempts: self.attempts,
            method_version: self.method_version.clone(),
        }
    }
}

impl<N: Copy> CanonicalRow<N> {
    /// The terms of the raw comparator gap, school status then comparison
    /// status, present only when both values are shown.
    pub fn gap_terms(&self) -> (r: Option<(N, N)>)
        ensures
            r == match (self.status, self.comparator_status) {
                (Some(a), Some(b)) => Some((a, b)),
                _ => None,
            },
    {
        match (self.status, self.comparator_status) {
            (Some(a), Some(b)) => Some((a, b)),
            _ => None,
        }
    }
}

impl<N> CanonicalRow<N> {
    /// Whether the row carries a reported status value.
    pub fn is_reported(&self) -> (r: bool)
        ensures
            r == self.status is Some,
    {
        self.status.is_some()
    }

    /// The code of the reason the status is missing, or an empty text.
    pub fn missing_reason_code(&self) -> (c: &'static str)
        ensures
            c@ == match self.missing_reason {
                Some(m) => reason_code(m),
                None => Seq::empty(),
            },
    {
        match self.missing_reason {
            Some(m) => m.code(),
            None => {
                proof {
                    reveal_strlit("");
                }
                ""
            },
        }
    }

    /// The code of the reason the comparison value is missing, or an empty text.
    pub fn comparator_missing_reason_code(&self) -> (c: &'static str)
        ensures
            c@ == match self.comparator_missing_reason {
                Some(m) => reason_code(m),
                None => Seq::empty(),
            },
    {
        match self.comparator_missing_reason {
            Some(m) => m.code(),
            None => {
                proof {
                    reveal_strlit("");
                }
                ""
            },
        }
    }
}

// ------------------------------------------------------------------------
// The report
// ------------------------------------------------------------------------

/// The sole reporting model used by every presentation.
#[derive(Debug)]
pub struct ReportModel<N> {
    pub method_version: String,
    pub rows: Vec<CanonicalRow<N>>,
    pub definitions: Vec<IndicatorDefinition>,
    pub fetch_log: Vec<FetchLogEntry>,
    pub quality: DataQuality,
    pub methods: Vec<String>,
    pub sources: Vec<String>,
}

/// The report's rows, definitions, row counts, methods and sources are those
/// built from `cards`.
pub open spec fn report_for_cards<N>(report: ReportModel<N>, cards: Seq<CardView<N>>) -> bool {
    &&& report.method_version@ == METHOD_VERSION@
    &&& report.definitions@.map_values(|d: IndicatorDefinition| d@) == spec_definitions()
    &&& exists|order: Seq<usize>|
        card_order(cards, order) && rows_follow(row_views(report.rows@), cards, order)
    &&& rows_quality(row_views(report.rows@), report.quality)
    &&& report.quality.cards_total == cards.len()
    &&& report.quality.duplicate_indicators == total_duplicates(cards)
    &&& report.quality.unexpected_indicators == total_unexpected(cards)
    &&& texts(report.methods@) == spec_methods()
    &&& texts(report.sources@) == spec_sources()
}

/// The cards of the requests that produced one, in request order.
pub open spec fn outcome_cards<N>(outcomes: Seq<FetchOutcome<N>>) -> Seq<CardView<N>>
    decreases outcomes.len(),
{
    if outcomes.len() == 0 {
        Seq::empty()
    } else {
        let rest = outcome_cards(outcomes.drop_last());
        match outcomes.last().card {
            Some(c) => rest.push(c@),
            None => rest,
        }
    }
}

/// The number of requests that succeeded with a card.
pub open spec fn succeeded_count<N>(outcomes: Seq<FetchOutcome<N>>) -> nat
    decreases outcomes.len(),
{
    if outcomes.len() == 0 {
        0
    } else {
        succeeded_count(outcomes.drop_last()) + if outcomes.last().status is Success
            && outcomes.last().card is Some {
            1nat
        } else {
            0nat
        }
    }
}

/// The sort key of a log entry: CDS code, year, then source URL.
pub open spec fn log_key(e: FetchLogView) -> Seq<i64> {
    text_key(e.cds_code) + num_key(e.year as nat) + text_key(e.source_url)
}

/// The log entries of the requests, in request order.
pub open spec fn outcome_logs<N>(outcomes: Seq<FetchOutcome<N>>) -> Seq<FetchLogView> {
    outcomes.map_values(|o: FetchOutcome<N>| outcome_log(o))
}

/// `order` lists the entries by CDS code, year and source URL, entries with
/// equal keys keeping their original order.
pub open spec fn log_order(logs: Seq<FetchLogView>, order: Seq<usize>) -> bool {
    is_permutation(order, logs.len()) && sorted_stably(
        logs.map_values(|e: FetchLogView| log_key(e)),
        order,
    )
}

/// `log` lists the entries of `logs` in `order`.
pub open spec fn log_follows(log: Seq<FetchLogView>, logs: Seq<FetchLogView>, order: Seq<usize>) -> bool {
    log.len() == order.len() && forall|i: int| 0 <= i < log.len() ==> #[trigger] log[i] == logs[order[i] as int]
}

proof fn lemma_outcome_cards_len<N>(outcomes: Seq<FetchOutcome<N>>)
    ensures
        outcome_cards(outcomes).len() <= outcomes.len(),
        succeeded_count(outcomes) <= outcomes.len(),
    decreases outcomes.len(),
{
    if outcomes.len() > 0 {
        lemma_outcome_cards_len(outcomes.drop_last());
    }
}

fn log_sort_key(e: &FetchLogEntry) -> (key: Vec<i64>)
    ensures
        key@ == log_key(e@),
{
    let mut key: Vec<i64> = Vec::new();
    let cds = chars_of(e.cds_code.as_str());
    push_text_key(&mut key, cds.as_slice());
    push_num_key(&mut key, e.year as u32);
    let url = chars_of(e.source_url.as_str());
    push_text_key(&mut key, url.as_slice());
    assert(key@ =~= log_key(e@));
    key
}

/// The entries sorted by CDS code, year and source URL, stably.
fn sort_log(logs: Vec<FetchLogEntry>) -> (sorted: Vec<FetchLogEntry>)
    ensures
        exists|order: Seq<usize>|
            log_order(log_views(logs@), order) && log_follows(log_views(sorted@), log_views(logs@), order),
{
    let ghost lv = log_views(logs@);
    let mut keys: Vec<Vec<i64>> = Vec::new();
    let mut i: usize = 0;
    while i < logs.len()
        invariant
            i <= logs@.len(),
            keys@.len() == i,
            forall|a: int| 0 <= a < i ==> #[trigger] keys@[a]@ == log_key(logs@[a]@),
        decreases logs@.len() - i,
    {
        keys.push(log_sort_key(&logs[i]));
        i = i + 1;
    }
    let order = stable_order(&keys);
    assert(keys@.map_values(|k: Vec<i64>| k@) =~= lv.map_values(|e: FetchLogView| log_key(e)));
    let mut sorted: Vec<FetchLogEntry> = Vec::new();
    let mut k: usize = 0;
    while k < order.len()
        invariant
            lv == log_views(logs@),
            log_order(lv, order@),
            is_permutation(order@, logs@.len()),
            k <= order@.len(),
            sorted@.len() == k,
            forall|a: int| 0 <= a < k ==> #[trigger] sorted@[a]@ == lv[order@[a] as int],
        decreases order@.len() - k,
    {
        sorted.push(logs[order[k]].clone());
        k = k + 1;
    }
    proof {
        let sv = log_views(sorted@);
        assert forall|a: int| 0 <= a < sv.len() implies #[trigger] sv[a] == lv[order@[a] as int] by {
            assert(sorted@[a]@ == lv[order@[a] as int]);
        }
        assert(log_follows(sv, lv, order@));
    }
    sorted
}

impl<N: Copy> ReportModel<N> {
    /// Builds the canonical report from successfully parsed cards: eight
    /// rows per card, cards ordered by CDS code, year and Dashboard year
    /// identifier; the log lists the cards as given.
    pub fn from_cards(cards: &[SummaryCard<N>]) -> (report: Self)
        requires
            8 * cards@.len() <= usize::MAX,
            indicator_total(card_views(cards@)) <= usize::MAX,
        ensures
            report_for_cards(report, card_views(cards@)),
            report.quality.fetches_total == cards@.len(),
            report.quality.fetches_succeeded == cards@.len(),
            report.quality.fetches_failed == 0,
            log_views(report.fetch_log@) == card_views(cards@).map_values(
                |c: CardView<N>| card_log(c),
            ),
    {
        let definitions = indicator_definitions();
        let rows = build_rows(cards, &definitions);
        let (unexpected, duplicates) = all_card_issues(cards);
        let mut fetch_log: Vec<FetchLogEntry> = Vec::new();
        let mut i: usize = 0;
        while i < cards.len()
            invariant
                i <= cards@.len(),
                fetch_log@.len() == i,
                forall|a: int| 0 <= a < i ==> #[trigger] fetch_log@[a]@ == card_log(cards@[a]@),
            decreases cards@.len() - i,
        {
            fetch_log.push(fetch_log_from_card(&cards[i]));
            i = i + 1;
        }
        let mut quality = quality_from_rows(&rows);
        quality.fetches_total = cards.len();
        quality.fetches_succeeded = cards.len();
        quality.cards_total = cards.len();
        quality.duplicate_indicators = duplicates;
        quality.unexpected_indicators = unexpected;
        let report = ReportModel {
            method_version: owned(METHOD_VERSION),
            rows,
            definitions,
            fetch_log,
            quality,
            methods: methods_text(),
            sources: sources_text(),
        };
        assert(log_views(report.fetch_log@) =~= card_views(cards@).map_values(
            |c: CardView<N>| card_log(c),
        ));
        report
    }

    /// Builds the report from every completed request: rows come from the
    /// requests that produced a card, while the log keeps every request,
    /// ordered by CDS code, year and source URL.
    pub fn from_outcomes(outcomes: &[FetchOutcome<N>]) -> (report: Self)
        requires
            8 * outcomes@.len() <= usize::MAX,
            indicator_total(outcome_cards(outcomes@)) <= usize::MAX,
        ensures
            report_for_cards(report, outcome_cards(outcomes@)),
            report.quality.fetches_total == outcomes@.len(),
            report.quality.fetches_succeeded == succeeded_count(outcomes@),
            report.quality.fetches_failed == outcomes@.len() - succeeded_count(outcomes@),
            exists|order: Seq<usize>|
                log_order(outcome_logs(outcomes@), order) && log_follows(
                    log_views(report.fetch_log@),
                    outcome_logs(outcomes@),
                    order,
                ),
    {
        let mut cards: Vec<SummaryCard<N>> = Vec::new();
        let mut logs: Vec<FetchLogEntry> = Vec::new();
        let mut succeeded: usize = 0;
        let mut i: usize = 0;
        while i < outcomes.len()
            invariant
                i <= outcomes@.len(),
                card_views(cards@) == outcome_cards(outcomes@.take(i as int)),
                succeeded == succeeded_count(outcomes@.take(i as int)),
                logs@.len() == i,
                forall|a: int| 0 <= a < i ==> #[trigger] logs@[a]@ == outcome_log(outcomes@[a]),
            decreases outcomes@.len() - i,
        {
            let ghost before = outcomes@.take(i as int);
            let ghost after = outcomes@.take(i + 1);
            assert(after.drop_last() =~= before);
            proof {
                lemma_outcome_cards_len(before);
            }
            let outcome = &outcomes[i];
            match &outcome.card {
                Some(c) => {
                    cards.push(c.clone());
                    assert(card_views(cards@) =~= outcome_cards(after));
                },
                None => {
                    assert(card_views(cards@) =~= outcome_cards(after));
                },
            }
            if outcome.status.is_success() && outcome.card.is_some() {
                succeeded = succeeded + 1;
            }
            logs.push(fetch_log_from_outcome(outcome));
            i = i + 1;
        }
        assert(outcomes@.take(outcomes@.len() as int) =~= outcomes@);
        proof {
            lemma_outcome_cards_len(outcomes@);
        }
        let mut report = Self::from_cards(cards.as_slice());
        assert(log_views(logs@) =~= outcome_logs(outcomes@));
        report.fetch_log = sort_log(logs);
        report.quality.fetches_total = outcomes.len();
        report.quality.fetches_succeeded = succeeded;
        report.quality.fetches_failed = outcomes.len() - succeeded;
        report
    }

    /// The canonical rows.
    pub fn rows(&self) -> (r: &[CanonicalRow<N>])
        ensures
            r@ == self.rows@,
    {
        self.rows.as_slice()
    }

    /// The report's data-quality counts.
    pub fn quality(&self) -> (q: &DataQuality)
        ensures
            *q == self.quality,
    {
        &self.quality
    }
}

// ------------------------------------------------------------------------
// Laws of the canonical rows and the report
// ------------------------------------------------------------------------

/// A school measure that is absent, private, has a known denominator of ten or
/// fewer, or has no status contributes no value at all to its row.
pub proof fn law_withheld_primary_contributes_nothing<N>(
    card: CardView<N>,
    def: DefinitionView,
    ind: Option<Indicator<N>>,
)
    requires
        measure_reason(primary_of(ind), false) is Some,
    ensures
        ({
            let r = canonical_row(card, def, ind);
            &&& r.status is None
            &&& r.official_change is None
            &&& r.change_id is None
            &&& r.status_id is None
            &&& r.performance is None
            &&& r.total_groups is None
            &&& r.red is None && r.orange is None && r.yellow is None
            &&& r.green is None && r.blue is None
            &&& r.count is None
            &&& r.student_group is None
            &&& !r.small_n_warning
        }),
{
}

/// A comparison measure that is withheld contributes no value to its row.
pub proof fn law_withheld_comparator_contributes_nothing<N>(
    card: CardView<N>,
    def: DefinitionView,
    ind: Option<Indicator<N>>,
)
    requires
        measure_reason(secondary_of(ind), true) is Some,
    ensures
        ({
            let r = canonical_row(card, def, ind);
            &&& r.comparator_status is None
            &&& r.comparator_count is None
            &&& !r.comparator_small_n_warning
        }),
{
}

/// A row reports a status exactly when no reason withholds it.
pub proof fn law_reported_exactly_when_no_reason<N>(
    card: CardView<N>,
    def: DefinitionView,
    ind: Option<Indicator<N>>,
)
    ensures
        canonical_row(card, def, ind).status is Some <==> canonical_row(
            card,
            def,
            ind,
        ).missing_reason is None,
        canonical_row(card, def, ind).comparator_status is Some <==> canonical_row(
            card,
            def,
            ind,
        ).comparator_missing_reason is None,
{
}

/// Year rules: no official change or change identifier in 2022; no color
/// counts and no performance level in 2020 through 2022; a shown performance
/// level is never zero.
pub proof fn law_year_publication_rules<N>(
    card: CardView<N>,
    def: DefinitionView,
    ind: Option<Indicator<N>>,
)
    ensures
        ({
            let r = canonical_row(card, def, ind);
            &&& card.year == 2022 ==> r.official_change is None && r.change_id is None
            &&& 2020 <= card.year <= 2022 ==> r.red is None && r.orange is None && r.yellow is None
                && r.green is None && r.blue is None && r.performance is None
            &&& card.year == 2023 && def.indicator_id == 5 ==> r.performance is None
            &&& r.performance is Some ==> r.performance->0 != 0
        }),
{
}

/// In every year with an official classification (2017 through 2019 and
/// 2023 through 2025, except the 2023 College/Career Indicator), a shown
/// primary measure's nonzero performance level is the row's performance, and
/// a missing or zero level leaves none.
pub proof fn law_classified_years_keep_performance<N>(
    card: CardView<N>,
    def: DefinitionView,
    ind: Option<Indicator<N>>,
)
    requires
        (2017 <= card.year <= 2019 || 2023 <= card.year <= 2025),
        !(card.year == 2023 && def.indicator_id == 5),
    ensures
        ({
            let r = canonical_row(card, def, ind);
            let m = shown(primary_of(ind), false);
            &&& forall|l: i32| m.performance == Some(l) && l != 0 ==> r.performance == Some(l)
            &&& (m.performance is None || m.performance == Some(0i32)) ==> r.performance is None
        }),
{
}

/// A shown primary measure's status, status identifier, group total and
/// count are always the row's; its change and change identifier are the
/// row's in every year but 2022; its color counts are the row's in every
/// year outside 2020 through 2022.
pub proof fn law_published_years_keep_values<N>(
    card: CardView<N>,
    def: DefinitionView,
    ind: Option<Indicator<N>>,
)
    ensures
        ({
            let r = canonical_row(card, def, ind);
            let m = shown(primary_of(ind), false);
            &&& r.status == m.status && r.status_id == m.status_id && r.total_groups == m.total_groups
                && r.count == m.count
            &&& card.year != 2022 ==> r.official_change == m.change && r.change_id == m.change_id
            &&& !(2020 <= card.year <= 2022) ==> r.red == m.red && r.orange == m.orange && r.yellow
                == m.yellow && r.green == m.green && r.blue == m.blue
        }),
{
}

proof fn lemma_partition<N>(rows: Seq<RowView<N>>)
    requires
        forall|i: int| 0 <= i < rows.len() ==> (#[trigger] rows[i].status is Some <==> rows[i].missing_reason is None),
    ensures
        count_rows(rows, is_reported_row()) + count_rows(rows, is_missing_row()) + count_rows(
            rows,
            is_private_row(),
        ) + count_rows(rows, is_small_n_row()) == rows.len(),
    decreases rows.len(),
{
    if rows.len() > 0 {
        let rest = rows.drop_last();
        assert forall|i: int| 0 <= i < rest.len() implies (#[trigger] rest[i].status is Some
            <==> rest[i].missing_reason is None) by {
            assert(rest[i] == rows[i]);
        }
        lemma_partition(rest);
        assert(rows[rows.len() - 1] == rows.last());
    }
}

/// Every row of a report is counted exactly once as reported, private,
/// small-denominator suppressed, or otherwise missing.
pub proof fn law_quality_partitions_rows<N>(report: ReportModel<N>, cards: Seq<CardView<N>>)
    requires
        report_for_cards(report, cards),
    ensures
        report.quality.rows_reported + report.quality.rows_missing + report.quality.rows_private
            + report.quality.rows_small_n_suppressed == report.quality.rows_total,
{
    let rv = row_views(report.rows@);
    let order = choose|order: Seq<usize>|
        card_order(cards, order) && rows_follow(rv, cards, order);
    assert forall|i: int| 0 <= i < rv.len() implies (#[trigger] rv[i].status is Some
        <==> rv[i].missing_reason is None) by {
        let k = i / 8;
        let j = i % 8;
        assert(i == row_at(k, j));
        assert(rv[row_at(k, j)] == expected_row(cards[order[k] as int], j));
    }
    lemma_partition(rv);
}

/// A report holds exactly eight rows for each card.
pub proof fn law_eight_rows_per_card<N>(report: ReportModel<N>, cards: Seq<CardView<N>>)
    requires
        report_for_cards(report, cards),
    ensures
        report.rows@.len() == 8 * cards.len(),
        report.quality.rows_total == 8 * cards.len(),
{
    let order = choose|order: Seq<usize>|
        card_order(cards, order) && rows_follow(row_views(report.rows@), cards, order);
    assert(row_views(report.rows@).len() == report.rows@.len());
}

/// The school key of a row: CDS code, year, then Dashboard year identifier.
pub open spec fn row_key<N>(r: RowView<N>) -> Seq<i64> {
    text_key(r.cds_code) + num_key(r.year as nat) + num_key(r.dashboard_year_id as nat)
}

/// Rows are ordered by CDS code, year and Dashboard year identifier, and
/// within one card by indicator identifier 1 through 8.
pub proof fn law_rows_in_reporting_order<N>(
    report: ReportModel<N>,
    cards: Seq<CardView<N>>,
    k1: int,
    j1: int,
    k2: int,
    j2: int,
)
    requires
        report_for_cards(report, cards),
        0 <= k1 < k2 < cards.len(),
        0 <= j1 < 8,
        0 <= j2 < 8,
    ensures
        key_le(
            row_key(row_views(report.rows@)[row_at(k1, j1)]),
            row_key(row_views(report.rows@)[row_at(k2, j2)]),
        ),
        row_views(report.rows@)[row_at(k1, j1)].indicator_id == j1 + 1,
{
    lemma_definition_ids();
    let rv = row_views(report.rows@);
    let order = choose|order: Seq<usize>| card_order(cards, order) && rows_follow(rv, cards, order);
    assert(rv[row_at(k1, j1)] == expected_row(cards[order[k1] as int], j1));
    assert(rv[row_at(k2, j2)] == expected_row(cards[order[k2] as int], j2));
    assert(card_keys(cards)[order[k1] as int] == card_key(cards[order[k1] as int]));
    assert(card_keys(cards)[order[k2] as int] == card_key(cards[order[k2] as int]));
    assert(row_key(rv[row_at(k1, j1)]) =~= card_key(cards[order[k1] as int]));
    assert(row_key(rv[row_at(k2, j2)]) =~= card_key(cards[order[k2] as int]));
}

/// Every row of a report names the card it came from: its school, year and
/// trace identifier, and the card's source URL, retrieval time and payload
/// digest, with the reporting method version.
pub proof fn law_rows_carry_provenance<N>(report: ReportModel<N>, cards: Seq<CardView<N>>, i: int)
    requires
        report_for_cards(report, cards),
        0 <= i < report.rows@.len(),
    ensures
        exists|c: int|
            0 <= c < cards.len() && {
                let r = row_views(report.rows@)[i];
                let card = #[trigger] cards[c];
                &&& r.cds_code == card.school.cds_code@
                &&& r.school_name == card.school.school_name@
                &&& r.year == card.year
                &&& r.trace_id == trace_text(card.school.cds_code@, card.year, r.indicator_id)
                &&& r.source_url == card.provenance.source_url@
                &&& r.retrieved_at_utc == card.provenance.retrieved_at_utc@
                &&& r.payload_sha256 == opt_view(card.provenance.payload_sha256)
                &&& r.method_version == METHOD_VERSION@
            },
{
    let rv = row_views(report.rows@);
    let order = choose|order: Seq<usize>| card_order(cards, order) && rows_follow(rv, cards, order);
    let k = i / 8;
    let j = i % 8;
    assert(i == row_at(k, j));
    assert(rv.len() == report.rows@.len());
    assert(0 <= k < order.len());
    assert(rv[row_at(k, j)] == expected_row(cards[order[k] as int], j));
    let c = order[k] as int;
    assert(0 <= c < cards.len());
}

/// Two orders that both sort items whose keys are pairwise distinct agree on
/// their first `k` positions.
proof fn lemma_sorted_orders_agree(keys: Seq<Seq<i64>>, o1: Seq<usize>, q: Seq<usize>, k: int)
    requires
        is_permutation(o1, keys.len()),
        is_permutation(q, keys.len()),
        sorted_stably(keys, o1),
        sorted_stably(keys, q),
        forall|a: int, b: int| 0 <= a < b < keys.len() ==> #[trigger] keys[a] != #[trigger] keys[b],
        0 <= k <= keys.len(),
    ensures
        forall|m: int| 0 <= m < k ==> o1[m] == q[m],
    decreases k,
{
    if k > 0 {
        lemma_sorted_orders_agree(keys, o1, q, k - 1);
        let n = keys.len();
        let t = k - 1;
        let i = o1[t] as int;
        crate::resolver::lemma_permutation_onto(q, n, i);
        let m = choose|x: int| 0 <= x < q.len() && q[x] == i;
        if m != t {
            if m < t {
                assert(o1[m] == q[m]);
            } else {
                let j = q[t] as int;
                assert(i != j);
                assert(key_le(keys[q[t] as int], keys[q[m] as int]));
                assert(keys[j] != keys[i]) by {
                    if j < i {
                        assert(keys[j] != keys[i]);
                    } else {
                        assert(keys[i] != keys[j]);
                    }
                }
                crate::order::lemma_key_total(keys[j], keys[i]);
                crate::resolver::lemma_permutation_onto(o1, n, j);
                let m2 = choose|x: int| 0 <= x < o1.len() && o1[x] == j;
                if m2 < t {
                    assert(o1[m2] == q[m2]);
                } else if m2 == t {
                } else {
                    assert(key_le(keys[o1[t] as int], keys[o1[m2] as int]));
                }
            }
        }
    }
}

/// The rows of a report do not depend on the order in which its cards come:
/// two reports built from the same cards, with pairwise distinct CDS code,
/// year and Dashboard year, in any two orders, hold the same rows and the
/// same row counts.
pub proof fn law_rows_ignore_card_order<N>(
    r1: ReportModel<N>,
    cards: Seq<CardView<N>>,
    r2: ReportModel<N>,
    cards2: Seq<CardView<N>>,
    perm: Seq<usize>,
)
    requires
        report_for_cards(r1, cards),
        report_for_cards(r2, cards2),
        is_permutation(perm, cards.len()),
        cards2.len() == cards.len(),
        forall|i: int| 0 <= i < cards2.len() ==> #[trigger] cards2[i] == cards[perm[i] as int],
        forall|a: int, b: int| 0 <= a < b < cards.len() ==> card_key(#[trigger] cards[a]) != card_key(#[trigger] cards[b]),
    ensures
        row_views(r1.rows@) == row_views(r2.rows@),
        rows_quality(row_views(r2.rows@), r1.quality),
{
    let rv1 = row_views(r1.rows@);
    let rv2 = row_views(r2.rows@);
    let o1 = choose|order: Seq<usize>| card_order(cards, order) && rows_follow(rv1, cards, order);
    let o2 = choose|order: Seq<usize>| card_order(cards2, order) && rows_follow(rv2, cards2, order);
    let n = cards.len();
    let keys = card_keys(cards);
    let q = o2.map_values(|x: usize| perm[x as int]);
    assert forall|a: int| 0 <= a < q.len() implies q[a] < n by {
        assert(o2[a] < n);
    }
    assert forall|a: int, b: int| 0 <= a < b < q.len() implies q[a] != q[b] by {
        assert(o2[a] != o2[b]);
        if o2[a] < o2[b] {
        } else {
        }
    }
    assert forall|a: int, b: int| 0 <= a < b < keys.len() implies #[trigger] keys[a] != #[trigger] keys[b] by {}
    assert forall|a: int, b: int|
        #![trigger q[a], q[b]]
        0 <= a < b < q.len() implies key_le(keys[q[a] as int], keys[q[b] as int]) && (keys[q[a] as int]
            == keys[q[b] as int] ==> q[a] < q[b]) by {
        assert(keys[q[a] as int] == card_key(cards2[o2[a] as int]));
        assert(keys[q[b] as int] == card_key(cards2[o2[b] as int]));
        assert(card_keys(cards2)[o2[a] as int] == card_key(cards2[o2[a] as int]));
        assert(card_keys(cards2)[o2[b] as int] == card_key(cards2[o2[b] as int]));
        assert(key_le(card_keys(cards2)[o2[a] as int], card_keys(cards2)[o2[b] as int]));
        if q[a] < q[b] {
        } else {
            assert(q[a] != q[b]);
            assert(keys[q[b] as int] != keys[q[a] as int]);
        }
    }
    lemma_sorted_orders_agree(keys, o1, q, n as int);
    assert(rv1.len() == rv2.len());
    assert forall|i: int| 0 <= i < rv1.len() implies rv1[i] == rv2[i] by {
        let k = i / 8;
        let j = i % 8;
        assert(i == row_at(k, j));
        assert(rv1[row_at(k, j)] == expected_row(cards[o1[k] as int], j));
        assert(rv2[row_at(k, j)] == expected_row(cards2[o2[k] as int], j));
        assert(o1[k] == q[k]);
    }
    assert(rv1 =~= rv2);
}

/// Every request appears in the log of a report built from requests, and the
/// fetch counts add up.
pub proof fn law_fetch_counts_add_up<N>(report: ReportModel<N>, outcomes: Seq<FetchOutcome<N>>)
    requires
        report.quality.fetches_total == outcomes.len(),
        report.quality.fetches_succeeded == succeeded_count(outcomes),
        report.quality.fetches_failed == outcomes.len() - succeeded_count(outcomes),
        exists|order: Seq<usize>|
            log_order(outcome_logs(outcomes), order) && log_follows(
                log_views(report.fetch_log@),
                outcome_logs(outcomes),
                order,
            ),
    ensures
        report.quality.fetches_succeeded + report.quality.fetches_failed == report.quality.fetches_total,
        report.fetch_log@.len() == outcomes.len(),
{
    lemma_outcome_cards_len(outcomes);
    let order = choose|order: Seq<usize>|
        log_order(outcome_logs(outcomes), order) && log_follows(
            log_views(report.fetch_log@),
            outcome_logs(outcomes),
            order,
        );
    assert(log_views(report.fetch_log@).len() == report.fetch_log@.len());
}

/// A shown measure's values are copied, never recomputed: a valid zero stays
/// zero and an absent value stays absent.
pub proof fn law_shown_values_are_copied<N>(
    card: CardView<N>,
    def: DefinitionView,
    ind: Option<Indicator<N>>,
)
    requires
        measure_reason(primary_of(ind), false) is None,
    ensures
        ({
            let r = canonical_row(card, def, ind);
            let m = primary_of(ind)->0;
            &&& r.status == m.status
            &&& r.status is Some
            &&& r.count == m.count
            &&& r.status_id == m.status_id
            &&& r.total_groups == m.total_groups
            &&& change_published(card.year) ==> r.official_change == m.change
            &&& color_counts_published(card.year) ==> r.red == m.red && r.blue == m.blue
        }),
{
}

/// The small-denominator caution marks only reported values, and only for a
/// known denominator from 11 through 29.
pub proof fn law_caution_marks_only_reported_values<N>(
    card: CardView<N>,
    def: DefinitionView,
    ind: Option<Indicator<N>>,
)
    ensures
        canonical_row(card, def, ind).small_n_warning ==> {
            let r = canonical_row(card, def, ind);
            &&& r.status is Some
            &&& r.count is Some
            &&& 11 <= r.count->0 <= 29
        },
{
}

/// Year cautions: 2020 and 2021 are informational; 2022 is status-only;
/// the 2023 College/Career Indicator has no color; 2025 Science is
/// informational while its published fields are kept.
pub proof fn law_year_cautions<N>(card: CardView<N>, def: DefinitionView, ind: Option<Indicator<N>>)
    ensures
        ({
            let r = canonical_row(card, def, ind);
            let m = shown(primary_of(ind), false);
            &&& (card.year == 2020 || card.year == 2021) ==> r.informational_only && r.year_caveat is Some
            &&& card.year == 2022 ==> !r.informational_only && r.year_caveat is Some
            &&& (card.year == 2023 && def.indicator_id == 5) ==> r.year_caveat is Some && r.performance is None
            &&& (card.year == 2025 && def.indicator_id == 8) ==> r.informational_only
                && r.official_change == m.change && r.red == m.red && r.performance == color_level(
                m.performance,
            )
            &&& (2017 <= card.year <= 2019 || (card.year >= 2023 && !(card.year == 2023
                && def.indicator_id == 5) && !(card.year == 2025 && def.indicator_id == 8)))
                ==> r.year_caveat is None && !r.informational_only
        }),
{
}

// ------------------------------------------------------------------------
// Narrative
// ------------------------------------------------------------------------

/// The number of rows the narrative describes one by one.
pub const NARRATIVE_ROW_LIMIT: usize = 200;

/// One sentence of the narrative, tied to the row it describes.
#[derive(Debug)]
pub struct NarrativeStatement {
    pub trace_id: String,
    pub text: String,
}

/// The display text of one row's numbers, which the caller formats: the
/// status, the official change, and the raw and direction-adjusted
/// comparator gaps where both are known.
#[derive(Debug)]
pub struct NumberTexts {
    pub status: String,
    pub change: String,
    pub gaps: Option<(String, String)>,
}

/// The contents of the number texts.
pub open spec fn gap_view(g: Option<(String, String)>) -> Option<(Seq<char>, Seq<char>)> {
    match g {
        Some((raw, favorable)) => Some((raw@, favorable@)),
        None => None,
    }
}

/// The narrative sentence of a row whose numbers read `status` and
/// `change`, with the gap texts where both gaps are known. A row without a
/// reportable status quotes no number: it names its missing reason.
pub open spec fn narrative_text<N>(
    r: RowView<N>,
    status: Seq<char>,
    change: Seq<char>,
    gaps: Option<(Seq<char>, Seq<char>)>,
) -> Seq<char> {
    let subject = r.trace_id + ": "@ + r.school_name + " ("@ + decimal(r.year as nat) + ")"@;
    if r.status is None {
        let reason = match r.missing_reason {
            Some(m) => reason_code(m),
            None => "MISSING"@,
        };
        subject + " has no reportable "@ + r.indicator_name + " value ["@ + reason + "]."@
    } else {
        let head = subject + " reported "@ + status + " "@ + r.status_unit + " for "@
            + r.indicator_name;
        let with_change = if r.official_change is Some {
            head + "; the official change field was "@ + change + " "@ + r.change_unit
        } else {
            head
        };
        let with_gaps = match gaps {
            Some((raw, favorable)) => with_change + "; the raw comparator gap was "@ + raw + " "@
                + r.status_unit + " and the direction-adjusted gap was "@ + favorable + " "@
                + r.status_unit + " ("@ + direction_label(r.favorable_direction) + ")"@,
            None => with_change,
        };
        let with_caution = if r.small_n_warning {
            with_gaps + "; the known denominator is 11\u{2013}29, so the value should be read cautiously"@
        } else {
            with_gaps
        };
        with_caution + "."@
    }
}

/// The sentence that closes a narrative which leaves rows out.
pub open spec fn narrative_scope_text(total: nat) -> Seq<char> {
    "Narrative text covers "@ + decimal(NARRATIVE_ROW_LIMIT as nat) + " of "@ + decimal(total)
        + " rows in CDS/year/indicator order; the data table retains every row."@
}

/// The narrative sentence of one row, given the display text of its numbers.
pub fn narrative_for_row<N>(row: &CanonicalRow<N>, numbers: &NumberTexts) -> (text: String)
    ensures
        text@ == narrative_text(row@, numbers.status@, numbers.change@, gap_view(numbers.gaps)),
{
    let mut text = row.trace_id.clone();
    push_str(&mut text, ": ");
    push_str(&mut text, row.school_name.as_str());
    push_str(&mut text, " (");
    push_decimal(&mut text, row.year as u64);
    push_str(&mut text, ")");
    if row.status.is_none() {
        push_str(&mut text, " has no reportable ");
        push_str(&mut text, row.indicator_name.as_str());
        push_str(&mut text, " value [");
        match row.missing_reason {
            Some(m) => push_str(&mut text, m.code()),
            None => push_str(&mut text, "MISSING"),
        }
        push_str(&mut text, "].");
        return text;
    }
    push_str(&mut text, " reported ");
    push_str(&mut text, numbers.status.as_str());
    push_str(&mut text, " ");
    push_str(&mut text, row.status_unit.as_str());
    push_str(&mut text, " for ");
    push_str(&mut text, row.indicator_name.as_str());
    if row.official_change.is_some() {
        push_str(&mut text, "; the official change field was ");
        push_str(&mut text, numbers.change.as_str());
        push_str(&mut text, " ");
        push_str(&mut text, row.change_unit.as_str());
    }
    match &numbers.gaps {
        Some((raw, favorable)) => {
            push_str(&mut text, "; the raw comparator gap was ");
            push_str(&mut text, raw.as_str());
            push_str(&mut text, " ");
            push_str(&mut text, row.status_unit.as_str());
            push_str(&mut text, " and the direction-adjusted gap was ");
            push_str(&mut text, favorable.as_str());
            push_str(&mut text, " ");
            push_str(&mut text, row.status_unit.as_str());
            push_str(&mut text, " (");
            push_str(&mut text, row.favorable_direction.label());
            push_str(&mut text, ")");
        },
        None => {},
    }
    if row.small_n_warning {
        push_str(&mut text, "; the known denominator is 11\u{2013}29, so the value should be read cautiously");
    }
    push_str(&mut text, ".");
    text
}

/// The narrative of a report: one sentence for each of the first
/// `NARRATIVE_ROW_LIMIT` rows, in row order, then, where rows were left out,
/// a sentence saying how many the narrative covers. `numbers[i]` is the
/// display text of the numbers of `rows[i]`.
pub fn narrative_from_rows<N>(rows: &Vec<CanonicalRow<N>>, numbers: &Vec<NumberTexts>) -> (v: Vec<
    NarrativeStatement,
>)
    requires
        numbers@.len() == rows@.len(),
    ensures
        v@.len() == if rows@.len() > NARRATIVE_ROW_LIMIT {
            NARRATIVE_ROW_LIMIT + 1
        } else {
            rows@.len() as int
        },
        forall|i: int|
            0 <= i < v@.len() && i < NARRATIVE_ROW_LIMIT ==> {
                &&& (#[trigger] v@[i]).trace_id@ == rows@[i].trace_id@
                &&& v@[i].text@ == narrative_text(
                    rows@[i]@,
                    numbers@[i].status@,
                    numbers@[i].change@,
                    gap_view(numbers@[i].gaps),
                )
            },
        rows@.len() > NARRATIVE_ROW_LIMIT ==> {
            &&& v@[NARRATIVE_ROW_LIMIT as int].trace_id@ == "NARRATIVE_SCOPE"@
            &&& v@[NARRATIVE_ROW_LIMIT as int].text@ == narrative_scope_text(rows@.len())
        },
{
    let mut v: Vec<NarrativeStatement> = Vec::new();
    let n = rows.len();
    let shown = if n > NARRATIVE_ROW_LIMIT {
        NARRATIVE_ROW_LIMIT
    } else {
        n
    };
    let mut i: usize = 0;
    while i < shown
        invariant
            shown <= n,
            n == rows@.len(),
            numbers@.len() == n,
            shown == if n > NARRATIVE_ROW_LIMIT {
                NARRATIVE_ROW_LIMIT
            } else {
                n
            },
            i <= shown,
            v@.len() == i,
            forall|k: int|
                0 <= k < i ==> {
                    &&& (#[trigger] v@[k]).trace_id@ == rows@[k].trace_id@
                    &&& v@[k].text@ == narrative_text(
                        rows@[k]@,
                        numbers@[k].status@,
                        numbers@[k].change@,
                        gap_view(numbers@[k].gaps),
                    )
                },
        decreases shown - i,
    {
        let text = narrative_for_row(&rows[i], &numbers[i]);
        v.push(NarrativeStatement { trace_id: rows[i].trace_id.clone(), text });
        i = i + 1;
    }
    if n > NARRATIVE_ROW_LIMIT {
        let mut text = owned("Narrative text covers ");
        push_decimal(&mut text, NARRATIVE_ROW_LIMIT as u64);
        push_str(&mut text, " of ");
        push_decimal(&mut text, n as u64);
        push_str(&mut text, " rows in CDS/year/indicator order; the data table retains every row.");
        v.push(NarrativeStatement { trace_id: owned("NARRATIVE_SCOPE"), text });
    }
    v
}

/// The narrative of a row without a reportable status quotes none of its
/// numbers: its sentence is the same whatever number texts are supplied.
pub proof fn law_withheld_rows_quote_no_number<N>(
    r: RowView<N>,
    status_a: Seq<char>,
    change_a: Seq<char>,
    gaps_a: Option<(Seq<char>, Seq<char>)>,
    status_b: Seq<char>,
    change_b: Seq<char>,
    gaps_b: Option<(Seq<char>, Seq<char>)>,
)
    requires
        r.status is None,
    ensures
        narrative_text(r, status_a, change_a, gaps_a) == narrative_text(r, status_b, change_b, gaps_b),
{
}

} // verus!
