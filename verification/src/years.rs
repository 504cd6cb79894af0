//! Authoritative Dashboard year identifiers and endpoint construction.

use vstd::prelude::*;

use crate::text::{decimal, owned, push_decimal, push_str};

verus! {

/// The calendar years the Dashboard API serves.
pub const SUPPORTED_YEARS: [u16; 9] = [2017, 2018, 2019, 2020, 2021, 2022, 2023, 2024, 2025];

/// The root of the SummaryCards endpoints.
pub const DASHBOARD_BASE_URL: &'static str = "https://api.caschooldashboard.org/Reports";

/// The Dashboard identifier of a calendar year, when the year is supported.
pub open spec fn spec_dashboard_year_id(year: u16) -> Option<u8> {
    if 2017 <= year <= 2025 {
        Some((year - 2014) as u8)
    } else {
        None
    }
}

/// Maps a calendar year to the exact School Dashboard API identifier.
pub fn dashboard_year_id(year: u16) -> (id: Option<u8>)
    ensures
        id == spec_dashboard_year_id(year),
{
    match year {
        2017 => Some(3),
        2018 => Some(4),
        2019 => Some(5),
        2020 => Some(6),
        2021 => Some(7),
        2022 => Some(8),
        2023 => Some(9),
        2024 => Some(10),
        2025 => Some(11),
        _ => None,
    }
}

/// Whether the Dashboard serves `year`.
pub fn is_supported_year(year: u16) -> (r: bool)
    ensures
        r == spec_dashboard_year_id(year).is_some(),
        r == (2017 <= year <= 2025),
{
    dashboard_year_id(year).is_some()
}

/// A CDS code: exactly fourteen ASCII digits.
pub open spec fn is_cds_code(s: Seq<char>) -> bool {
    s.len() == 14 && forall|i: int| 0 <= i < s.len() ==> '0' <= #[trigger] s[i] <= '9'
}

/// Whether `cds_code` is exactly fourteen ASCII digits.
pub fn is_valid_cds_code(cds_code: &str) -> (r: bool)
    ensures
        r == is_cds_code(cds_code@),
{
    let n = cds_code.unicode_len();
    if n != 14 {
        return false;
    }
    let mut i: usize = 0;
    while i < n
        invariant
            n == cds_code@.len(),
            i <= n,
            forall|j: int| 0 <= j < i ==> '0' <= #[trigger] cds_code@[j] <= '9',
        decreases n - i,
    {
        let c = cds_code.get_char(i);
        if !('0' <= c && c <= '9') {
            return false;
        }
        i = i + 1;
    }
    true
}

/// The SummaryCards endpoint of one school and Dashboard year identifier.
pub open spec fn summary_url(cds_code: Seq<char>, year_id: u8) -> Seq<char> {
    DASHBOARD_BASE_URL@ + seq!['/'] + cds_code + seq!['/'] + decimal(year_id as nat)
        + "/SummaryCards"@
}

/// Why a SummaryCards endpoint cannot be built.
#[derive(Debug, PartialEq, Eq)]
pub enum YearError {
    UnsupportedYear(u16),
    InvalidCdsCode(String),
}

impl Clone for YearError {
    fn clone(&self) -> (r: Self)
        ensures
            r == *self,
    {
        match self {
            YearError::UnsupportedYear(y) => YearError::UnsupportedYear(*y),
            YearError::InvalidCdsCode(c) => YearError::InvalidCdsCode(c.clone()),
        }
    }
}

/// Constructs the documented SummaryCards URL for one school and year.
pub fn summary_cards_url(cds_code: &str, year: u16) -> (r: Result<String, YearError>)
    ensures
        match r {
            Ok(url) => is_cds_code(cds_code@) && spec_dashboard_year_id(year) is Some
                && url@ == summary_url(cds_code@, spec_dashboard_year_id(year)->0),
            Err(YearError::InvalidCdsCode(code)) => !is_cds_code(cds_code@) && code@
                == cds_code@,
            Err(YearError::UnsupportedYear(y)) => is_cds_code(cds_code@)
                && spec_dashboard_year_id(year) is None && y == year,
        },
{
    if !is_valid_cds_code(cds_code) {
        return Err(YearError::InvalidCdsCode(owned(cds_code)));
    }
    let year_id = match dashboard_year_id(year) {
        Some(id) => id,
        None => {
            return Err(YearError::UnsupportedYear(year));
        },
    };
    Ok(endpoint_url(DASHBOARD_BASE_URL, cds_code, year_id))
}

/// `{base}/{cds}/{year-id}/SummaryCards`.
pub fn endpoint_url(base: &str, cds_code: &str, year_id: u8) -> (url: String)
    ensures
        url@ == base@ + seq!['/'] + cds_code@ + seq!['/'] + decimal(year_id as nat)
            + "/SummaryCards"@,
{
    let mut url = owned(base);
    push_str(&mut url, "/");
    push_str(&mut url, cds_code);
    push_str(&mut url, "/");
    push_decimal(&mut url, year_id as u64);
    push_str(&mut url, "/SummaryCards");
    proof {
        reveal_strlit("/");
        assert("/"@ =~= seq!['/']);
    }
    url
}

} // verus!
