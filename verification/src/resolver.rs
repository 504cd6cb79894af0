//! School identity lookup, deterministic matching, and request planning.

use vstd::prelude::*;

use crate::model::{
    opt_view, DirectoryRecord, DirectoryView, FetchSpec, FetchSpecView, SchoolRecord, SchoolView,
};
use crate::order::{
    is_permutation, key_le, key_lt, lemma_key_total, lemma_key_trans, lemma_text_key_injective,
    push_text_key, sorted_stably, stable_order, text_key,
};
use crate::text::{
    chars_of, contains_chars, is_white, normalize, normalized, owned, starts_with_chars,
    string_from, trim, trim_chars, trim_string,
};
use crate::years::{
    dashboard_year_id, is_cds_code, is_valid_cds_code, spec_dashboard_year_id, summary_cards_url,
    summary_url, YearError,
};

verus! {

/// The smaller of three numbers.
pub open spec fn min3(a: nat, b: nat, c: nat) -> nat {
    if a <= b && a <= c {
        a
    } else if b <= c {
        b
    } else {
        c
    }
}

/// The Levenshtein distance between two character sequences: the fewest
/// single-character insertions, deletions and substitutions turning one into
/// the other.
pub open spec fn edit_distance(a: Seq<char>, b: Seq<char>) -> nat
    decreases a.len() + b.len(),
{
    if a.len() == 0 {
        b.len()
    } else if b.len() == 0 {
        a.len()
    } else {
        min3(
            edit_distance(a.drop_last(), b) + 1,
            edit_distance(a, b.drop_last()) + 1,
            edit_distance(a.drop_last(), b.drop_last()) + (if a.last() == b.last() {
                0nat
            } else {
                1nat
            }),
        )
    }
}

/// The edit distance does not depend on which sequence comes first.
pub proof fn lemma_edit_distance_symmetric(a: Seq<char>, b: Seq<char>)
    ensures
        edit_distance(a, b) == edit_distance(b, a),
    decreases a.len() + b.len(),
{
    if a.len() > 0 && b.len() > 0 {
        lemma_edit_distance_symmetric(a.drop_last(), b);
        lemma_edit_distance_symmetric(a, b.drop_last());
        lemma_edit_distance_symmetric(a.drop_last(), b.drop_last());
    }
}

/// The edit distance never exceeds the longer length.
pub proof fn lemma_edit_distance_bound(a: Seq<char>, b: Seq<char>)
    ensures
        edit_distance(a, b) <= if a.len() >= b.len() { a.len() } else { b.len() },
    decreases a.len() + b.len(),
{
    if a.len() > 0 && b.len() > 0 {
        lemma_edit_distance_bound(a.drop_last(), b.drop_last());
    }
}

/// A sequence is at distance zero from itself.
pub proof fn lemma_edit_distance_self(a: Seq<char>)
    ensures
        edit_distance(a, a) == 0,
    decreases a.len(),
{
    if a.len() > 0 {
        lemma_edit_distance_self(a.drop_last());
    }
}

/// The edit distance is at least the difference of the lengths.
pub proof fn lemma_edit_distance_length_gap(a: Seq<char>, b: Seq<char>)
    ensures
        edit_distance(a, b) >= a.len() - b.len(),
        edit_distance(a, b) >= b.len() - a.len(),
    decreases a.len() + b.len(),
{
    if a.len() > 0 && b.len() > 0 {
        lemma_edit_distance_length_gap(a.drop_last(), b);
        lemma_edit_distance_length_gap(a, b.drop_last());
        lemma_edit_distance_length_gap(a.drop_last(), b.drop_last());
    }
}

/// Two sequences are at distance zero exactly when they are equal.
pub proof fn lemma_edit_distance_zero(a: Seq<char>, b: Seq<char>)
    ensures
        edit_distance(a, b) == 0 <==> a == b,
    decreases a.len() + b.len(),
{
    if a == b {
        lemma_edit_distance_self(a);
    } else if a.len() == 0 && b.len() == 0 {
        assert(a =~= b);
        lemma_edit_distance_self(a);
    } else if a.len() > 0 && b.len() > 0 {
        lemma_edit_distance_zero(a.drop_last(), b.drop_last());
        if edit_distance(a, b) == 0 {
            assert(edit_distance(a.drop_last(), b.drop_last()) == 0 && a.last() == b.last());
            assert(a =~= a.drop_last().push(a.last()));
            assert(b =~= b.drop_last().push(b.last()));
        }
    }
}

spec fn prefix_distance(a: Seq<char>, b: Seq<char>, i: int, j: int) -> nat {
    edit_distance(a.take(i), b.take(j))
}

proof fn lemma_prefix_step(a: Seq<char>, b: Seq<char>, i: int, j: int)
    requires
        0 <= i < a.len(),
        0 <= j < b.len(),
    ensures
        prefix_distance(a, b, i + 1, j + 1) == min3(
            prefix_distance(a, b, i, j + 1) + 1,
            prefix_distance(a, b, i + 1, j) + 1,
            prefix_distance(a, b, i, j) + (if a[i] == b[j] {
                0nat
            } else {
                1nat
            }),
        ),
{
    let ai = a.take(i + 1);
    let bj = b.take(j + 1);
    assert(ai.drop_last() =~= a.take(i));
    assert(bj.drop_last() =~= b.take(j));
    assert(ai.last() == a[i]);
    assert(bj.last() == b[j]);
}

/// The Levenshtein distance between two strings, counted in characters.
pub fn levenshtein(left: &str, right: &str) -> (d: usize)
    ensures
        d == edit_distance(left@, right@),
{
    let l = chars_of(left);
    let r = chars_of(right);
    levenshtein_chars(l.as_slice(), r.as_slice())
}

/// The Levenshtein distance of two character sequences, using one row of
/// the distance table per character of the longer sequence.
pub fn levenshtein_chars(left: &[char], right: &[char]) -> (d: usize)
    ensures
        d == edit_distance(left@, right@),
{
    if left.len() > right.len() {
        proof {
            lemma_edit_distance_symmetric(left@, right@);
        }
        return levenshtein_rows(right, left);
    }
    levenshtein_rows(left, right)
}

fn levenshtein_rows(left: &[char], right: &[char]) -> (d: usize)
    requires
        left@.len() <= right@.len(),
    ensures
        d == edit_distance(left@, right@),
{
    let n = left.len();
    let m = right.len();
    let mut previous: Vec<usize> = Vec::new();
    let mut k: usize = 0;
    loop
        invariant_except_break
            n == left@.len(),
            k <= n,
            previous@.len() == k,
            forall|x: int| 0 <= x < k ==> previous@[x] == prefix_distance(left@, right@, x, 0),
        ensures
            n == left@.len(),
            previous@.len() == n + 1,
            forall|x: int| 0 <= x <= n ==> previous@[x] == prefix_distance(left@, right@, x, 0),
        decreases n + 1 - k,
    {
        proof {
            assert(right@.take(0).len() == 0);
        }
        previous.push(k);
        if k == n {
            break;
        }
        k = k + 1;
    }
    let mut r: usize = 0;
    while r < m
        invariant
            n == left@.len(),
            m == right@.len(),
            n <= m,
            r <= m,
            previous@.len() == n + 1,
            forall|x: int|
                0 <= x <= n ==> previous@[x] == prefix_distance(left@, right@, x, r as int),
        decreases m - r,
    {
        let mut current: Vec<usize> = Vec::new();
        proof {
            assert(left@.take(0).len() == 0);
        }
        current.push(r + 1);
        let mut li: usize = 0;
        while li < n
            invariant
                n == left@.len(),
                m == right@.len(),
                n <= m,
                r < m,
                li <= n,
                previous@.len() == n + 1,
                forall|x: int|
                    0 <= x <= n ==> previous@[x] == prefix_distance(left@, right@, x, r as int),
                current@.len() == li + 1,
                forall|x: int|
                    0 <= x <= li ==> current@[x] == prefix_distance(
                        left@,
                        right@,
                        x,
                        r + 1,
                    ),
            decreases n - li,
        {
            proof {
                lemma_prefix_step(left@, right@, li as int, r as int);
                lemma_edit_distance_bound(left@.take(li + 1), right@.take(r + 1));
            }
            let insertion: u128 = current[li] as u128 + 1;
            let deletion: u128 = previous[li + 1] as u128 + 1;
            let substitution: u128 = previous[li] as u128 + if left[li] != right[r] {
                1u128
            } else {
                0u128
            };
            let best = if insertion <= deletion && insertion <= substitution {
                insertion
            } else if deletion <= substitution {
                deletion
            } else {
                substitution
            };
            current.push(best as usize);
            li = li + 1;
        }
        previous = current;
        r = r + 1;
    }
    proof {
        assert(left@.take(n as int) =~= left@);
        assert(right@.take(m as int) =~= right@);
    }
    previous[n]
}

/// How a query was matched to a school.
#[derive(Debug, Clone, Copy, PartialEq, Eq, Structural)]
pub enum MatchKind {
    ExactCds,
    ExactName,
    Substring,
    Levenshtein,
}

/// A resolved school and how it was found.
#[derive(Debug)]
pub struct MatchResult {
    pub school: SchoolRecord,
    pub kind: MatchKind,
    /// Present only for a Levenshtein match.
    pub distance: Option<usize>,
}

/// Why a school could not be loaded, resolved, or planned.
#[derive(Debug)]
pub enum ResolverError {
    InvalidDatabaseCdsCode(String),
    DuplicateCdsCode(String),
    EmptySchoolName(String),
    InvalidCdsCode(String),
    CdsNotFound(String),
    NotFound(String),
    Ambiguous { query: String, candidates: Vec<SchoolRecord> },
    UnsupportedYear(u16),
    Year(YearError),
}

/// A directory row as the CDE cache holds it, before cleaning.
#[derive(Debug)]
pub struct DirectoryRow {
    pub cds_code: String,
    pub district: Option<String>,
    pub school: Option<String>,
    pub status: Option<String>,
}

/// The text of a raw directory row.
pub struct DirectoryRowView {
    pub cds_code: Seq<char>,
    pub district: Option<Seq<char>>,
    pub school: Option<Seq<char>>,
    pub status: Option<Seq<char>>,
}

impl View for DirectoryRow {
    type V = DirectoryRowView;

    open spec fn view(&self) -> DirectoryRowView {
        DirectoryRowView {
            cds_code: self.cds_code@,
            district: opt_view(self.district),
            school: opt_view(self.school),
            status: opt_view(self.status),
        }
    }
}

/// An optional text, trimmed, with an empty result read as absent.
pub open spec fn clean_text(o: Option<Seq<char>>) -> Option<Seq<char>> {
    match o {
        Some(t) => if trim(t).len() > 0 {
            Some(trim(t))
        } else {
            None
        },
        None => None,
    }
}

/// A school row with its identifiers and texts trimmed.
pub open spec fn clean_school(r: SchoolView) -> SchoolView {
    SchoolView {
        cds_code: trim(r.cds_code),
        school_name: trim(r.school_name),
        county: clean_text(r.county),
        district: clean_text(r.district),
        city: clean_text(r.city),
    }
}

/// A school's county, district and city are each absent or trimmed and
/// non-empty.
pub open spec fn clean_place(c: SchoolView) -> bool {
    &&& clean_text(c.county) == c.county
    &&& clean_text(c.district) == c.district
    &&& clean_text(c.city) == c.city
}

/// Cleaning a cleaned text changes nothing.
proof fn lemma_clean_text_idempotent(o: Option<Seq<char>>)
    ensures
        clean_text(clean_text(o)) == clean_text(o),
{
    if let Some(t) = o {
        crate::text::lemma_trim_idempotent(t);
    }
}

/// A cleaned school row that can be loaded.
pub open spec fn loadable(c: SchoolView) -> bool {
    is_cds_code(c.cds_code) && c.school_name.len() > 0
}

/// The first `k` rows are loadable and their CDS codes are distinct.
pub open spec fn rows_load_up_to(rows: Seq<SchoolView>, k: int) -> bool {
    &&& forall|i: int| 0 <= i < k ==> loadable(#[trigger] clean_school(rows[i]))
    &&& forall|i: int, j: int|
        0 <= i < j < k ==> clean_school(rows[i]).cds_code != clean_school(rows[j]).cds_code
}

/// The text, or nothing.
pub open spec fn text_or_empty(o: Option<Seq<char>>) -> Seq<char> {
    match o {
        Some(t) => t,
        None => seq![],
    }
}

/// A cleaned directory row: a row without a school name is a district.
pub open spec fn directory_record_of(r: DirectoryRowView) -> DirectoryView {
    let school = trim(text_or_empty(r.school));
    DirectoryView {
        record_type: if school.len() == 0 {
            "District"@
        } else {
            "School"@
        },
        cds_code: trim(r.cds_code),
        district: trim(text_or_empty(r.district)),
        school: if school.len() == 0 {
            "No Data"@
        } else {
            school
        },
        status: trim(text_or_empty(r.status)),
    }
}

/// Schools order by normalized name, then CDS code.
pub open spec fn school_key(s: SchoolView) -> Seq<i64> {
    text_key(normalized(s.school_name)) + text_key(s.cds_code)
}

/// Directory rows order schools before districts, then by normalized
/// district, normalized school and CDS code.
pub open spec fn directory_key(d: DirectoryView) -> Seq<i64> {
    seq![if d.record_type == "School"@ { 0i64 } else { 1i64 }] + text_key(
        normalized(d.district),
    ) + text_key(normalized(d.school)) + text_key(d.cds_code)
}

/// `out` lists the items of `items` in the stable order of their keys.
pub open spec fn sorted_arrangement<T>(
    out: Seq<T>,
    items: Seq<T>,
    key: spec_fn(T) -> Seq<i64>,
) -> bool {
    exists|order: Seq<usize>|
        is_permutation(order, items.len()) && sorted_stably(items.map_values(key), order)
            && out.len() == items.len() && forall|k: int|
            0 <= k < out.len() ==> out[k] == items[order[k] as int]
}

/// In-memory view of active schools and the full directory.
pub struct SchoolResolver {
    schools: Vec<SchoolRecord>,
    directory_records: Vec<DirectoryRecord>,
}

impl SchoolResolver {
    /// The active schools, in name then CDS order.
    pub closed spec fn schools_view(&self) -> Seq<SchoolView> {
        self.schools@.map_values(|r: SchoolRecord| r@)
    }

    /// Every directory row, in directory order.
    pub closed spec fn directory_view(&self) -> Seq<DirectoryView> {
        self.directory_records@.map_values(|r: DirectoryRecord| r@)
    }

    /// Every school has a valid CDS code and a name, CDS codes are unique,
    /// and schools are ordered by name, then CDS code.
    pub open spec fn well_formed_schools(s: Seq<SchoolView>) -> bool {
        &&& forall|i: int| 0 <= i < s.len() ==> loadable(#[trigger] s[i])
        &&& forall|i: int| 0 <= i < s.len() ==> trim((#[trigger] s[i]).school_name) == s[i].school_name
        &&& forall|i: int| 0 <= i < s.len() ==> clean_place(#[trigger] s[i])
        &&& forall|i: int, j: int|
            0 <= i < j < s.len() ==> (#[trigger] s[i]).cds_code != (#[trigger] s[j]).cds_code
        &&& forall|i: int, j: int|
            0 <= i < j < s.len() ==> key_le(school_key(#[trigger] s[i]), school_key(#[trigger] s[j]))
    }

    #[verifier::type_invariant]
    closed spec fn wf(self) -> bool {
        Self::well_formed_schools(self.schools@.map_values(|r: SchoolRecord| r@))
    }
}

fn clean_optional_text(value: &Option<String>) -> (r: Option<String>)
    ensures
        opt_view(r) == clean_text(opt_view(*value)),
{
    match value {
        Some(text) => {
            let t = trim_string(text.as_str());
            if t.unicode_len() > 0 {
                Some(t)
            } else {
                None
            }
        },
        None => None,
    }
}

fn clean_school_record(r: &SchoolRecord) -> (c: SchoolRecord)
    ensures
        c@ == clean_school(r@),
{
    SchoolRecord {
        cds_code: trim_string(r.cds_code.as_str()),
        school_name: trim_string(r.school_name.as_str()),
        county: clean_optional_text(&r.county),
        district: clean_optional_text(&r.district),
        city: clean_optional_text(&r.city),
    }
}

fn clean_directory_row(r: &DirectoryRow) -> (d: DirectoryRecord)
    ensures
        d@ == directory_record_of(r@),
{
    let school = match &r.school {
        Some(t) => trim_string(t.as_str()),
        None => String::new(),
    };
    let district = match &r.district {
        Some(t) => trim_string(t.as_str()),
        None => String::new(),
    };
    let status = match &r.status {
        Some(t) => trim_string(t.as_str()),
        None => String::new(),
    };
    proof {
        let e: Seq<char> = seq![];
        assert(trim(e) =~= e);
    }
    let is_district = school.unicode_len() == 0;
    DirectoryRecord {
        record_type: if is_district {
            owned("District")
        } else {
            owned("School")
        },
        cds_code: trim_string(r.cds_code.as_str()),
        district,
        school: if is_district {
            owned("No Data")
        } else {
            school
        },
        status,
    }
}

fn school_sort_key(s: &SchoolRecord) -> (k: Vec<i64>)
    ensures
        k@ == school_key(s@),
{
    let mut k: Vec<i64> = Vec::new();
    let n = chars_of(normalize(s.school_name.as_str()).as_str());
    push_text_key(&mut k, n.as_slice());
    let c = chars_of(s.cds_code.as_str());
    push_text_key(&mut k, c.as_slice());
    assert(k@ =~= school_key(s@));
    k
}

fn directory_sort_key(d: &DirectoryRecord) -> (k: Vec<i64>)
    ensures
        k@ == directory_key(d@),
{
    let mut k: Vec<i64> = Vec::new();
    let is_school = d.record_type.as_str().unicode_len() == 6 && {
        let school = owned("School");
        d.record_type == school
    };
    proof {
        reveal_strlit("School");
    }
    k.push(if is_school { 0 } else { 1 });
    let n = chars_of(normalize(d.district.as_str()).as_str());
    push_text_key(&mut k, n.as_slice());
    let n = chars_of(normalize(d.school.as_str()).as_str());
    push_text_key(&mut k, n.as_slice());
    let c = chars_of(d.cds_code.as_str());
    push_text_key(&mut k, c.as_slice());
    assert(k@ =~= directory_key(d@));
    k
}

fn arrange_schools(items: &Vec<SchoolRecord>) -> (out: Vec<SchoolRecord>)
    ensures
        sorted_arrangement(
            out@.map_values(|r: SchoolRecord| r@),
            items@.map_values(|r: SchoolRecord| r@),
            |s: SchoolView| school_key(s),
        ),
{
    let ghost iv = items@.map_values(|r: SchoolRecord| r@);
    let mut keys: Vec<Vec<i64>> = Vec::new();
    let mut i: usize = 0;
    while i < items.len()
        invariant
            i <= items@.len(),
            iv == items@.map_values(|r: SchoolRecord| r@),
            keys@.len() == i,
            forall|k: int| 0 <= k < i ==> (#[trigger] keys@[k])@ == school_key(iv[k]),
        decreases items@.len() - i,
    {
        keys.push(school_sort_key(&items[i]));
        i = i + 1;
    }
    let order = stable_order(&keys);
    assert(keys@.map_values(|k: Vec<i64>| k@) =~= iv.map_values(|s: SchoolView| school_key(s)));
    let mut out: Vec<SchoolRecord> = Vec::new();
    let mut k: usize = 0;
    while k < order.len()
        invariant
            k <= order@.len(),
            order@.len() == items@.len(),
            is_permutation(order@, items@.len()),
            iv == items@.map_values(|r: SchoolRecord| r@),
            out@.len() == k,
            forall|x: int| 0 <= x < k ==> (#[trigger] out@[x])@ == iv[order@[x] as int],
        decreases order@.len() - k,
    {
        out.push(items[order[k]].clone());
        k = k + 1;
    }
    assert(out@.map_values(|r: SchoolRecord| r@).len() == iv.len());
    assert forall|x: int| 0 <= x < out@.len() implies out@.map_values(|r: SchoolRecord| r@)[x]
        == iv[order@[x] as int] by {}
    out
}

fn arrange_directory(items: &Vec<DirectoryRecord>) -> (out: Vec<DirectoryRecord>)
    ensures
        sorted_arrangement(
            out@.map_values(|r: DirectoryRecord| r@),
            items@.map_values(|r: DirectoryRecord| r@),
            |d: DirectoryView| directory_key(d),
        ),
{
    let ghost iv = items@.map_values(|r: DirectoryRecord| r@);
    let mut keys: Vec<Vec<i64>> = Vec::new();
    let mut i: usize = 0;
    while i < items.len()
        invariant
            i <= items@.len(),
            iv == items@.map_values(|r: DirectoryRecord| r@),
            keys@.len() == i,
            forall|k: int| 0 <= k < i ==> (#[trigger] keys@[k])@ == directory_key(iv[k]),
        decreases items@.len() - i,
    {
        keys.push(directory_sort_key(&items[i]));
        i = i + 1;
    }
    let order = stable_order(&keys);
    assert(keys@.map_values(|k: Vec<i64>| k@) =~= iv.map_values(
        |d: DirectoryView| directory_key(d),
    ));
    let mut out: Vec<DirectoryRecord> = Vec::new();
    let mut k: usize = 0;
    while k < order.len()
        invariant
            k <= order@.len(),
            order@.len() == items@.len(),
            is_permutation(order@, items@.len()),
            iv == items@.map_values(|r: DirectoryRecord| r@),
            out@.len() == k,
            forall|x: int| 0 <= x < k ==> (#[trigger] out@[x])@ == iv[order@[x] as int],
        decreases order@.len() - k,
    {
        out.push(items[order[k]].clone());
        k = k + 1;
    }
    assert forall|x: int| 0 <= x < out@.len() implies out@.map_values(
        |r: DirectoryRecord| r@,
    )[x] == iv[order@[x] as int] by {}
    out
}

/// A valid CDS code has no surrounding whitespace.
proof fn lemma_cds_trimmed(s: Seq<char>)
    requires
        is_cds_code(s),
    ensures
        trim(s) == s,
{
    assert(!is_white(s[0]));
    assert(!is_white(s.last()));
}

proof fn lemma_sorted_schools(out: Seq<SchoolView>, items: Seq<SchoolView>)
    requires
        sorted_arrangement(out, items, |s: SchoolView| school_key(s)),
        forall|i: int| 0 <= i < items.len() ==> loadable(#[trigger] items[i]),
        forall|i: int| 0 <= i < items.len() ==> trim((#[trigger] items[i]).school_name) == items[i].school_name,
        forall|i: int| 0 <= i < items.len() ==> clean_place(#[trigger] items[i]),
        forall|i: int, j: int|
            0 <= i < j < items.len() ==> items[i].cds_code != items[j].cds_code,
    ensures
        SchoolResolver::well_formed_schools(out),
{
    let order = choose|order: Seq<usize>|
        is_permutation(order, items.len()) && sorted_stably(
            items.map_values(|s: SchoolView| school_key(s)),
            order,
        ) && out.len() == items.len() && forall|k: int|
            0 <= k < out.len() ==> out[k] == items[order[k] as int];
    let ks = items.map_values(|s: SchoolView| school_key(s));
    assert forall|i: int| 0 <= i < out.len() implies loadable(#[trigger] out[i]) && trim(out[i].school_name) == out[i].school_name
        && clean_place(out[i]) by {
        assert(out[i] == items[order[i] as int]);
    }
    assert forall|i: int, j: int| 0 <= i < j < out.len() implies (#[trigger] out[i]).cds_code
        != (#[trigger] out[j]).cds_code by {
        assert(out[i] == items[order[i] as int]);
        assert(out[j] == items[order[j] as int]);
        if order[i] < order[j] {
        } else {
            assert(order[i] != order[j]);
        }
    }
    assert forall|i: int, j: int| 0 <= i < j < out.len() implies key_le(
        school_key(#[trigger] out[i]),
        school_key(#[trigger] out[j]),
    ) by {
        assert(out[i] == items[order[i] as int]);
        assert(out[j] == items[order[j] as int]);
        assert(ks[order[i] as int] == school_key(items[order[i] as int]));
        assert(ks[order[j] as int] == school_key(items[order[j] as int]));
    }
}

impl SchoolResolver {
    /// Builds the resolver from the rows of the CDE cache: the active schools
    /// (with a CDS code and a name) and every directory row with a CDS code.
    ///
    /// School rows are trimmed and must carry a valid, unique CDS code and a
    /// name; the first row that does not is reported. Directory rows whose
    /// CDS code is not valid are layout, not data, and are skipped.
    pub fn from_database_rows(
        rows: Vec<SchoolRecord>,
        directory_rows: Vec<DirectoryRow>,
    ) -> (r: Result<SchoolResolver, ResolverError>)
        ensures
            ({
                let rv = rows@.map_values(|x: SchoolRecord| x@);
                match r {
                    Ok(res) => {
                        &&& rows_load_up_to(rv, rv.len() as int)
                        &&& Self::well_formed_schools(res.schools_view())
                        &&& sorted_arrangement(
                            res.schools_view(),
                            rv.map_values(|x: SchoolView| clean_school(x)),
                            |s: SchoolView| school_key(s),
                        )
                        &&& sorted_arrangement(
                            res.directory_view(),
                            directory_rows@.map_values(|d: DirectoryRow| d@).filter(
                                |d: DirectoryRowView| is_cds_code(trim(d.cds_code)),
                            ).map_values(|d: DirectoryRowView| directory_record_of(d)),
                            |d: DirectoryView| directory_key(d),
                        )
                    },
                    Err(e) => exists|k: int|
                        0 <= k < rv.len() && rows_load_up_to(rv, k) && {
                            let c = clean_school(#[trigger] rv[k]);
                            match e {
                                ResolverError::InvalidDatabaseCdsCode(x) => !is_cds_code(
                                    c.cds_code,
                                ) && x@ == c.cds_code,
                                ResolverError::EmptySchoolName(x) => is_cds_code(c.cds_code)
                                    && c.school_name.len() == 0 && x@ == c.cds_code,
                                ResolverError::DuplicateCdsCode(x) => loadable(c) && (exists|
                                    j: int,
                                | 0 <= j < k && clean_school(rv[j]).cds_code == c.cds_code)
                                    && x@ == c.cds_code,
                                _ => false,
                            }
                        },
                }
            }),
    {
        let ghost rv = rows@.map_values(|x: SchoolRecord| x@);
        let mut cleaned: Vec<SchoolRecord> = Vec::new();
        let mut i: usize = 0;
        while i < rows.len()
            invariant
                i <= rows@.len(),
                rv == rows@.map_values(|x: SchoolRecord| x@),
                cleaned@.len() == i,
                forall|k: int| 0 <= k < i ==> (#[trigger] cleaned@[k])@ == clean_school(rv[k]),
                rows_load_up_to(rv, i as int),
            decreases rows@.len() - i,
        {
            let c = clean_school_record(&rows[i]);
            let ghost cv = c@;
            assert(rv[i as int] == rows@[i as int]@);
            assert(cv == clean_school(rv[i as int]));
            if !crate::years::is_valid_cds_code(c.cds_code.as_str()) {
                return Err(ResolverError::InvalidDatabaseCdsCode(c.cds_code));
            }
            if c.school_name.as_str().unicode_len() == 0 {
                return Err(ResolverError::EmptySchoolName(c.cds_code));
            }
            let mut j: usize = 0;
            while j < i
                invariant
                    j <= i,
                    i < rows@.len(),
                    rv == rows@.map_values(|x: SchoolRecord| x@),
                    rows_load_up_to(rv, i as int),
                    cv == clean_school(rv[i as int]),
                    loadable(cv),
                    i == cleaned@.len(),
                    forall|k: int| 0 <= k < i ==> (#[trigger] cleaned@[k])@ == clean_school(rv[k]),
                    cv == c@,
                    forall|k: int| 0 <= k < j ==> clean_school(rv[k]).cds_code != cv.cds_code,
                decreases i - j,
            {
                if cleaned[j].cds_code == c.cds_code {
                    assert(clean_school(rv[j as int]).cds_code == cv.cds_code);
                    assert(exists|j: int|
                        0 <= j < i && clean_school(rv[j]).cds_code == cv.cds_code);
                    return Err(ResolverError::DuplicateCdsCode(c.cds_code));
                }
                j = j + 1;
            }
            cleaned.push(c);
            i = i + 1;
        }
        assert(cleaned@.map_values(|x: SchoolRecord| x@) =~= rv.map_values(
            |x: SchoolView| clean_school(x),
        ));
        let schools = arrange_schools(&cleaned);
        proof {
            let cv = cleaned@.map_values(|x: SchoolRecord| x@);
            assert forall|i: int| 0 <= i < cv.len() implies trim((#[trigger] cv[i]).school_name) == cv[i].school_name by {
                assert(cv[i] == clean_school(rv[i]));
                crate::text::lemma_trim_idempotent(rv[i].school_name);
            }
            assert forall|i: int| 0 <= i < cv.len() implies clean_place(#[trigger] cv[i]) by {
                assert(cv[i] == clean_school(rv[i]));
                lemma_clean_text_idempotent(rv[i].county);
                lemma_clean_text_idempotent(rv[i].district);
                lemma_clean_text_idempotent(rv[i].city);
            }
            lemma_sorted_schools(
                schools@.map_values(|r: SchoolRecord| r@),
                cleaned@.map_values(|x: SchoolRecord| x@),
            );
        }
        let ghost dv = directory_rows@.map_values(|d: DirectoryRow| d@);
        let ghost keep = |d: DirectoryRowView| is_cds_code(trim(d.cds_code));
        let mut records: Vec<DirectoryRecord> = Vec::new();
        let mut k: usize = 0;
        while k < directory_rows.len()
            invariant
                k <= directory_rows@.len(),
                dv == directory_rows@.map_values(|d: DirectoryRow| d@),
                keep == (|d: DirectoryRowView| is_cds_code(trim(d.cds_code))),
                records@.map_values(|r: DirectoryRecord| r@) == dv.take(k as int).filter(
                    keep,
                ).map_values(|d: DirectoryRowView| directory_record_of(d)),
            decreases directory_rows@.len() - k,
        {
            let row = &directory_rows[k];
            proof {
                reveal_with_fuel(Seq::filter, 1);
                assert(dv.take(k + 1).last() == dv[k as int]);
            }
            let code = trim_string(row.cds_code.as_str());
            let ghost before = records@.map_values(|r: DirectoryRecord| r@);
            assert(dv.take(k + 1).drop_last() =~= dv.take(k as int));
            assert(dv[k as int] == row@);
            assert(code@ == trim(dv[k as int].cds_code));
            if crate::years::is_valid_cds_code(code.as_str()) {
                let d = clean_directory_row(row);
                assert(keep(dv[k as int]));
                assert(dv.take(k + 1).filter(keep) == dv.take(k as int).filter(keep).push(
                    dv[k as int],
                ));
                records.push(d);
                assert(records@.map_values(|r: DirectoryRecord| r@) =~= before.push(
                    directory_record_of(dv[k as int]),
                ));
                assert(dv.take(k + 1).filter(keep).map_values(
                    |d: DirectoryRowView| directory_record_of(d),
                ) =~= before.push(directory_record_of(dv[k as int])));
            } else {
                assert(!keep(dv[k as int]));
                assert(dv.take(k + 1).filter(keep) == dv.take(k as int).filter(keep));
            }
            k = k + 1;
        }
        assert(dv.take(directory_rows@.len() as int) =~= dv);
        let directory_records = arrange_directory(&records);
        Ok(SchoolResolver { schools, directory_records })
    }

    /// The active schools, in name then CDS order.
    pub fn schools(&self) -> (r: &[SchoolRecord])
        ensures
            r@.map_values(|x: SchoolRecord| x@) == self.schools_view(),
            Self::well_formed_schools(self.schools_view()),
    {
        proof {
            use_type_invariant(self);
        }
        self.schools.as_slice()
    }

    /// The active schools, in name then CDS order.
    pub fn all_schools(&self) -> (r: &[SchoolRecord])
        ensures
            r@.map_values(|x: SchoolRecord| x@) == self.schools_view(),
    {
        self.schools()
    }

    /// Every school and district row, including inactive records.
    pub fn directory_records(&self) -> (r: &[DirectoryRecord])
        ensures
            r@.map_values(|x: DirectoryRecord| x@) == self.directory_view(),
    {
        self.directory_records.as_slice()
    }

    /// The number of active schools.
    pub fn len(&self) -> (n: usize)
        ensures
            n == self.schools_view().len(),
            Self::well_formed_schools(self.schools_view()),
    {
        proof {
            use_type_invariant(self);
        }
        self.schools.len()
    }

    /// Whether no active school was loaded.
    pub fn is_empty(&self) -> (r: bool)
        ensures
            r == (self.schools_view().len() == 0),
    {
        self.schools.len() == 0
    }
}

/// The school with CDS code `cds`, if one is listed.
pub open spec fn lookup(s: Seq<SchoolView>, cds: Seq<char>) -> Option<SchoolView> {
    if exists|i: int| 0 <= i < s.len() && s[i].cds_code == cds {
        Some(s[choose|i: int| 0 <= i < s.len() && s[i].cds_code == cds])
    } else {
        None
    }
}

/// The request for school `cds` and `year`, when both are known.
pub open spec fn planned_fetch(s: Seq<SchoolView>, cds: Seq<char>, year: u16) -> FetchSpecView {
    let school = lookup(s, cds)->0;
    let id = spec_dashboard_year_id(year)->0;
    FetchSpecView {
        school: school,
        year: year,
        dashboard_year_id: id,
        url: summary_url(school.cds_code, id),
    }
}

/// Whether a CDS code names a listed school.
pub open spec fn resolvable_cds(s: Seq<SchoolView>, cds: Seq<char>) -> bool {
    is_cds_code(cds) && lookup(s, cds) is Some
}

/// What `fetch_spec` reports for one CDS code and year.
pub open spec fn fetch_spec_matches(
    s: Seq<SchoolView>,
    cds: Seq<char>,
    year: u16,
    r: Result<FetchSpec, ResolverError>,
) -> bool {
    match r {
        Ok(spec) => resolvable_cds(s, cds) && spec_dashboard_year_id(year) is Some && spec@
            == planned_fetch(s, cds, year),
        Err(ResolverError::InvalidCdsCode(x)) => !is_cds_code(cds) && x@ == cds,
        Err(ResolverError::CdsNotFound(x)) => is_cds_code(cds) && lookup(s, cds) is None && x@
            == cds,
        Err(ResolverError::UnsupportedYear(y)) => resolvable_cds(s, cds)
            && spec_dashboard_year_id(year) is None && y == year,
        _ => false,
    }
}

impl SchoolResolver {
    /// Selects a school by its unique 14-digit CDS code; no fuzzy matching.
    pub fn school_by_cds(&self, cds_code: &str) -> (r: Option<&SchoolRecord>)
        ensures
            match r {
                Some(school) => lookup(self.schools_view(), trim(cds_code@)) == Some(school@),
                None => lookup(self.schools_view(), trim(cds_code@)) is None,
            },
    {
        proof {
            use_type_invariant(self);
        }
        let ghost sv = self.schools_view();
        let code = trim_string(cds_code);
        let mut i: usize = 0;
        while i < self.schools.len()
            invariant
                i <= self.schools@.len(),
                sv == self.schools_view(),
                sv == self.schools@.map_values(|r: SchoolRecord| r@),
                Self::well_formed_schools(sv),
                code@ == trim(cds_code@),
                forall|j: int| 0 <= j < i ==> sv[j].cds_code != code@,
            decreases self.schools@.len() - i,
        {
            if self.schools[i].cds_code == code {
                proof {
                    assert(sv[i as int].cds_code == code@);
                    let c = choose|j: int| 0 <= j < sv.len() && sv[j].cds_code == code@;
                    if c != i {
                        if c < i {
                        } else {
                            assert((sv[i as int]).cds_code != (sv[c]).cds_code);
                        }
                    }
                }
                return Some(&self.schools[i]);
            }
            i = i + 1;
        }
        None
    }

    /// The request for one school and year.
    pub fn fetch_spec(&self, cds_code: &str, year: u16) -> (r: Result<FetchSpec, ResolverError>)
        ensures
            fetch_spec_matches(self.schools_view(), cds_code@, year, r),
    {
        if !is_valid_cds_code(cds_code) {
            return Err(ResolverError::InvalidCdsCode(owned(cds_code)));
        }
        proof {
            lemma_cds_trimmed(cds_code@);
        }
        let school = match self.school_by_cds(cds_code) {
            Some(s) => s.clone(),
            None => {
                return Err(ResolverError::CdsNotFound(owned(cds_code)));
            },
        };
        let id = match dashboard_year_id(year) {
            Some(id) => id,
            None => {
                return Err(ResolverError::UnsupportedYear(year));
            },
        };
        proof {
            let sv = self.schools_view();
            let c = choose|i: int| 0 <= i < sv.len() && sv[i].cds_code == cds_code@;
            assert(school@.cds_code == cds_code@);
        }
        let url = match summary_cards_url(school.cds_code.as_str(), year) {
            Ok(url) => url,
            Err(e) => {
                return Err(ResolverError::Year(e));
            },
        };
        Ok(FetchSpec { school, year, dashboard_year_id: id, url })
    }
}

// ------------------------------------------------------------------------
// Resolution of a school query
// ------------------------------------------------------------------------

/// The fewest characters a substring match must share.
pub const MIN_SUBSTRING_QUERY_CHARS: usize = 5;

/// The largest edit distance a fuzzy match may have.
pub const MAX_EDIT_DISTANCE: usize = 5;

/// The last position `p < end` where `w` holds `" ("`.
pub open spec fn last_separator(w: Seq<char>, end: nat) -> Option<int>
    decreases end,
{
    if end == 0 {
        None
    } else {
        let p = end - 1;
        if p + 1 < w.len() && w[p] == ' ' && w[p + 1] == '(' {
            Some(p as int)
        } else {
            last_separator(w, (end - 1) as nat)
        }
    }
}

/// A display name of the form `name (CDS)`, split into its name and its
/// 14-digit CDS code.
pub open spec fn split_disambiguated(t: Seq<char>) -> Option<(Seq<char>, Seq<char>)> {
    if t.len() > 0 && t.last() == ')' {
        let w = t.drop_last();
        match last_separator(w, w.len()) {
            Some(p) => if is_cds_code(w.skip(p + 2)) {
                Some((w.take(p), w.skip(p + 2)))
            } else {
                None
            },
            None => None,
        }
    } else {
        None
    }
}

/// The school a `name (CDS)` display name selects: the CDS code names a
/// listed school whose normalized name is the given name's.
pub open spec fn selected_by_display_name(all: Seq<SchoolView>, t: Seq<char>) -> Option<
    SchoolView,
> {
    match split_disambiguated(t) {
        Some((name, cds)) => match lookup(all, cds) {
            Some(s) => if normalized(name) == normalized(s.school_name) {
                Some(s)
            } else {
                None
            },
            None => None,
        },
        None => None,
    }
}

/// The normalized name of a school.
pub open spec fn school_norm(s: SchoolView) -> Seq<char> {
    normalized(s.school_name)
}

/// How many characters a query shares with a school name by containment.
pub open spec fn overlap(qn: Seq<char>, s: SchoolView) -> nat {
    let c = school_norm(s);
    if crate::text::seq_contains(c, qn) {
        qn.len()
    } else if crate::text::seq_contains(qn, c) {
        c.len()
    } else {
        0
    }
}

/// A school whose overlap is a qualifying maximum.
pub open spec fn best_overlap(all: Seq<SchoolView>, qn: Seq<char>, s: SchoolView) -> bool {
    overlap(qn, s) >= MIN_SUBSTRING_QUERY_CHARS && forall|j: int|
        0 <= j < all.len() ==> overlap(qn, #[trigger] all[j]) <= overlap(qn, s)
}

/// A school whose edit distance is a qualifying minimum.
pub open spec fn best_fuzzy(all: Seq<SchoolView>, qn: Seq<char>, s: SchoolView) -> bool {
    edit_distance(qn, school_norm(s)) <= MAX_EDIT_DISTANCE && forall|j: int|
        0 <= j < all.len() ==> edit_distance(qn, school_norm(#[trigger] all[j])) >= edit_distance(
            qn,
            school_norm(s),
        )
}

/// The answer to a school query.
pub enum Resolution {
    Found { school: SchoolView, kind: MatchKind, distance: Option<nat> },
    Ambiguous { candidates: Seq<SchoolView> },
    CdsNotFound { cds_code: Seq<char> },
    NotFound,
}

/// One candidate is a match; several are an ambiguity.
pub open spec fn pick(c: Seq<SchoolView>, kind: MatchKind, distance: Option<nat>) -> Resolution {
    if c.len() == 1 {
        Resolution::Found { school: c[0], kind: kind, distance: distance }
    } else {
        Resolution::Ambiguous { candidates: c }
    }
}

/// The documented resolution of a query against the listed schools: a
/// `name (CDS)` display name or a CDS code selects that school; otherwise the
/// normalized name is matched exactly, then by containment of at least five
/// characters (largest overlap), then by edit distance of at most five
/// (smallest distance). Ties are ambiguities, listed in school order.
pub open spec fn resolution(all: Seq<SchoolView>, q: Seq<char>) -> Resolution {
    let t = trim(q);
    if selected_by_display_name(all, t) is Some {
        Resolution::Found {
            school: selected_by_display_name(all, t)->0,
            kind: MatchKind::ExactCds,
            distance: None,
        }
    } else if is_cds_code(t) {
        match lookup(all, t) {
            Some(s) => Resolution::Found { school: s, kind: MatchKind::ExactCds, distance: None },
            None => Resolution::CdsNotFound { cds_code: t },
        }
    } else {
        let qn = normalized(t);
        let exact = all.filter(|s: SchoolView| school_norm(s) == qn);
        let sub = if qn.len() >= MIN_SUBSTRING_QUERY_CHARS {
            all.filter(|s: SchoolView| best_overlap(all, qn, s))
        } else {
            Seq::<SchoolView>::empty()
        };
        let fuzzy = all.filter(|s: SchoolView| best_fuzzy(all, qn, s));
        if qn.len() == 0 {
            Resolution::NotFound
        } else if exact.len() > 0 {
            pick(exact, MatchKind::ExactName, None)
        } else if sub.len() > 0 {
            pick(sub, MatchKind::Substring, None)
        } else if fuzzy.len() > 0 {
            pick(
                fuzzy,
                MatchKind::Levenshtein,
                Some(edit_distance(qn, school_norm(fuzzy[0]))),
            )
        } else {
            Resolution::NotFound
        }
    }
}

/// A query resolves only to a listed school, and only a match by edit
/// distance carries a distance. For such a match the distance is at most
/// five, no listed school is nearer, the school is the only one at that
/// distance, and no listed school's normalized name equals the query's.
pub proof fn law_resolution_found(all: Seq<SchoolView>, q: Seq<char>)
    ensures
        resolution(all, q) matches Resolution::Found { school, kind, distance } ==> {
            let qn = normalized(trim(q));
            let d = edit_distance(qn, school_norm(school));
            &&& exists|i: int| 0 <= i < all.len() && all[i] == school
            &&& (distance is Some <==> kind == MatchKind::Levenshtein)
            &&& kind == MatchKind::Levenshtein ==> {
                &&& distance == Some(d)
                &&& d <= 5
                &&& forall|j: int| 0 <= j < all.len() ==> edit_distance(qn, school_norm(#[trigger] all[j])) >= d
                &&& forall|j: int|
                    0 <= j < all.len() && edit_distance(qn, school_norm(#[trigger] all[j])) == d ==> all[j]
                        == school
                &&& forall|j: int| 0 <= j < all.len() ==> school_norm(#[trigger] all[j]) != qn
            }
        },
{
    let t = trim(q);
    if let Resolution::Found { school, kind, distance } = resolution(all, q) {
        if selected_by_display_name(all, t) is Some {
            let (name, cds) = split_disambiguated(t)->0;
            let k = choose|i: int| 0 <= i < all.len() && all[i].cds_code == cds;
            assert(all[k] == school);
        } else if is_cds_code(t) {
            let k = choose|i: int| 0 <= i < all.len() && all[i].cds_code == t;
            assert(all[k] == school);
        } else {
            let qn = normalized(t);
            let pe = |s: SchoolView| school_norm(s) == qn;
            let po = |s: SchoolView| best_overlap(all, qn, s);
            let pf = |s: SchoolView| best_fuzzy(all, qn, s);
            let exact = all.filter(pe);
            let sub = if qn.len() >= MIN_SUBSTRING_QUERY_CHARS {
                all.filter(po)
            } else {
                Seq::<SchoolView>::empty()
            };
            let fuzzy = all.filter(pf);
            if exact.len() > 0 {
                lemma_filter_member(all, pe, 0);
            } else if sub.len() > 0 {
                lemma_filter_member(all, po, 0);
            } else {
                assert(fuzzy.len() == 1);
                lemma_filter_member(all, pf, 0);
                #[allow(deprecated)]
                all.filter_lemma(pf);
                #[allow(deprecated)]
                all.filter_lemma(pe);
                assert(pf(fuzzy[0]));
                assert(school == fuzzy[0]);
                let d = edit_distance(qn, school_norm(school));
                assert forall|j: int|
                    0 <= j < all.len() && edit_distance(qn, school_norm(#[trigger] all[j])) == d implies all[j]
                    == school by {
                    assert(pf(all[j]));
                    assert(fuzzy.contains(all[j]));
                }
                assert forall|j: int| 0 <= j < all.len() implies school_norm(#[trigger] all[j]) != qn by {
                    if school_norm(all[j]) == qn {
                        assert(pe(all[j]));
                        assert(exact.contains(all[j]));
                    }
                }
            }
        }
    }
}

/// The distance of a match, as a number.
pub open spec fn opt_nat(o: Option<usize>) -> Option<nat> {
    match o {
        Some(d) => Some(d as nat),
        None => None,
    }
}

/// `r` is what `resolve` answers for query `q`.
pub open spec fn resolve_matches(
    all: Seq<SchoolView>,
    q: Seq<char>,
    r: Result<MatchResult, ResolverError>,
) -> bool {
    match r {
        Ok(m) => resolution(all, q) == Resolution::Found {
            school: m.school@,
            kind: m.kind,
            distance: opt_nat(m.distance),
        },
        Err(ResolverError::Ambiguous { query, candidates }) => query@ == q && resolution(all, q)
            == Resolution::Ambiguous {
            candidates: candidates@.map_values(|c: SchoolRecord| c@),
        },
        Err(ResolverError::CdsNotFound(x)) => resolution(all, q) == Resolution::CdsNotFound {
            cds_code: x@,
        },
        Err(ResolverError::NotFound(x)) => x@ == q && resolution(all, q) == Resolution::NotFound,
        _ => false,
    }
}

/// Nothing passes a filter that no element satisfies.
proof fn lemma_filter_none<T>(s: Seq<T>, pred: spec_fn(T) -> bool)
    requires
        forall|j: int| 0 <= j < s.len() ==> !pred(#[trigger] s[j]),
    ensures
        s.filter(pred).len() == 0,
    decreases s.len(),
{
    reveal_with_fuel(Seq::filter, 1);
    if s.len() > 0 {
        assert forall|j: int| 0 <= j < s.drop_last().len() implies !pred(
            #[trigger] s.drop_last()[j],
        ) by {
            assert(s.drop_last()[j] == s[j]);
        }
        lemma_filter_none(s.drop_last(), pred);
    }
}

fn normalized_chars(s: &String) -> (r: Vec<char>)
    ensures
        r@ == normalized(s@),
{
    chars_of(normalize(s.as_str()).as_str())
}

fn copy_chars(v: &[char], from: usize, to: usize) -> (r: Vec<char>)
    requires
        from <= to <= v@.len(),
    ensures
        r@ == v@.subrange(from as int, to as int),
{
    let mut r: Vec<char> = Vec::new();
    let mut i = from;
    while i < to
        invariant
            from <= i <= to <= v@.len(),
            r@ == v@.subrange(from as int, i as int),
        decreases to - i,
    {
        r.push(v[i]);
        i = i + 1;
        assert(r@ =~= v@.subrange(from as int, i as int));
    }
    r
}

/// Splits `name (CDS)` into its name and its 14-digit CDS code.
pub fn split_disambiguated_name(t: &[char]) -> (r: Option<(Vec<char>, Vec<char>)>)
    ensures
        match r {
            Some((name, cds)) => split_disambiguated(t@) == Some((name@, cds@)),
            None => split_disambiguated(t@) is None,
        },
{
    if t.len() == 0 || t[t.len() - 1] != ')' {
        return None;
    }
    let ghost w = t@.drop_last();
    let wl = t.len() - 1;
    assert(t@.last() == ')');
    let mut end: usize = wl;
    while end > 0
        invariant
            t@.len() == wl + 1,
            t@.last() == ')',
            wl == w.len(),
            w == t@.drop_last(),
            end <= wl,
            last_separator(w, w.len()) == last_separator(w, end as nat),
        decreases end,
    {
        let p = end - 1;
        if p + 1 < wl && t[p] == ' ' && t[p + 1] == '(' {
            assert(w[p as int] == t@[p as int] && w[p + 1] == t@[p + 1]);
            let cds = copy_chars(t, p + 2, wl);
            assert(cds@ =~= w.skip(p + 2));
            let cds_text = string_from(cds.as_slice());
            assert(last_separator(w, end as nat) == Some(p as int));
            if is_valid_cds_code(cds_text.as_str()) {
                let name = copy_chars(t, 0, p);
                assert(name@ =~= w.take(p as int));
                return Some((name, cds));
            }
            return None;
        }
        assert(p + 1 < wl ==> w[p as int] == t@[p as int] && w[p + 1] == t@[p + 1]);
        end = p;
    }
    None
}

/// The single candidate, or an ambiguity listing every candidate.
fn unique_or_ambiguous(query: &str, candidates: Vec<SchoolRecord>) -> (r: Result<
    SchoolRecord,
    ResolverError,
>)
    requires
        candidates@.len() > 0,
    ensures
        match r {
            Ok(s) => candidates@.len() == 1 && s == candidates@[0],
            Err(ResolverError::Ambiguous { query: q, candidates: c }) => candidates@.len() > 1
                && q@ == query@ && c == candidates,
            _ => false,
        },
{
    if candidates.len() == 1 {
        Ok(candidates[0].clone())
    } else {
        Err(ResolverError::Ambiguous { query: owned(query), candidates })
    }
}

impl SchoolResolver {
    /// Resolves a CDS code or school name using the documented three tiers.
    ///
    /// Ties are returned as explicit ambiguity errors, with the candidates in
    /// school order.
    pub fn resolve(&self, query: &str) -> (r: Result<MatchResult, ResolverError>)
        ensures
            resolve_matches(self.schools_view(), query@, r),
            Self::well_formed_schools(self.schools_view()),
    {
        proof {
            use_type_invariant(self);
        }
        let ghost all = self.schools_view();
        let trimmed = trim_string(query);
        let tv = chars_of(trimmed.as_str());
        let ghost t = trimmed@;
        if let Some((name, cds)) = split_disambiguated_name(tv.as_slice()) {
            let cds_text = string_from(cds.as_slice());
            proof {
                lemma_cds_trimmed(cds@);
            }
            if let Some(school) = self.school_by_cds(cds_text.as_str()) {
                let name_text = string_from(name.as_slice());
                if normalize(name_text.as_str()) == normalize(school.school_name.as_str()) {
                    return Ok(
                        MatchResult {
                            school: school.clone(),
                            kind: MatchKind::ExactCds,
                            distance: None,
                        },
                    );
                }
            }
        }
        if is_valid_cds_code(trimmed.as_str()) {
            proof {
                lemma_cds_trimmed(t);
            }
            return match self.school_by_cds(trimmed.as_str()) {
                Some(school) => Ok(
                    MatchResult { school: school.clone(), kind: MatchKind::ExactCds, distance: None },
                ),
                None => Err(ResolverError::CdsNotFound(trimmed)),
            };
        }
        let qn_text = normalize(trimmed.as_str());
        let qn = chars_of(qn_text.as_str());
        let ghost qv = qn@;
        if qn.len() == 0 {
            return Err(ResolverError::NotFound(owned(query)));
        }
        // Exact normalized name.

        let ghost exact_pred = |s: SchoolView| school_norm(s) == qv;
        let mut exact: Vec<SchoolRecord> = Vec::new();
        let mut i: usize = 0;
        while i < self.schools.len()
            invariant
                i <= self.schools@.len(),
                all == self.schools@.map_values(|r: SchoolRecord| r@),
                qv == qn_text@,
                exact_pred == (|s: SchoolView| school_norm(s) == qv),
                exact@.map_values(|r: SchoolRecord| r@) == all.take(i as int).filter(exact_pred),
            decreases self.schools@.len() - i,
        {
            proof {
                reveal_with_fuel(Seq::filter, 1);
                assert(all.take(i + 1).drop_last() =~= all.take(i as int));
                assert(all.take(i + 1).last() == all[i as int]);
            }
            let ghost before = exact@.map_values(|r: SchoolRecord| r@);
            if normalize(self.schools[i].school_name.as_str()) == qn_text {
                exact.push(self.schools[i].clone());
                assert(exact@.map_values(|r: SchoolRecord| r@) =~= before.push(all[i as int]));
            }
            i = i + 1;
        }
        assert(all.take(all.len() as int) =~= all);
        if exact.len() > 0 {
            let school = unique_or_ambiguous(query, exact)?;
            return Ok(MatchResult { school, kind: MatchKind::ExactName, distance: None });
        }
        // Containment of at least five characters, largest overlap first.

        if qn.len() >= MIN_SUBSTRING_QUERY_CHARS {
            let mut overlaps: Vec<usize> = Vec::new();
            let mut best: usize = 0;
            let ghost mut best_at: int = 0;
            let mut i: usize = 0;
            while i < self.schools.len()
                invariant
                    i <= self.schools@.len(),
                    all == self.schools@.map_values(|r: SchoolRecord| r@),
                    qv == qn@,
                    overlaps@.len() == i,
                    forall|j: int| 0 <= j < i ==> overlaps@[j] == overlap(qv, #[trigger] all[j]),
                    forall|j: int| 0 <= j < i ==> overlaps@[j] <= best,
                    best == 0 || (0 <= best_at < i && overlaps@[best_at] == best),
                decreases self.schools@.len() - i,
            {
                let candidate = normalized_chars(&self.schools[i].school_name);
                let ov = if contains_chars(candidate.as_slice(), qn.as_slice()) {
                    qn.len()
                } else if contains_chars(qn.as_slice(), candidate.as_slice()) {
                    candidate.len()
                } else {
                    0
                };
                overlaps.push(ov);
                if ov > best {
                    best = ov;
                    proof {
                        best_at = i as int;
                    }
                }
                i = i + 1;
            }
            if best >= MIN_SUBSTRING_QUERY_CHARS {
                let ghost sub_pred = |s: SchoolView| best_overlap(all, qv, s);
                let mut sub: Vec<SchoolRecord> = Vec::new();
                let mut i: usize = 0;
                while i < self.schools.len()
                    invariant
                        i <= self.schools@.len(),
                        all == self.schools@.map_values(|r: SchoolRecord| r@),
                        overlaps@.len() == all.len(),
                        forall|j: int|
                            0 <= j < all.len() ==> overlaps@[j] == overlap(qv, #[trigger] all[j]),
                        forall|j: int| 0 <= j < all.len() ==> overlaps@[j] <= best,
                        best >= MIN_SUBSTRING_QUERY_CHARS,
                        0 <= best_at < all.len() && overlaps@[best_at] == best,
                        sub_pred == (|s: SchoolView| best_overlap(all, qv, s)),
                        sub@.map_values(|r: SchoolRecord| r@) == all.take(i as int).filter(
                            sub_pred,
                        ),
                    decreases self.schools@.len() - i,
                {
                    proof {
                        reveal_with_fuel(Seq::filter, 1);
                        assert(all.take(i + 1).drop_last() =~= all.take(i as int));
                        assert(all.take(i + 1).last() == all[i as int]);
                        assert(overlaps@[best_at] == overlap(qv, all[best_at]));
                        assert(overlaps@[i as int] == overlap(qv, all[i as int]));
                        if overlaps@[i as int] == best {
                            assert forall|j: int| 0 <= j < all.len() implies overlap(
                                qv,
                                #[trigger] all[j],
                            ) <= overlap(qv, all[i as int]) by {
                                assert(overlaps@[j] == overlap(qv, all[j]));
                            }
                        }
                        assert(sub_pred(all[i as int]) == (overlaps@[i as int] == best));
                    }
                    let ghost before = sub@.map_values(|r: SchoolRecord| r@);
                    if overlaps[i] == best {
                        sub.push(self.schools[i].clone());
                        assert(sub@.map_values(|r: SchoolRecord| r@) =~= before.push(
                            all[i as int],
                        ));
                    }
                    i = i + 1;
                }
                assert(all.take(all.len() as int) =~= all);
                assert(sub@.len() > 0) by {
                    let ex = best_at;
                    assert(overlaps@[ex] == overlap(qv, all[ex]));
                    assert forall|j: int| 0 <= j < all.len() implies overlap(
                        qv,
                        #[trigger] all[j],
                    ) <= overlap(qv, all[ex]) by {
                        assert(overlaps@[j] == overlap(qv, all[j]));
                    }
                    assert(sub_pred(all[ex]));
                    all.lemma_filter_contains(sub_pred, ex);
                }
                let school = unique_or_ambiguous(query, sub)?;
                return Ok(MatchResult { school, kind: MatchKind::Substring, distance: None });
            } else {
                proof {
                    let pred = |s: SchoolView| best_overlap(all, qv, s);
                    assert forall|j: int| 0 <= j < all.len() implies !pred(#[trigger] all[j]) by {
                        assert(overlaps@[j] == overlap(qv, all[j]));
                    }
                    lemma_filter_none(all, pred);
                }
            }
        }
        // Fuzzy match, smallest edit distance first.

        let mut distances: Vec<usize> = Vec::new();
        let mut least: usize = MAX_EDIT_DISTANCE + 1;
        let ghost mut least_at: int = 0;
        let mut i: usize = 0;
        while i < self.schools.len()
            invariant
                i <= self.schools@.len(),
                all == self.schools@.map_values(|r: SchoolRecord| r@),
                qv == qn@,
                distances@.len() == i,
                forall|j: int|
                    0 <= j < i ==> distances@[j] == edit_distance(qv, school_norm(#[trigger] all[j])),
                least <= MAX_EDIT_DISTANCE + 1,
                forall|j: int| 0 <= j < i ==> distances@[j] >= least || distances@[j] > MAX_EDIT_DISTANCE,
                least == MAX_EDIT_DISTANCE + 1 || (0 <= least_at < i && distances@[least_at] == least),
            decreases self.schools@.len() - i,
        {
            let candidate = normalized_chars(&self.schools[i].school_name);
            let d = levenshtein_chars(qn.as_slice(), candidate.as_slice());
            distances.push(d);
            if d < least {
                least = d;
                proof {
                    least_at = i as int;
                }
            }
            i = i + 1;
        }
        if least <= MAX_EDIT_DISTANCE {
            let ghost fz_pred = |s: SchoolView| best_fuzzy(all, qv, s);
            let mut fuzzy: Vec<SchoolRecord> = Vec::new();
            let mut i: usize = 0;
            while i < self.schools.len()
                invariant
                    i <= self.schools@.len(),
                    all == self.schools@.map_values(|r: SchoolRecord| r@),
                    distances@.len() == all.len(),
                    forall|j: int|
                        0 <= j < all.len() ==> distances@[j] == edit_distance(
                            qv,
                            school_norm(#[trigger] all[j]),
                        ),
                    least <= MAX_EDIT_DISTANCE,
                    forall|j: int| 0 <= j < all.len() ==> distances@[j] >= least || distances@[j] > MAX_EDIT_DISTANCE,
                    0 <= least_at < all.len() && distances@[least_at] == least,
                    fz_pred == (|s: SchoolView| best_fuzzy(all, qv, s)),
                    fuzzy@.map_values(|r: SchoolRecord| r@) == all.take(i as int).filter(fz_pred),
                    forall|j: int| 0 <= j < fuzzy@.len() ==> edit_distance(qv, school_norm(#[trigger] fuzzy@[j]@)) == least,
                decreases self.schools@.len() - i,
            {
                proof {
                    reveal_with_fuel(Seq::filter, 1);
                    assert(all.take(i + 1).drop_last() =~= all.take(i as int));
                    assert(all.take(i + 1).last() == all[i as int]);
                    if distances@[i as int] == least {
                        assert forall|j: int| 0 <= j < all.len() implies edit_distance(
                            qv,
                            school_norm(#[trigger] all[j]),
                        ) >= edit_distance(qv, school_norm(all[i as int])) by {
                            assert(distances@[j] == edit_distance(qv, school_norm(all[j])));
                        }
                    }
                    assert(distances@[least_at] == edit_distance(qv, school_norm(all[least_at])));
                    assert(distances@[i as int] == edit_distance(qv, school_norm(all[i as int])));
                    assert(fz_pred(all[i as int]) == (distances@[i as int] == least));
                }
                let ghost before = fuzzy@.map_values(|r: SchoolRecord| r@);
                if distances[i] == least {
                    fuzzy.push(self.schools[i].clone());
                    assert(fuzzy@.map_values(|r: SchoolRecord| r@) =~= before.push(all[i as int]));
                }
                i = i + 1;
            }
            assert(all.take(all.len() as int) =~= all);
            assert(fuzzy@.len() > 0) by {
                let ex = least_at;
                assert(distances@[ex] == edit_distance(qv, school_norm(all[ex])));
                assert forall|j: int| 0 <= j < all.len() implies edit_distance(
                    qv,
                    school_norm(#[trigger] all[j]),
                ) >= edit_distance(qv, school_norm(all[ex])) by {
                    assert(distances@[j] == edit_distance(qv, school_norm(all[j])));
                }
                assert(fz_pred(all[ex]));
                all.lemma_filter_contains(fz_pred, ex);
            }
            assert(fuzzy@.map_values(|r: SchoolRecord| r@)[0] == fuzzy@[0]@);
            let school = unique_or_ambiguous(query, fuzzy)?;
            return Ok(MatchResult { school, kind: MatchKind::Levenshtein, distance: Some(least) });
        }
        proof {
            let pred = |s: SchoolView| best_fuzzy(all, qv, s);
            assert forall|j: int| 0 <= j < all.len() implies !pred(#[trigger] all[j]) by {
                assert(distances@[j] == edit_distance(qv, school_norm(all[j])));
            }
            lemma_filter_none(all, pred);
        }
        Err(ResolverError::NotFound(owned(query)))
    }
}

// ------------------------------------------------------------------------
// Request planning
// ------------------------------------------------------------------------

/// Every year is a supported Dashboard year.
pub open spec fn years_supported(years: Seq<u16>) -> bool {
    forall|k: int| 0 <= k < years.len() ==> (#[trigger] spec_dashboard_year_id(years[k])) is Some
}

/// `y` is the first unsupported year of `years`.
pub open spec fn first_unsupported(years: Seq<u16>, y: u16) -> bool {
    exists|k: int|
        0 <= k < years.len() && years[k] == y && spec_dashboard_year_id(y) is None && years_supported(
            years.take(k),
        )
}

/// The requests for one school over the years, in year order.
pub open spec fn school_requests(all: Seq<SchoolView>, cds: Seq<char>, years: Seq<u16>) -> Seq<
    FetchSpecView,
> {
    years.map_values(|y: u16| planned_fetch(all, cds, y))
}

/// The requests for schools in the given order, each over the years.
pub open spec fn requests_for(all: Seq<SchoolView>, codes: Seq<Seq<char>>, years: Seq<u16>) -> Seq<
    FetchSpecView,
> {
    codes.map_values(|c: Seq<char>| school_requests(all, c, years)).flatten()
}

proof fn lemma_block_index(i: int, j: int, y: int)
    requires
        1 <= i,
        0 <= j < y,
    ensures
        i * y + j - y == (i - 1) * y + j,
        i * y + j >= y,
{
    assert(i * y + j - y == (i - 1) * y + j) by (nonlinear_arith);
    assert(i * y >= y) by (nonlinear_arith)
        requires
            1 <= i,
            0 <= j < y,
    ;
}

proof fn lemma_block_bound(a: int, b: int, j: int, y: int)
    requires
        0 <= a < b,
        0 <= j < y,
    ensures
        a * y + j < b * y,
        0 <= a * y + j,
{
    assert(a * y + j < b * y) by (nonlinear_arith)
        requires
            0 <= a < b,
            0 <= j < y,
    ;
    assert(0 <= a * y) by (nonlinear_arith)
        requires
            0 <= a,
            0 <= y,
    ;
}

proof fn lemma_block_len(n: int, y: int)
    requires
        n >= 1,
        y >= 0,
    ensures
        n * y == y + (n - 1) * y,
{
    assert(n * y == y + (n - 1) * y) by (nonlinear_arith);
}

/// Blocks of one length `y`, laid end to end: element `j` of block `i`
/// stands at `i * y + j`.
proof fn lemma_flatten_index<A>(blocks: Seq<Seq<A>>, y: int)
    requires
        y >= 0,
        forall|k: int| 0 <= k < blocks.len() ==> (#[trigger] blocks[k]).len() == y,
    ensures
        blocks.flatten().len() == blocks.len() * y,
        forall|i: int, j: int|
            0 <= i < blocks.len() && 0 <= j < y ==> #[trigger] blocks.flatten()[i * y + j] == blocks[i][j],
    decreases blocks.len(),
{
    if blocks.len() == 0 {
        assert(blocks.len() * y == 0);
    } else {
        let rest = blocks.drop_first();
        let whole = blocks.flatten();
        let head = blocks.first();
        let tail = rest.flatten();
        assert(whole == head + tail);
        assert(head == blocks[0]);
        assert(head.len() == y);
        assert forall|k: int| 0 <= k < rest.len() implies (#[trigger] rest[k]).len() == y by {
            assert(rest[k] == blocks[k + 1]);
        }
        lemma_flatten_index(rest, y);
        lemma_block_len(blocks.len() as int, y);
        assert forall|i: int, j: int| 0 <= i < blocks.len() && 0 <= j < y implies #[trigger] whole[i * y
            + j] == blocks[i][j] by {
            if i == 0 {
                assert(whole[j] == head[j]);
            } else {
                lemma_block_index(i, j, y);
                lemma_block_bound(i - 1, blocks.len() - 1, j, y);
                assert(rest[i - 1] == blocks[i]);
                assert(tail[(i - 1) * y + j] == rest[i - 1][j]);
                assert(whole[i * y + j] == tail[i * y + j - y]);
            }
        }
    }
}

/// The requests for several schools are laid out school by school, each
/// school's block over the years in year order: the request for the `i`-th
/// code and the `j`-th year stands at `i * years + j`.
pub proof fn law_requests_are_indexed(all: Seq<SchoolView>, codes: Seq<Seq<char>>, years: Seq<u16>)
    ensures
        requests_for(all, codes, years).len() == codes.len() * years.len(),
        forall|i: int, j: int|
            0 <= i < codes.len() && 0 <= j < years.len() ==> #[trigger] requests_for(all, codes, years)[i
                * years.len() + j] == planned_fetch(all, codes[i], years[j]),
{
    let blocks = codes.map_values(|c: Seq<char>| school_requests(all, c, years));
    let y = years.len() as int;
    assert forall|k: int| 0 <= k < blocks.len() implies (#[trigger] blocks[k]).len() == y by {
        assert(blocks[k] == school_requests(all, codes[k], years));
    }
    lemma_flatten_index(blocks, y);
    assert forall|i: int, j: int| 0 <= i < codes.len() && 0 <= j < years.len() implies #[trigger] requests_for(
        all,
        codes,
        years,
    )[i * years.len() + j] == planned_fetch(all, codes[i], years[j]) by {
        assert(blocks.flatten()[i * y + j] == blocks[i][j]);
        assert(blocks[i] == school_requests(all, codes[i], years));
    }
}

/// The CDS codes of the schools, in order.
pub open spec fn school_codes(all: Seq<SchoolView>) -> Seq<Seq<char>> {
    all.map_values(|s: SchoolView| s.cds_code)
}

/// Over every listed school, the request at `i * years + j` is for the
/// `i`-th school and the `j`-th year, at that school's SummaryCards address
/// for the year's dashboard id.
pub proof fn law_all_requests_are_indexed(all: Seq<SchoolView>, years: Seq<u16>)
    requires
        SchoolResolver::well_formed_schools(all),
    ensures
        requests_for(all, school_codes(all), years).len() == all.len()
            * years.len(),
        forall|i: int, j: int|
            0 <= i < all.len() && 0 <= j < years.len() ==> {
                let r = #[trigger] requests_for(all, school_codes(all), years)[i * years.len() + j];
                &&& r.school == all[i]
                &&& r.year == years[j]
                &&& r.dashboard_year_id == spec_dashboard_year_id(years[j])->0
                &&& r.url == summary_url(all[i].cds_code, spec_dashboard_year_id(years[j])->0)
            },
{
    let codes = school_codes(all);
    law_requests_are_indexed(all, codes, years);
    assert forall|i: int| 0 <= i < all.len() implies lookup(all, #[trigger] codes[i]) == Some(all[i]) by {
        assert(all[i].cds_code == codes[i]);
        let k = choose|k: int| 0 <= k < all.len() && all[k].cds_code == codes[i];
        if k < i {
            assert(all[k].cds_code != all[i].cds_code);
        } else if i < k {
            assert(all[i].cds_code != all[k].cds_code);
        }
    }
    assert forall|i: int, j: int| 0 <= i < all.len() && 0 <= j < years.len() implies {
        let r = #[trigger] requests_for(all, codes, years)[i * years.len() + j];
        &&& r.school == all[i]
        &&& r.year == years[j]
        &&& r.dashboard_year_id == spec_dashboard_year_id(years[j])->0
        &&& r.url == summary_url(all[i].cds_code, spec_dashboard_year_id(years[j])->0)
    } by {
        assert(lookup(all, codes[i]) == Some(all[i]));
    }
}

/// The first CDS code that does not name a listed school is `code`, at `k`.
pub open spec fn first_unresolvable(
    all: Seq<SchoolView>,
    codes: Seq<Seq<char>>,
    k: int,
) -> bool {
    0 <= k < codes.len() && !resolvable_cds(all, codes[k]) && forall|j: int|
        0 <= j < k ==> resolvable_cds(all, #[trigger] codes[j])
}

fn validate_years(years: &[u16]) -> (r: Result<(), ResolverError>)
    ensures
        match r {
            Ok(()) => years_supported(years@),
            Err(ResolverError::UnsupportedYear(y)) => first_unsupported(years@, y),
            _ => false,
        },
{
    let mut i: usize = 0;
    while i < years.len()
        invariant
            i <= years@.len(),
            years_supported(years@.take(i as int)),
        decreases years@.len() - i,
    {
        if dashboard_year_id(years[i]).is_none() {
            assert(years@[i as int] == years@[i as int]);
            return Err(ResolverError::UnsupportedYear(years[i]));
        }
        assert forall|k: int| 0 <= k < i + 1 implies (#[trigger] spec_dashboard_year_id(
            years@.take(i + 1)[k],
        )) is Some by {
            if k < i {
                assert(years@.take(i + 1)[k] == years@.take(i as int)[k]);
            }
        }
        i = i + 1;
    }
    assert(years@.take(years@.len() as int) =~= years@);
    Ok(())
}

proof fn lemma_flatten_alt_push<A>(s: Seq<Seq<A>>, x: Seq<A>)
    ensures
        s.push(x).flatten() == s.flatten() + x,
{
    s.lemma_flatten_and_flatten_alt_are_equivalent();
    s.push(x).lemma_flatten_and_flatten_alt_are_equivalent();
    assert(s.push(x).drop_last() =~= s);
}

impl SchoolResolver {
    /// Appends the requests of one school over supported years.
    fn push_school_requests(
        &self,
        out: &mut Vec<FetchSpec>,
        cds_code: &str,
        years: &[u16],
    ) -> (r: Result<(), ResolverError>)
        requires
            years_supported(years@),
        ensures
            match r {
                Ok(()) => (years@.len() == 0 || resolvable_cds(self.schools_view(), cds_code@))
                    && final(out)@.map_values(|f: FetchSpec| f@) == old(out)@.map_values(
                    |f: FetchSpec| f@,
                ) + school_requests(self.schools_view(), cds_code@, years@),
                Err(e) => years@.len() > 0 && !resolvable_cds(self.schools_view(), cds_code@)
                    && fetch_spec_matches(self.schools_view(), cds_code@, years@[0], Err(e)),
            },
    {
        let ghost all = self.schools_view();
        let ghost start = out@.map_values(|f: FetchSpec| f@);
        let mut i: usize = 0;
        while i < years.len()
            invariant
                i <= years@.len(),
                years_supported(years@),
                all == self.schools_view(),
                i > 0 ==> resolvable_cds(all, cds_code@),
                out@.map_values(|f: FetchSpec| f@) == start + school_requests(
                    all,
                    cds_code@,
                    years@.take(i as int),
                ),
            decreases years@.len() - i,
        {
            assert(spec_dashboard_year_id(years@[i as int]) is Some);
            let spec = self.fetch_spec(cds_code, years[i]);
            match spec {
                Ok(spec) => {
                    let ghost before = out@.map_values(|f: FetchSpec| f@);
                    out.push(spec);
                    assert(years@.take(i + 1) =~= years@.take(i as int).push(years@[i as int]));
                    assert(school_requests(all, cds_code@, years@.take(i + 1)) =~= school_requests(
                        all,
                        cds_code@,
                        years@.take(i as int),
                    ).push(planned_fetch(all, cds_code@, years@[i as int])));
                    assert(out@.map_values(|f: FetchSpec| f@) =~= before.push(spec@));
                },
                Err(e) => {
                    assert(i == 0);
                    return Err(e);
                },
            }
            i = i + 1;
        }
        assert(years@.take(years@.len() as int) =~= years@);
        Ok(())
    }

    /// Builds requests in caller-provided CDS order, then year order.
    pub fn fetch_specs(&self, cds_codes: &[String], years: &[u16]) -> (r: Result<
        Vec<FetchSpec>,
        ResolverError,
    >)
        ensures
            ({
                let all = self.schools_view();
                let codes = cds_codes@.map_values(|c: String| c@);
                match r {
                    Ok(specs) => years_supported(years@) && (years@.len() == 0 || forall|k: int|
                        0 <= k < codes.len() ==> resolvable_cds(all, #[trigger] codes[k]))
                        && specs@.map_values(|f: FetchSpec| f@) == requests_for(
                        all,
                        codes,
                        years@,
                    ),
                    Err(ResolverError::UnsupportedYear(y)) => first_unsupported(years@, y),
                    Err(e) => years_supported(years@) && years@.len() > 0 && exists|k: int|
                        first_unresolvable(all, codes, k) && fetch_spec_matches(
                            all,
                            #[trigger] codes[k],
                            years@[0],
                            Err(e),
                        ),
                }
            }),
    {
        validate_years(years)?;
        let ghost all = self.schools_view();
        let ghost codes = cds_codes@.map_values(|c: String| c@);
        let mut specs: Vec<FetchSpec> = Vec::new();
        let mut a: usize = 0;
        while a < cds_codes.len()
            invariant
                a <= cds_codes@.len(),
                all == self.schools_view(),
                codes == cds_codes@.map_values(|c: String| c@),
                years_supported(years@),
                years@.len() == 0 || forall|k: int| 0 <= k < a ==> resolvable_cds(all, #[trigger] codes[k]),
                specs@.map_values(|f: FetchSpec| f@) == requests_for(all, codes.take(a as int), years@),
            decreases cds_codes@.len() - a,
        {
            let ghost before = specs@.map_values(|f: FetchSpec| f@);
            match self.push_school_requests(&mut specs, cds_codes[a].as_str(), years) {
                Ok(()) => {},
                Err(e) => {
                    assert(codes[a as int] == cds_codes@[a as int]@);
                    assert(first_unresolvable(all, codes, a as int));
                    return Err(e);
                },
            }
            proof {
                assert(codes[a as int] == cds_codes@[a as int]@);
                assert(codes.take(a + 1) =~= codes.take(a as int).push(codes[a as int]));
                let f = |c: Seq<char>| school_requests(all, c, years@);
                assert(codes.take(a + 1).map_values(f) =~= codes.take(a as int).map_values(f).push(
                    f(codes[a as int]),
                ));
                lemma_flatten_alt_push(codes.take(a as int).map_values(f), f(codes[a as int]));
            }
            a = a + 1;
        }
        assert(codes.take(codes.len() as int) =~= codes);
        Ok(specs)
    }

    /// Builds requests for all active schools in stable school/year order.
    pub fn all_fetch_specs(&self, years: &[u16]) -> (r: Result<Vec<FetchSpec>, ResolverError>)
        ensures
            match r {
                Ok(specs) => years_supported(years@) && specs@.map_values(|f: FetchSpec| f@)
                    == requests_for(
                    self.schools_view(),
                    school_codes(self.schools_view()),
                    years@,
                ),
                Err(ResolverError::UnsupportedYear(y)) => first_unsupported(years@, y),
                _ => false,
            },
    {
        proof {
            use_type_invariant(self);
        }
        validate_years(years)?;
        let ghost all = self.schools_view();
        let ghost codes = school_codes(all);
        let mut specs: Vec<FetchSpec> = Vec::new();
        let mut a: usize = 0;
        while a < self.schools.len()
            invariant
                a <= self.schools@.len(),
                all == self.schools_view(),
                all == self.schools@.map_values(|r: SchoolRecord| r@),
                Self::well_formed_schools(all),
                codes == school_codes(all),
                years_supported(years@),
                specs@.map_values(|f: FetchSpec| f@) == requests_for(all, codes.take(a as int), years@),
            decreases self.schools@.len() - a,
        {
            proof {
                assert(codes[a as int] == all[a as int].cds_code);
                assert(loadable(all[a as int]));
                assert(lookup(all, codes[a as int]) is Some);
            }
            match self.push_school_requests(&mut specs, self.schools[a].cds_code.as_str(), years) {
                Ok(()) => {},
                Err(e) => {
                    return Err(e);
                },
            }
            proof {
                assert(codes.take(a + 1) =~= codes.take(a as int).push(codes[a as int]));
                let f = |c: Seq<char>| school_requests(all, c, years@);
                assert(codes.take(a + 1).map_values(f) =~= codes.take(a as int).map_values(f).push(
                    f(codes[a as int]),
                ));
                lemma_flatten_alt_push(codes.take(a as int).map_values(f), f(codes[a as int]));
            }
            a = a + 1;
        }
        assert(codes.take(codes.len() as int) =~= codes);
        Ok(specs)
    }
}

// ------------------------------------------------------------------------
// Search
// ------------------------------------------------------------------------

/// An optional text whose normalized form contains `qn`.
pub open spec fn opt_text_contains(o: Option<Seq<char>>, qn: Seq<char>) -> bool {
    match o {
        Some(t) => crate::text::seq_contains(normalized(t), qn),
        None => false,
    }
}

/// How well a school matches a normalized search query, best first: CDS
/// code, exact name, name prefix, name substring, district, county, city,
/// then CDS substring.
pub open spec fn search_rank(s: SchoolView, qn: Seq<char>) -> Option<nat> {
    let name = school_norm(s);
    if s.cds_code == qn {
        Some(0)
    } else if name == qn {
        Some(1)
    } else if crate::text::seq_starts_with(name, qn) {
        Some(2)
    } else if crate::text::seq_contains(name, qn) {
        Some(3)
    } else if opt_text_contains(s.district, qn) {
        Some(4)
    } else if opt_text_contains(s.county, qn) {
        Some(5)
    } else if opt_text_contains(s.city, qn) {
        Some(6)
    } else if crate::text::seq_contains(s.cds_code, qn) {
        Some(7)
    } else {
        None
    }
}

/// The schools of ranks below `r`, by rank, each rank in school order.
pub open spec fn ranked_upto(all: Seq<SchoolView>, qn: Seq<char>, r: nat) -> Seq<SchoolView>
    decreases r,
{
    if r == 0 {
        seq![]
    } else {
        ranked_upto(all, qn, (r - 1) as nat) + all.filter(
            |s: SchoolView| search_rank(s, qn) == Some((r - 1) as nat),
        )
    }
}

/// At most `limit` items from the front of `s`.
pub open spec fn front(s: Seq<SchoolView>, limit: nat) -> Seq<SchoolView> {
    if limit < s.len() {
        s.take(limit as int)
    } else {
        s
    }
}

/// The documented search result: nothing for a zero limit, the first
/// schools for an empty query, otherwise the matching schools by rank.
pub open spec fn search_results(all: Seq<SchoolView>, q: Seq<char>, limit: nat) -> Seq<
    SchoolView,
> {
    let qn = normalized(q);
    if limit == 0 {
        seq![]
    } else if qn.len() == 0 {
        front(all, limit)
    } else {
        front(ranked_upto(all, qn, 8), limit)
    }
}

fn chars_equal(a: &[char], b: &[char]) -> (r: bool)
    ensures
        r == (a@ == b@),
{
    let r = a.len() == b.len() && starts_with_chars(a, b);
    proof {
        if a@.len() == b@.len() {
            assert(a@.subrange(0, b@.len() as int) =~= a@);
        }
    }
    r
}

fn optional_text_contains(o: &Option<String>, qn: &[char]) -> (r: bool)
    ensures
        r == opt_text_contains(opt_view(*o), qn@),
{
    match o {
        Some(t) => {
            let n = normalized_chars(t);
            contains_chars(n.as_slice(), qn)
        },
        None => false,
    }
}

/// The search rank of a school, with 8 for no match.
fn search_rank_of(school: &SchoolRecord, qn: &[char]) -> (r: u8)
    ensures
        r <= 8,
        r < 8 ==> search_rank(school@, qn@) == Some(r as nat),
        r == 8 ==> search_rank(school@, qn@) is None,
{
    let name = normalized_chars(&school.school_name);
    let cds = chars_of(school.cds_code.as_str());
    let same_cds = chars_equal(cds.as_slice(), qn);
    let same_name = chars_equal(name.as_slice(), qn);
    if same_cds {
        0
    } else if same_name {
        1
    } else if starts_with_chars(name.as_slice(), qn) {
        2
    } else if contains_chars(name.as_slice(), qn) {
        3
    } else if optional_text_contains(&school.district, qn) {
        4
    } else if optional_text_contains(&school.county, qn) {
        5
    } else if optional_text_contains(&school.city, qn) {
        6
    } else if contains_chars(cds.as_slice(), qn) {
        7
    } else {
        8
    }
}

impl SchoolResolver {
    /// Searches school name, county, district, city, and CDS code.
    ///
    /// Results are ranked (CDS code, exact name, name prefix, name substring,
    /// district, county, city, CDS substring) and within a rank keep school
    /// order. A limit of zero returns no results.
    pub fn search(&self, query: &str, limit: usize) -> (r: Vec<SchoolRecord>)
        ensures
            r@.map_values(|x: SchoolRecord| x@) == search_results(
                self.schools_view(),
                query@,
                limit as nat,
            ),
    {
        let ghost all = self.schools_view();
        if limit == 0 {
            let r: Vec<SchoolRecord> = Vec::new();
            assert(r@.map_values(|x: SchoolRecord| x@) =~= seq![]);
            return r;
        }
        let qn_text = normalize(query);
        let qn = chars_of(qn_text.as_str());
        let mut ranked: Vec<SchoolRecord> = Vec::new();
        if qn.len() == 0 {
            let mut i: usize = 0;
            while i < self.schools.len() && i < limit
                invariant
                    i <= self.schools@.len(),
                    i <= limit,
                    all == self.schools@.map_values(|r: SchoolRecord| r@),
                    ranked@.map_values(|x: SchoolRecord| x@) == all.take(i as int),
                decreases self.schools@.len() - i,
            {
                let ghost before = ranked@.map_values(|x: SchoolRecord| x@);
                ranked.push(self.schools[i].clone());
                assert(ranked@.map_values(|x: SchoolRecord| x@) =~= before.push(all[i as int]));
                i = i + 1;
                assert(ranked@.map_values(|x: SchoolRecord| x@) =~= all.take(i as int));
            }
            assert(all.take(all.len() as int) =~= all);
            return ranked;
        }
        let mut ranks: Vec<u8> = Vec::new();
        let mut i: usize = 0;
        while i < self.schools.len()
            invariant
                i <= self.schools@.len(),
                all == self.schools@.map_values(|r: SchoolRecord| r@),
                ranks@.len() == i,
                forall|j: int|
                    0 <= j < i ==> ranks@[j] <= 8 && (ranks@[j] < 8 ==> search_rank(
                        #[trigger] all[j],
                        qn@,
                    ) == Some(ranks@[j] as nat)) && (ranks@[j] == 8 ==> search_rank(
                        all[j],
                        qn@,
                    ) is None),
            decreases self.schools@.len() - i,
        {
            ranks.push(search_rank_of(&self.schools[i], qn.as_slice()));
            i = i + 1;
        }
        let mut r: u8 = 0;
        while r < 8
            invariant
                r <= 8,
                all == self.schools@.map_values(|r: SchoolRecord| r@),
                ranks@.len() == all.len(),
                forall|j: int|
                    0 <= j < all.len() ==> ranks@[j] <= 8 && (ranks@[j] < 8 ==> search_rank(
                        #[trigger] all[j],
                        qn@,
                    ) == Some(ranks@[j] as nat)) && (ranks@[j] == 8 ==> search_rank(
                        all[j],
                        qn@,
                    ) is None),
                ranked@.map_values(|x: SchoolRecord| x@) == ranked_upto(all, qn@, r as nat),
            decreases 8 - r,
        {
            let ghost pred = |s: SchoolView| search_rank(s, qn@) == Some(r as nat);
            let ghost base = ranked@.map_values(|x: SchoolRecord| x@);
            let mut i: usize = 0;
            while i < self.schools.len()
                invariant
                    i <= self.schools@.len(),
                    r < 8,
                    all == self.schools@.map_values(|r: SchoolRecord| r@),
                    ranks@.len() == all.len(),
                    forall|j: int|
                        0 <= j < all.len() ==> ranks@[j] <= 8 && (ranks@[j] < 8 ==> search_rank(
                            #[trigger] all[j],
                            qn@,
                        ) == Some(ranks@[j] as nat)) && (ranks@[j] == 8 ==> search_rank(
                            all[j],
                            qn@,
                        ) is None),
                    pred == (|s: SchoolView| search_rank(s, qn@) == Some(r as nat)),
                    ranked@.map_values(|x: SchoolRecord| x@) == base + all.take(i as int).filter(
                        pred,
                    ),
                decreases self.schools@.len() - i,
            {
                proof {
                    reveal_with_fuel(Seq::filter, 1);
                    assert(all.take(i + 1).drop_last() =~= all.take(i as int));
                    assert(all.take(i + 1).last() == all[i as int]);
                    assert(pred(all[i as int]) == (ranks@[i as int] == r));
                }
                let ghost before = ranked@.map_values(|x: SchoolRecord| x@);
                if ranks[i] == r {
                    ranked.push(self.schools[i].clone());
                    assert(ranked@.map_values(|x: SchoolRecord| x@) =~= before.push(all[i as int]));
                }
                i = i + 1;
            }
            assert(all.take(all.len() as int) =~= all);
            r = r + 1;
        }
        if limit < ranked.len() {
            ranked.truncate(limit);
            assert(ranked@.map_values(|x: SchoolRecord| x@) =~= ranked_upto(all, qn@, 8).take(
                limit as int,
            ));
        }
        ranked
    }
}

/// Every element of a filtered sequence comes from the sequence.
pub proof fn lemma_filter_member<T>(s: Seq<T>, pred: spec_fn(T) -> bool, k: int)
    requires
        0 <= k < s.filter(pred).len(),
    ensures
        exists|i: int| 0 <= i < s.len() && s[i] == s.filter(pred)[k],
    decreases s.len(),
{
    reveal_with_fuel(Seq::filter, 1);
    if s.len() > 0 {
        let rest = s.drop_last().filter(pred);
        if k < rest.len() {
            lemma_filter_member(s.drop_last(), pred, k);
            let i = choose|i: int| 0 <= i < s.drop_last().len() && s.drop_last()[i] == rest[k];
            assert(s[i] == s.filter(pred)[k]);
        } else {
            assert(s[s.len() - 1] == s.filter(pred)[k]);
        }
    }
}

/// Listed schools in a row: each one of `all`, codes pairwise distinct, in
/// name-then-code order.
pub open spec fn ordered_listing(s: Seq<SchoolView>, all: Seq<SchoolView>) -> bool {
    &&& forall|k: int| 0 <= k < s.len() ==> all.contains(#[trigger] s[k])
    &&& forall|a: int, b: int| 0 <= a < b < s.len() ==> (#[trigger] s[a]).cds_code != (#[trigger] s[b]).cds_code
}

proof fn lemma_filter_listing(s: Seq<SchoolView>, all: Seq<SchoolView>, p: spec_fn(SchoolView) -> bool)
    requires
        ordered_listing(s, all),
        forall|a: int, b: int| 0 <= a < b < s.len() ==> key_le(school_key(#[trigger] s[a]), school_key(#[trigger] s[b])),
    ensures
        ordered_listing(s.filter(p), all),
        forall|a: int, b: int|
            0 <= a < b < s.filter(p).len() ==> key_le(
                school_key(#[trigger] s.filter(p)[a]),
                school_key(#[trigger] s.filter(p)[b]),
            ),
        forall|k: int| 0 <= k < s.filter(p).len() ==> p(#[trigger] s.filter(p)[k]),
    decreases s.len(),
{
    reveal_with_fuel(Seq::filter, 1);
    if s.len() > 0 {
        let d = s.drop_last();
        assert forall|k: int| 0 <= k < d.len() implies all.contains(#[trigger] d[k]) by {
            assert(d[k] == s[k]);
        }
        assert forall|a: int, b: int| 0 <= a < b < d.len() implies (#[trigger] d[a]).cds_code != (#[trigger] d[b]).cds_code by {
            assert(d[a] == s[a] && d[b] == s[b]);
        }
        assert forall|a: int, b: int| 0 <= a < b < d.len() implies key_le(school_key(#[trigger] d[a]), school_key(#[trigger] d[b])) by {
            assert(d[a] == s[a] && d[b] == s[b]);
        }
        lemma_filter_listing(d, all, p);
        let f = d.filter(p);
        let last = s.last();
        if p(last) {
            let g = f.push(last);
            assert(s.filter(p) == g);
            assert forall|k: int| 0 <= k < f.len() implies (#[trigger] f[k]).cds_code != last.cds_code && key_le(
                school_key(f[k]),
                school_key(last),
            ) by {
                lemma_filter_member(d, p, k);
                let i = choose|i: int| 0 <= i < d.len() && d[i] == f[k];
                assert(s[i] == f[k]);
                assert(s[s.len() - 1] == last);
            }
            assert forall|k: int| 0 <= k < g.len() implies all.contains(#[trigger] g[k]) by {
                if k == f.len() {
                    assert(s[s.len() - 1] == last);
                } else {
                    assert(g[k] == f[k]);
                }
            }
            assert forall|a: int, b: int| 0 <= a < b < g.len() implies (#[trigger] g[a]).cds_code != (#[trigger] g[b]).cds_code
                && key_le(school_key(g[a]), school_key(g[b])) by {
                assert(g[a] == f[a]);
                if b < f.len() {
                    assert(g[b] == f[b]);
                }
            }
            assert forall|k: int| 0 <= k < g.len() implies p(#[trigger] g[k]) by {
                if k < f.len() {
                    assert(g[k] == f[k]);
                }
            }
        } else {
            assert(s.filter(p) == f);
        }
    }
}

/// Ranked schools up to rank `r`: listed schools, ranks below `r` and never
/// decreasing, and within one rank in name-then-code order.
proof fn lemma_ranked_upto(all: Seq<SchoolView>, qn: Seq<char>, r: nat)
    requires
        SchoolResolver::well_formed_schools(all),
    ensures
        ordered_listing(ranked_upto(all, qn, r), all),
        forall|k: int|
            0 <= k < ranked_upto(all, qn, r).len() ==> (#[trigger] search_rank(ranked_upto(all, qn, r)[k], qn)) is Some
                && search_rank(ranked_upto(all, qn, r)[k], qn)->0 < r,
        forall|a: int, b: int|
            0 <= a < b < ranked_upto(all, qn, r).len() ==> {
                let x = search_rank(#[trigger] ranked_upto(all, qn, r)[a], qn)->0;
                let y = search_rank(#[trigger] ranked_upto(all, qn, r)[b], qn)->0;
                x < y || (x == y && key_le(
                    school_key(ranked_upto(all, qn, r)[a]),
                    school_key(ranked_upto(all, qn, r)[b]),
                ))
            },
    decreases r,
{
    if r == 0 {
        assert(ranked_upto(all, qn, r) =~= Seq::<SchoolView>::empty());
    } else {
        let rr = (r - 1) as nat;
        lemma_ranked_upto(all, qn, rr);
        let pre = ranked_upto(all, qn, rr);
        let p = |s: SchoolView| search_rank(s, qn) == Some(rr);
        assert forall|k: int| 0 <= k < all.len() implies all.contains(#[trigger] all[k]) by {}
        lemma_filter_listing(all, all, p);
        let blk = all.filter(p);
        let whole = ranked_upto(all, qn, r);
        assert(whole == pre + blk);
        assert forall|k: int| 0 <= k < whole.len() implies all.contains(#[trigger] whole[k]) && search_rank(whole[k], qn) is Some
            && search_rank(whole[k], qn)->0 < r by {
            if k < pre.len() {
                assert(whole[k] == pre[k]);
                assert(search_rank(pre[k], qn) is Some && search_rank(pre[k], qn)->0 < rr);
            } else {
                assert(whole[k] == blk[k - pre.len()]);
                assert(p(blk[k - pre.len()]));
            }
        }
        assert forall|a: int, b: int| 0 <= a < b < whole.len() implies (#[trigger] whole[a]).cds_code != (#[trigger] whole[b]).cds_code && {
            let x = search_rank(whole[a], qn)->0;
            let y = search_rank(whole[b], qn)->0;
            x < y || (x == y && key_le(school_key(whole[a]), school_key(whole[b])))
        } by {
            if b < pre.len() {
                assert(whole[a] == pre[a] && whole[b] == pre[b]);
            } else if a >= pre.len() {
                assert(whole[a] == blk[a - pre.len()] && whole[b] == blk[b - pre.len()]);
                assert(p(blk[a - pre.len()]) && p(blk[b - pre.len()]));
            } else {
                assert(whole[a] == pre[a] && whole[b] == blk[b - pre.len()]);
                assert(search_rank(pre[a], qn) is Some && search_rank(pre[a], qn)->0 < rr);
                assert(p(blk[b - pre.len()]));
            }
        }
    }
}

/// Search results: at most `limit` of them, none for a zero limit, the first
/// listed schools for a query that normalizes to nothing; otherwise only
/// matching schools, by rank and, within a rank, in name-then-code order.
/// Every result is a listed school and no code appears twice.
pub proof fn law_search_results(all: Seq<SchoolView>, q: Seq<char>, limit: nat)
    requires
        SchoolResolver::well_formed_schools(all),
    ensures
        ({
            let r = search_results(all, q, limit);
            let qn = normalized(q);
            &&& r.len() <= limit
            &&& limit == 0 ==> r.len() == 0
            &&& qn.len() == 0 ==> r == front(all, limit)
            &&& ordered_listing(r, all)
            &&& qn.len() > 0 ==> forall|k: int| 0 <= k < r.len() ==> (#[trigger] search_rank(r[k], qn)) is Some
            &&& qn.len() > 0 ==> forall|a: int, b: int|
                0 <= a < b < r.len() ==> {
                    let x = search_rank(#[trigger] r[a], qn)->0;
                    let y = search_rank(#[trigger] r[b], qn)->0;
                    x < y || (x == y && key_le(school_key(r[a]), school_key(r[b])))
                }
        }),
{
    let qn = normalized(q);
    let r = search_results(all, q, limit);
    let src = if qn.len() == 0 {
        all
    } else {
        ranked_upto(all, qn, 8)
    };
    if qn.len() == 0 {
        assert forall|k: int| 0 <= k < all.len() implies all.contains(#[trigger] all[k]) by {}
    } else {
        lemma_ranked_upto(all, qn, 8);
    }
    if limit > 0 {
        assert(r == front(src, limit));
        assert forall|k: int| 0 <= k < r.len() implies r[k] == src[k] by {}
    }
}

proof fn lemma_ranked_upto_contains(all: Seq<SchoolView>, qn: Seq<char>, r: nat, k: int)
    requires
        0 <= k < all.len(),
        search_rank(all[k], qn) is Some,
        search_rank(all[k], qn)->0 < r,
    ensures
        ranked_upto(all, qn, r).contains(all[k]),
    decreases r,
{
    let rr = (r - 1) as nat;
    let pre = ranked_upto(all, qn, rr);
    let p = |s: SchoolView| search_rank(s, qn) == Some(rr);
    let here = all.filter(p);
    assert(ranked_upto(all, qn, r) == pre + here);
    if search_rank(all[k], qn)->0 == rr {
        all.lemma_filter_contains(p, k);
        let i = choose|i: int| 0 <= i < here.len() && here[i] == all[k];
        assert((pre + here)[pre.len() + i] == all[k]);
    } else {
        lemma_ranked_upto_contains(all, qn, rr, k);
        let i = choose|i: int| 0 <= i < pre.len() && pre[i] == all[k];
        assert((pre + here)[i] == all[k]);
    }
}

proof fn lemma_listing_len(s: Seq<SchoolView>, all: Seq<SchoolView>)
    requires
        ordered_listing(s, all),
    ensures
        s.len() <= all.len(),
{
    let sc = s.map_values(|x: SchoolView| x.cds_code);
    let ac = all.map_values(|x: SchoolView| x.cds_code);
    assert(sc.no_duplicates()) by {
        assert forall|a: int, b: int| 0 <= a < sc.len() && 0 <= b < sc.len() && a != b implies sc[a] != sc[b] by {
            if a < b {
                assert(s[a].cds_code != s[b].cds_code);
            } else {
                assert(s[b].cds_code != s[a].cds_code);
            }
        }
    }
    sc.unique_seq_to_set();
    assert forall|c: Seq<char>| sc.to_set().contains(c) implies ac.to_set().contains(c) by {
        let i = choose|i: int| 0 <= i < sc.len() && sc[i] == c;
        assert(all.contains(s[i]));
        let j = choose|j: int| 0 <= j < all.len() && all[j] == s[i];
        assert(ac[j] == c);
    }
    vstd::seq_lib::seq_to_set_is_finite(ac);
    vstd::set_lib::lemma_len_subset(sc.to_set(), ac.to_set());
    ac.lemma_cardinality_of_set();
}

/// Whether a school's normalized name, district, county or city, or its CDS
/// code, contains the normalized query `qn`.
pub open spec fn mentions(s: SchoolView, qn: Seq<char>) -> bool {
    ||| crate::text::seq_contains(school_norm(s), qn)
    ||| (s.district matches Some(t) && crate::text::seq_contains(normalized(t), qn))
    ||| (s.county matches Some(t) && crate::text::seq_contains(normalized(t), qn))
    ||| (s.city matches Some(t) && crate::text::seq_contains(normalized(t), qn))
    ||| crate::text::seq_contains(s.cds_code, qn)
}

proof fn lemma_contains_itself(t: Seq<char>)
    ensures
        crate::text::seq_contains(t, t),
{
    assert(t.subrange(0, t.len() as int) =~= t);
    assert(crate::text::occurs_at(t, t, 0));
}

/// Search finds exactly the schools that mention the query: with a query
/// that normalizes to some text, every result's name, district, county,
/// city or CDS code contains it; and when the limit is at least the number of
/// listed schools, or was not reached, every listed school that mentions it
/// is among the results.
pub proof fn law_search_finds_mentioning_schools(all: Seq<SchoolView>, q: Seq<char>, limit: nat)
    requires
        SchoolResolver::well_formed_schools(all),
        normalized(q).len() > 0,
    ensures
        forall|k: int|
            0 <= k < search_results(all, q, limit).len() ==> mentions(
                #[trigger] search_results(all, q, limit)[k],
                normalized(q),
            ),
        (limit >= all.len() || search_results(all, q, limit).len() < limit) ==> forall|k: int|
            0 <= k < all.len() && mentions(#[trigger] all[k], normalized(q)) ==> search_results(
                all,
                q,
                limit,
            ).contains(all[k]),
{
    let qn = normalized(q);
    let ranked = ranked_upto(all, qn, 8);
    let res = search_results(all, q, limit);
    lemma_ranked_upto(all, qn, 8);
    law_search_results(all, q, limit);
    assert forall|k: int| 0 <= k < res.len() implies mentions(#[trigger] res[k], qn) by {
        let x = res[k];
        assert(search_rank(x, qn) is Some);
        lemma_contains_itself(x.cds_code);
        lemma_contains_itself(school_norm(x));
        if crate::text::seq_starts_with(school_norm(x), qn) {
            assert(crate::text::occurs_at(school_norm(x), qn, 0));
        }
    }
    if limit >= all.len() || res.len() < limit {
        lemma_listing_len(ranked, all);
        assert forall|k: int| 0 <= k < all.len() && mentions(#[trigger] all[k], qn) implies res.contains(
            all[k],
        ) by {
            assert(search_rank(all[k], qn) is Some && search_rank(all[k], qn)->0 < 8);
            lemma_ranked_upto_contains(all, qn, 8, k);
            assert(res == ranked);
        }
    }
}

/// A query that is neither a display name nor a CDS code, and whose
/// normalized form is some listed school's normalized name, resolves to an
/// exact-name match of a school with that name, or to an ambiguity among two
/// or more such schools; when only one school has that name, it is the match.
pub proof fn law_resolution_by_exact_name(all: Seq<SchoolView>, q: Seq<char>, k: int)
    requires
        0 <= k < all.len(),
        selected_by_display_name(all, trim(q)) is None,
        !is_cds_code(trim(q)),
        normalized(trim(q)).len() > 0,
        school_norm(all[k]) == normalized(trim(q)),
    ensures
        ({
            let qn = normalized(trim(q));
            match resolution(all, q) {
                Resolution::Found { school, kind, distance } => {
                    &&& kind == MatchKind::ExactName
                    &&& distance is None
                    &&& school_norm(school) == qn
                    &&& (forall|j: int| 0 <= j < all.len() && j != k ==> school_norm(#[trigger] all[j]) != qn)
                        ==> school == all[k]
                },
                Resolution::Ambiguous { candidates } => {
                    &&& candidates.len() >= 2
                    &&& forall|c: int| 0 <= c < candidates.len() ==> school_norm(#[trigger] candidates[c]) == qn
                },
                _ => false,
            }
        }),
{
    let qn = normalized(trim(q));
    let pe = |s: SchoolView| school_norm(s) == qn;
    let exact = all.filter(pe);
    all.lemma_filter_contains(pe, k);
    #[allow(deprecated)]
    all.filter_lemma(pe);
    assert(exact.len() > 0);
    assert forall|c: int| 0 <= c < exact.len() implies school_norm(#[trigger] exact[c]) == qn by {
        assert(pe(exact[c]));
    }
    if exact.len() == 1 {
        assert(pe(exact[0]));
        if forall|j: int| 0 <= j < all.len() && j != k ==> school_norm(#[trigger] all[j]) != qn {
            lemma_filter_member(all, pe, 0);
            let i = choose|i: int| 0 <= i < all.len() && all[i] == exact[0];
            assert(school_norm(all[i]) == qn);
        }
    }
}

/// A school's overlap with a query that contains its normalized name is the
/// length of that name.
pub proof fn law_overlap_of_contained_name(qn: Seq<char>, s: SchoolView)
    requires
        crate::text::seq_contains(qn, school_norm(s)),
    ensures
        overlap(qn, s) == school_norm(s).len(),
{
    let c = school_norm(s);
    let i = choose|i: int| crate::text::occurs_at(qn, c, i);
    assert(c.len() <= qn.len());
    if crate::text::seq_contains(c, qn) {
        let j = choose|j: int| crate::text::occurs_at(c, qn, j);
        assert(qn.len() <= c.len());
    }
}

proof fn lemma_largest_overlap(all: Seq<SchoolView>, qn: Seq<char>) -> (m: int)
    requires
        all.len() > 0,
    ensures
        0 <= m < all.len(),
        forall|j: int| 0 <= j < all.len() ==> overlap(qn, #[trigger] all[j]) <= overlap(qn, all[m]),
    decreases all.len(),
{
    if all.len() == 1 {
        0
    } else {
        let rest = all.drop_last();
        let m0 = lemma_largest_overlap(rest, qn);
        assert(rest[m0] == all[m0]);
        let last = all.len() - 1;
        let m = if overlap(qn, all[last]) > overlap(qn, all[m0]) { last } else { m0 };
        assert forall|j: int| 0 <= j < all.len() implies overlap(qn, #[trigger] all[j]) <= overlap(qn, all[m]) by {
            if j < last {
                assert(rest[j] == all[j]);
            }
        }
        m
    }
}

/// A query that is neither a display name nor a CDS code, whose normalized
/// form equals no listed school's normalized name but contains one of at
/// least five characters, resolves by containment: a Substring match, or an
/// ambiguity among two or more schools, each of largest overlap, which is
/// at least that name's length.
pub proof fn law_resolution_by_contained_name(all: Seq<SchoolView>, q: Seq<char>, k: int)
    requires
        0 <= k < all.len(),
        selected_by_display_name(all, trim(q)) is None,
        !is_cds_code(trim(q)),
        crate::text::seq_contains(normalized(trim(q)), school_norm(all[k])),
        school_norm(all[k]).len() >= 5,
        forall|j: int| 0 <= j < all.len() ==> school_norm(#[trigger] all[j]) != normalized(trim(q)),
    ensures
        ({
            let qn = normalized(trim(q));
            match resolution(all, q) {
                Resolution::Found { school, kind, distance } => {
                    &&& kind == MatchKind::Substring
                    &&& distance is None
                    &&& overlap(qn, school) >= school_norm(all[k]).len()
                    &&& forall|j: int| 0 <= j < all.len() ==> overlap(qn, #[trigger] all[j]) <= overlap(qn, school)
                },
                Resolution::Ambiguous { candidates } => {
                    &&& candidates.len() >= 2
                    &&& forall|c: int|
                        0 <= c < candidates.len() ==> overlap(qn, #[trigger] candidates[c]) >= school_norm(all[k]).len()
                            && forall|j: int| 0 <= j < all.len() ==> overlap(qn, #[trigger] all[j]) <= overlap(qn, candidates[c])
                },
                _ => false,
            }
        }),
{
    let t = trim(q);
    let qn = normalized(t);
    law_overlap_of_contained_name(qn, all[k]);
    let m = lemma_largest_overlap(all, qn);
    assert(overlap(qn, all[m]) >= overlap(qn, all[k]));
    let i = choose|i: int| crate::text::occurs_at(qn, school_norm(all[k]), i);
    assert(qn.len() >= MIN_SUBSTRING_QUERY_CHARS);
    let pe = |s: SchoolView| school_norm(s) == qn;
    let po = |s: SchoolView| best_overlap(all, qn, s);
    assert(po(all[m]));
    lemma_filter_none(all, pe);
    all.lemma_filter_contains(po, m);
    let sub = all.filter(po);
    assert(sub.len() > 0);
    #[allow(deprecated)]
    all.filter_lemma(po);
    assert forall|c: int| 0 <= c < sub.len() implies overlap(qn, #[trigger] sub[c]) >= school_norm(all[k]).len()
        && forall|j: int| 0 <= j < all.len() ==> overlap(qn, #[trigger] all[j]) <= overlap(qn, sub[c]) by {
        assert(po(sub[c]));
        assert(overlap(qn, all[k]) <= overlap(qn, sub[c]));
    }
    if sub.len() == 1 {
        assert(po(sub[0]));
    }
}

/// A resolved school is one of the listed schools.
pub proof fn lemma_resolution_member(all: Seq<SchoolView>, q: Seq<char>)
    requires
        resolution(all, q) is Found,
    ensures
        exists|i: int| 0 <= i < all.len() && all[i] == resolution(all, q)->school,
{
    let t = trim(q);
    let qn = normalized(t);
    if selected_by_display_name(all, t) is Some {
    } else if is_cds_code(t) {
    } else {
        let exact = all.filter(|s: SchoolView| school_norm(s) == qn);
        let sub = all.filter(|s: SchoolView| best_overlap(all, qn, s));
        let fuzzy = all.filter(|s: SchoolView| best_fuzzy(all, qn, s));
        if exact.len() > 0 {
            lemma_filter_member(all, |s: SchoolView| school_norm(s) == qn, 0);
        } else if qn.len() >= MIN_SUBSTRING_QUERY_CHARS && sub.len() > 0 {
            lemma_filter_member(all, |s: SchoolView| best_overlap(all, qn, s), 0);
        } else {
            lemma_filter_member(all, |s: SchoolView| best_fuzzy(all, qn, s), 0);
        }
    }
}

/// The school a query resolves to.
pub open spec fn resolved_school(all: Seq<SchoolView>, q: Seq<char>) -> SchoolView {
    resolution(all, q)->school
}

impl SchoolResolver {
    /// Resolves the same name/CDS/fuzzy inputs accepted by `resolve`, then
    /// builds requests in query order, then year order.
    pub fn fetch_specs_for_queries(&self, queries: &[String], years: &[u16]) -> (r: Result<
        Vec<FetchSpec>,
        ResolverError,
    >)
        ensures
            ({
                let all = self.schools_view();
                let qs = queries@.map_values(|q: String| q@);
                match r {
                    Ok(specs) => years_supported(years@) && (forall|k: int|
                        0 <= k < qs.len() ==> (#[trigger] resolution(all, qs[k])) is Found)
                        && specs@.map_values(|f: FetchSpec| f@) == requests_for(
                        all,
                        qs.map_values(|q: Seq<char>| resolved_school(all, q).cds_code),
                        years@,
                    ),
                    Err(ResolverError::UnsupportedYear(y)) => first_unsupported(years@, y),
                    Err(e) => years_supported(years@) && exists|k: int|
                        0 <= k < qs.len() && (forall|j: int|
                            0 <= j < k ==> (#[trigger] resolution(all, qs[j])) is Found)
                            && resolve_matches(all, #[trigger] qs[k], Err(e)),
                }
            }),
    {
        proof {
            use_type_invariant(self);
        }
        validate_years(years)?;
        let ghost all = self.schools_view();
        let ghost qs = queries@.map_values(|q: String| q@);
        let ghost codes = qs.map_values(|q: Seq<char>| resolved_school(all, q).cds_code);
        let mut specs: Vec<FetchSpec> = Vec::new();
        let mut a: usize = 0;
        while a < queries.len()
            invariant
                a <= queries@.len(),
                all == self.schools_view(),
                all == self.schools@.map_values(|r: SchoolRecord| r@),
                Self::well_formed_schools(all),
                qs == queries@.map_values(|q: String| q@),
                codes == qs.map_values(|q: Seq<char>| resolved_school(all, q).cds_code),
                years_supported(years@),
                forall|j: int| 0 <= j < a ==> (#[trigger] resolution(all, qs[j])) is Found,
                specs@.map_values(|f: FetchSpec| f@) == requests_for(all, codes.take(a as int), years@),
            decreases queries@.len() - a,
        {
            assert(qs[a as int] == queries@[a as int]@);
            let found = self.resolve(queries[a].as_str());
            let school = match found {
                Ok(m) => m.school,
                Err(e) => {
                    return Err(e);
                },
            };
            proof {
                lemma_resolution_member(all, qs[a as int]);
                let i = choose|i: int| 0 <= i < all.len() && all[i] == resolution(all, qs[a as int])->school;
                assert(all[i] == school@);
                assert(loadable(all[i]));
                assert(codes[a as int] == school@.cds_code);
                assert(lookup(all, school@.cds_code) is Some);
            }
            match self.push_school_requests(&mut specs, school.cds_code.as_str(), years) {
                Ok(()) => {},
                Err(e) => {
                    return Err(e);
                },
            }
            proof {
                assert(codes.take(a + 1) =~= codes.take(a as int).push(codes[a as int]));
                let f = |c: Seq<char>| school_requests(all, c, years@);
                assert(codes.take(a + 1).map_values(f) =~= codes.take(a as int).map_values(f).push(
                    f(codes[a as int]),
                ));
                lemma_flatten_alt_push(codes.take(a as int).map_values(f), f(codes[a as int]));
            }
            a = a + 1;
        }
        assert(codes.take(codes.len() as int) =~= codes);
        Ok(specs)
    }
}

// ------------------------------------------------------------------------
// Display names
// ------------------------------------------------------------------------

/// How many listed schools carry exactly this name.
pub open spec fn name_count(all: Seq<SchoolView>, name: Seq<char>) -> nat {
    all.filter(|s: SchoolView| s.school_name == name).len()
}

/// A school's display name: its name when no other school shares it,
/// otherwise `name (CDS)`.
pub open spec fn display_name(all: Seq<SchoolView>, s: SchoolView) -> Seq<char> {
    if name_count(all, s.school_name) == 1 {
        s.school_name
    } else {
        s.school_name + " ("@ + s.cds_code + ")"@
    }
}

proof fn lemma_filter_keeps_two<T>(s: Seq<T>, p: spec_fn(T) -> bool, i: int, j: int)
    requires
        0 <= i < j < s.len(),
        p(s[i]),
        p(s[j]),
    ensures
        s.filter(p).len() >= 2,
    decreases s.len(),
{
    reveal_with_fuel(Seq::filter, 1);
    let rest = s.drop_last();
    assert(rest[i] == s[i]);
    if j < s.len() - 1 {
        assert(rest[j] == s[j]);
        lemma_filter_keeps_two(rest, p, i, j);
    } else {
        #[allow(deprecated)]
        rest.filter_lemma(p);
        assert(rest.filter(p).contains(rest[i]));
    }
}

proof fn lemma_filter_keeps_one<T>(s: Seq<T>, p: spec_fn(T) -> bool, a: int)
    requires
        0 <= a < s.len(),
        p(s[a]),
        forall|j: int| 0 <= j < s.len() && j != a ==> !p(#[trigger] s[j]),
    ensures
        s.filter(p).len() == 1,
    decreases s.len(),
{
    reveal_with_fuel(Seq::filter, 1);
    let rest = s.drop_last();
    if a < s.len() - 1 {
        assert forall|j: int| 0 <= j < rest.len() && j != a implies !p(#[trigger] rest[j]) by {
            assert(rest[j] == s[j]);
        }
        assert(rest[a] == s[a]);
        lemma_filter_keeps_one(rest, p, a);
        assert(!p(s[s.len() - 1]));
    } else {
        assert forall|j: int| 0 <= j < rest.len() implies !p(#[trigger] rest[j]) by {
            assert(rest[j] == s[j]);
        }
        lemma_filter_none(rest, p);
    }
}

/// A school whose name no other listed school carries is shown by its name
/// alone.
pub proof fn law_unique_name_is_its_display_name(all: Seq<SchoolView>, a: int)
    requires
        0 <= a < all.len(),
        forall|j: int| 0 <= j < all.len() && j != a ==> (#[trigger] all[j]).school_name != all[a].school_name,
    ensures
        display_name(all, all[a]) == all[a].school_name,
{
    let n = all[a].school_name;
    lemma_filter_keeps_one(all, |s: SchoolView| s.school_name == n, a);
}

/// A school whose name another listed school also carries is shown as
/// `name (CDS)`, and no two listed schools share a display name (unless
/// one school's name is already another's `name (CDS)` form).
pub proof fn law_display_names_tell_schools_apart(all: Seq<SchoolView>)
    requires
        SchoolResolver::well_formed_schools(all),
        forall|a: int, b: int|
            0 <= a < all.len() && 0 <= b < all.len() ==> (#[trigger] all[a]).school_name != (#[trigger] all[b]).school_name
                + " ("@ + all[b].cds_code + ")"@,
    ensures
        forall|a: int, b: int|
            #![trigger all[a], all[b]]
            0 <= a < all.len() && 0 <= b < all.len() && a != b && all[a].school_name == all[b].school_name
                ==> display_name(all, all[a]) == all[a].school_name + " ("@ + all[a].cds_code + ")"@,
        forall|a: int, b: int|
            0 <= a < b < all.len() ==> display_name(all, #[trigger] all[a]) != display_name(all, #[trigger] all[b]),
{
    reveal_strlit(" (");
    reveal_strlit(")");
    assert forall|a: int, b: int|
        #![trigger all[a], all[b]]
        0 <= a < all.len() && 0 <= b < all.len() && a != b && all[a].school_name == all[b].school_name
        implies display_name(all, all[a]) == all[a].school_name + " ("@ + all[a].cds_code + ")"@ by {
        let n = all[a].school_name;
        if a < b {
            lemma_filter_keeps_two(all, |s: SchoolView| s.school_name == n, a, b);
        } else {
            lemma_filter_keeps_two(all, |s: SchoolView| s.school_name == n, b, a);
        }
    }
    assert forall|a: int, b: int|
        0 <= a < b < all.len() implies display_name(all, #[trigger] all[a]) != display_name(all, #[trigger] all[b]) by {
        let sa = all[a];
        let sb = all[b];
        assert(sa.cds_code != sb.cds_code);
        assert(loadable(sa) && loadable(sb));
        if sa.school_name == sb.school_name {
            lemma_filter_keeps_two(all, |s: SchoolView| s.school_name == sa.school_name, a, b);
            let da = sa.school_name + " ("@ + sa.cds_code + ")"@;
            let db = sb.school_name + " ("@ + sb.cds_code + ")"@;
            if da == db {
                let k = sa.school_name.len() + 2;
                assert forall|t: int| 0 <= t < 14 implies sa.cds_code[t] == sb.cds_code[t] by {
                    assert(da[k + t] == sa.cds_code[t]);
                    assert(db[k + t] == sb.cds_code[t]);
                }
                assert(sa.cds_code =~= sb.cds_code);
            }
        } else if name_count(all, sa.school_name) == 1 || name_count(all, sb.school_name) == 1 {
            assert(sa.school_name != sb.school_name + " ("@ + sb.cds_code + ")"@);
            assert(sb.school_name != sa.school_name + " ("@ + sa.cds_code + ")"@);
        } else {
            let da = sa.school_name + " ("@ + sa.cds_code + ")"@;
            let db = sb.school_name + " ("@ + sb.cds_code + ")"@;
            if da == db {
                assert(da.len() == db.len());
                let ka = sa.school_name.len() + 2;
                let kb = sb.school_name.len() + 2;
                assert(ka == kb);
                assert forall|t: int| 0 <= t < 14 implies sa.cds_code[t] == sb.cds_code[t] by {
                    assert(da[ka + t] == sa.cds_code[t]);
                    assert(db[kb + t] == sb.cds_code[t]);
                }
                assert(sa.cds_code =~= sb.cds_code);
            }
        }
    }
}

/// The all-schools map holds exactly one entry per listed school: names in
/// strictly increasing order whose set is the schools' display names number
/// as many as the schools (unless one school's name is already another's
/// `name (CDS)` form).
pub proof fn law_one_entry_per_school(all: Seq<SchoolView>, names: Seq<Seq<char>>)
    requires
        SchoolResolver::well_formed_schools(all),
        forall|a: int, b: int|
            0 <= a < all.len() && 0 <= b < all.len() ==> (#[trigger] all[a]).school_name != (#[trigger] all[b]).school_name
                + " ("@ + all[b].cds_code + ")"@,
        strictly_increasing(names),
        names.to_set() == all.map_values(|s: SchoolView| display_name(all, s)).to_set(),
    ensures
        names.len() == all.len(),
{
    let shown = all.map_values(|s: SchoolView| display_name(all, s));
    law_display_names_tell_schools_apart(all);
    assert(shown.no_duplicates()) by {
        assert forall|a: int, b: int| 0 <= a < shown.len() && 0 <= b < shown.len() && a != b implies shown[a]
            != shown[b] by {
            if a < b {
                assert(display_name(all, all[a]) != display_name(all, all[b]));
            } else {
                assert(display_name(all, all[b]) != display_name(all, all[a]));
            }
        }
    }
    shown.unique_seq_to_set();
    crate::web::lemma_increasing_no_duplicates(names);
    names.unique_seq_to_set();
}

fn display_name_of(schools: &Vec<SchoolRecord>, i: usize) -> (d: String)
    requires
        i < schools@.len(),
    ensures
        d@ == display_name(schools@.map_values(|r: SchoolRecord| r@), schools@[i as int]@),
{
    let ghost all = schools@.map_values(|r: SchoolRecord| r@);
    let ghost name = schools@[i as int]@.school_name;
    let ghost pred = |s: SchoolView| s.school_name == name;
    let mut count: usize = 0;
    let mut j: usize = 0;
    while j < schools.len()
        invariant
            j <= schools@.len(),
            i < schools@.len(),
            all == schools@.map_values(|r: SchoolRecord| r@),
            name == schools@[i as int]@.school_name,
            pred == (|s: SchoolView| s.school_name == name),
            count == all.take(j as int).filter(pred).len(),
            count <= j,
        decreases schools@.len() - j,
    {
        proof {
            reveal_with_fuel(Seq::filter, 1);
            assert(all.take(j + 1).drop_last() =~= all.take(j as int));
            assert(all.take(j + 1).last() == all[j as int]);
        }
        if schools[j].school_name == schools[i].school_name {
            count = count + 1;
        }
        j = j + 1;
    }
    assert(all.take(all.len() as int) =~= all);
    let mut d = schools[i].school_name.clone();
    if count != 1 {
        crate::text::push_str(&mut d, " (");
        crate::text::push_str(&mut d, schools[i].cds_code.as_str());
        crate::text::push_str(&mut d, ")");
    }
    d
}

fn copy_years(years: &[u16]) -> (r: Vec<u16>)
    ensures
        r@ == years@,
{
    let mut r: Vec<u16> = Vec::new();
    let mut i: usize = 0;
    while i < years.len()
        invariant
            i <= years@.len(),
            r@ == years@.take(i as int),
        decreases years@.len() - i,
    {
        r.push(years[i]);
        i = i + 1;
        assert(r@ =~= years@.take(i as int));
    }
    assert(years@.take(years@.len() as int) =~= years@);
    r
}

/// The texts in sorted order with repeats removed, each paired with the years.
#[verifier::rlimit(40)]
fn unique_in_order(texts: &Vec<String>, order: &Vec<usize>, years: &[u16]) -> (entries: Vec<
    (String, Vec<u16>),
>)
    requires
        is_permutation(order@, texts@.len()),
        sorted_stably(
            texts@.map_values(|d: String| d@).map_values(|d: Seq<char>| text_key(d)),
            order@,
        ),
    ensures
        ({
            let ds = texts@.map_values(|d: String| d@);
            let names = entries@.map_values(|e: (String, Vec<u16>)| e.0@);
            &&& forall|k: int| 0 <= k < entries@.len() ==> (#[trigger] entries@[k]).1@ == years@
            &&& strictly_increasing(names)
            &&& covers(names, ds)
            &&& drawn_from(names, ds)
        }),
{
    let ghost ds = texts@.map_values(|d: String| d@);
    let ghost ks = ds.map_values(|d: Seq<char>| text_key(d));
    let ghost mut origin: Seq<int> = seq![];
    let ghost mut placed: Seq<int> = seq![];
    let mut entries: Vec<(String, Vec<u16>)> = Vec::new();
    let mut k: usize = 0;
    while k < order.len()
        invariant
            k <= order@.len(),
            is_permutation(order@, texts@.len()),
            ds == texts@.map_values(|d: String| d@),
            ks == ds.map_values(|d: Seq<char>| text_key(d)),
            sorted_stably(ks, order@),
            forall|x: int| 0 <= x < entries@.len() ==> (#[trigger] entries@[x]).1@ == years@,
            strictly_increasing(entries@.map_values(|e: (String, Vec<u16>)| e.0@)),
            k > 0 ==> entries@.len() > 0 && entries@.last().0@ == ds[order@[k - 1] as int],
            k == 0 ==> entries@.len() == 0,
            placed.len() == k,
            origin.len() == entries@.len(),
            forall|x: int|
                0 <= x < k ==> 0 <= #[trigger] placed[x] < entries@.len() && entries@[placed[x]].0@
                    == ds[order@[x] as int],
            forall|y: int|
                0 <= y < entries@.len() ==> 0 <= #[trigger] origin[y] < ds.len() && entries@[y].0@
                    == ds[origin[y]],
        decreases order@.len() - k,
    {
        let idx = order[k];
        let ghost names = entries@.map_values(|e: (String, Vec<u16>)| e.0@);
        let duplicate = entries.len() > 0 && entries[entries.len() - 1].0 == texts[idx];
        if !duplicate {
            proof {
                if k > 0 {
                    let prev = ds[order@[k - 1] as int];
                    let cur = ds[idx as int];
                    assert(key_le(ks[order@[k - 1] as int], ks[order@[k as int] as int]));
                    lemma_key_total(text_key(prev), text_key(cur));
                    if text_key(prev) == text_key(cur) {
                        lemma_text_key_injective(prev, cur);
                    }
                    assert(names[names.len() - 1] == prev);
                    lemma_extend_increasing(names, cur);
                }
            }
            let ghost before = entries@;
            entries.push((texts[idx].clone(), copy_years(years)));
            proof {
                assert(entries@.map_values(|e: (String, Vec<u16>)| e.0@) =~= names.push(
                    ds[idx as int],
                ));
                origin = origin.push(idx as int);
                placed = placed.push(before.len() as int);
                assert forall|x: int| 0 <= x < k + 1 implies 0 <= #[trigger] placed[x]
                    < entries@.len() && entries@[placed[x]].0@ == ds[order@[x] as int] by {
                    if x < k {
                        assert(entries@[placed[x]] == before[placed[x]]);
                    }
                }
                assert forall|y: int| 0 <= y < entries@.len() implies 0 <= #[trigger] origin[y]
                    < ds.len() && entries@[y].0@ == ds[origin[y]] by {
                    if y < before.len() {
                        assert(entries@[y] == before[y]);
                    }
                }
            }
        } else {
            proof {
                placed = placed.push(entries@.len() - 1);
            }
        }
        k = k + 1;
    }
    proof {
        let names = entries@.map_values(|e: (String, Vec<u16>)| e.0@);
        reveal(covers);
        reveal(drawn_from);
        assert forall|i: int| 0 <= i < ds.len() implies exists|k: int|
            0 <= k < names.len() && names[k] == #[trigger] ds[i] by {
            lemma_permutation_onto(order@, ds.len(), i);
            let x = choose|x: int| 0 <= x < order@.len() && order@[x] == i;
            assert(names[placed[x]] == ds[i]);
        }
        assert forall|k: int| 0 <= k < names.len() implies exists|x: int|
            0 <= x < ds.len() && #[trigger] names[k] == ds[x] by {
            assert(names[k] == ds[origin[k]]);
        }
    }
    entries
}

/// Appending a text that sorts after the last keeps a list strictly increasing.
proof fn lemma_extend_increasing(names: Seq<Seq<char>>, cur: Seq<char>)
    requires
        strictly_increasing(names),
        names.len() > 0,
        key_lt(text_key(names.last()), text_key(cur)),
    ensures
        strictly_increasing(names.push(cur)),
{
    let nn = names.push(cur);
    assert forall|a: int, b: int| 0 <= a < b < nn.len() implies key_lt(
        text_key(#[trigger] nn[a]),
        text_key(#[trigger] nn[b]),
    ) by {
        if b == nn.len() - 1 {
            if a < names.len() - 1 {
                assert(key_lt(text_key(names[a]), text_key(names[names.len() - 1])));
                lemma_key_trans(text_key(names[a]), text_key(names.last()), text_key(cur));
            }
        } else {
            assert(nn[a] == names[a] && nn[b] == names[b]);
        }
    }
}

/// Every text of `ds` is among `names`.
#[verifier::opaque]
pub open spec fn covers(names: Seq<Seq<char>>, ds: Seq<Seq<char>>) -> bool {
    forall|x: int|
        0 <= x < ds.len() ==> exists|k: int| 0 <= k < names.len() && names[k] == #[trigger] ds[x]
}

/// Every one of `names` is a text of `ds`.
#[verifier::opaque]
pub open spec fn drawn_from(names: Seq<Seq<char>>, ds: Seq<Seq<char>>) -> bool {
    forall|k: int|
        0 <= k < names.len() ==> exists|x: int| 0 <= x < ds.len() && #[trigger] names[k] == ds[x]
}

/// Lists that cover each other hold the same texts.
proof fn lemma_same_texts(names: Seq<Seq<char>>, ds: Seq<Seq<char>>)
    requires
        covers(names, ds),
        drawn_from(names, ds),
    ensures
        names.to_set() == ds.to_set(),
{
    reveal(covers);
    reveal(drawn_from);
    assert forall|v: Seq<char>| names.to_set().contains(v) == ds.to_set().contains(v) by {
        if names.contains(v) {
            let k = choose|k: int| 0 <= k < names.len() && names[k] == v;
            let x = choose|x: int| 0 <= x < ds.len() && names[k] == ds[x];
            assert(ds[x] == v);
        }
        if ds.contains(v) {
            let x = choose|x: int| 0 <= x < ds.len() && ds[x] == v;
            let k = choose|k: int| 0 <= k < names.len() && names[k] == ds[x];
            assert(names[k] == v);
        }
    }
    assert(names.to_set() =~= ds.to_set());
}

/// `names` strictly increase in key order.
pub open spec fn strictly_increasing(names: Seq<Seq<char>>) -> bool {
    forall|a: int, b: int|
        0 <= a < b < names.len() ==> key_lt(text_key(#[trigger] names[a]), text_key(#[trigger] names[b]))
}

impl SchoolResolver {
    /// Every active school under its display name, each with the requested
    /// years, in name order. Schools that share a name are shown as
    /// `name (CDS)`.
    pub fn build_all_schools_map(&self, years: &[u16]) -> (r: Result<
        Vec<(String, Vec<u16>)>,
        ResolverError,
    >)
        ensures
            ({
                let all = self.schools_view();
                match r {
                    Ok(entries) => {
                        let names = entries@.map_values(|e: (String, Vec<u16>)| e.0@);
                        &&& years_supported(years@)
                        &&& forall|k: int| 0 <= k < entries@.len() ==> (#[trigger] entries@[k]).1@ == years@
                        &&& strictly_increasing(names)
                        &&& names.to_set() == all.map_values(|s: SchoolView| display_name(all, s)).to_set()
                    },
                    Err(ResolverError::UnsupportedYear(y)) => first_unsupported(years@, y),
                    _ => false,
                }
            }),
    {
        validate_years(years)?;
        let ghost all = self.schools_view();
        let mut displays: Vec<String> = Vec::new();
        let mut keys: Vec<Vec<i64>> = Vec::new();
        let mut i: usize = 0;
        while i < self.schools.len()
            invariant
                i <= self.schools@.len(),
                all == self.schools@.map_values(|r: SchoolRecord| r@),
                displays@.len() == i,
                keys@.len() == i,
                forall|k: int|
                    0 <= k < i ==> (#[trigger] displays@[k])@ == display_name(all, all[k]),
                forall|k: int| 0 <= k < i ==> (#[trigger] keys@[k])@ == text_key(displays@[k]@),
            decreases self.schools@.len() - i,
        {
            let d = display_name_of(&self.schools, i);
            let dv = chars_of(d.as_str());
            let mut key: Vec<i64> = Vec::new();
            push_text_key(&mut key, dv.as_slice());
            assert(key@ =~= text_key(d@));
            displays.push(d);
            keys.push(key);
            i = i + 1;
        }
        let order = stable_order(&keys);
        let ghost ds = displays@.map_values(|d: String| d@);
        assert(keys@.map_values(|k: Vec<i64>| k@) =~= ds.map_values(|d: Seq<char>| text_key(d)));
        let entries = unique_in_order(&displays, &order, years);
        proof {
            let names = entries@.map_values(|e: (String, Vec<u16>)| e.0@);
            assert(ds =~= all.map_values(|s: SchoolView| display_name(all, s)));
            lemma_same_texts(names, ds);
        }
        Ok(entries)
    }
}

/// The texts in sorted order with repeats removed.
pub fn sorted_unique_texts(texts: &Vec<String>) -> (r: Vec<String>)
    ensures
        strictly_increasing(r@.map_values(|t: String| t@)),
        r@.map_values(|t: String| t@).to_set() == texts@.map_values(|t: String| t@).to_set(),
{
    let mut keys: Vec<Vec<i64>> = Vec::new();
    let mut i: usize = 0;
    while i < texts.len()
        invariant
            i <= texts@.len(),
            keys@.len() == i,
            forall|k: int| 0 <= k < i ==> (#[trigger] keys@[k])@ == text_key(texts@[k]@),
        decreases texts@.len() - i,
    {
        let dv = chars_of(texts[i].as_str());
        let mut key: Vec<i64> = Vec::new();
        push_text_key(&mut key, dv.as_slice());
        assert(key@ =~= text_key(texts@[i as int]@));
        keys.push(key);
        i = i + 1;
    }
    let order = stable_order(&keys);
    let ghost ds = texts@.map_values(|d: String| d@);
    assert(keys@.map_values(|k: Vec<i64>| k@) =~= ds.map_values(|d: Seq<char>| text_key(d)));
    let no_years: Vec<u16> = Vec::new();
    let entries = unique_in_order(texts, &order, no_years.as_slice());
    let ghost names = entries@.map_values(|e: (String, Vec<u16>)| e.0@);
    let mut out: Vec<String> = Vec::new();
    let mut k: usize = 0;
    while k < entries.len()
        invariant
            k <= entries@.len(),
            names == entries@.map_values(|e: (String, Vec<u16>)| e.0@),
            out@.map_values(|t: String| t@) == names.take(k as int),
        decreases entries@.len() - k,
    {
        let ghost before = out@;
        let name = entries[k].0.clone();
        assert(name@ == names[k as int]);
        out.push(name);
        assert(out@.map_values(|t: String| t@) =~= before.map_values(|t: String| t@).push(name@));
        k = k + 1;
        assert(out@.map_values(|t: String| t@) =~= names.take(k as int));
    }
    proof {
        assert(names.take(entries@.len() as int) =~= names);
        lemma_same_texts(names, ds);
    }
    out
}

/// A permutation of the indices below `n` reaches every one of them.
pub proof fn lemma_permutation_onto(order: Seq<usize>, n: nat, i: int)
    requires
        is_permutation(order, n),
        0 <= i < n,
    ensures
        exists|x: int| 0 <= x < order.len() && order[x] == i,
{
    let present = Set::new(|v: int| exists|x: int| 0 <= x < order.len() && order[x] == v);
    if !present.contains(i) {
        let values = order.map_values(|v: usize| v as int);
        assert forall|a: int, b: int| 0 <= a < b < values.len() implies values[a] != values[b] by {}
        values.unique_seq_to_set();
        let s = values.to_set();
        assert forall|v: int| s.contains(v) implies 0 <= v < n && v != i by {
            let x = choose|x: int| 0 <= x < values.len() && values[x] == v;
        }
        let universe = Set::new(|v: int| 0 <= v < n && v != i);
        assert(s.subset_of(universe));
        vstd::set_lib::lemma_int_range(0, n as int);
        let full = vstd::set_lib::set_int_range(0, n as int);
        assert(universe =~= full.remove(i));
        vstd::set_lib::lemma_len_subset(s, universe);
        assert(false);
    }
}

// ------------------------------------------------------------------------
// Laws of resolution
// ------------------------------------------------------------------------

/// `w` holds `" ("` at position `q`.
pub open spec fn is_separator_at(w: Seq<char>, q: int) -> bool {
    q + 1 < w.len() && w[q] == ' ' && w[q + 1] == '('
}

proof fn lemma_last_separator_skip(w: Seq<char>, end: nat, p: nat)
    requires
        p < end <= w.len(),
        forall|q: int| p < q < end ==> !is_separator_at(w, q),
    ensures
        last_separator(w, end) == last_separator(w, p + 1),
    decreases end,
{
    if end > p + 1 {
        assert(!is_separator_at(w, end - 1));
        lemma_last_separator_skip(w, (end - 1) as nat, p);
    }
}

/// A school's `name (CDS)` display form always selects that school by its
/// CDS code, whatever other schools share its name.
pub proof fn law_display_form_selects_school(all: Seq<SchoolView>, i: int)
    requires
        SchoolResolver::well_formed_schools(all),
        0 <= i < all.len(),
    ensures
        resolution(all, all[i].school_name + " ("@ + all[i].cds_code + ")"@) == (Resolution::Found {
            school: all[i],
            kind: MatchKind::ExactCds,
            distance: None,
        }),
{
    reveal_strlit(" (");
    reveal_strlit(")");
    let s = all[i];
    let name = s.school_name;
    let cds = s.cds_code;
    let q = name + " ("@ + cds + ")"@;
    assert(loadable(s));
    crate::text::lemma_trim_shape(name);
    assert(q[0] == name[0]);
    assert(q.last() == ')');
    crate::text::lemma_trim_unchanged(q);
    let w = q.drop_last();
    assert(w =~= name + " ("@ + cds);
    let p = name.len();
    assert(w[p as int] == ' ' && w[p + 1 as int] == '(');
    assert forall|x: int| p < x < w.len() implies !is_separator_at(w, x) by {
        if x == p + 1 {
            assert(w[x] == '(');
        } else {
            assert(w[x] == cds[x - p - 2]);
            assert('0' <= cds[x - p - 2] <= '9');
        }
    }
    lemma_last_separator_skip(w, w.len(), p);
    assert(last_separator(w, p + 1) == Some(p as int));
    assert(w.take(p as int) =~= name);
    assert(w.skip(p + 2 as int) =~= cds);
    assert(split_disambiguated(q) == Some((name, cds)));
    assert(all[i].cds_code == cds);
    let c = choose|j: int| 0 <= j < all.len() && all[j].cds_code == cds;
    if c != i {
        if c < i {
            assert(all[c].cds_code != all[i].cds_code);
        } else {
            assert(all[i].cds_code != all[c].cds_code);
        }
    }
    assert(lookup(all, cds) == Some(s));
}

/// A listed CDS code resolves to its school.
pub proof fn law_cds_code_selects_school(all: Seq<SchoolView>, i: int)
    requires
        SchoolResolver::well_formed_schools(all),
        0 <= i < all.len(),
    ensures
        resolution(all, all[i].cds_code) == (Resolution::Found {
            school: all[i],
            kind: MatchKind::ExactCds,
            distance: None,
        }),
{
    let cds = all[i].cds_code;
    assert(loadable(all[i]));
    lemma_cds_trimmed(cds);
    assert(cds.last() != ')');
    assert(split_disambiguated(cds) is None);
    let c = choose|j: int| 0 <= j < all.len() && all[j].cds_code == cds;
    if c != i {
        if c < i {
            assert(all[c].cds_code != all[i].cds_code);
        } else {
            assert(all[i].cds_code != all[c].cds_code);
        }
    }
    assert(lookup(all, cds) == Some(all[i]));
}

} // verus!
