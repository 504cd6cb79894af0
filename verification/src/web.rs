//! The decisions behind the local web application: validating and planning a
//! pull job, rewriting endpoints for a configured test server, job progress,
//! which finished job to forget, and the limits on previews and searches.
//!
//! Serving HTTP, holding jobs, and running pulls happen in the caller.

use vstd::prelude::*;

use crate::model::FetchSpec;
use crate::order::{key_lt, lemma_key_total, text_key};
use crate::resolver::strictly_increasing;
use crate::text::{chars_of, decimal, owned, push_char, push_decimal, push_str, string_from, trim, trim_string};

verus! {

/// The largest number of pulls one job may request.
pub const MAX_JOB_REQUESTS: usize = 100000;

/// The most schools one search returns.
pub const MAX_SCHOOL_SEARCH_LIMIT: usize = 100;

/// The most rows a job preview returns.
pub const MAX_ROW_PREVIEW_LIMIT: usize = 5000;

/// The number of jobs kept before finished ones are forgotten.
pub const MAX_RETAINED_JOBS: usize = 3;

/// The number of schools a search returns unless asked otherwise.
pub fn default_search_limit() -> (n: usize)
    ensures
        n == 25,
{
    25
}

/// The number of preview rows returned unless asked otherwise.
pub fn default_row_limit() -> (n: usize)
    ensures
        n == 500,
{
    500
}

/// A requested search limit, capped at `MAX_SCHOOL_SEARCH_LIMIT`.
pub fn search_limit(requested: usize) -> (n: usize)
    ensures
        n == if requested < MAX_SCHOOL_SEARCH_LIMIT {
            requested
        } else {
            MAX_SCHOOL_SEARCH_LIMIT
        },
{
    if requested < MAX_SCHOOL_SEARCH_LIMIT {
        requested
    } else {
        MAX_SCHOOL_SEARCH_LIMIT
    }
}

/// A requested preview size, capped at `MAX_ROW_PREVIEW_LIMIT`.
pub fn row_limit(requested: usize) -> (n: usize)
    ensures
        n == if requested < MAX_ROW_PREVIEW_LIMIT {
            requested
        } else {
            MAX_ROW_PREVIEW_LIMIT
        },
{
    if requested < MAX_ROW_PREVIEW_LIMIT {
        requested
    } else {
        MAX_ROW_PREVIEW_LIMIT
    }
}

// ------------------------------------------------------------------------
// Endpoint rewriting
// ------------------------------------------------------------------------

/// `s` without its trailing slashes.
pub open spec fn strip_trailing_slashes(s: Seq<char>) -> Seq<char>
    decreases s.len(),
{
    if s.len() > 0 && s.last() == '/' {
        strip_trailing_slashes(s.drop_last())
    } else {
        s
    }
}

fn strip_slashes(s: &str) -> (r: String)
    ensures
        r@ == strip_trailing_slashes(s@),
{
    let chars = chars_of(s);
    let mut end: usize = chars.len();
    assert(chars@.take(end as int) =~= chars@);
    while end > 0 && chars[end - 1] == '/'
        invariant
            chars@ == s@,
            end <= chars@.len(),
            strip_trailing_slashes(s@) == strip_trailing_slashes(chars@.take(end as int)),
        decreases end,
    {
        assert(chars@.take(end as int).drop_last() =~= chars@.take(end - 1));
        end = end - 1;
    }
    let mut out = String::new();
    let mut i: usize = 0;
    while i < end
        invariant
            end <= chars@.len(),
            i <= end,
            out@ == chars@.take(i as int),
        decreases end - i,
    {
        push_char(&mut out, chars[i]);
        i = i + 1;
        assert(out@ =~= chars@.take(i as int));
    }
    out
}

/// The endpoint of a request under another base URL.
pub open spec fn rebased_url(base_url: Seq<char>, cds: Seq<char>, dashboard_year_id: u8) -> Seq<char> {
    strip_trailing_slashes(base_url) + "/"@ + cds + "/"@ + decimal(dashboard_year_id as nat)
        + "/SummaryCards"@
}

/// Points every request at `base_url`, keeping its school, year and
/// Dashboard year identifier. Only an operator-configured test server is
/// used here; API callers cannot choose it.
pub fn apply_base_url(specs: &mut Vec<FetchSpec>, base_url: &str)
    ensures
        final(specs)@.len() == old(specs)@.len(),
        forall|i: int|
            0 <= i < old(specs)@.len() ==> {
                &&& (#[trigger] final(specs)@[i]).school == old(specs)@[i].school
                &&& final(specs)@[i].year == old(specs)@[i].year
                &&& final(specs)@[i].dashboard_year_id == old(specs)@[i].dashboard_year_id
                &&& final(specs)@[i].url@ == rebased_url(
                    base_url@,
                    old(specs)@[i].school.cds_code@,
                    old(specs)@[i].dashboard_year_id,
                )
            },
{
    let base = strip_slashes(base_url);
    let mut i: usize = 0;
    while i < specs.len()
        invariant
            base@ == strip_trailing_slashes(base_url@),
            i <= specs@.len(),
            specs@.len() == old(specs)@.len(),
            forall|k: int| i <= k < specs@.len() ==> #[trigger] specs@[k] == old(specs)@[k],
            forall|k: int|
                0 <= k < i ==> {
                    &&& (#[trigger] specs@[k]).school == old(specs)@[k].school
                    &&& specs@[k].year == old(specs)@[k].year
                    &&& specs@[k].dashboard_year_id == old(specs)@[k].dashboard_year_id
                    &&& specs@[k].url@ == rebased_url(
                        base_url@,
                        old(specs)@[k].school.cds_code@,
                        old(specs)@[k].dashboard_year_id,
                    )
                },
        decreases specs@.len() - i,
    {
        let mut spec = specs[i].clone();
        let mut url = base.clone();
        push_str(&mut url, "/");
        push_str(&mut url, spec.school.cds_code.as_str());
        push_str(&mut url, "/");
        push_decimal(&mut url, spec.dashboard_year_id as u64);
        push_str(&mut url, "/SummaryCards");
        spec.url = url;
        specs.set(i, spec);
        i = i + 1;
    }
}

/// A configured base URL with surrounding whitespace and trailing slashes
/// removed; an empty result is no override.
pub open spec fn normalized_base(url: Option<Seq<char>>) -> Option<Seq<char>> {
    match url {
        Some(u) => if strip_trailing_slashes(trim(u)).len() > 0 {
            Some(strip_trailing_slashes(trim(u)))
        } else {
            None
        },
        None => None,
    }
}

/// Normalizes an operator-configured base URL.
pub fn normalize_base_url(url: Option<String>) -> (r: Option<String>)
    ensures
        crate::model::opt_view(r) == normalized_base(crate::model::opt_view(url)),
{
    match url {
        Some(u) => {
            let t = trim_string(u.as_str());
            let s = strip_slashes(t.as_str());
            if s.unicode_len() > 0 {
                Some(s)
            } else {
                None
            }
        },
        None => None,
    }
}

// ------------------------------------------------------------------------
// Job identifiers
// ------------------------------------------------------------------------

/// The lowercase hexadecimal digit of `d < 16`.
pub open spec fn nibble(d: nat) -> char {
    if d < 10 {
        ((d + 48) as u8) as char
    } else {
        ((d + 87) as u8) as char
    }
}

/// The lowercase hexadecimal numeral of `n`, as `{:x}` writes it.
pub open spec fn hex_numeral(n: nat) -> Seq<char>
    decreases n,
{
    if n < 16 {
        seq![nibble(n)]
    } else {
        hex_numeral(n / 16).push(nibble(n % 16))
    }
}

fn hex_digits(n: u128) -> (r: Vec<char>)
    ensures
        r@ == hex_numeral(n as nat),
    decreases n,
{
    let d = (n % 16) as u8;
    let c: char = if d < 10 {
        (d + 48) as char
    } else {
        (d + 87) as char
    };
    if n < 16 {
        let mut r: Vec<char> = Vec::new();
        r.push(c);
        assert(r@ =~= seq![nibble(n as nat)]);
        r
    } else {
        let mut r = hex_digits(n / 16);
        r.push(c);
        r
    }
}

/// The identifier of a job created at `millis` with sequence number `sequence`.
pub open spec fn job_id_text(millis: u128, sequence: u64) -> Seq<char> {
    hex_numeral(millis as nat) + "-"@ + hex_numeral(sequence as nat)
}

/// A job identifier: the creation time and the sequence number, in hex.
pub fn job_id(millis: u128, sequence: u64) -> (id: String)
    ensures
        id@ == job_id_text(millis, sequence),
{
    let a = hex_digits(millis);
    let mut id = string_from(a.as_slice());
    push_str(&mut id, "-");
    let b = hex_digits(sequence as u128);
    crate::text::push_chars(&mut id, b.as_slice());
    id
}

// ------------------------------------------------------------------------
// Job progress
// ------------------------------------------------------------------------

/// Where a job stands.
#[derive(Debug, Clone, Copy, PartialEq, Eq, Structural)]
pub enum JobStatus {
    Queued,
    Running,
    Completed,
    Failed,
}

/// Counts of a job's pulls.
#[derive(Debug, Clone, Copy, PartialEq, Eq, Structural)]
pub struct JobProgress {
    pub completed: usize,
    pub total: usize,
    pub succeeded: usize,
    pub failed: usize,
}

impl JobProgress {
    /// A job of `total` pulls with none done.
    pub fn new(total: usize) -> (p: Self)
        ensures
            p == (JobProgress { completed: 0, total, succeeded: 0, failed: 0 }),
    {
        JobProgress { completed: 0, total, succeeded: 0, failed: 0 }
    }

    /// Records that `completed` pulls are done, `succeeded` of them
    /// successfully; completion never exceeds the total.
    pub fn record(&mut self, completed: usize, succeeded: usize)
        ensures
            final(self).total == old(self).total,
            final(self).completed == if completed < old(self).total {
                completed
            } else {
                old(self).total
            },
            final(self).succeeded == succeeded,
            final(self).failed == if completed >= succeeded {
                (completed - succeeded) as usize
            } else {
                0
            },
    {
        self.completed = if completed < self.total {
            completed
        } else {
            self.total
        };
        self.succeeded = succeeded;
        self.failed = if completed >= succeeded {
            completed - succeeded
        } else {
            0
        };
    }

    /// Records that every pull is done, `succeeded` of them successfully.
    pub fn finish(&mut self, succeeded: usize)
        ensures
            final(self).total == old(self).total,
            final(self).completed == old(self).total,
            final(self).succeeded == succeeded,
            final(self).failed == if old(self).total >= succeeded {
                (old(self).total - succeeded) as usize
            } else {
                0
            },
    {
        self.completed = self.total;
        self.succeeded = succeeded;
        self.failed = if self.total >= succeeded {
            self.total - succeeded
        } else {
            0
        };
    }
}

/// Whether a job has stopped.
pub open spec fn finished(s: JobStatus) -> bool {
    s == JobStatus::Completed || s == JobStatus::Failed
}

/// The job to forget when too many are kept: the earliest-created finished
/// job (the first of equally old ones), or none when no job has finished.
pub fn oldest_finished(jobs: &Vec<(u128, JobStatus)>) -> (r: Option<usize>)
    ensures
        match r {
            None => forall|j: int| 0 <= j < jobs@.len() ==> !finished(#[trigger] jobs@[j].1),
            Some(i) => {
                &&& i < jobs@.len()
                &&& finished(jobs@[i as int].1)
                &&& forall|j: int|
                    0 <= j < jobs@.len() && finished(#[trigger] jobs@[j].1) ==> jobs@[i as int].0
                        <= jobs@[j].0
                &&& forall|j: int|
                    0 <= j < i && finished(#[trigger] jobs@[j].1) ==> jobs@[i as int].0 < jobs@[j].0
            },
        },
{
    let mut best: Option<usize> = None;
    let mut k: usize = 0;
    while k < jobs.len()
        invariant
            k <= jobs@.len(),
            match best {
                None => forall|j: int| 0 <= j < k ==> !finished(#[trigger] jobs@[j].1),
                Some(i) => {
                    &&& i < k
                    &&& finished(jobs@[i as int].1)
                    &&& forall|j: int|
                        0 <= j < k && finished(#[trigger] jobs@[j].1) ==> jobs@[i as int].0
                            <= jobs@[j].0
                    &&& forall|j: int|
                        0 <= j < i && finished(#[trigger] jobs@[j].1) ==> jobs@[i as int].0 < jobs@[j].0
                },
            },
        decreases jobs@.len() - k,
    {
        let (created, status) = jobs[k];
        let done = match status {
            JobStatus::Completed => true,
            JobStatus::Failed => true,
            _ => false,
        };
        if done {
            match best {
                None => {
                    best = Some(k);
                },
                Some(i) => {
                    if created < jobs[i].0 {
                        best = Some(k);
                    }
                },
            }
        }
        k = k + 1;
    }
    best
}

// ------------------------------------------------------------------------
// Planning a job
// ------------------------------------------------------------------------

/// The distinct nonempty trimmed CDS codes of a request.
pub open spec fn requested_codes(codes: Seq<String>) -> Set<Seq<char>> {
    Set::new(
        |t: Seq<char>|
            t.len() > 0 && exists|i: int| 0 <= i < codes.len() && trim(#[trigger] codes[i]@) == t,
    )
}

/// The contents of a sequence of strings.
pub open spec fn code_views(v: Seq<String>) -> Seq<Seq<char>> {
    v.map_values(|t: String| t@)
}

/// Years strictly increasing.
pub open spec fn years_increasing(ys: Seq<u16>) -> bool {
    forall|a: int, b: int| 0 <= a < b < ys.len() ==> #[trigger] ys[a] < #[trigger] ys[b]
}

/// The nonempty trimmed codes, in request order.
pub fn trimmed_nonempty(codes: &Vec<String>) -> (r: Vec<String>)
    ensures
        code_views(r@).to_set() == requested_codes(codes@),
{
    let mut r: Vec<String> = Vec::new();
    let mut i: usize = 0;
    while i < codes.len()
        invariant
            i <= codes@.len(),
            forall|k: int| 0 <= k < r@.len() ==> (#[trigger] r@[k])@.len() > 0 && exists|j: int| 0 <= j < i && trim(codes@[j]@) == r@[k]@,
            forall|j: int| 0 <= j < i && trim(#[trigger] codes@[j]@).len() > 0 ==> exists|k: int| 0 <= k < r@.len() && r@[k]@ == trim(codes@[j]@),
        decreases codes@.len() - i,
    {
        let t = trim_string(codes[i].as_str());
        if t.unicode_len() > 0 {
            let ghost before = r@;
            r.push(t);
            assert forall|j: int| 0 <= j < i + 1 && trim(#[trigger] codes@[j]@).len() > 0 implies exists|k: int| 0 <= k < r@.len() && r@[k]@ == trim(codes@[j]@) by {
                if j < i {
                    let k = choose|k: int| 0 <= k < before.len() && before[k]@ == trim(codes@[j]@);
                    assert(r@[k] == before[k]);
                } else {
                    assert(r@[before.len() as int]@ == trim(codes@[j]@));
                }
            }
            assert forall|k: int| 0 <= k < r@.len() implies (#[trigger] r@[k])@.len() > 0 && exists|j: int| 0 <= j < i + 1 && trim(codes@[j]@) == r@[k]@ by {
                if k < before.len() {
                    assert(r@[k] == before[k]);
                } else {
                    assert(trim(codes@[i as int]@) == r@[k]@);
                }
            }
        }
        i = i + 1;
    }
    proof {
        let v = code_views(r@);
        assert forall|t: Seq<char>| v.to_set().contains(t) == requested_codes(codes@).contains(t) by {
            if v.contains(t) {
                let k = choose|k: int| 0 <= k < v.len() && v[k] == t;
                assert(r@[k]@ == t);
            }
            if requested_codes(codes@).contains(t) {
                let j = choose|j: int| 0 <= j < codes@.len() && trim(#[trigger] codes@[j]@) == t;
                let k = choose|k: int| 0 <= k < r@.len() && r@[k]@ == trim(codes@[j]@);
                assert(v[k] == t);
            }
        }
        assert(v.to_set() =~= requested_codes(codes@));
    }
    r
}

/// The years in increasing order with repeats removed.
pub fn sorted_unique_years(years: &Vec<u16>) -> (r: Vec<u16>)
    ensures
        years_increasing(r@),
        r@.to_set() == years@.to_set(),
{
    let mut out: Vec<u16> = Vec::new();
    let mut i: usize = 0;
    while i < years.len()
        invariant
            i <= years@.len(),
            years_increasing(out@),
            out@.to_set() == years@.take(i as int).to_set(),
        decreases years@.len() - i,
    {
        let y = years[i];
        let mut pos: usize = 0;
        while pos < out.len() && out[pos] < y
            invariant
                pos <= out@.len(),
                forall|a: int| 0 <= a < pos ==> #[trigger] out@[a] < y,
            decreases out@.len() - pos,
        {
            pos = pos + 1;
        }
        let ghost before = out@;
        if pos < out.len() && out[pos] == y {
            assert(years@.take(i + 1) =~= years@.take(i as int).push(y));
            assert(out@.to_set() =~= years@.take(i + 1).to_set()) by {
                assert(before.contains(y));
            }
        } else {
            out.insert(pos, y);
            assert(years@.take(i + 1) =~= years@.take(i as int).push(y));
            assert forall|a: int, b: int| 0 <= a < b < out@.len() implies #[trigger] out@[a] < #[trigger] out@[b] by {
                if a < pos && b < pos {
                    assert(out@[a] == before[a] && out@[b] == before[b]);
                } else if a < pos && b == pos {
                    assert(out@[a] == before[a]);
                } else if a < pos {
                    assert(out@[a] == before[a] && out@[b] == before[b - 1]);
                } else if a == pos {
                    assert(out@[b] == before[b - 1]);
                    assert(before[pos as int] >= y);
                    if b - 1 > pos {
                        assert(before[pos as int] < before[b - 1]);
                    }
                } else {
                    assert(out@[a] == before[a - 1] && out@[b] == before[b - 1]);
                }
            }
            proof {
                let prev = years@.take(i as int);
                let next = years@.take(i + 1);
                assert forall|v: u16| out@.to_set().contains(v) == next.to_set().contains(v) by {
                    let in_out = out@.contains(v);
                    let in_before = before.contains(v);
                    if in_out {
                        let a = choose|a: int| 0 <= a < out@.len() && out@[a] == v;
                        if a < pos {
                            assert(before[a] == v);
                        } else if a > pos {
                            assert(before[a - 1] == v);
                        }
                    }
                    if in_before {
                        let a = choose|a: int| 0 <= a < before.len() && before[a] == v;
                        if a < pos {
                            assert(out@[a] == v);
                        } else {
                            assert(out@[a + 1] == v);
                        }
                    }
                    if v == y {
                        assert(out@[pos as int] == y);
                        assert(next[i as int] == y);
                    }
                    assert(in_out == (in_before || v == y));
                    assert(before.to_set().contains(v) == prev.to_set().contains(v));
                    if prev.contains(v) {
                        let a = choose|a: int| 0 <= a < prev.len() && prev[a] == v;
                        assert(next[a] == v);
                    }
                    if next.contains(v) {
                        let a = choose|a: int| 0 <= a < next.len() && next[a] == v;
                        if a < i {
                            assert(prev[a] == v);
                        }
                    }
                    assert(next.contains(v) == (prev.contains(v) || v == y));
                }
                assert(out@.to_set() =~= next.to_set());
            }
        }
        i = i + 1;
    }
    assert(years@.take(years@.len() as int) =~= years@);
    out
}

/// What a planned job pulls: its schools (unless all active schools are
/// pulled), its years, and the number of pulls.
#[derive(Debug)]
pub struct JobPlan {
    pub cds_codes: Vec<String>,
    pub years: Vec<u16>,
    pub total: usize,
}

/// The first broken rule of pull settings, if any.
pub open spec fn settings_problem(concurrency: usize, rate_in_range: bool, timeout_seconds: u64) -> Option<
    Seq<char>,
> {
    if !(1 <= concurrency && concurrency <= 64) {
        Some("concurrency must be between 1 and 64"@)
    } else if !rate_in_range {
        Some("requests_per_second must be between 1 and 1000"@)
    } else if !(1 <= timeout_seconds && timeout_seconds <= 120) {
        Some("timeout_seconds must be between 1 and 120"@)
    } else {
        None
    }
}

/// Checks pull settings: concurrency 1 through 64, a finite request rate
/// from 1 through 1000 (`rate_in_range`), and a timeout of 1 through 120
/// seconds.
pub fn check_pull_settings(concurrency: usize, rate_in_range: bool, timeout_seconds: u64) -> (r: Result<(), String>)
    ensures
        match settings_problem(concurrency, rate_in_range, timeout_seconds) {
            None => r is Ok,
            Some(m) => r matches Err(e) && e@ == m,
        },
{
    if !(1 <= concurrency && concurrency <= 64) {
        return Err(owned("concurrency must be between 1 and 64"));
    }
    if !rate_in_range {
        return Err(owned("requests_per_second must be between 1 and 1000"));
    }
    if !(1 <= timeout_seconds && timeout_seconds <= 120) {
        return Err(owned("timeout_seconds must be between 1 and 120"));
    }
    Ok(())
}

/// The first reason a job request is refused, if any: explicit schools
/// together with all schools, no school, no year, bad settings, more pulls
/// than a machine word holds, or more than `MAX_JOB_REQUESTS` pulls.
pub open spec fn job_problem(
    n_codes: nat,
    all_schools: bool,
    n_years: nat,
    concurrency: usize,
    rate_in_range: bool,
    timeout_seconds: u64,
    school_count: usize,
) -> Option<Seq<char>> {
    let total = (if all_schools {
        school_count as nat
    } else {
        n_codes
    }) * n_years;
    if all_schools && n_codes > 0 {
        Some("choose either explicit schools or all active schools, not both"@)
    } else if !all_schools && n_codes == 0 {
        Some("choose at least one school"@)
    } else if n_years == 0 {
        Some("choose at least one reporting year"@)
    } else if settings_problem(concurrency, rate_in_range, timeout_seconds) is Some {
        settings_problem(concurrency, rate_in_range, timeout_seconds)
    } else if total > usize::MAX {
        Some("the requested job is too large"@)
    } else if total > MAX_JOB_REQUESTS {
        Some(
            "the requested job has "@ + decimal(total) + " pulls; the local safety limit is "@
                + decimal(MAX_JOB_REQUESTS as nat),
        )
    } else {
        None
    }
}

/// A strictly increasing list repeats no text.
pub proof fn lemma_increasing_no_duplicates(names: Seq<Seq<char>>)
    requires
        strictly_increasing(names),
    ensures
        names.no_duplicates(),
{
    assert forall|a: int, b: int| 0 <= a < names.len() && 0 <= b < names.len() && a != b implies names[a] != names[b] by {
        if a < b {
            assert(key_lt(text_key(names[a]), text_key(names[b])));
        } else {
            assert(key_lt(text_key(names[b]), text_key(names[a])));
        }
        lemma_key_total(text_key(names[a]), text_key(names[a]));
    }
}

/// Validates and plans a pull job: explicit CDS codes are trimmed, blanks
/// dropped, repeats removed and sorted; years are deduplicated and sorted.
pub fn plan_job(
    cds_codes: &Vec<String>,
    all_schools: bool,
    years: &Vec<u16>,
    concurrency: usize,
    rate_in_range: bool,
    timeout_seconds: u64,
    school_count: usize,
) -> (r: Result<JobPlan, String>)
    ensures
        match job_problem(
            requested_codes(cds_codes@).len(),
            all_schools,
            years@.to_set().len(),
            concurrency,
            rate_in_range,
            timeout_seconds,
            school_count,
        ) {
            Some(m) => r matches Err(e) && e@ == m,
            None => r matches Ok(plan) && {
                &&& strictly_increasing(code_views(plan.cds_codes@))
                &&& code_views(plan.cds_codes@).to_set() == requested_codes(cds_codes@)
                &&& years_increasing(plan.years@)
                &&& plan.years@.to_set() == years@.to_set()
                &&& plan.total == (if all_schools {
                    school_count as nat
                } else {
                    plan.cds_codes@.len()
                }) * plan.years@.len()
            },
        },
{
    let trimmed = trimmed_nonempty(cds_codes);
    let codes = crate::resolver::sorted_unique_texts(&trimmed);
    let ys = sorted_unique_years(years);
    proof {
        lemma_increasing_no_duplicates(code_views(codes@));
        code_views(codes@).unique_seq_to_set();
        assert(code_views(codes@).len() == codes@.len());
        assert(ys@.no_duplicates()) by {
            assert forall|a: int, b: int| 0 <= a < ys@.len() && 0 <= b < ys@.len() && a != b implies ys@[a] != ys@[b] by {
                if a < b {
                    assert(ys@[a] < ys@[b]);
                } else {
                    assert(ys@[b] < ys@[a]);
                }
            }
        }
        ys@.unique_seq_to_set();
    }
    let n_codes = codes.len();
    let n_years = ys.len();
    if all_schools && n_codes > 0 {
        return Err(owned("choose either explicit schools or all active schools, not both"));
    }
    if !all_schools && n_codes == 0 {
        return Err(owned("choose at least one school"));
    }
    if n_years == 0 {
        return Err(owned("choose at least one reporting year"));
    }
    match check_pull_settings(concurrency, rate_in_range, timeout_seconds) {
        Err(e) => {
            return Err(e);
        },
        Ok(()) => {},
    }
    let per_year: usize = if all_schools {
        school_count
    } else {
        n_codes
    };
    let total = match per_year.checked_mul(n_years) {
        Some(t) => t,
        None => {
            return Err(owned("the requested job is too large"));
        },
    };
    if total > MAX_JOB_REQUESTS {
        let mut message = owned("the requested job has ");
        push_decimal(&mut message, total as u64);
        push_str(&mut message, " pulls; the local safety limit is ");
        push_decimal(&mut message, MAX_JOB_REQUESTS as u64);
        return Err(message);
    }
    Ok(JobPlan { cds_codes: codes, years: ys, total })
}

} // verus!
