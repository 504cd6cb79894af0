//! Rendering pieces shared by every export of the canonical report: the
//! column set, spreadsheet-safe and HTML-safe text, the fixed report text,
//! word wrapping, WinAnsi text for PDF literals, and the PDF file layout.
//!
//! A missing value renders as an empty cell; a valid zero is kept.

use vstd::prelude::*;

use crate::model::opt_view;
use crate::statistics::{log_views, reason_code, row_views, texts, CanonicalRow, DataQuality, FavorableDirection, FetchLogEntry, FetchLogView, MissingReason, ReportModel, RowView};
use crate::text::{chars_of, decimal, owned, push_char, push_decimal, push_str};

verus! {

/// The four rendered artifacts of one report.
#[derive(Debug)]
pub struct ExportBundle {
    pub csv_bytes: Vec<u8>,
    pub xlsx_bytes: Vec<u8>,
    pub html_string: String,
    pub pdf_bytes: Vec<u8>,
}

// ------------------------------------------------------------------------
// Spreadsheet-safe text
// ------------------------------------------------------------------------

/// A first character that a spreadsheet would read as the start of a formula.
pub open spec fn formula_lead(c: char) -> bool {
    c == '=' || c == '+' || c == '-' || c == '@' || c == '\t' || c == '\r'
}

/// The text with an apostrophe in front when it would start a formula.
pub open spec fn csv_safe(text: Seq<char>) -> Seq<char> {
    if text.len() > 0 && formula_lead(text[0]) {
        seq!['\''] + text
    } else {
        text
    }
}

/// Prevents spreadsheet programs from reading untrusted text as a formula.
pub fn csv_safe_text(text: &str) -> (r: String)
    ensures
        r@ == csv_safe(text@),
{
    let n = text.unicode_len();
    if n > 0 {
        let first = text.get_char(0);
        if first == '=' || first == '+' || first == '-' || first == '@' || first == '\t' || first
            == '\r' {
            let mut r = String::new();
            push_char(&mut r, '\'');
            push_str(&mut r, text);
            assert(r@ =~= seq!['\''] + text@);
            return r;
        }
    }
    owned(text)
}

/// The lowercase word for a favorable direction.
pub open spec fn direction_word(d: FavorableDirection) -> Seq<char> {
    match d {
        FavorableDirection::Higher => "higher"@,
        FavorableDirection::Lower => "lower"@,
    }
}

/// The lowercase word for a favorable direction, as the exports write it.
pub fn favorable_direction_word(direction: FavorableDirection) -> (w: &'static str)
    ensures
        w@ == direction_word(direction),
{
    match direction {
        FavorableDirection::Higher => "higher",
        FavorableDirection::Lower => "lower",
    }
}

/// The plural suffix for a count: empty for exactly one, "s" otherwise.
pub open spec fn plural_suffix(count: usize) -> Seq<char> {
    if count == 1 {
        ""@
    } else {
        "s"@
    }
}

/// The plural suffix for a count.
pub fn plural(count: usize) -> (s: &'static str)
    ensures
        s@ == plural_suffix(count),
{
    if count == 1 {
        ""
    } else {
        "s"
    }
}

// ------------------------------------------------------------------------
// HTML-safe text
// ------------------------------------------------------------------------

/// The HTML rendering of one character.
pub open spec fn html_char(c: char) -> Seq<char> {
    if c == '&' {
        "&amp;"@
    } else if c == '<' {
        "&lt;"@
    } else if c == '>' {
        "&gt;"@
    } else if c == '"' {
        "&quot;"@
    } else if c == '\'' {
        "&#39;"@
    } else {
        seq![c]
    }
}

/// The text with the five HTML-special characters escaped.
pub open spec fn html_escaped(text: Seq<char>) -> Seq<char>
    decreases text.len(),
{
    if text.len() == 0 {
        Seq::empty()
    } else {
        html_escaped(text.drop_last()) + html_char(text.last())
    }
}

/// Escapes text for HTML element content and attribute values.
pub fn escape_html(text: &str) -> (r: String)
    ensures
        r@ == html_escaped(text@),
{
    let chars = chars_of(text);
    let mut out = String::new();
    let mut i: usize = 0;
    while i < chars.len()
        invariant
            chars@ == text@,
            i <= chars@.len(),
            out@ == html_escaped(chars@.take(i as int)),
        decreases chars@.len() - i,
    {
        let c = chars[i];
        if c == '&' {
            push_str(&mut out, "&amp;");
        } else if c == '<' {
            push_str(&mut out, "&lt;");
        } else if c == '>' {
            push_str(&mut out, "&gt;");
        } else if c == '"' {
            push_str(&mut out, "&quot;");
        } else if c == '\'' {
            push_str(&mut out, "&#39;");
        } else {
            push_char(&mut out, c);
        }
        assert(chars@.take(i + 1).drop_last() =~= chars@.take(i as int));
        assert(out@ =~= html_escaped(chars@.take(i + 1)));
        i = i + 1;
    }
    assert(chars@.take(chars@.len() as int) =~= chars@);
    out
}

// ------------------------------------------------------------------------
// WinAnsi text for PDF literals
// ------------------------------------------------------------------------

/// The WinAnsiEncoding byte of a character: the common typographic
/// punctuation of the 0x80–0x9F block, printable ASCII and the shared
/// Latin-1 range pass through, and anything else becomes `?`.
pub open spec fn winansi(c: char) -> u8 {
    if c == '\u{2022}' {
        0x95
    } else if c == '\u{2013}' {
        0x96
    } else if c == '\u{2014}' {
        0x97
    } else if c == '\u{2018}' {
        0x91
    } else if c == '\u{2019}' {
        0x92
    } else if c == '\u{201C}' {
        0x93
    } else if c == '\u{201D}' {
        0x94
    } else if c == '\u{2026}' {
        0x85
    } else if c == '\u{2020}' {
        0x86
    } else if c == '\u{2021}' {
        0x87
    } else if c == '\u{2030}' {
        0x89
    } else if c == '\u{2122}' {
        0x99
    } else if c == '\u{20AC}' {
        0x80
    } else if (0x20 <= (c as u32) && (c as u32) <= 0x7E) || (0xA0 <= (c as u32) && (c as u32)
        <= 0xFF) {
        (c as u32) as u8
    } else {
        0x3F
    }
}

/// Maps a character to its WinAnsiEncoding byte.
pub fn winansi_byte(character: char) -> (b: u8)
    ensures
        b == winansi(character),
{
    if character == '\u{2022}' {
        0x95
    } else if character == '\u{2013}' {
        0x96
    } else if character == '\u{2014}' {
        0x97
    } else if character == '\u{2018}' {
        0x91
    } else if character == '\u{2019}' {
        0x92
    } else if character == '\u{201C}' {
        0x93
    } else if character == '\u{201D}' {
        0x94
    } else if character == '\u{2026}' {
        0x85
    } else if character == '\u{2020}' {
        0x86
    } else if character == '\u{2021}' {
        0x87
    } else if character == '\u{2030}' {
        0x89
    } else if character == '\u{2122}' {
        0x99
    } else if character == '\u{20AC}' {
        0x80
    } else {
        let code = character as u32;
        if (0x20 <= code && code <= 0x7E) || (0xA0 <= code && code <= 0xFF) {
            code as u8
        } else {
            0x3F
        }
    }
}

/// The bytes of one character in a PDF string literal: a backslash and the
/// two parentheses are escaped; every other character is its WinAnsi byte.
pub open spec fn pdf_char(c: char) -> Seq<u8> {
    if c == '\\' {
        seq![0x5Cu8, 0x5Cu8]
    } else if c == '(' {
        seq![0x5Cu8, 0x28u8]
    } else if c == ')' {
        seq![0x5Cu8, 0x29u8]
    } else {
        seq![winansi(c)]
    }
}

/// The bytes of a text in a PDF string literal.
pub open spec fn pdf_literal(text: Seq<char>) -> Seq<u8>
    decreases text.len(),
{
    if text.len() == 0 {
        Seq::empty()
    } else {
        pdf_literal(text.drop_last()) + pdf_char(text.last())
    }
}

/// Escapes a text for a PDF string literal in WinAnsi bytes.
pub fn escape_pdf_text(text: &str) -> (bytes: Vec<u8>)
    ensures
        bytes@ == pdf_literal(text@),
{
    let chars = chars_of(text);
    let mut bytes: Vec<u8> = Vec::new();
    let mut i: usize = 0;
    while i < chars.len()
        invariant
            chars@ == text@,
            i <= chars@.len(),
            bytes@ == pdf_literal(chars@.take(i as int)),
        decreases chars@.len() - i,
    {
        let c = chars[i];
        if c == '\\' {
            bytes.push(0x5C);
            bytes.push(0x5C);
        } else if c == '(' {
            bytes.push(0x5C);
            bytes.push(0x28);
        } else if c == ')' {
            bytes.push(0x5C);
            bytes.push(0x29);
        } else {
            bytes.push(winansi_byte(c));
        }
        assert(chars@.take(i + 1).drop_last() =~= chars@.take(i as int));
        assert(bytes@ =~= pdf_literal(chars@.take(i + 1)));
        i = i + 1;
    }
    assert(chars@.take(chars@.len() as int) =~= chars@);
    bytes
}

// ------------------------------------------------------------------------
// Fixed report text
// ------------------------------------------------------------------------

/// The limitations every rendered report states.
pub open spec fn spec_limitations() -> Seq<Seq<char>> {
    seq![
        "These values are administrative, observational aggregates, not a random sample; no inferential statistics are produced."@,
        "School populations, grade spans, and enrolled students can change between years, so a line across years is not a longitudinal student-cohort analysis."@,
        "Missing or suppressed values may be nonrandom and are excluded rather than imputed."@,
        "School-level aggregates can mask differences between student subgroups."@,
        "No standard errors, confidence intervals, p-values, effect sizes, rankings, or composite scores are reported because the SummaryCards do not supply the raw counts, variances, or independent sample those methods require."@,
        "The comparison (secondary) aggregate may include the selected school, which invalidates an independent two-sample test."@,
    ]
}

/// The contents of a sequence of static texts.
pub open spec fn str_views(v: Seq<&'static str>) -> Seq<Seq<char>> {
    v.map_values(|t: &'static str| t@)
}

/// The fixed limitation statements drawn from the statistical reporting policy.
pub fn limitation_statements() -> (v: Vec<&'static str>)
    ensures
        str_views(v@) == spec_limitations(),
{
    let mut v: Vec<&'static str> = Vec::new();
    v.push("These values are administrative, observational aggregates, not a random sample; no inferential statistics are produced.");
    v.push("School populations, grade spans, and enrolled students can change between years, so a line across years is not a longitudinal student-cohort analysis.");
    v.push("Missing or suppressed values may be nonrandom and are excluded rather than imputed.");
    v.push("School-level aggregates can mask differences between student subgroups.");
    v.push("No standard errors, confidence intervals, p-values, effect sizes, rankings, or composite scores are reported because the SummaryCards do not supply the raw counts, variances, or independent sample those methods require.");
    v.push("The comparison (secondary) aggregate may include the selected school, which invalidates an independent two-sample test.");
    assert(str_views(v@) =~= spec_limitations());
    v
}

/// The labelled data-quality counts in report order.
pub open spec fn spec_quality_metrics(q: DataQuality) -> Seq<(Seq<char>, u64)> {
    seq![
        ("Requests attempted"@, q.fetches_total as u64),
        ("Requests succeeded"@, q.fetches_succeeded as u64),
        ("Requests failed"@, q.fetches_failed as u64),
        ("Summary cards parsed"@, q.cards_total as u64),
        ("Rows generated"@, q.rows_total as u64),
        ("Rows with a reportable value"@, q.rows_reported as u64),
        ("Rows suppressed for privacy"@, q.rows_private as u64),
        ("Rows suppressed for a small denominator (<=10)"@, q.rows_small_n_suppressed as u64),
        ("Rows shown with a small-denominator caution (11-29)"@, q.rows_small_n_warning as u64),
        ("Rows missing for other reasons"@, q.rows_missing as u64),
        ("Comparators missing or suppressed"@, q.comparators_missing_or_suppressed as u64),
        ("Duplicate indicators encountered"@, q.duplicate_indicators as u64),
        ("Unexpected indicators retained"@, q.unexpected_indicators as u64),
    ]
}

/// The contents of labelled counts.
pub open spec fn metric_views(v: Seq<(&'static str, u64)>) -> Seq<(Seq<char>, u64)> {
    v.map_values(|m: (&'static str, u64)| (m.0@, m.1))
}

/// The data-quality counts with their labels, in report order.
pub fn quality_metrics(quality: &DataQuality) -> (v: Vec<(&'static str, u64)>)
    ensures
        metric_views(v@) == spec_quality_metrics(*quality),
{
    let mut v: Vec<(&'static str, u64)> = Vec::new();
    v.push(("Requests attempted", quality.fetches_total as u64));
    v.push(("Requests succeeded", quality.fetches_succeeded as u64));
    v.push(("Requests failed", quality.fetches_failed as u64));
    v.push(("Summary cards parsed", quality.cards_total as u64));
    v.push(("Rows generated", quality.rows_total as u64));
    v.push(("Rows with a reportable value", quality.rows_reported as u64));
    v.push(("Rows suppressed for privacy", quality.rows_private as u64));
    v.push(("Rows suppressed for a small denominator (<=10)", quality.rows_small_n_suppressed as u64));
    v.push(("Rows shown with a small-denominator caution (11-29)", quality.rows_small_n_warning as u64));
    v.push(("Rows missing for other reasons", quality.rows_missing as u64));
    v.push(("Comparators missing or suppressed", quality.comparators_missing_or_suppressed as u64));
    v.push(("Duplicate indicators encountered", quality.duplicate_indicators as u64));
    v.push(("Unexpected indicators retained", quality.unexpected_indicators as u64));
    assert(metric_views(v@) =~= spec_quality_metrics(*quality));
    v
}

/// The reporting years joined by ", ", or "none" when there are none.
pub open spec fn years_text(years: Seq<u16>) -> Seq<char>
    decreases years.len(),
{
    if years.len() == 0 {
        "none"@
    } else if years.len() == 1 {
        decimal(years[0] as nat)
    } else {
        years_text(years.drop_last()) + ", "@ + decimal(years.last() as nat)
    }
}

/// The reporting years as a phrase.
pub fn years_phrase(years: &[u16]) -> (s: String)
    ensures
        s@ == years_text(years@),
{
    if years.len() == 0 {
        return owned("none");
    }
    let mut s = String::new();
    push_decimal(&mut s, years[0] as u64);
    assert(years@.take(1) =~= seq![years@[0]]);
    assert(s@ =~= years_text(years@.take(1))) by {
        reveal_strlit("");
        assert(years_text(years@.take(1)) == decimal(years@[0] as nat));
    }
    let mut i: usize = 1;
    while i < years.len()
        invariant
            1 <= i <= years@.len(),
            s@ == years_text(years@.take(i as int)),
        decreases years@.len() - i,
    {
        push_str(&mut s, ", ");
        push_decimal(&mut s, years[i] as u64);
        assert(years@.take(i + 1).drop_last() =~= years@.take(i as int));
        assert(s@ =~= years_text(years@.take(i + 1)));
        i = i + 1;
    }
    assert(years@.take(years@.len() as int) =~= years@);
    s
}

// ------------------------------------------------------------------------
// Word wrapping
// ------------------------------------------------------------------------

/// `s` cut into pieces of `m` characters, the last one possibly shorter.
pub open spec fn chunks(s: Seq<char>, m: nat) -> Seq<Seq<char>>
    decreases s.len(),
{
    if s.len() == 0 || m == 0 {
        Seq::empty()
    } else if s.len() <= m {
        seq![s]
    } else {
        seq![s.take(m as int)] + chunks(s.skip(m as int), m)
    }
}

/// The contents of a sequence of strings.
pub open spec fn string_views(v: Seq<String>) -> Seq<Seq<char>> {
    v.map_values(|t: String| t@)
}

/// Splits a word into pieces of at most `max_chars` characters.
pub fn hard_split(word: &str, max_chars: usize) -> (pieces: Vec<String>)
    requires
        max_chars > 0,
    ensures
        string_views(pieces@) == chunks(word@, max_chars as nat),
{
    let chars = chars_of(word);
    let n = chars.len();
    let mut pieces: Vec<String> = Vec::new();
    let mut i: usize = 0;
    assert(chars@.skip(0) =~= chars@);
    assert(string_views(pieces@) =~= Seq::<Seq<char>>::empty());
    assert(string_views(pieces@) + chunks(chars@.skip(0), max_chars as nat) =~= chunks(chars@, max_chars as nat));
    while i < n
        invariant
            chars@ == word@,
            n == chars@.len(),
            max_chars > 0,
            i <= n,
            string_views(pieces@) + chunks(chars@.skip(i as int), max_chars as nat) == chunks(
                chars@,
                max_chars as nat,
            ),
        decreases n - i,
    {
        let end: usize = if n - i > max_chars { i + max_chars } else { n };
        let mut piece = String::new();
        let mut j: usize = i;
        while j < end
            invariant
                i <= j <= end <= n,
                n == chars@.len(),
                piece@ == chars@.subrange(i as int, j as int),
            decreases end - j,
        {
            push_char(&mut piece, chars[j]);
            j = j + 1;
            assert(piece@ =~= chars@.subrange(i as int, j as int));
        }
        let ghost rest = chars@.skip(i as int);
        let ghost before = string_views(pieces@);
        pieces.push(piece);
        proof {
            if n - i > max_chars {
                assert(rest.take(max_chars as int) =~= chars@.subrange(i as int, end as int));
                assert(rest.skip(max_chars as int) =~= chars@.skip(end as int));
            } else {
                assert(rest =~= chars@.subrange(i as int, end as int));
                assert(chars@.skip(end as int) =~= Seq::<char>::empty());
            }
            assert(string_views(pieces@) =~= before.push(chars@.subrange(i as int, end as int)));
            assert(string_views(pieces@) + chunks(chars@.skip(end as int), max_chars as nat)
                =~= before + chunks(rest, max_chars as nat));
        }
        i = end;
    }
    assert(chars@.skip(n as int) =~= Seq::<char>::empty());
    assert(string_views(pieces@) =~= string_views(pieces@) + chunks(chars@.skip(n as int), max_chars as nat));
    pieces
}

/// The lines and the open line after greedily placing the words.
pub open spec fn wrap_state(ws: Seq<Seq<char>>, m: nat) -> (Seq<Seq<char>>, Seq<char>)
    decreases ws.len(),
{
    if ws.len() == 0 {
        (Seq::empty(), Seq::empty())
    } else {
        let st = wrap_state(ws.drop_last(), m);
        let lines = st.0;
        let cur = st.1;
        let w = ws.last();
        if w.len() > m {
            (
                (if cur.len() > 0 {
                    lines.push(cur)
                } else {
                    lines
                }) + chunks(w, m),
                Seq::empty(),
            )
        } else if cur.len() == 0 {
            (lines, w)
        } else if cur.len() + 1 + w.len() <= m {
            (lines, cur + seq![' '] + w)
        } else {
            (lines.push(cur), w)
        }
    }
}

/// The words of `text` wrapped greedily into lines of at most `m` characters;
/// a word longer than a line is split; an empty text gives one empty line.
pub open spec fn wrapped(text: Seq<char>, m: nat) -> Seq<Seq<char>> {
    let st = wrap_state(crate::text::words(text), m);
    let all = if st.1.len() > 0 {
        st.0.push(st.1)
    } else {
        st.0
    };
    if all.len() == 0 {
        seq![Seq::empty()]
    } else {
        all
    }
}

fn append_strings(lines: &mut Vec<String>, more: Vec<String>)
    ensures
        string_views(final(lines)@) == string_views(old(lines)@) + string_views(more@),
{
    let ghost start = string_views(lines@);
    let mut i: usize = 0;
    while i < more.len()
        invariant
            i <= more@.len(),
            string_views(lines@) == start + string_views(more@).take(i as int),
        decreases more@.len() - i,
    {
        let ghost before = lines@;
        lines.push(more[i].clone());
        assert(lines@ == before.push(lines@.last()));
        assert(string_views(lines@) =~= string_views(before).push(more@[i as int]@));
        assert(string_views(more@).take(i + 1) =~= string_views(more@).take(i as int).push(more@[i as int]@));
        i = i + 1;
        assert(string_views(lines@) =~= start + string_views(more@).take(i as int));
    }
    assert(string_views(more@).take(more@.len() as int) =~= string_views(more@));
}

/// Wraps the words of `text` greedily into lines of at most `max_chars`
/// characters, splitting any longer word.
pub fn wrap_words(text: &str, max_chars: usize) -> (lines: Vec<String>)
    requires
        max_chars > 0,
    ensures
        string_views(lines@) == wrapped(text@, max_chars as nat),
{
    let chars = chars_of(text);
    let ws = crate::text::split_words(chars.as_slice());
    let ghost wv = ws@.map_values(|w: Vec<char>| w@);
    let m = max_chars;
    let mut lines: Vec<String> = Vec::new();
    let mut cur = String::new();
    let mut i: usize = 0;
    while i < ws.len()
        invariant
            wv == ws@.map_values(|w: Vec<char>| w@),
            wv == crate::text::words(text@),
            m > 0,
            i <= ws@.len(),
            (string_views(lines@), cur@) == wrap_state(wv.take(i as int), m as nat),
        decreases ws@.len() - i,
    {
        assert(wv.take(i + 1).drop_last() =~= wv.take(i as int));
        assert(wv.take(i + 1).last() == ws@[i as int]@);
        let word = crate::text::string_from(ws[i].as_slice());
        let wlen = ws[i].len();
        let clen = cur.unicode_len();
        if wlen > m {
            if clen > 0 {
                lines.push(cur);
            }
            let pieces = hard_split(word.as_str(), m);
            append_strings(&mut lines, pieces);
            cur = String::new();
        } else if clen == 0 {
            cur = word;
        } else if clen < m && wlen <= m - clen - 1 {
            push_char(&mut cur, ' ');
            push_str(&mut cur, word.as_str());
        } else {
            lines.push(cur);
            cur = word;
        }
        i = i + 1;
    }
    assert(wv.take(ws@.len() as int) =~= wv);
    if cur.unicode_len() > 0 {
        lines.push(cur);
    }
    if lines.len() == 0 {
        lines.push(String::new());
        assert(string_views(lines@) =~= seq![Seq::<char>::empty()]);
    }
    lines
}

proof fn lemma_chunks_fit(s: Seq<char>, m: nat)
    requires
        m > 0,
    ensures
        forall|k: int| 0 <= k < chunks(s, m).len() ==> #[trigger] chunks(s, m)[k].len() <= m,
    decreases s.len(),
{
    if s.len() > m {
        lemma_chunks_fit(s.skip(m as int), m);
        let c = chunks(s, m);
        let rest = chunks(s.skip(m as int), m);
        assert forall|k: int| 0 <= k < c.len() implies #[trigger] c[k].len() <= m by {
            if k > 0 {
                assert(c[k] == rest[k - 1]);
            }
        }
    }
}

proof fn lemma_wrap_state_fits(ws: Seq<Seq<char>>, m: nat)
    requires
        m > 0,
    ensures
        forall|k: int| 0 <= k < wrap_state(ws, m).0.len() ==> #[trigger] wrap_state(ws, m).0[k].len() <= m,
        wrap_state(ws, m).1.len() <= m,
    decreases ws.len(),
{
    if ws.len() > 0 {
        lemma_wrap_state_fits(ws.drop_last(), m);
        let st = wrap_state(ws.drop_last(), m);
        let w = ws.last();
        if w.len() > m {
            lemma_chunks_fit(w, m);
            let head = if st.1.len() > 0 {
                st.0.push(st.1)
            } else {
                st.0
            };
            let all = head + chunks(w, m);
            assert forall|k: int| 0 <= k < all.len() implies #[trigger] all[k].len() <= m by {
                if k < head.len() {
                    assert(all[k] == head[k]);
                    if k < st.0.len() {
                        assert(head[k] == st.0[k]);
                    }
                } else {
                    assert(all[k] == chunks(w, m)[k - head.len()]);
                }
            }
        } else if st.1.len() > 0 && st.1.len() + 1 + w.len() > m {
            let all = st.0.push(st.1);
            assert forall|k: int| 0 <= k < all.len() implies #[trigger] all[k].len() <= m by {
                if k < st.0.len() {
                    assert(all[k] == st.0[k]);
                }
            }
        }
    }
}

/// Every wrapped line holds at most `m` characters.
pub proof fn law_wrapped_lines_fit(text: Seq<char>, m: nat)
    requires
        m > 0,
    ensures
        forall|k: int| 0 <= k < wrapped(text, m).len() ==> #[trigger] wrapped(text, m)[k].len() <= m,
{
    let ws = crate::text::words(text);
    lemma_wrap_state_fits(ws, m);
    let st = wrap_state(ws, m);
    let all = if st.1.len() > 0 {
        st.0.push(st.1)
    } else {
        st.0
    };
    assert forall|k: int| 0 <= k < all.len() implies #[trigger] all[k].len() <= m by {
        if k < st.0.len() {
            assert(all[k] == st.0[k]);
        }
    }
}

// ------------------------------------------------------------------------
// The column set
// ------------------------------------------------------------------------

/// The ordered column names shared by CSV, Excel and HTML.
pub open spec fn spec_headers() -> Seq<Seq<char>> {
    seq![
        "trace_id"@,
        "school_name"@,
        "cds_code"@,
        "year"@,
        "dashboard_year_id"@,
        "indicator_id"@,
        "category"@,
        "indicator_name"@,
        "status_unit"@,
        "change_unit"@,
        "favorable_direction"@,
        "status"@,
        "official_change"@,
        "change_id"@,
        "status_id"@,
        "performance"@,
        "total_groups"@,
        "red"@,
        "orange"@,
        "yellow"@,
        "green"@,
        "blue"@,
        "count"@,
        "student_group"@,
        "comparator_status"@,
        "comparator_count"@,
        "raw_comparator_gap"@,
        "favorable_comparator_gap"@,
        "missing_reason"@,
        "comparator_missing_reason"@,
        "small_n_warning"@,
        "comparator_small_n_warning"@,
        "year_caveat"@,
        "informational_only"@,
        "source_url"@,
        "retrieved_at_utc"@,
        "payload_sha256"@,
        "method_version"@,
    ]
}

/// The ordered column names shared by CSV, Excel and HTML.
pub fn column_headers() -> (v: Vec<&'static str>)
    ensures
        str_views(v@) == spec_headers(),
{
    let mut v: Vec<&'static str> = Vec::new();
    v.push("trace_id");
    v.push("school_name");
    v.push("cds_code");
    v.push("year");
    v.push("dashboard_year_id");
    v.push("indicator_id");
    v.push("category");
    v.push("indicator_name");
    v.push("status_unit");
    v.push("change_unit");
    v.push("favorable_direction");
    v.push("status");
    v.push("official_change");
    v.push("change_id");
    v.push("status_id");
    v.push("performance");
    v.push("total_groups");
    v.push("red");
    v.push("orange");
    v.push("yellow");
    v.push("green");
    v.push("blue");
    v.push("count");
    v.push("student_group");
    v.push("comparator_status");
    v.push("comparator_count");
    v.push("raw_comparator_gap");
    v.push("favorable_comparator_gap");
    v.push("missing_reason");
    v.push("comparator_missing_reason");
    v.push("small_n_warning");
    v.push("comparator_small_n_warning");
    v.push("year_caveat");
    v.push("informational_only");
    v.push("source_url");
    v.push("retrieved_at_utc");
    v.push("payload_sha256");
    v.push("method_version");
    assert(str_views(v@) =~= spec_headers());
    v
}

/// One presentation cell; a missing value is `Empty`, never zero.
#[derive(Debug)]
pub enum Cell<N> {
    Empty,
    Text(String),
    Int(i64),
    Float(N),
    Bool(bool),
}

/// The contents of a cell.
pub enum CellView<N> {
    Empty,
    Text(Seq<char>),
    Int(i64),
    Float(N),
    Bool(bool),
}

impl<N> View for Cell<N> {
    type V = CellView<N>;

    open spec fn view(&self) -> CellView<N> {
        match self {
            Cell::Empty => CellView::Empty,
            Cell::Text(t) => CellView::Text(t@),
            Cell::Int(i) => CellView::Int(*i),
            Cell::Float(x) => CellView::Float(*x),
            Cell::Bool(b) => CellView::Bool(*b),
        }
    }
}

/// A text cell, empty for an absent or empty text.
pub open spec fn text_cell<N>(t: Option<Seq<char>>) -> CellView<N> {
    match t {
        Some(s) => if s.len() > 0 {
            CellView::Text(s)
        } else {
            CellView::Empty
        },
        None => CellView::Empty,
    }
}

/// A numeric cell holding a value of the report's number type.
pub open spec fn float_cell<N>(v: Option<N>) -> CellView<N> {
    match v {
        Some(x) => CellView::Float(x),
        None => CellView::Empty,
    }
}

/// An integer cell.
pub open spec fn i32_cell<N>(v: Option<i32>) -> CellView<N> {
    match v {
        Some(x) => CellView::Int(x as i64),
        None => CellView::Empty,
    }
}

/// An integer cell.
pub open spec fn u32_cell<N>(v: Option<u32>) -> CellView<N> {
    match v {
        Some(x) => CellView::Int(x as i64),
        None => CellView::Empty,
    }
}

/// An integer cell from an unsigned count.
pub open spec fn u64_cell<N>(v: Option<u64>) -> CellView<N> {
    match v {
        Some(x) => CellView::Int(x as i64),
        None => CellView::Empty,
    }
}

/// The code of a missing reason as a cell.
pub open spec fn reason_cell<N>(r: Option<MissingReason>) -> CellView<N> {
    match r {
        Some(m) => CellView::Text(reason_code(m)),
        None => CellView::Empty,
    }
}

impl<N: Copy> Cell<N> {
    /// A text cell, empty for an absent or empty text.
    pub fn opt_text(value: &Option<String>) -> (c: Self)
        ensures
            c@ == text_cell::<N>(opt_view(*value)),
    {
        match value {
            Some(text) => if text.unicode_len() > 0 {
                Cell::Text(text.clone())
            } else {
                Cell::Empty
            },
            None => Cell::Empty,
        }
    }

    /// A numeric cell.
    pub fn opt_float(value: Option<N>) -> (c: Self)
        ensures
            c@ == float_cell(value),
    {
        match value {
            Some(x) => Cell::Float(x),
            None => Cell::Empty,
        }
    }

    fn opt_i32(value: Option<i32>) -> (c: Self)
        ensures
            c@ == i32_cell::<N>(value),
    {
        match value {
            Some(x) => Cell::Int(x as i64),
            None => Cell::Empty,
        }
    }

    fn opt_u32(value: Option<u32>) -> (c: Self)
        ensures
            c@ == u32_cell::<N>(value),
    {
        match value {
            Some(x) => Cell::Int(x as i64),
            None => Cell::Empty,
        }
    }

    fn opt_u64(value: Option<u64>) -> (c: Self)
        ensures
            c@ == u64_cell::<N>(value),
    {
        match value {
            Some(x) => Cell::Int(x as i64),
            None => Cell::Empty,
        }
    }

    fn reason(value: Option<MissingReason>) -> (c: Self)
        ensures
            c@ == reason_cell::<N>(value),
    {
        match value {
            Some(m) => Cell::Text(owned(m.code())),
            None => Cell::Empty,
        }
    }

    /// Whether the cell holds no value.
    pub fn is_empty(&self) -> (r: bool)
        ensures
            r == (self@ is Empty),
    {
        match self {
            Cell::Empty => true,
            _ => false,
        }
    }
}

/// The cells of a row, named by column, in column order. The two comparator
/// gaps are supplied by the caller.
pub open spec fn spec_row_cells<N>(r: RowView<N>, raw_gap: Option<N>, favorable_gap: Option<N>) -> Seq<
    (Seq<char>, CellView<N>),
> {
    seq![
        ("trace_id"@, CellView::Text(r.trace_id)),
        ("school_name"@, CellView::Text(r.school_name)),
        ("cds_code"@, CellView::Text(r.cds_code)),
        ("year"@, CellView::Int(r.year as i64)),
        ("dashboard_year_id"@, CellView::Int(r.dashboard_year_id as i64)),
        ("indicator_id"@, CellView::Int(r.indicator_id as i64)),
        ("category"@, CellView::Text(r.category)),
        ("indicator_name"@, CellView::Text(r.indicator_name)),
        ("status_unit"@, CellView::Text(r.status_unit)),
        ("change_unit"@, CellView::Text(r.change_unit)),
        ("favorable_direction"@, CellView::Text(direction_word(r.favorable_direction))),
        ("status"@, float_cell(r.status)),
        ("official_change"@, float_cell(r.official_change)),
        ("change_id"@, i32_cell(r.change_id)),
        ("status_id"@, i32_cell(r.status_id)),
        ("performance"@, i32_cell(r.performance)),
        ("total_groups"@, u32_cell(r.total_groups)),
        ("red"@, u32_cell(r.red)),
        ("orange"@, u32_cell(r.orange)),
        ("yellow"@, u32_cell(r.yellow)),
        ("green"@, u32_cell(r.green)),
        ("blue"@, u32_cell(r.blue)),
        ("count"@, u64_cell(r.count)),
        ("student_group"@, text_cell(r.student_group)),
        ("comparator_status"@, float_cell(r.comparator_status)),
        ("comparator_count"@, u64_cell(r.comparator_count)),
        ("raw_comparator_gap"@, float_cell(raw_gap)),
        ("favorable_comparator_gap"@, float_cell(favorable_gap)),
        ("missing_reason"@, reason_cell(r.missing_reason)),
        ("comparator_missing_reason"@, reason_cell(r.comparator_missing_reason)),
        ("small_n_warning"@, CellView::Bool(r.small_n_warning)),
        ("comparator_small_n_warning"@, CellView::Bool(r.comparator_small_n_warning)),
        ("year_caveat"@, text_cell(r.year_caveat)),
        ("informational_only"@, CellView::Bool(r.informational_only)),
        ("source_url"@, CellView::Text(r.source_url)),
        ("retrieved_at_utc"@, CellView::Text(r.retrieved_at_utc)),
        ("payload_sha256"@, text_cell(r.payload_sha256)),
        ("method_version"@, CellView::Text(r.method_version)),
    ]
}

/// The contents of named cells.
pub open spec fn cell_views<N>(v: Seq<(&'static str, Cell<N>)>) -> Seq<(Seq<char>, CellView<N>)> {
    v.map_values(|c: (&'static str, Cell<N>)| (c.0@, c.1@))
}

/// The cells of a row, named by column, in column order; the two comparator
/// gaps are supplied by the caller.
#[verifier::spinoff_prover]
#[verifier::rlimit(40)]
pub fn row_cells<N: Copy>(row: &CanonicalRow<N>, raw_gap: Option<N>, favorable_gap: Option<N>) -> (v: Vec<(&'static str, Cell<N>)>)
    ensures
        cell_views(v@) == spec_row_cells(row@, raw_gap, favorable_gap),
{
    let mut v: Vec<(&'static str, Cell<N>)> = Vec::new();
    v.push(("trace_id", Cell::Text(row.trace_id.clone())));
    v.push(("school_name", Cell::Text(row.school_name.clone())));
    v.push(("cds_code", Cell::Text(row.cds_code.clone())));
    v.push(("year", Cell::Int(row.year as i64)));
    v.push(("dashboard_year_id", Cell::Int(row.dashboard_year_id as i64)));
    v.push(("indicator_id", Cell::Int(row.indicator_id as i64)));
    v.push(("category", Cell::Text(row.category.clone())));
    v.push(("indicator_name", Cell::Text(row.indicator_name.clone())));
    v.push(("status_unit", Cell::Text(row.status_unit.clone())));
    v.push(("change_unit", Cell::Text(row.change_unit.clone())));
    v.push(("favorable_direction", Cell::Text(owned(favorable_direction_word(row.favorable_direction)))));
    v.push(("status", Cell::opt_float(row.status)));
    v.push(("official_change", Cell::opt_float(row.official_change)));
    v.push(("change_id", Cell::opt_i32(row.change_id)));
    v.push(("status_id", Cell::opt_i32(row.status_id)));
    v.push(("performance", Cell::opt_i32(row.performance)));
    v.push(("total_groups", Cell::opt_u32(row.total_groups)));
    v.push(("red", Cell::opt_u32(row.red)));
    v.push(("orange", Cell::opt_u32(row.orange)));
    v.push(("yellow", Cell::opt_u32(row.yellow)));
    v.push(("green", Cell::opt_u32(row.green)));
    v.push(("blue", Cell::opt_u32(row.blue)));
    v.push(("count", Cell::opt_u64(row.count)));
    v.push(("student_group", Cell::opt_text(&row.student_group)));
    v.push(("comparator_status", Cell::opt_float(row.comparator_status)));
    v.push(("comparator_count", Cell::opt_u64(row.comparator_count)));
    v.push(("raw_comparator_gap", Cell::opt_float(raw_gap)));
    v.push(("favorable_comparator_gap", Cell::opt_float(favorable_gap)));
    v.push(("missing_reason", Cell::reason(row.missing_reason)));
    v.push(("comparator_missing_reason", Cell::reason(row.comparator_missing_reason)));
    v.push(("small_n_warning", Cell::Bool(row.small_n_warning)));
    v.push(("comparator_small_n_warning", Cell::Bool(row.comparator_small_n_warning)));
    v.push(("year_caveat", Cell::opt_text(&row.year_caveat)));
    v.push(("informational_only", Cell::Bool(row.informational_only)));
    v.push(("source_url", Cell::Text(row.source_url.clone())));
    v.push(("retrieved_at_utc", Cell::Text(row.retrieved_at_utc.clone())));
    v.push(("payload_sha256", Cell::opt_text(&row.payload_sha256)));
    v.push(("method_version", Cell::Text(row.method_version.clone())));
    assert(cell_views(v@) =~= spec_row_cells(row@, raw_gap, favorable_gap));
    v
}

/// Every row's cells come in exactly the column order of the headers.
pub proof fn law_cells_follow_headers<N>(r: RowView<N>, raw_gap: Option<N>, favorable_gap: Option<N>)
    ensures
        spec_row_cells(r, raw_gap, favorable_gap).map_values(|c: (Seq<char>, CellView<N>)| c.0)
            == spec_headers(),
{
    assert(spec_row_cells(r, raw_gap, favorable_gap).map_values(|c: (Seq<char>, CellView<N>)| c.0)
        =~= spec_headers());
}

// ------------------------------------------------------------------------
// The PDF file layout
// ------------------------------------------------------------------------

/// The bytes of an ASCII text.
pub open spec fn ascii(s: Seq<char>) -> Seq<u8> {
    s.map_values(|c: char| (c as u32) as u8)
}

/// Parts joined end to end.
pub open spec fn joined(parts: Seq<Seq<u8>>) -> Seq<u8>
    decreases parts.len(),
{
    if parts.len() == 0 {
        Seq::empty()
    } else {
        joined(parts.drop_last()) + parts.last()
    }
}

/// The decimal digits of `n`, padded with leading zeros to ten digits.
pub open spec fn pad10(n: nat) -> Seq<char> {
    if decimal(n).len() >= 10 {
        decimal(n)
    } else {
        Seq::new((10 - decimal(n).len()) as nat, |i: int| '0') + decimal(n)
    }
}

/// One indirect object: `ID 0 obj`, the body, `endobj`.
pub open spec fn pdf_object(id: nat, body: Seq<u8>) -> Seq<u8> {
    ascii(decimal(id) + " 0 obj\n"@) + body + ascii("\nendobj\n"@)
}

/// The number of pages written: at least one.
pub open spec fn page_total(n: nat) -> nat {
    if n == 0 {
        1
    } else {
        n
    }
}

/// The references to the first `n` page objects, separated by spaces.
pub open spec fn kids_text(n: nat) -> Seq<char>
    decreases n,
{
    if n == 0 {
        Seq::empty()
    } else if n == 1 {
        decimal(5) + " 0 R"@
    } else {
        kids_text((n - 1) as nat) + " "@ + decimal((5 + 2 * (n - 1)) as nat) + " 0 R"@
    }
}

/// The body of the page-tree object for `n` pages.
pub open spec fn pages_body(n: nat) -> Seq<u8> {
    ascii("<< /Type /Pages /Kids ["@ + kids_text(n) + "] /Count "@ + decimal(n) + " >>"@)
}

/// The body of a page object whose content stream is object `content_id`.
pub open spec fn page_body(content_id: nat) -> Seq<u8> {
    ascii(
        "<< /Type /Page /Parent 2 0 R /MediaBox [0 0 612 792] /Resources << /Font << /F1 3 0 R /F2 4 0 R >> >> /Contents "@
            + decimal(content_id) + " 0 R >>"@,
    )
}

/// The body of a content-stream object.
pub open spec fn content_body(content: Seq<u8>) -> Seq<u8> {
    ascii("<< /Length "@ + decimal(content.len()) + " >>\nstream\n"@) + content + ascii(
        "\nendstream"@,
    )
}

/// The content of page `i`: empty past the given pages.
pub open spec fn page_content(pages: Seq<Seq<u8>>, i: nat) -> Seq<u8> {
    if i < pages.len() {
        pages[i as int]
    } else {
        Seq::empty()
    }
}

/// The page and content objects of the first `k` pages.
pub open spec fn page_objects(pages: Seq<Seq<u8>>, k: nat) -> Seq<Seq<u8>>
    decreases k,
{
    if k == 0 {
        Seq::empty()
    } else {
        let i = (k - 1) as nat;
        page_objects(pages, i) + seq![
            pdf_object(5 + 2 * i, page_body(6 + 2 * i)),
            pdf_object(6 + 2 * i, content_body(page_content(pages, i))),
        ]
    }
}

/// The objects of the file in identifier order: catalog, page tree, the
/// regular and bold Helvetica fonts, then a page and a content object per page.
pub open spec fn pdf_objects(pages: Seq<Seq<u8>>) -> Seq<Seq<u8>> {
    seq![
        pdf_object(1, ascii("<< /Type /Catalog /Pages 2 0 R >>"@)),
        pdf_object(2, pages_body(page_total(pages.len()))),
        pdf_object(3, ascii("<< /Type /Font /Subtype /Type1 /BaseFont /Helvetica /Encoding /WinAnsiEncoding >>"@)),
        pdf_object(4, ascii("<< /Type /Font /Subtype /Type1 /BaseFont /Helvetica-Bold /Encoding /WinAnsiEncoding >>"@)),
    ] + page_objects(pages, page_total(pages.len()))
}

/// The file header: the version line and a binary comment.
pub open spec fn pdf_header() -> Seq<u8> {
    ascii("%PDF-1.7\n%"@) + seq![0xE2u8, 0xE3u8, 0xCFu8, 0xD3u8, 0x0Au8]
}

/// The cross-reference lines of the first `k` objects placed after `start` bytes.
pub open spec fn xref_entries(objs: Seq<Seq<u8>>, start: nat, k: nat) -> Seq<u8>
    decreases k,
{
    if k == 0 {
        Seq::empty()
    } else {
        xref_entries(objs, start, (k - 1) as nat) + ascii(
            pad10(start + joined(objs.take(k - 1)).len()) + " 00000 n \n"@,
        )
    }
}

/// The complete PDF file for the given page content streams: header, objects,
/// a cross-reference table giving each object's byte offset, and the trailer.
pub open spec fn pdf_file(pages: Seq<Seq<u8>>) -> Seq<u8> {
    let objs = pdf_objects(pages);
    let count = objs.len();
    let body = pdf_header() + joined(objs);
    body + ascii("xref\n0 "@ + decimal(count + 1) + "\n"@) + ascii("0000000000 65535 f \n"@)
        + xref_entries(objs, pdf_header().len(), count) + ascii(
        "trailer\n<< /Size "@ + decimal(count + 1) + " /Root 1 0 R >>\nstartxref\n"@ + decimal(
            body.len(),
        ) + "\n%%EOF\n"@,
    )
}

/// The contents of a sequence of byte vectors.
pub open spec fn byte_views(v: Seq<Vec<u8>>) -> Seq<Seq<u8>> {
    v.map_values(|b: Vec<u8>| b@)
}

fn push_ascii(out: &mut Vec<u8>, s: &str)
    ensures
        final(out)@ == old(out)@ + ascii(s@),
{
    let chars = chars_of(s);
    let mut i: usize = 0;
    while i < chars.len()
        invariant
            chars@ == s@,
            i <= chars@.len(),
            out@ == old(out)@ + ascii(chars@.take(i as int)),
        decreases chars@.len() - i,
    {
        out.push((chars[i] as u32) as u8);
        i = i + 1;
        assert(out@ =~= old(out)@ + ascii(chars@.take(i as int)));
    }
    assert(chars@.take(chars@.len() as int) =~= chars@);
}

fn push_ascii_chars(out: &mut Vec<u8>, chars: &[char])
    ensures
        final(out)@ == old(out)@ + ascii(chars@),
{
    let mut i: usize = 0;
    while i < chars.len()
        invariant
            i <= chars@.len(),
            out@ == old(out)@ + ascii(chars@.take(i as int)),
        decreases chars@.len() - i,
    {
        out.push((chars[i] as u32) as u8);
        i = i + 1;
        assert(out@ =~= old(out)@ + ascii(chars@.take(i as int)));
    }
    assert(chars@.take(chars@.len() as int) =~= chars@);
}

fn push_decimal_ascii(out: &mut Vec<u8>, n: u64)
    ensures
        final(out)@ == old(out)@ + ascii(decimal(n as nat)),
{
    let d = crate::text::decimal_chars(n);
    push_ascii_chars(out, d.as_slice());
}

fn push_bytes(out: &mut Vec<u8>, b: &[u8])
    ensures
        final(out)@ == old(out)@ + b@,
{
    let mut i: usize = 0;
    while i < b.len()
        invariant
            i <= b@.len(),
            out@ == old(out)@ + b@.take(i as int),
        decreases b@.len() - i,
    {
        out.push(b[i]);
        i = i + 1;
        assert(out@ =~= old(out)@ + b@.take(i as int));
    }
    assert(b@.take(b@.len() as int) =~= b@);
}

fn push_pad10(out: &mut Vec<u8>, n: u64)
    ensures
        final(out)@ == old(out)@ + ascii(pad10(n as nat)),
{
    let d = crate::text::decimal_chars(n);
    let mut padded: Vec<char> = Vec::new();
    if d.len() < 10 {
        let zeros = 10 - d.len();
        let mut k: usize = 0;
        while k < zeros
            invariant
                k <= zeros,
                padded@ == Seq::new(k as nat, |i: int| '0'),
            decreases zeros - k,
        {
            padded.push('0');
            k = k + 1;
            assert(padded@ =~= Seq::new(k as nat, |i: int| '0'));
        }
    }
    let mut j: usize = 0;
    let ghost zeros_part = padded@;
    while j < d.len()
        invariant
            j <= d@.len(),
            padded@ == zeros_part + d@.take(j as int),
        decreases d@.len() - j,
    {
        padded.push(d[j]);
        j = j + 1;
        assert(padded@ =~= zeros_part + d@.take(j as int));
    }
    assert(d@.take(d@.len() as int) =~= d@);
    assert(padded@ =~= pad10(n as nat));
    push_ascii_chars(out, padded.as_slice());
}

fn object_bytes(id: usize, body: &[u8]) -> (o: Vec<u8>)
    ensures
        o@ == pdf_object(id as nat, body@),
{
    let mut o: Vec<u8> = Vec::new();
    push_decimal_ascii(&mut o, id as u64);
    push_ascii(&mut o, " 0 obj\n");
    push_bytes(&mut o, body);
    push_ascii(&mut o, "\nendobj\n");
    assert(ascii(decimal(id as nat) + " 0 obj\n"@) =~= ascii(decimal(id as nat)) + ascii(" 0 obj\n"@));
    assert(o@ =~= pdf_object(id as nat, body@));
    o
}

fn kids_bytes(out: &mut Vec<u8>, n: usize)
    requires
        n >= 1,
        2 * n + 5 <= usize::MAX,
    ensures
        final(out)@ == old(out)@ + ascii(kids_text(n as nat)),
{
    push_decimal_ascii(out, 5);
    push_ascii(out, " 0 R");
    assert(ascii(kids_text(1)) =~= ascii(decimal(5)) + ascii(" 0 R"@));
    let mut k: usize = 1;
    while k < n
        invariant
            1 <= k <= n,
            2 * n + 5 <= usize::MAX,
            out@ == old(out)@ + ascii(kids_text(k as nat)),
        decreases n - k,
    {
        let ghost before = out@;
        push_ascii(out, " ");
        push_decimal_ascii(out, (5 + 2 * k) as u64);
        push_ascii(out, " 0 R");
        assert(kids_text((k + 1) as nat) == kids_text(k as nat) + " "@ + decimal((5 + 2 * k) as nat) + " 0 R"@);
        assert(ascii(kids_text((k + 1) as nat)) =~= ascii(kids_text(k as nat)) + ascii(" "@) + ascii(
            decimal((5 + 2 * k) as nat),
        ) + ascii(" 0 R"@));
        k = k + 1;
    }
}

proof fn lemma_page_objects_len(pages: Seq<Seq<u8>>, k: nat)
    ensures
        page_objects(pages, k).len() == 2 * k,
    decreases k,
{
    if k > 0 {
        lemma_page_objects_len(pages, (k - 1) as nat);
    }
}

fn pdf_object_list(pages: &[Vec<u8>]) -> (objs: Vec<Vec<u8>>)
    requires
        2 * pages@.len() + 8 <= usize::MAX,
    ensures
        byte_views(objs@) == pdf_objects(byte_views(pages@)),
{
    let ghost pv = byte_views(pages@);
    let page_count: usize = if pages.len() == 0 { 1 } else { pages.len() };
    let mut objs: Vec<Vec<u8>> = Vec::new();
    let mut catalog: Vec<u8> = Vec::new();
    push_ascii(&mut catalog, "<< /Type /Catalog /Pages 2 0 R >>");
    objs.push(object_bytes(1, catalog.as_slice()));
    let mut tree: Vec<u8> = Vec::new();
    push_ascii(&mut tree, "<< /Type /Pages /Kids [");
    kids_bytes(&mut tree, page_count);
    push_ascii(&mut tree, "] /Count ");
    push_decimal_ascii(&mut tree, page_count as u64);
    push_ascii(&mut tree, " >>");
    assert(tree@ =~= pages_body(page_total(pv.len())));
    objs.push(object_bytes(2, tree.as_slice()));
    let mut regular: Vec<u8> = Vec::new();
    push_ascii(&mut regular, "<< /Type /Font /Subtype /Type1 /BaseFont /Helvetica /Encoding /WinAnsiEncoding >>");
    objs.push(object_bytes(3, regular.as_slice()));
    let mut bold: Vec<u8> = Vec::new();
    push_ascii(&mut bold, "<< /Type /Font /Subtype /Type1 /BaseFont /Helvetica-Bold /Encoding /WinAnsiEncoding >>");
    objs.push(object_bytes(4, bold.as_slice()));
    let ghost fixed = byte_views(objs@);
    assert(page_objects(pv, 0) =~= Seq::<Seq<u8>>::empty());
    assert(byte_views(objs@) =~= fixed + page_objects(pv, 0));
    let empty: Vec<u8> = Vec::new();
    let mut index: usize = 0;
    while index < page_count
        invariant
            pv == byte_views(pages@),
            page_count == page_total(pv.len()),
            2 * pages@.len() + 8 <= usize::MAX,
            index <= page_count,
            empty@ == Seq::<u8>::empty(),
            byte_views(objs@) == fixed + page_objects(pv, index as nat),
        decreases page_count - index,
    {
        let page_id = 5 + index * 2;
        let content_id = page_id + 1;
        let mut page: Vec<u8> = Vec::new();
        push_ascii(&mut page, "<< /Type /Page /Parent 2 0 R /MediaBox [0 0 612 792] /Resources << /Font << /F1 3 0 R /F2 4 0 R >> >> /Contents ");
        push_decimal_ascii(&mut page, content_id as u64);
        push_ascii(&mut page, " 0 R >>");
        assert(page@ =~= page_body(content_id as nat));
        let content: &Vec<u8> = if index < pages.len() { &pages[index] } else { &empty };
        assert(content@ == page_content(pv, index as nat));
        let mut stream: Vec<u8> = Vec::new();
        push_ascii(&mut stream, "<< /Length ");
        push_decimal_ascii(&mut stream, content.len() as u64);
        push_ascii(&mut stream, " >>\nstream\n");
        push_bytes(&mut stream, content.as_slice());
        push_ascii(&mut stream, "\nendstream");
        assert(stream@ =~= content_body(page_content(pv, index as nat)));
        let ghost before = byte_views(objs@);
        objs.push(object_bytes(page_id, page.as_slice()));
        objs.push(object_bytes(content_id, stream.as_slice()));
        assert(byte_views(objs@) =~= before.push(pdf_object(page_id as nat, page@)).push(
            pdf_object(content_id as nat, stream@),
        ));
        assert(page_objects(pv, (index + 1) as nat) =~= page_objects(pv, index as nat) + seq![
            pdf_object(5 + 2 * index as nat, page_body(6 + 2 * index as nat)),
            pdf_object(6 + 2 * index as nat, content_body(page_content(pv, index as nat))),
        ]);
        index = index + 1;
    }
    assert(byte_views(objs@) =~= pdf_objects(pv));
    objs
}

/// Serializes page content streams into a complete PDF file.
pub fn serialize_pdf(pages: &[Vec<u8>]) -> (output: Vec<u8>)
    requires
        2 * pages@.len() + 8 <= usize::MAX,
    ensures
        output@ == pdf_file(byte_views(pages@)),
{
    let ghost pv = byte_views(pages@);
    let objs = pdf_object_list(pages);
    let ghost ov = byte_views(objs@);
    proof {
        lemma_page_objects_len(pv, page_total(pv.len()));
    }
    let count = objs.len();
    assert(ov.len() == objs@.len());
    assert(pdf_objects(pv).len() == 4 + page_objects(pv, page_total(pv.len())).len());
    assert(count == 4 + 2 * page_total(pv.len()));
    let mut output: Vec<u8> = Vec::new();
    push_ascii(&mut output, "%PDF-1.7\n%");
    output.push(0xE2);
    output.push(0xE3);
    output.push(0xCF);
    output.push(0xD3);
    output.push(0x0A);
    assert(output@ =~= pdf_header());
    let ghost hlen = pdf_header().len();
    let mut offsets: Vec<usize> = Vec::new();
    let mut i: usize = 0;
    assert(ov.take(0) =~= Seq::<Seq<u8>>::empty());
    assert(output@ =~= pdf_header() + joined(ov.take(0)));
    while i < count
        invariant
            ov == byte_views(objs@),
            count == objs@.len(),
            hlen == pdf_header().len(),
            i <= count,
            output@ == pdf_header() + joined(ov.take(i as int)),
            offsets@.len() == i,
            forall|j: int| 0 <= j < i ==> #[trigger] offsets@[j] == hlen + joined(ov.take(j)).len(),
        decreases count - i,
    {
        offsets.push(output.len());
        push_bytes(&mut output, objs[i].as_slice());
        assert(ov.take(i + 1).drop_last() =~= ov.take(i as int));
        assert(ov.take(i + 1).last() == objs@[i as int]@);
        assert(output@ =~= pdf_header() + joined(ov.take(i + 1)));
        i = i + 1;
    }
    assert(ov.take(count as int) =~= ov);
    let ghost body = output@;
    let xref_offset = output.len();
    push_ascii(&mut output, "xref\n0 ");
    push_decimal_ascii(&mut output, (count + 1) as u64);
    push_ascii(&mut output, "\n");
    push_ascii(&mut output, "0000000000 65535 f \n");
    let ghost head = output@;
    assert(head =~= body + ascii("xref\n0 "@ + decimal((count + 1) as nat) + "\n"@) + ascii(
        "0000000000 65535 f \n"@,
    ));
    let mut j: usize = 0;
    while j < count
        invariant
            ov == byte_views(objs@),
            count == objs@.len(),
            offsets@.len() == count,
            hlen == pdf_header().len(),
            forall|k: int| 0 <= k < count ==> #[trigger] offsets@[k] == hlen + joined(ov.take(k)).len(),
            j <= count,
            output@ == head + xref_entries(ov, hlen, j as nat),
        decreases count - j,
    {
        push_pad10(&mut output, offsets[j] as u64);
        push_ascii(&mut output, " 00000 n \n");
        assert(offsets@[j as int] == hlen + joined(ov.take(j as int)).len());
        assert(ascii(pad10(offsets@[j as int] as nat) + " 00000 n \n"@) =~= ascii(
            pad10(offsets@[j as int] as nat),
        ) + ascii(" 00000 n \n"@));
        assert(output@ =~= head + xref_entries(ov, hlen, (j + 1) as nat));
        j = j + 1;
    }
    let ghost entries = output@;
    push_ascii(&mut output, "trailer\n<< /Size ");
    push_decimal_ascii(&mut output, (count + 1) as u64);
    push_ascii(&mut output, " /Root 1 0 R >>\nstartxref\n");
    push_decimal_ascii(&mut output, xref_offset as u64);
    push_ascii(&mut output, "\n%%EOF\n");
    assert(output@ =~= entries + ascii(
        "trailer\n<< /Size "@ + decimal((count + 1) as nat) + " /Root 1 0 R >>\nstartxref\n"@
            + decimal(body.len()) + "\n%%EOF\n"@,
    ));
    output
}

proof fn lemma_joined_prefix(parts: Seq<Seq<u8>>, k: int)
    requires
        0 <= k <= parts.len(),
    ensures
        joined(parts) == joined(parts.take(k)) + joined(parts.skip(k)),
    decreases parts.len() - k,
{
    if k == parts.len() {
        assert(parts.take(k) =~= parts);
        assert(parts.skip(k) =~= Seq::<Seq<u8>>::empty());
        assert(joined(parts) =~= joined(parts.take(k)) + joined(parts.skip(k)));
    } else {
        lemma_joined_prefix(parts, k + 1);
        assert(parts.take(k + 1).drop_last() =~= parts.take(k));
        assert(parts.take(k + 1).last() == parts[k]);
        lemma_joined_front(parts.skip(k));
        assert(parts.skip(k).skip(1) =~= parts.skip(k + 1));
        assert(joined(parts) =~= joined(parts.take(k)) + joined(parts.skip(k)));
    }
}

proof fn lemma_joined_front(parts: Seq<Seq<u8>>)
    requires
        parts.len() > 0,
    ensures
        joined(parts) == parts[0] + joined(parts.skip(1)),
    decreases parts.len(),
{
    if parts.len() == 1 {
        assert(parts.skip(1) =~= Seq::<Seq<u8>>::empty());
        assert(parts.drop_last() =~= Seq::<Seq<u8>>::empty());
        assert(joined(parts) =~= parts[0] + joined(parts.skip(1)));
    } else {
        lemma_joined_front(parts.drop_last());
        assert(parts.drop_last().skip(1) =~= parts.skip(1).drop_last());
        assert(parts.skip(1).last() == parts.last());
        assert(joined(parts) =~= parts[0] + joined(parts.skip(1)));
    }
}

/// Every PDF file starts with the version line and ends with the end-of-file
/// marker.
pub proof fn law_pdf_framing(pages: Seq<Seq<u8>>)
    ensures
        pdf_file(pages).take(9) == ascii("%PDF-1.7\n"@),
        pdf_file(pages).skip(pdf_file(pages).len() - 6) == ascii("%%EOF\n"@),
{
    reveal_strlit("%PDF-1.7\n");
    reveal_strlit("%PDF-1.7\n%");
    reveal_strlit("%%EOF\n");
    reveal_strlit("\n%%EOF\n");
    let f = pdf_file(pages);
    let objs = pdf_objects(pages);
    let body = pdf_header() + joined(objs);
    let tail = "trailer\n<< /Size "@ + decimal(objs.len() + 1) + " /Root 1 0 R >>\nstartxref\n"@
        + decimal(body.len()) + "\n%%EOF\n"@;
    assert(tail.skip(tail.len() - 6) =~= "%%EOF\n"@);
    assert(ascii(tail).skip(tail.len() - 6) =~= ascii(tail.skip(tail.len() - 6)));
    assert(f.take(9) =~= ascii("%PDF-1.7\n"@));
    assert(f.skip(f.len() - 6) =~= ascii("%%EOF\n"@));
}

/// The cross-reference table gives the true byte offset of every object:
/// the object's bytes start exactly there.
pub proof fn law_xref_offsets_locate_objects(pages: Seq<Seq<u8>>, k: int)
    requires
        0 <= k < pdf_objects(pages).len(),
    ensures
        ({
            let objs = pdf_objects(pages);
            let off = (pdf_header().len() + joined(objs.take(k)).len()) as int;
            pdf_file(pages).subrange(off, off + objs[k].len()) == objs[k]
        }),
{
    let objs = pdf_objects(pages);
    let off = (pdf_header().len() + joined(objs.take(k)).len()) as int;
    lemma_joined_prefix(objs, k);
    lemma_joined_front(objs.skip(k));
    assert(objs.skip(k)[0] == objs[k]);
    let f = pdf_file(pages);
    assert(f.subrange(off, off + objs[k].len()) =~= objs[k]);
}

// ------------------------------------------------------------------------
// The HTML report
// ------------------------------------------------------------------------

/// Shown at the bottom of every rendered report, after a bold lead-in.
pub const RESEARCH_DISCLAIMER: &'static str = "This report is entirely research-based. Every value is derived from the public California School Dashboard and should be independently verified against the official source before being used for any decision.";

/// An inline drawing of the California School Dashboard gauge-and-pencil
/// logo, so reports render offline.
pub const DASHBOARD_LOGO_SVG: &'static str = "<svg viewBox=\"0 0 360 74\" role=\"img\" aria-label=\"California School Dashboard\" xmlns=\"http://www.w3.org/2000/svg\"><title>California School Dashboard</title><rect x=\"16\" y=\"61\" width=\"92\" height=\"5\" rx=\"2.5\" fill=\"#2E3B4E\"/><path d=\"M 22.00 60.00 A 40 40 0 0 1 28.38 38.33\" fill=\"none\" stroke=\"#E5342A\" stroke-width=\"15\"/><path d=\"M 29.97 36.04 A 40 40 0 0 1 48.06 22.51\" fill=\"none\" stroke=\"#F5871F\" stroke-width=\"15\"/><path d=\"M 50.71 21.63 A 40 40 0 0 1 73.29 21.63\" fill=\"none\" stroke=\"#FDC010\" stroke-width=\"15\"/><path d=\"M 75.94 22.51 A 40 40 0 0 1 94.03 36.04\" fill=\"none\" stroke=\"#4FA32E\" stroke-width=\"15\"/><path d=\"M 95.62 38.33 A 40 40 0 0 1 102.00 60.00\" fill=\"none\" stroke=\"#1C75BC\" stroke-width=\"15\"/><g transform=\"rotate(-20 62 60)\"><polygon points=\"62,12 57.5,24 66.5,24\" fill=\"#E9CF97\"/><polygon points=\"62,12 60,17.5 64,17.5\" fill=\"#33373D\"/><rect x=\"57.5\" y=\"24\" width=\"9\" height=\"22\" fill=\"#F6B21B\"/><rect x=\"57.5\" y=\"46\" width=\"9\" height=\"4\" fill=\"#C9CDD3\"/><rect x=\"57.5\" y=\"50\" width=\"9\" height=\"8.5\" rx=\"1.5\" fill=\"#EE8E8E\"/></g><circle cx=\"62\" cy=\"60\" r=\"6\" fill=\"#2E3B4E\"/><circle cx=\"62\" cy=\"60\" r=\"2.4\" fill=\"#ffffff\"/><text x=\"128\" y=\"31\" font-family=\"Arial, Helvetica, sans-serif\" font-size=\"18\" font-weight=\"600\" fill=\"#2E3B4E\">California School</text><text x=\"127\" y=\"60\" font-family=\"Arial, Helvetica, sans-serif\" font-size=\"30\" font-weight=\"800\" letter-spacing=\"0.5\" fill=\"#2E3B4E\">DASHBOARD</text></svg>";

/// The report's style sheet.
pub const HTML_STYLE: &'static str = ":root { color-scheme: light dark; }\n* { box-sizing: border-box; }\nbody { font-family: -apple-system, Segoe UI, Roboto, Helvetica, Arial, sans-serif; margin: 0; padding: 2rem clamp(1rem, 4vw, 3rem); line-height: 1.5; color: #1a1a1a; background: #fff; }\n.report-header { border-bottom: 3px solid #1a3a63; padding-bottom: 1rem; margin-bottom: 1.5rem; }\nh1 { font-size: 1.6rem; margin: 0 0 0.5rem; color: #1a3a63; }\nh2 { font-size: 1.15rem; margin: 2rem 0 0.75rem; color: #1a3a63; }\n.scope { margin: 0.25rem 0; color: #555; font-size: 0.95rem; }\n.source-link { display: inline-flex; align-items: center; gap: 0.75rem; margin-top: 0.75rem; text-decoration: none; color: #1a3a63; }\n.source-link .logo-box { display: inline-block; background: #fff; border: 1px solid #d7deea; border-radius: 8px; padding: 6px 10px; line-height: 0; }\n.source-link .logo-box svg { display: block; width: 180px; height: auto; }\n.source-link-text { font-size: 0.85rem; font-weight: 600; text-decoration: underline; }\n.source-link:hover .source-link-text { text-decoration: none; }\n.report-footer { margin-top: 2.5rem; padding-top: 1rem; border-top: 2px solid #1a3a63; }\n.disclaimer { font-size: 0.9rem; color: #333; margin: 0 0 0.5rem; }\n.disclaimer strong { color: #1a3a63; }\n.disclaimer-meta { font-size: 0.8rem; color: #666; margin: 0; }\n.disclaimer-meta a { color: inherit; }\nsection { max-width: 100%; }\nul, ol { margin: 0.5rem 0; padding-left: 1.4rem; }\nli { margin: 0.3rem 0; }\n.narrative li { color: #333; font-size: 0.92rem; }\n.table-scroll { overflow-x: auto; border: 1px solid #ddd; border-radius: 6px; }\ntable { border-collapse: collapse; width: 100%; font-size: 0.85rem; }\ntable.summary { max-width: 32rem; }\nth, td { padding: 0.4rem 0.6rem; border-bottom: 1px solid #eee; text-align: left; white-space: nowrap; }\nthead th { position: sticky; top: 0; background: #1a3a63; color: #fff; font-weight: 600; }\ntable.summary th[scope=\"row\"] { font-weight: 500; }\ntd.num, th.num { text-align: right; font-variant-numeric: tabular-nums; }\ntd.missing { color: #999; text-align: center; }\ntbody tr:nth-child(even) { background: rgba(26, 58, 99, 0.04); }\n.empty { color: #777; font-style: italic; }\n@media (prefers-color-scheme: dark) {\n  body { color: #e8e8e8; background: #121212; }\n  h1, h2, .report-header { color: #8fb8e6; border-color: #2a4a73; }\n  .scope { color: #aaa; }\n  .table-scroll { border-color: #333; }\n  th, td { border-color: #2a2a2a; }\n  thead th { background: #1a3a63; }\n  tbody tr:nth-child(even) { background: rgba(143, 184, 230, 0.06); }\n}\n";

/// The list items of texts, each escaped.
pub open spec fn li_items(items: Seq<Seq<char>>) -> Seq<char>
    decreases items.len(),
{
    if items.len() == 0 {
        Seq::empty()
    } else {
        li_items(items.drop_last()) + "<li>"@ + html_escaped(items.last()) + "</li>\n"@
    }
}

/// The rows of the data-completeness table.
pub open spec fn metric_rows(ms: Seq<(Seq<char>, u64)>) -> Seq<char>
    decreases ms.len(),
{
    if ms.len() == 0 {
        Seq::empty()
    } else {
        metric_rows(ms.drop_last()) + "<tr><th scope=\"row\">"@ + html_escaped(ms.last().0)
            + "</th><td class=\"num\">"@ + decimal(ms.last().1 as nat) + "</td></tr>\n"@
    }
}

/// Column header cells.
pub open spec fn header_cells(hs: Seq<Seq<char>>) -> Seq<char>
    decreases hs.len(),
{
    if hs.len() == 0 {
        Seq::empty()
    } else {
        header_cells(hs.drop_last()) + "<th scope=\"col\">"@ + html_escaped(hs.last()) + "</th>"@
    }
}

/// The cells of one data row: each display text, marked when the value is missing.
pub open spec fn data_cells(cells: Seq<(Seq<char>, bool)>) -> Seq<char>
    decreases cells.len(),
{
    if cells.len() == 0 {
        Seq::empty()
    } else {
        data_cells(cells.drop_last()) + "<td"@ + (if cells.last().1 {
            " class=\"missing\""@
        } else {
            ""@
        }) + ">"@ + html_escaped(cells.last().0) + "</td>"@
    }
}

/// The rows of the data table.
pub open spec fn data_rows(rows: Seq<Seq<(Seq<char>, bool)>>) -> Seq<char>
    decreases rows.len(),
{
    if rows.len() == 0 {
        Seq::empty()
    } else {
        data_rows(rows.drop_last()) + "<tr>"@ + data_cells(rows.last()) + "</tr>\n"@
    }
}

/// `p` followed by one row of the retrieval-log table.
pub open spec fn with_log_row(p: Seq<char>, e: FetchLogView) -> Seq<char> {
    p + "<tr>"@ + "<td>"@ + html_escaped(e.school_name) + "</td>"@ + "<td>"@ + html_escaped(
        e.cds_code,
    ) + "</td>"@ + "<td class=\"num\">"@ + decimal(e.year as nat) + "</td>"@ + "<td>"@
        + html_escaped(e.status) + "</td>"@ + "<td class=\"num\">"@ + (match e.http_status {
        Some(code) => decimal(code as nat),
        None => "\u{2014}"@,
    }) + "</td>"@ + "<td class=\"num\">"@ + decimal(e.attempts as nat) + "</td>"@ + "<td>"@
        + html_escaped(e.detail) + "</td>"@ + "<td>"@ + html_escaped(e.source_url) + "</td>"@
        + "</tr>\n"@
}

/// `p` followed by the rows of the retrieval-log table.
pub open spec fn with_log_rows(p: Seq<char>, log: Seq<FetchLogView>) -> Seq<char>
    decreases log.len(),
{
    if log.len() == 0 {
        p
    } else {
        with_log_row(with_log_rows(p, log.drop_last()), log.last())
    }
}

/// The header names of the retrieval-log table.
pub open spec fn log_headers() -> Seq<Seq<char>> {
    seq!["School"@, "CDS"@, "Year"@, "Status"@, "HTTP"@, "Attempts"@, "Detail"@, "Source URL"@]
}

/// `p` followed by the opening of the document, through the start of the body.
pub open spec fn with_head(p: Seq<char>) -> Seq<char> {
    p + "<!doctype html>\n<html lang=\"en\">\n<head>\n<meta charset=\"utf-8\">\n"@
        + "<meta name=\"viewport\" content=\"width=device-width, initial-scale=1\">\n"@
        + "<title>California School Dashboard \u{2014} Descriptive Report</title>\n"@ + "<style>\n"@
        + HTML_STYLE@ + "\n</style>\n</head>\n<body>\n"@
}

/// `p` followed by the report header: title, scope, version, and the link
/// to the source.
pub open spec fn with_header(
    p: Seq<char>,
    school_count: nat,
    years: Seq<u16>,
    row_count: nat,
    method_version: Seq<char>,
) -> Seq<char> {
    p + "<header class=\"report-header\">\n"@
        + "<h1>California School Dashboard \u{2014} Descriptive Report</h1>\n"@
        + "<p class=\"scope\">"@ + decimal(school_count) + " school"@ + plural_suffix(
        school_count as usize,
    ) + " \u{b7} reporting year"@ + plural_suffix(years.len() as usize) + ": "@ + html_escaped(
        years_text(years),
    ) + " \u{b7} "@ + decimal(row_count) + " data row"@ + plural_suffix(row_count as usize)
        + " \u{b7} method "@ + html_escaped(method_version) + "</p>\n"@
        + "<p class=\"scope\">Generated by california-dashboard v"@ + html_escaped(
        crate::APP_VERSION@,
    )
        + ". Values are descriptive administrative aggregates from the California School Dashboard.</p>\n"@
        + "<a class=\"source-link\" href=\"https://www.caschooldashboard.org/\" target=\"_blank\" rel=\"noopener noreferrer\" aria-label=\"Official data source: California School Dashboard website (opens in a new tab)\"><span class=\"logo-box\">"@
        + DASHBOARD_LOGO_SVG@
        + "</span><span class=\"source-link-text\">Official public source: caschooldashboard.org &#8599;</span></a>\n"@
        + "</header>\n"@
}

/// `p` followed by the completeness table, the methods and the limitations.
pub open spec fn with_summary(p: Seq<char>, quality: DataQuality, methods: Seq<Seq<char>>) -> Seq<char> {
    p + "<section>\n<h2>Data completeness</h2>\n<table class=\"summary\">\n"@
        + "<thead><tr><th scope=\"col\">Metric</th><th scope=\"col\">Value</th></tr></thead>\n<tbody>\n"@
        + metric_rows(spec_quality_metrics(quality)) + "</tbody>\n</table>\n</section>\n"@
        + "<section>\n<h2>How these numbers were prepared</h2>\n<ul>\n"@ + li_items(methods)
        + "</ul>\n</section>\n"@ + "<section>\n<h2>Limitations</h2>\n<ul>\n"@ + li_items(
        spec_limitations(),
    ) + "</ul>\n</section>\n"@
}

/// `p` followed by the data table section.
pub open spec fn with_measures(p: Seq<char>, table: Seq<Seq<(Seq<char>, bool)>>) -> Seq<char> {
    if table.len() == 0 {
        p + "<section>\n<h2>Reported measures</h2>\n"@
            + "<p class=\"empty\">No rows were produced for this selection.</p>\n"@ + "</section>\n"@
    } else {
        p + "<section>\n<h2>Reported measures</h2>\n"@
            + "<div class=\"table-scroll\">\n<table class=\"data\">\n<thead><tr>"@ + header_cells(
            spec_headers(),
        ) + "</tr></thead>\n<tbody>\n"@ + data_rows(table) + "</tbody>\n</table>\n</div>\n"@
            + "</section>\n"@
    }
}

/// `p` followed by the narrative section, present only when there are
/// statements.
pub open spec fn with_narrative(p: Seq<char>, narrative: Seq<Seq<char>>) -> Seq<char> {
    if narrative.len() == 0 {
        p
    } else {
        p + "<section>\n<h2>Row-by-row description</h2>\n<ol class=\"narrative\">\n"@ + li_items(
            narrative,
        ) + "</ol>\n</section>\n"@
    }
}

/// `p` followed by the retrieval-log section.
pub open spec fn with_log(p: Seq<char>, log: Seq<FetchLogView>) -> Seq<char> {
    if log.len() == 0 {
        p + "<section>\n<h2>Retrieval log</h2>\n"@
            + "<p class=\"empty\">No requests were recorded.</p>\n"@ + "</section>\n"@
    } else {
        with_log_rows(
            p + "<section>\n<h2>Retrieval log</h2>\n"@
                + "<div class=\"table-scroll\">\n<table class=\"data\">\n<thead><tr>"@
                + header_cells(log_headers()) + "</tr></thead>\n<tbody>\n"@,
            log,
        ) + "</tbody>\n</table>\n</div>\n"@ + "</section>\n"@
    }
}

/// `p` followed by the sources, the closing disclaimer and the end of the
/// document.
pub open spec fn with_footer(p: Seq<char>, sources: Seq<Seq<char>>) -> Seq<char> {
    p + "<section>\n<h2>Sources</h2>\n<ul>\n"@ + li_items(sources) + "</ul>\n</section>\n"@
        + "<footer class=\"report-footer\">\n<p class=\"disclaimer\"><strong>Research use only.</strong> "@
        + html_escaped(RESEARCH_DISCLAIMER@)
        + "</p>\n<p class=\"disclaimer-meta\">Independent, research-oriented tool \u{2014} not affiliated with or endorsed by the State of California or the California Department of Education. Source: <a href=\"https://www.caschooldashboard.org/\">https://www.caschooldashboard.org/</a></p>\n</footer>\n"@
        + "</body>\n</html>\n"@
}

/// The complete HTML report: head, header, completeness, methods,
/// limitations, data table, narrative, retrieval log, sources, disclaimer.
pub open spec fn spec_html(
    school_count: nat,
    years: Seq<u16>,
    row_count: nat,
    method_version: Seq<char>,
    quality: DataQuality,
    methods: Seq<Seq<char>>,
    table: Seq<Seq<(Seq<char>, bool)>>,
    narrative: Seq<Seq<char>>,
    log: Seq<FetchLogView>,
    sources: Seq<Seq<char>>,
) -> Seq<char> {
    with_footer(
        with_log(
            with_narrative(
                with_measures(
                    with_summary(
                        with_header(
                            with_head(Seq::empty()),
                            school_count,
                            years,
                            row_count,
                            method_version,
                        ),
                        quality,
                        methods,
                    ),
                    table,
                ),
                narrative,
            ),
            log,
        ),
        sources,
    )
}

fn push_escaped(html: &mut String, text: &str)
    ensures
        final(html)@ == old(html)@ + html_escaped(text@),
{
    let e = escape_html(text);
    push_str(html, e.as_str());
}

fn push_li_items(html: &mut String, items: &Vec<String>)
    ensures
        final(html)@ == old(html)@ + li_items(texts(items@)),
{
    let ghost tv = texts(items@);
    let mut i: usize = 0;
    while i < items.len()
        invariant
            tv == texts(items@),
            i <= items@.len(),
            html@ == old(html)@ + li_items(tv.take(i as int)),
        decreases items@.len() - i,
    {
        push_str(html, "<li>");
        push_escaped(html, items[i].as_str());
        push_str(html, "</li>\n");
        assert(tv.take(i + 1).drop_last() =~= tv.take(i as int));
        i = i + 1;
    }
    assert(tv.take(items@.len() as int) =~= tv);
}

fn push_li_static(html: &mut String, items: &Vec<&'static str>)
    ensures
        final(html)@ == old(html)@ + li_items(str_views(items@)),
{
    let ghost tv = str_views(items@);
    let mut i: usize = 0;
    while i < items.len()
        invariant
            tv == str_views(items@),
            i <= items@.len(),
            html@ == old(html)@ + li_items(tv.take(i as int)),
        decreases items@.len() - i,
    {
        push_str(html, "<li>");
        push_escaped(html, items[i]);
        push_str(html, "</li>\n");
        assert(tv.take(i + 1).drop_last() =~= tv.take(i as int));
        i = i + 1;
    }
    assert(tv.take(items@.len() as int) =~= tv);
}

fn push_metric_rows(html: &mut String, ms: &Vec<(&'static str, u64)>)
    ensures
        final(html)@ == old(html)@ + metric_rows(metric_views(ms@)),
{
    let ghost mv = metric_views(ms@);
    let mut i: usize = 0;
    while i < ms.len()
        invariant
            mv == metric_views(ms@),
            i <= ms@.len(),
            html@ == old(html)@ + metric_rows(mv.take(i as int)),
        decreases ms@.len() - i,
    {
        let (label, value) = ms[i];
        push_str(html, "<tr><th scope=\"row\">");
        push_escaped(html, label);
        push_str(html, "</th><td class=\"num\">");
        push_decimal(html, value);
        push_str(html, "</td></tr>\n");
        assert(mv.take(i + 1).drop_last() =~= mv.take(i as int));
        i = i + 1;
    }
    assert(mv.take(ms@.len() as int) =~= mv);
}

fn push_header_cells(html: &mut String, hs: &Vec<&'static str>)
    ensures
        final(html)@ == old(html)@ + header_cells(str_views(hs@)),
{
    let ghost hv = str_views(hs@);
    let mut i: usize = 0;
    while i < hs.len()
        invariant
            hv == str_views(hs@),
            i <= hs@.len(),
            html@ == old(html)@ + header_cells(hv.take(i as int)),
        decreases hs@.len() - i,
    {
        push_str(html, "<th scope=\"col\">");
        push_escaped(html, hs[i]);
        push_str(html, "</th>");
        assert(hv.take(i + 1).drop_last() =~= hv.take(i as int));
        i = i + 1;
    }
    assert(hv.take(hs@.len() as int) =~= hv);
}

/// The contents of display cells.
pub open spec fn display_views(cells: Seq<(String, bool)>) -> Seq<(Seq<char>, bool)> {
    cells.map_values(|c: (String, bool)| (c.0@, c.1))
}

/// The contents of a table of display cells.
pub open spec fn table_views(table: Seq<Vec<(String, bool)>>) -> Seq<Seq<(Seq<char>, bool)>> {
    table.map_values(|r: Vec<(String, bool)>| display_views(r@))
}

fn push_data_cells(html: &mut String, cells: &Vec<(String, bool)>)
    ensures
        final(html)@ == old(html)@ + data_cells(display_views(cells@)),
{
    let ghost cv = display_views(cells@);
    let mut i: usize = 0;
    while i < cells.len()
        invariant
            cv == display_views(cells@),
            i <= cells@.len(),
            html@ == old(html)@ + data_cells(cv.take(i as int)),
        decreases cells@.len() - i,
    {
        push_str(html, "<td");
        if cells[i].1 {
            push_str(html, " class=\"missing\"");
        } else {
            proof {
                reveal_strlit("");
            }
            assert(html@ =~= html@ + ""@);
        }
        push_str(html, ">");
        push_escaped(html, cells[i].0.as_str());
        push_str(html, "</td>");
        assert(cv.take(i + 1).drop_last() =~= cv.take(i as int));
        i = i + 1;
    }
    assert(cv.take(cells@.len() as int) =~= cv);
}

fn push_data_rows(html: &mut String, table: &Vec<Vec<(String, bool)>>)
    ensures
        final(html)@ == old(html)@ + data_rows(table_views(table@)),
{
    let ghost tv = table_views(table@);
    let mut i: usize = 0;
    while i < table.len()
        invariant
            tv == table_views(table@),
            i <= table@.len(),
            html@ == old(html)@ + data_rows(tv.take(i as int)),
        decreases table@.len() - i,
    {
        push_str(html, "<tr>");
        push_data_cells(html, &table[i]);
        push_str(html, "</tr>\n");
        assert(tv.take(i + 1).drop_last() =~= tv.take(i as int));
        i = i + 1;
    }
    assert(tv.take(table@.len() as int) =~= tv);
}

fn push_log_row(html: &mut String, e: &FetchLogEntry)
    ensures
        final(html)@ == with_log_row(old(html)@, e@),
{
    push_str(html, "<tr>");
    push_str(html, "<td>");
    push_escaped(html, e.school_name.as_str());
    push_str(html, "</td>");
    push_str(html, "<td>");
    push_escaped(html, e.cds_code.as_str());
    push_str(html, "</td>");
    push_str(html, "<td class=\"num\">");
    push_decimal(html, e.year as u64);
    push_str(html, "</td>");
    push_str(html, "<td>");
    push_escaped(html, e.status.as_str());
    push_str(html, "</td>");
    push_str(html, "<td class=\"num\">");
    match e.http_status {
        Some(code) => push_decimal(html, code as u64),
        None => push_str(html, "\u{2014}"),
    }
    push_str(html, "</td>");
    push_str(html, "<td class=\"num\">");
    push_decimal(html, e.attempts as u64);
    push_str(html, "</td>");
    push_str(html, "<td>");
    push_escaped(html, e.detail.as_str());
    push_str(html, "</td>");
    push_str(html, "<td>");
    push_escaped(html, e.source_url.as_str());
    push_str(html, "</td>");
    push_str(html, "</tr>\n");
}

fn push_log_rows(html: &mut String, log: &Vec<FetchLogEntry>)
    ensures
        final(html)@ == with_log_rows(old(html)@, log_views(log@)),
{
    let ghost lv = log_views(log@);
    let mut i: usize = 0;
    assert(lv.take(0) =~= Seq::<FetchLogView>::empty());
    while i < log.len()
        invariant
            lv == log_views(log@),
            i <= log@.len(),
            html@ == with_log_rows(old(html)@, lv.take(i as int)),
        decreases log@.len() - i,
    {
        push_log_row(html, &log[i]);
        assert(lv.take(i + 1).drop_last() =~= lv.take(i as int));
        i = i + 1;
    }
    assert(lv.take(log@.len() as int) =~= lv);
}

/// The distinct school codes of the rows.
pub open spec fn row_schools<N>(rows: Seq<RowView<N>>) -> Set<Seq<char>> {
    rows.map_values(|r: RowView<N>| r.cds_code).to_set()
}

/// The distinct years of the rows.
pub open spec fn row_years<N>(rows: Seq<RowView<N>>) -> Set<u16> {
    rows.map_values(|r: RowView<N>| r.year).to_set()
}

/// The number of distinct schools and the distinct years, in increasing
/// order, that the rows cover.
pub fn report_scope<N>(rows: &Vec<CanonicalRow<N>>) -> (r: (usize, Vec<u16>))
    ensures
        r.0 == row_schools(row_views(rows@)).len(),
        crate::web::years_increasing(r.1@),
        r.1@.to_set() == row_years(row_views(rows@)),
{
    let ghost rv = row_views(rows@);
    let mut codes: Vec<String> = Vec::new();
    let mut years: Vec<u16> = Vec::new();
    let mut i: usize = 0;
    while i < rows.len()
        invariant
            rv == row_views(rows@),
            i <= rows@.len(),
            codes@.len() == i,
            years@.len() == i,
            forall|k: int| 0 <= k < i ==> (#[trigger] codes@[k])@ == rv[k].cds_code,
            forall|k: int| 0 <= k < i ==> #[trigger] years@[k] == rv[k].year,
        decreases rows@.len() - i,
    {
        codes.push(rows[i].cds_code.clone());
        years.push(rows[i].year);
        i = i + 1;
    }
    assert(codes@.map_values(|t: String| t@) =~= rv.map_values(|r: RowView<N>| r.cds_code));
    assert(years@ =~= rv.map_values(|r: RowView<N>| r.year));
    let unique = crate::resolver::sorted_unique_texts(&codes);
    proof {
        crate::web::lemma_increasing_no_duplicates(unique@.map_values(|t: String| t@));
        unique@.map_values(|t: String| t@).unique_seq_to_set();
    }
    let distinct_years = crate::web::sorted_unique_years(&years);
    (unique.len(), distinct_years)
}

/// Renders the HTML report. The caller supplies the display text of every
/// data cell (with whether its value is missing) and the narrative
/// statements, which depend on number formatting.
#[verifier::spinoff_prover]
#[verifier::rlimit(40)]
pub fn html_string<N>(
    report: &ReportModel<N>,
    table: &Vec<Vec<(String, bool)>>,
    narrative: &Vec<String>,
) -> (html: String)
    ensures
        exists|years: Seq<u16>|
            #![trigger crate::web::years_increasing(years)]
            crate::web::years_increasing(years) && years.to_set() == row_years(row_views(report.rows@))
                && html@ == spec_html(
                row_schools(row_views(report.rows@)).len(),
                years,
                report.rows@.len(),
                report.method_version@,
                report.quality,
                texts(report.methods@),
                table_views(table@),
                texts(narrative@),
                log_views(report.fetch_log@),
                texts(report.sources@),
            ),
{
    let (school_count, years) = report_scope(&report.rows);
    let mut html = String::new();
    push_str(&mut html, "<!doctype html>\n<html lang=\"en\">\n<head>\n<meta charset=\"utf-8\">\n");
    push_str(&mut html, "<meta name=\"viewport\" content=\"width=device-width, initial-scale=1\">\n");
    push_str(&mut html, "<title>California School Dashboard \u{2014} Descriptive Report</title>\n");
    push_str(&mut html, "<style>\n");
    push_str(&mut html, HTML_STYLE);
    push_str(&mut html, "\n</style>\n</head>\n<body>\n");
    assert(html@ == with_head(Seq::empty()));
    let ghost after_head = html@;
    push_str(&mut html, "<header class=\"report-header\">\n");
    push_str(&mut html, "<h1>California School Dashboard \u{2014} Descriptive Report</h1>\n");
    push_str(&mut html, "<p class=\"scope\">");
    push_decimal(&mut html, school_count as u64);
    push_str(&mut html, " school");
    push_str(&mut html, plural(school_count));
    push_str(&mut html, " \u{b7} reporting year");
    push_str(&mut html, plural(years.len()));
    push_str(&mut html, ": ");
    let phrase = years_phrase(years.as_slice());
    push_escaped(&mut html, phrase.as_str());
    push_str(&mut html, " \u{b7} ");
    push_decimal(&mut html, report.rows.len() as u64);
    push_str(&mut html, " data row");
    push_str(&mut html, plural(report.rows.len()));
    push_str(&mut html, " \u{b7} method ");
    push_escaped(&mut html, report.method_version.as_str());
    push_str(&mut html, "</p>\n");
    push_str(&mut html, "<p class=\"scope\">Generated by california-dashboard v");
    push_escaped(&mut html, crate::APP_VERSION);
    push_str(&mut html, ". Values are descriptive administrative aggregates from the California School Dashboard.</p>\n");
    push_str(&mut html, "<a class=\"source-link\" href=\"https://www.caschooldashboard.org/\" target=\"_blank\" rel=\"noopener noreferrer\" aria-label=\"Official data source: California School Dashboard website (opens in a new tab)\"><span class=\"logo-box\">");
    push_str(&mut html, DASHBOARD_LOGO_SVG);
    push_str(&mut html, "</span><span class=\"source-link-text\">Official public source: caschooldashboard.org &#8599;</span></a>\n");
    push_str(&mut html, "</header>\n");
    assert(html@ == with_header(
        after_head,
        school_count as nat,
        years@,
        report.rows@.len(),
        report.method_version@,
    ));
    let ghost after_header = html@;
    push_str(&mut html, "<section>\n<h2>Data completeness</h2>\n<table class=\"summary\">\n");
    push_str(&mut html, "<thead><tr><th scope=\"col\">Metric</th><th scope=\"col\">Value</th></tr></thead>\n<tbody>\n");
    let metrics = quality_metrics(&report.quality);
    push_metric_rows(&mut html, &metrics);
    push_str(&mut html, "</tbody>\n</table>\n</section>\n");
    push_str(&mut html, "<section>\n<h2>How these numbers were prepared</h2>\n<ul>\n");
    push_li_items(&mut html, &report.methods);
    push_str(&mut html, "</ul>\n</section>\n");
    push_str(&mut html, "<section>\n<h2>Limitations</h2>\n<ul>\n");
    let limits = limitation_statements();
    push_li_static(&mut html, &limits);
    push_str(&mut html, "</ul>\n</section>\n");
    assert(html@ == with_summary(after_header, report.quality, texts(report.methods@)));
    let ghost after_limits = html@;
    push_str(&mut html, "<section>\n<h2>Reported measures</h2>\n");
    if table.len() == 0 {
        push_str(&mut html, "<p class=\"empty\">No rows were produced for this selection.</p>\n");
    } else {
        push_str(&mut html, "<div class=\"table-scroll\">\n<table class=\"data\">\n<thead><tr>");
        let headers = column_headers();
        push_header_cells(&mut html, &headers);
        push_str(&mut html, "</tr></thead>\n<tbody>\n");
        push_data_rows(&mut html, table);
        push_str(&mut html, "</tbody>\n</table>\n</div>\n");
    }
    push_str(&mut html, "</section>\n");
    assert(html@ == with_measures(after_limits, table_views(table@)));
    let ghost after_measures = html@;
    if narrative.len() > 0 {
        push_str(&mut html, "<section>\n<h2>Row-by-row description</h2>\n<ol class=\"narrative\">\n");
        push_li_items(&mut html, narrative);
        push_str(&mut html, "</ol>\n</section>\n");
    }
    assert(html@ == with_narrative(after_measures, texts(narrative@)));
    let ghost after_narrative = html@;
    push_str(&mut html, "<section>\n<h2>Retrieval log</h2>\n");
    if report.fetch_log.len() == 0 {
        push_str(&mut html, "<p class=\"empty\">No requests were recorded.</p>\n");
    } else {
        push_str(&mut html, "<div class=\"table-scroll\">\n<table class=\"data\">\n<thead><tr>");
        let mut log_heads: Vec<&'static str> = Vec::new();
        log_heads.push("School");
        log_heads.push("CDS");
        log_heads.push("Year");
        log_heads.push("Status");
        log_heads.push("HTTP");
        log_heads.push("Attempts");
        log_heads.push("Detail");
        log_heads.push("Source URL");
        assert(str_views(log_heads@) =~= log_headers());
        push_header_cells(&mut html, &log_heads);
        push_str(&mut html, "</tr></thead>\n<tbody>\n");
        push_log_rows(&mut html, &report.fetch_log);
        push_str(&mut html, "</tbody>\n</table>\n</div>\n");
    }
    push_str(&mut html, "</section>\n");
    assert(html@ == with_log(after_narrative, log_views(report.fetch_log@)));
    let ghost after_log = html@;
    push_str(&mut html, "<section>\n<h2>Sources</h2>\n<ul>\n");
    push_li_items(&mut html, &report.sources);
    push_str(&mut html, "</ul>\n</section>\n");
    push_str(&mut html, "<footer class=\"report-footer\">\n<p class=\"disclaimer\"><strong>Research use only.</strong> ");
    push_escaped(&mut html, RESEARCH_DISCLAIMER);
    push_str(&mut html, "</p>\n<p class=\"disclaimer-meta\">Independent, research-oriented tool \u{2014} not affiliated with or endorsed by the State of California or the California Department of Education. Source: <a href=\"https://www.caschooldashboard.org/\">https://www.caschooldashboard.org/</a></p>\n</footer>\n");
    push_str(&mut html, "</body>\n</html>\n");
    assert(html@ == with_footer(after_log, texts(report.sources@)));
    assert(html@ == spec_html(
        school_count as nat,
        years@,
        report.rows@.len(),
        report.method_version@,
        report.quality,
        texts(report.methods@),
        table_views(table@),
        texts(narrative@),
        log_views(report.fetch_log@),
        texts(report.sources@),
    ));
    html
}

/// A character that could open or close markup or an attribute value.
pub open spec fn markup_char(c: char) -> bool {
    c == '<' || c == '>' || c == '"' || c == '\''
}

/// Escaped text can never open or close markup or an attribute value.
pub proof fn law_escaped_text_has_no_markup(text: Seq<char>)
    ensures
        forall|i: int| 0 <= i < html_escaped(text).len() ==> !markup_char(#[trigger] html_escaped(text)[i]),
    decreases text.len(),
{
    reveal_strlit("&amp;");
    reveal_strlit("&lt;");
    reveal_strlit("&gt;");
    reveal_strlit("&quot;");
    reveal_strlit("&#39;");
    if text.len() > 0 {
        law_escaped_text_has_no_markup(text.drop_last());
        let head = html_escaped(text.drop_last());
        let tail = html_char(text.last());
        assert forall|i: int| 0 <= i < tail.len() implies !markup_char(#[trigger] tail[i]) by {}
        assert forall|i: int| 0 <= i < (head + tail).len() implies !markup_char(#[trigger] (head + tail)[i]) by {
            if i < head.len() {
                assert((head + tail)[i] == head[i]);
            } else {
                assert((head + tail)[i] == tail[i - head.len()]);
            }
        }
    }
}

/// Whether `t` starts with `p`, a text of `n` characters.
pub open spec fn begins(t: Seq<char>, p: Seq<char>, n: int) -> bool {
    t.len() >= n && t.subrange(0, n) == p
}

/// Text with the five entities `&amp;`, `&lt;`, `&gt;`, `&quot;` and
/// `&#39;` read back as the characters they stand for, left to right.
pub open spec fn html_unescaped(t: Seq<char>) -> Seq<char>
    decreases t.len(),
{
    if t.len() == 0 {
        Seq::empty()
    } else if begins(t, "&amp;"@, 5) {
        seq!['&'] + html_unescaped(t.skip(5))
    } else if begins(t, "&lt;"@, 4) {
        seq!['<'] + html_unescaped(t.skip(4))
    } else if begins(t, "&gt;"@, 4) {
        seq!['>'] + html_unescaped(t.skip(4))
    } else if begins(t, "&quot;"@, 6) {
        seq!['"'] + html_unescaped(t.skip(6))
    } else if begins(t, "&#39;"@, 5) {
        seq!['\''] + html_unescaped(t.skip(5))
    } else {
        seq![t[0]] + html_unescaped(t.skip(1))
    }
}

proof fn lemma_escaped_front(t: Seq<char>)
    requires
        t.len() > 0,
    ensures
        html_escaped(t) == html_char(t[0]) + html_escaped(t.skip(1)),
    decreases t.len(),
{
    if t.len() == 1 {
        assert(t.drop_last() =~= Seq::<char>::empty());
        assert(t.skip(1) =~= Seq::<char>::empty());
        assert(html_char(t[0]) + Seq::<char>::empty() =~= html_char(t[0]));
    } else {
        lemma_escaped_front(t.drop_last());
        assert(t.drop_last()[0] == t[0]);
        assert(t.skip(1).drop_last() =~= t.drop_last().skip(1));
        assert(t.skip(1).last() == t.last());
        assert(html_char(t[0]) + html_escaped(t.drop_last().skip(1)) + html_char(t.last()) =~= html_char(t[0])
            + (html_escaped(t.drop_last().skip(1)) + html_char(t.last())));
    }
}

proof fn lemma_unescape_char(c: char, rest: Seq<char>)
    ensures
        html_unescaped(html_char(c) + rest) == seq![c] + html_unescaped(rest),
{
    reveal_strlit("&amp;");
    reveal_strlit("&lt;");
    reveal_strlit("&gt;");
    reveal_strlit("&quot;");
    reveal_strlit("&#39;");
    let x = html_char(c);
    let t = x + rest;
    assert(t.skip(x.len() as int) =~= rest);
    assert(t.subrange(0, x.len() as int) =~= x);
    if c == '&' || c == '<' || c == '>' || c == '"' || c == '\'' {
        assert(t[0] == '&');
        assert(t[1] == x[1]);
    } else {
        assert(x =~= seq![c]);
        assert(t[0] == c);
        assert(t.skip(1) =~= rest);
    }
}

/// Reading the five entities back out of escaped text gives the text again.
pub proof fn law_unescaping_restores_text(text: Seq<char>)
    ensures
        html_unescaped(html_escaped(text)) == text,
    decreases text.len(),
{
    if text.len() == 0 {
        assert(html_escaped(text) =~= Seq::<char>::empty());
    } else {
        lemma_escaped_front(text);
        lemma_unescape_char(text[0], html_escaped(text.skip(1)));
        law_unescaping_restores_text(text.skip(1));
        assert(seq![text[0]] + text.skip(1) =~= text);
    }
}

/// Spreadsheet-safe text never starts with a formula character, and making
/// safe text safe again changes nothing.
pub proof fn law_csv_safe_text_is_inert(text: Seq<char>)
    ensures
        csv_safe(text).len() > 0 ==> !formula_lead(csv_safe(text)[0]),
        csv_safe(csv_safe(text)) == csv_safe(text),
{
}

// ------------------------------------------------------------------------
// CSV files
// ------------------------------------------------------------------------

/// The bytes the `csv` crate's default writer produces for one record written
/// on its own, the record terminator included.
pub uninterp spec fn csv_record_bytes(fields: Seq<Seq<char>>) -> Seq<u8>;

/// `csv::Writer::from_writer` over memory, then `write_record` and
/// `into_inner`: the encoding of one record. The writer quotes and escapes
/// by the crate's rules, named here rather than stated. It always succeeds:
/// the crate fails only when the underlying writer fails (a `Vec<u8>` never
/// does) or when a record's length differs from the first record's (a fresh
/// writer's first record sets it).
#[verifier::external_body]
fn csv_record(fields: &Vec<String>) -> (r: Result<Vec<u8>, String>)
    ensures
        r is Ok,
        r matches Ok(b) ==> b@ == csv_record_bytes(fields@.map_values(|f: String| f@)),
{
    let mut writer = csv::Writer::from_writer(Vec::new());
    writer.write_record(fields).map_err(|error| error.to_string())?;
    writer.into_inner().map_err(|error| error.to_string())
}

/// The bytes of records written one after another. The `csv` writer keeps
/// no state between records other than their common length, so a file is
/// its records' encodings in order.
pub open spec fn csv_document(records: Seq<Seq<Seq<char>>>) -> Seq<u8>
    decreases records.len(),
{
    if records.len() == 0 {
        Seq::empty()
    } else {
        csv_document(records.drop_last()) + csv_record_bytes(records.last())
    }
}

/// The text of records of strings.
pub open spec fn record_views(records: Seq<Vec<String>>) -> Seq<Seq<Seq<char>>> {
    records.map_values(|rec: Vec<String>| rec@.map_values(|f: String| f@))
}

/// Writes records as a CSV file, all of one length as the writer requires;
/// writing to memory always succeeds.
pub fn csv_document_bytes(records: &Vec<Vec<String>>) -> (r: Result<Vec<u8>, String>)
    requires
        forall|i: int| 0 <= i < records@.len() ==> (#[trigger] records@[i])@.len() == records@[0]@.len(),
    ensures
        r is Ok,
        r matches Ok(b) ==> b@ == csv_document(record_views(records@)),
{
    let ghost rv = record_views(records@);
    let mut out: Vec<u8> = Vec::new();
    let mut i: usize = 0;
    assert(rv.take(0) =~= Seq::<Seq<Seq<char>>>::empty());
    while i < records.len()
        invariant
            i <= records@.len(),
            rv == record_views(records@),
            out@ == csv_document(rv.take(i as int)),
        decreases records@.len() - i,
    {
        let bytes = csv_record(&records[i])?;
        assert(rv.take(i + 1).drop_last() =~= rv.take(i as int));
        assert(rv.take(i + 1).last() == records@[i as int]@.map_values(|f: String| f@));
        let mut k: usize = 0;
        let ghost start = out@;
        while k < bytes.len()
            invariant
                k <= bytes@.len(),
                out@ == start + bytes@.take(k as int),
            decreases bytes@.len() - k,
        {
            out.push(bytes[k]);
            k = k + 1;
            assert(out@ =~= start + bytes@.take(k as int));
        }
        assert(bytes@.take(bytes@.len() as int) =~= bytes@);
        i = i + 1;
    }
    assert(rv.take(records@.len() as int) =~= rv);
    Ok(out)
}

/// The spreadsheet-safe fields of a directory row, in column order.
pub open spec fn directory_fields(d: crate::model::DirectoryView) -> Seq<Seq<char>> {
    seq![csv_safe(d.record_type), csv_safe(d.cds_code), csv_safe(d.district), csv_safe(d.school), csv_safe(d.status)]
}

/// The formula that totals the directory workbook's CDS-code column: the
/// count of the `n` record rows under the header, or `0` when there are none.
pub open spec fn spec_count_formula(n: nat) -> Seq<char> {
    if n == 0 {
        "0"@
    } else {
        "COUNTA(A2:A"@ + decimal(n + 1) + ")"@
    }
}

/// The total-row formula of the directory workbook for `records` rows.
pub fn directory_count_formula(records: usize) -> (r: String)
    requires
        records < usize::MAX,
    ensures
        r@ == spec_count_formula(records as nat),
{
    if records == 0 {
        return owned("0");
    }
    let mut r = owned("COUNTA(A2:A");
    push_decimal(&mut r, (records + 1) as u64);
    push_str(&mut r, ")");
    r
}

/// The header row of the directory file.
pub open spec fn directory_header() -> Seq<Seq<char>> {
    seq!["Record Type"@, "CDS Code"@, "District"@, "School"@, "Status"@]
}

/// Renders the five-column school and district directory as CSV: the header
/// row, then each record's fields made spreadsheet-safe. It always succeeds.
pub fn directory_csv_bytes(records: &[crate::model::DirectoryRecord]) -> (r: Result<Vec<u8>, String>)
    ensures
        r is Ok,
        r matches Ok(b) ==> b@ == csv_document(
            seq![directory_header()] + records@.map_values(
                |d: crate::model::DirectoryRecord| directory_fields(d@),
            ),
        ),
{
    let mut table: Vec<Vec<String>> = Vec::new();
    let mut header: Vec<String> = Vec::new();
    header.push(owned("Record Type"));
    header.push(owned("CDS Code"));
    header.push(owned("District"));
    header.push(owned("School"));
    header.push(owned("Status"));
    assert(header@.map_values(|f: String| f@) =~= directory_header());
    table.push(header);
    let mut i: usize = 0;
    while i < records.len()
        invariant
            i <= records@.len(),
            table@.len() == i + 1,
            forall|j: int| 0 <= j < table@.len() ==> (#[trigger] table@[j])@.len() == 5,
            record_views(table@) == seq![directory_header()] + records@.take(i as int).map_values(
                |d: crate::model::DirectoryRecord| directory_fields(d@),
            ),
        decreases records@.len() - i,
    {
        let d = &records[i];
        let mut fields: Vec<String> = Vec::new();
        fields.push(csv_safe_text(d.record_type.as_str()));
        fields.push(csv_safe_text(d.cds_code.as_str()));
        fields.push(csv_safe_text(d.district.as_str()));
        fields.push(csv_safe_text(d.school.as_str()));
        fields.push(csv_safe_text(d.status.as_str()));
        assert(fields@.map_values(|f: String| f@) =~= directory_fields(d@));
        let ghost before = record_views(table@);
        table.push(fields);
        assert(record_views(table@) =~= before.push(directory_fields(d@)));
        assert(records@.take(i + 1).map_values(|d: crate::model::DirectoryRecord| directory_fields(d@))
            =~= records@.take(i as int).map_values(|d: crate::model::DirectoryRecord| directory_fields(d@)).push(
            directory_fields(d@),
        ));
        i = i + 1;
    }
    assert(records@.take(records@.len() as int) =~= records@);
    csv_document_bytes(&table)
}

/// Renders the report's rows as CSV: the column headers, then each row's
/// fields as the caller rendered them (one per column). It always succeeds.
pub fn report_csv_bytes(rows: &Vec<Vec<String>>) -> (r: Result<Vec<u8>, String>)
    requires
        forall|i: int| 0 <= i < rows@.len() ==> (#[trigger] rows@[i])@.len() == 38,
    ensures
        r is Ok,
        r matches Ok(b) ==> b@ == csv_document(seq![spec_headers()] + record_views(rows@)),
{
    let names = column_headers();
    let mut header: Vec<String> = Vec::new();
    let mut k: usize = 0;
    while k < names.len()
        invariant
            k <= names@.len(),
            str_views(names@) == spec_headers(),
            header@.map_values(|f: String| f@) == str_views(names@).take(k as int),
        decreases names@.len() - k,
    {
        let ghost before = header@.map_values(|f: String| f@);
        let name = owned(names[k]);
        assert(name@ == str_views(names@)[k as int]);
        header.push(name);
        assert(header@.map_values(|f: String| f@) =~= before.push(name@));
        assert(str_views(names@).take(k + 1) =~= str_views(names@).take(k as int).push(
            str_views(names@)[k as int],
        ));
        k = k + 1;
    }
    assert(str_views(names@).take(names@.len() as int) =~= spec_headers());
    assert(spec_headers().len() == 38);
    let mut table: Vec<Vec<String>> = Vec::new();
    table.push(header);
    let mut i: usize = 0;
    while i < rows.len()
        invariant
            i <= rows@.len(),
            forall|j: int| 0 <= j < rows@.len() ==> (#[trigger] rows@[j])@.len() == 38,
            table@.len() == i + 1,
            forall|j: int| 0 <= j < table@.len() ==> (#[trigger] table@[j])@.len() == 38,
            record_views(table@) == seq![spec_headers()] + record_views(rows@.take(i as int)),
        decreases rows@.len() - i,
    {
        let row = &rows[i];
        let mut fields: Vec<String> = Vec::new();
        let mut c: usize = 0;
        while c < row.len()
            invariant
                c <= row@.len(),
                fields@.map_values(|f: String| f@) == row@.take(c as int).map_values(|f: String| f@),
                fields@.len() == c,
            decreases row@.len() - c,
        {
            let t = row[c].clone();
            let ghost before = fields@.map_values(|f: String| f@);
            fields.push(t);
            assert(fields@.map_values(|f: String| f@) =~= before.push(row@[c as int]@));
            assert(row@.take(c + 1).map_values(|f: String| f@) =~= row@.take(c as int).map_values(
                |f: String| f@,
            ).push(row@[c as int]@));
            c = c + 1;
        }
        assert(row@.take(row@.len() as int) =~= row@);
        let ghost before = record_views(table@);
        table.push(fields);
        assert(record_views(table@) =~= before.push(row@.map_values(|f: String| f@)));
        assert(record_views(rows@.take(i + 1)) =~= record_views(rows@.take(i as int)).push(
            row@.map_values(|f: String| f@),
        ));
        i = i + 1;
    }
    assert(rows@.take(rows@.len() as int) =~= rows@);
    csv_document_bytes(&table)
}


// ------------------------------------------------------------------------
// PDF report content
// ------------------------------------------------------------------------

/// How a line of the PDF report is set: the two title lines, a section
/// heading, body text, a bulleted item, or vertical space.
#[derive(Clone, Copy, Debug, PartialEq, Eq, Structural)]
pub enum PdfStyle {
    Title,
    Subtitle,
    Subheading,
    Body,
    Bullet,
    Spacer,
}

/// The contents of styled lines.
pub open spec fn block_views(v: Seq<(PdfStyle, String)>) -> Seq<(PdfStyle, Seq<char>)> {
    v.map_values(|b: (PdfStyle, String)| (b.0, b.1@))
}

/// Each text as a bulleted item.
pub open spec fn bullets(items: Seq<Seq<char>>) -> Seq<(PdfStyle, Seq<char>)> {
    items.map_values(|t: Seq<char>| (PdfStyle::Bullet, t))
}

/// Each labelled count as a bulleted `label: value` item.
pub open spec fn metric_bullets(ms: Seq<(Seq<char>, u64)>) -> Seq<(PdfStyle, Seq<char>)> {
    ms.map_values(|m: (Seq<char>, u64)| (PdfStyle::Bullet, m.0 + ": "@ + decimal(m.1 as nat)))
}

/// A section: vertical space, its heading, then its lines.
pub open spec fn pdf_section(heading: Seq<char>, lines: Seq<(PdfStyle, Seq<char>)>) -> Seq<
    (PdfStyle, Seq<char>),
> {
    seq![(PdfStyle::Spacer, Seq::<char>::empty()), (PdfStyle::Subheading, heading)] + lines
}

/// The coverage sentence under the title.
pub open spec fn coverage_line(school_count: nat, years: Seq<u16>, row_count: nat) -> Seq<char> {
    "Coverage: "@ + decimal(school_count) + " school"@ + plural_suffix(school_count as usize)
        + ", reporting year"@ + plural_suffix(years.len() as usize) + " "@ + years_text(years)
        + ", "@ + decimal(row_count) + " data row"@ + plural_suffix(row_count as usize) + "."@
}

/// The sentence naming the tool and the reporting method.
pub open spec fn prepared_line() -> Seq<char> {
    "Prepared by california-dashboard v"@ + crate::APP_VERSION@ + " using reporting method "@
        + crate::METHOD_VERSION@
        + ". Values are descriptive administrative aggregates and are not a random sample."@
}

/// The closing statement on independence from the State.
pub open spec fn independence_line() -> Seq<char> {
    "Independent, research-oriented tool \u{2014} not affiliated with or endorsed by the State of California or the California Department of Education. Source: https://www.caschooldashboard.org/"@
}

/// The lines of the PDF report, in order: title, scope, completeness,
/// methods, limitations, narrative, sources, disclaimer.
pub open spec fn spec_pdf_blocks(
    school_count: nat,
    years: Seq<u16>,
    row_count: nat,
    quality: DataQuality,
    methods: Seq<Seq<char>>,
    narrative: Seq<Seq<char>>,
    sources: Seq<Seq<char>>,
) -> Seq<(PdfStyle, Seq<char>)> {
    seq![
        (PdfStyle::Title, "California School Dashboard"@),
        (PdfStyle::Subtitle, "Descriptive Report"@),
        (PdfStyle::Spacer, Seq::<char>::empty()),
        (PdfStyle::Body, coverage_line(school_count, years, row_count)),
        (PdfStyle::Body, prepared_line()),
    ] + pdf_section("Data completeness"@, metric_bullets(spec_quality_metrics(quality)))
        + pdf_section("How these numbers were prepared"@, bullets(methods)) + pdf_section(
        "Limitations"@,
        bullets(spec_limitations()),
    ) + pdf_section(
        "Row-by-row description"@,
        if narrative.len() == 0 {
            seq![(PdfStyle::Body, "No reportable rows were produced for this selection."@)]
        } else {
            bullets(narrative)
        },
    ) + pdf_section("Sources"@, bullets(sources)) + pdf_section(
        "Disclaimer"@,
        seq![
            (PdfStyle::Body, "Research use only. "@ + RESEARCH_DISCLAIMER@),
            (PdfStyle::Body, independence_line()),
        ],
    )
}

fn push_block(out: &mut Vec<(PdfStyle, String)>, style: PdfStyle, text: String)
    ensures
        block_views(final(out)@) == block_views(old(out)@).push((style, text@)),
{
    out.push((style, text));
    assert(block_views(out@) =~= block_views(old(out)@).push((style, text@)));
}

fn push_section_head(out: &mut Vec<(PdfStyle, String)>, heading: &str)
    ensures
        block_views(final(out)@) == block_views(old(out)@) + pdf_section(heading@, seq![]),
{
    push_block(out, PdfStyle::Spacer, String::new());
    push_block(out, PdfStyle::Subheading, owned(heading));
    assert(block_views(out@) =~= block_views(old(out)@) + pdf_section(heading@, seq![]));
}

fn push_bullets(out: &mut Vec<(PdfStyle, String)>, items: &Vec<String>)
    ensures
        block_views(final(out)@) == block_views(old(out)@) + bullets(texts(items@)),
{
    let ghost tv = texts(items@);
    let mut i: usize = 0;
    assert(bullets(tv.take(0)) =~= seq![]);
    while i < items.len()
        invariant
            tv == texts(items@),
            i <= items@.len(),
            block_views(out@) == block_views(old(out)@) + bullets(tv.take(i as int)),
        decreases items@.len() - i,
    {
        push_block(out, PdfStyle::Bullet, items[i].clone());
        assert(bullets(tv.take(i + 1)) =~= bullets(tv.take(i as int)).push((PdfStyle::Bullet, tv[i as int])));
        i = i + 1;
    }
    assert(tv.take(items@.len() as int) =~= tv);
}

fn push_static_bullets(out: &mut Vec<(PdfStyle, String)>, items: &Vec<&'static str>)
    ensures
        block_views(final(out)@) == block_views(old(out)@) + bullets(str_views(items@)),
{
    let ghost tv = str_views(items@);
    let mut i: usize = 0;
    assert(bullets(tv.take(0)) =~= seq![]);
    while i < items.len()
        invariant
            tv == str_views(items@),
            i <= items@.len(),
            block_views(out@) == block_views(old(out)@) + bullets(tv.take(i as int)),
        decreases items@.len() - i,
    {
        push_block(out, PdfStyle::Bullet, owned(items[i]));
        assert(bullets(tv.take(i + 1)) =~= bullets(tv.take(i as int)).push((PdfStyle::Bullet, tv[i as int])));
        i = i + 1;
    }
    assert(tv.take(items@.len() as int) =~= tv);
}

fn push_metric_bullets(out: &mut Vec<(PdfStyle, String)>, ms: &Vec<(&'static str, u64)>)
    ensures
        block_views(final(out)@) == block_views(old(out)@) + metric_bullets(metric_views(ms@)),
{
    let ghost mv = metric_views(ms@);
    let mut i: usize = 0;
    assert(metric_bullets(mv.take(0)) =~= seq![]);
    while i < ms.len()
        invariant
            mv == metric_views(ms@),
            i <= ms@.len(),
            block_views(out@) == block_views(old(out)@) + metric_bullets(mv.take(i as int)),
        decreases ms@.len() - i,
    {
        let (label, value) = ms[i];
        let mut line = owned(label);
        push_str(&mut line, ": ");
        push_decimal(&mut line, value);
        push_block(out, PdfStyle::Bullet, line);
        assert(metric_bullets(mv.take(i + 1)) =~= metric_bullets(mv.take(i as int)).push(
            (PdfStyle::Bullet, mv[i as int].0 + ": "@ + decimal(mv[i as int].1 as nat)),
        ));
        i = i + 1;
    }
    assert(mv.take(ms@.len() as int) =~= mv);
}

/// The styled lines of the PDF report. The caller supplies the narrative
/// statements, which depend on number formatting; placing the lines on
/// pages is left to the caller.
#[verifier::spinoff_prover]
#[verifier::rlimit(40)]
pub fn pdf_blocks<N>(report: &ReportModel<N>, narrative: &Vec<String>) -> (blocks: Vec<(PdfStyle, String)>)
    ensures
        exists|years: Seq<u16>|
            #![trigger crate::web::years_increasing(years)]
            crate::web::years_increasing(years) && years.to_set() == row_years(row_views(report.rows@))
                && block_views(blocks@) == spec_pdf_blocks(
                row_schools(row_views(report.rows@)).len(),
                years,
                report.rows@.len(),
                report.quality,
                texts(report.methods@),
                texts(narrative@),
                texts(report.sources@),
            ),
{
    let (school_count, years) = report_scope(&report.rows);
    let mut out: Vec<(PdfStyle, String)> = Vec::new();
    push_block(&mut out, PdfStyle::Title, owned("California School Dashboard"));
    push_block(&mut out, PdfStyle::Subtitle, owned("Descriptive Report"));
    push_block(&mut out, PdfStyle::Spacer, String::new());
    let mut coverage = owned("Coverage: ");
    push_decimal(&mut coverage, school_count as u64);
    push_str(&mut coverage, " school");
    push_str(&mut coverage, plural(school_count));
    push_str(&mut coverage, ", reporting year");
    push_str(&mut coverage, plural(years.len()));
    push_str(&mut coverage, " ");
    let phrase = years_phrase(years.as_slice());
    push_str(&mut coverage, phrase.as_str());
    push_str(&mut coverage, ", ");
    push_decimal(&mut coverage, report.rows.len() as u64);
    push_str(&mut coverage, " data row");
    push_str(&mut coverage, plural(report.rows.len()));
    push_str(&mut coverage, ".");
    assert(coverage@ =~= coverage_line(school_count as nat, years@, report.rows@.len()));
    push_block(&mut out, PdfStyle::Body, coverage);
    let mut prepared = owned("Prepared by california-dashboard v");
    push_str(&mut prepared, crate::APP_VERSION);
    push_str(&mut prepared, " using reporting method ");
    push_str(&mut prepared, crate::METHOD_VERSION);
    push_str(&mut prepared, ". Values are descriptive administrative aggregates and are not a random sample.");
    assert(prepared@ =~= prepared_line());
    push_block(&mut out, PdfStyle::Body, prepared);
    let ghost head = block_views(out@);
    push_section_head(&mut out, "Data completeness");
    let metrics = quality_metrics(&report.quality);
    push_metric_bullets(&mut out, &metrics);
    let ghost s1 = block_views(out@);
    assert(s1 =~= head + pdf_section("Data completeness"@, metric_bullets(spec_quality_metrics(report.quality))));
    push_section_head(&mut out, "How these numbers were prepared");
    push_bullets(&mut out, &report.methods);
    let ghost s2 = block_views(out@);
    assert(s2 =~= s1 + pdf_section("How these numbers were prepared"@, bullets(texts(report.methods@))));
    push_section_head(&mut out, "Limitations");
    let limits = limitation_statements();
    push_static_bullets(&mut out, &limits);
    let ghost s3 = block_views(out@);
    assert(s3 =~= s2 + pdf_section("Limitations"@, bullets(spec_limitations())));
    push_section_head(&mut out, "Row-by-row description");
    if narrative.len() == 0 {
        push_block(&mut out, PdfStyle::Body, owned("No reportable rows were produced for this selection."));
    } else {
        push_bullets(&mut out, narrative);
    }
    let ghost s4 = block_views(out@);
    assert(s4 =~= s3 + pdf_section(
        "Row-by-row description"@,
        if narrative@.len() == 0 {
            seq![(PdfStyle::Body, "No reportable rows were produced for this selection."@)]
        } else {
            bullets(texts(narrative@))
        },
    ));
    push_section_head(&mut out, "Sources");
    push_bullets(&mut out, &report.sources);
    let ghost s5 = block_views(out@);
    assert(s5 =~= s4 + pdf_section("Sources"@, bullets(texts(report.sources@))));
    push_section_head(&mut out, "Disclaimer");
    let mut research = owned("Research use only. ");
    push_str(&mut research, RESEARCH_DISCLAIMER);
    push_block(&mut out, PdfStyle::Body, research);
    push_block(&mut out, PdfStyle::Body, owned("Independent, research-oriented tool \u{2014} not affiliated with or endorsed by the State of California or the California Department of Education. Source: https://www.caschooldashboard.org/"));
    assert(block_views(out@) =~= s5 + pdf_section(
        "Disclaimer"@,
        seq![
            (PdfStyle::Body, "Research use only. "@ + RESEARCH_DISCLAIMER@),
            (PdfStyle::Body, independence_line()),
        ],
    ));
    assert(block_views(out@) =~= spec_pdf_blocks(
        school_count as nat,
        years@,
        report.rows@.len(),
        report.quality,
        texts(report.methods@),
        texts(narrative@),
        texts(report.sources@),
    ));
    out
}

} // verus!
