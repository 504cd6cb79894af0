//! Checks on command-line settings: the file stem shared by the exports and
//! the payload limit given in mebibytes.

use vstd::prelude::*;

use crate::text::{owned, trim};

verus! {

/// A non-empty name holding no `/`, `\` or `:` and other than `.` and `..`:
/// a single plain path component on every platform.
pub open spec fn single_component(s: Seq<char>) -> bool {
    &&& s.len() > 0
    &&& s != "."@
    &&& s != ".."@
    &&& forall|i: int| 0 <= i < s.len() ==> {
        let c = #[trigger] s[i];
        c != '/' && c != '\\' && c != ':'
    }
}

/// `std::path::Path::file_name`: the final component of the path, as text.
/// What counts as a component separator depends on the platform, so only
/// what holds on every platform is promised: `/` separates components, so a
/// component never holds one; a path ending in `..` has no file name; and a
/// path that is a single component (no `/`, `\` or `:`, and neither `.` nor
/// `..`) is its own file name.
#[verifier::external_body]
fn path_file_name(stem: &str) -> (r: Option<String>)
    ensures
        r matches Some(n) ==> !n@.contains('/'),
        stem@ == ".."@ ==> r is None,
        single_component(stem@) ==> r is Some && r->0@ == stem@,
{
    std::path::Path::new(stem).file_name().map(|name| name.to_string_lossy().into_owned())
}

/// Why a stem is refused, given its final path component: it is blank, or it
/// is not exactly its own file name (it holds a directory part or names `..`).
pub open spec fn stem_problem(stem: Seq<char>, file_name: Option<Seq<char>>) -> Option<Seq<char>> {
    if trim(stem).len() == 0 {
        Some("--stem cannot be empty"@)
    } else if file_name != Some(stem) {
        Some("--stem must be a file name, not a path"@)
    } else {
        None
    }
}

/// Judges a stem given the final component of the path it names.
pub fn check_stem(stem: &str, file_name: Option<String>) -> (r: Result<(), String>)
    ensures
        match stem_problem(stem@, crate::model::opt_view(file_name)) {
            None => r is Ok,
            Some(m) => r matches Err(e) && e@ == m,
        },
{
    let t = crate::text::trim_string(stem);
    if t.unicode_len() == 0 {
        return Err(owned("--stem cannot be empty"));
    }
    let whole = owned(stem);
    let same = match &file_name {
        Some(name) => *name == whole,
        None => false,
    };
    if !same {
        return Err(owned("--stem must be a file name, not a path"));
    }
    Ok(())
}

/// Checks that an export stem is a plain file name, so exports cannot be
/// written outside the output directory.
pub fn validate_stem(stem: &str) -> (r: Result<(), String>)
    ensures
        trim(stem@).len() == 0 ==> (r matches Err(e) && e@ == "--stem cannot be empty"@),
        trim(stem@).len() > 0 ==> (r matches Err(e) ==> e@ == "--stem must be a file name, not a path"@),
        r is Ok ==> trim(stem@).len() > 0 && !stem@.contains('/') && stem@ != ".."@,
        single_component(stem@) && trim(stem@).len() > 0 ==> r is Ok,
{
    let name = path_file_name(stem);
    check_stem(stem, name)
}

/// The payload limit in bytes for a limit in mebibytes.
pub fn max_payload_bytes(mib: usize) -> (r: Result<usize, String>)
    ensures
        mib * 1048576 <= usize::MAX ==> r == Ok::<usize, String>((mib * 1048576) as usize),
        mib * 1048576 > usize::MAX ==> (r matches Err(e) && e@ == "--max-payload-mib is too large"@),
{
    match mib.checked_mul(1048576) {
        Some(b) => Ok(b),
        None => Err(owned("--max-payload-mib is too large")),
    }
}

} // verus!
