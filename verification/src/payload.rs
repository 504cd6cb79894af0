//! Reading Dashboard payloads into typed indicators, tolerantly: a payload
//! is an array of indicator objects or a single value, entries that are not
//! objects are skipped, and a missing or wrong-typed field leaves only that
//! field empty. The `status` and `change` numbers keep their text; the
//! caller reads them as numbers.

use vstd::prelude::*;

use crate::client::{parse_i32, parse_unsigned, parsed_i32, parsed_unsigned};
use crate::json::{compact_json, is_empty_array, json_document, json_text, parse_json, JsonValue};
use crate::model::{
    decode_lossy, indicator_category, opt_view, spec_indicator_category, utf8_lossy, FetchSpec,
    Indicator, Measure, Provenance, SchoolRecord, SummaryCard,
};
use crate::text::{chars_of, owned, trim, trim_string};

verus! {

/// The last member of an object under `key`.
pub open spec fn member(obj: Seq<(String, JsonValue)>, key: Seq<char>) -> Option<JsonValue>
    decreases obj.len(),
{
    if obj.len() == 0 {
        None
    } else if obj.last().0@ == key {
        Some(obj.last().1)
    } else {
        member(obj.drop_last(), key)
    }
}

/// An unsigned integer no larger than `max`, read from a JSON number.
pub open spec fn json_unsigned(v: Option<JsonValue>, max: nat) -> Option<nat> {
    match v {
        Some(JsonValue::Number(t)) => parsed_unsigned(t@, max),
        _ => None,
    }
}

/// A 32-bit signed integer read from a JSON number.
pub open spec fn json_i32(v: Option<JsonValue>) -> Option<int> {
    match v {
        Some(JsonValue::Number(t)) => parsed_i32(t@),
        _ => None,
    }
}

/// A JSON boolean.
pub open spec fn json_bool(v: Option<JsonValue>) -> Option<bool> {
    match v {
        Some(JsonValue::Bool(b)) => Some(b),
        _ => None,
    }
}

/// Text of a value: a string as itself, null or absent as nothing, any
/// other value as its compact JSON text.
pub open spec fn json_string(v: Option<JsonValue>) -> Option<Seq<char>> {
    match v {
        None => None,
        Some(JsonValue::Null) => None,
        Some(JsonValue::Text(s)) => Some(s@),
        Some(other) => Some(json_text(other)),
    }
}

/// The text of a number: a JSON number's text, or a string's trimmed text
/// (read as a number by the caller).
pub open spec fn json_number(v: Option<JsonValue>) -> Option<Seq<char>> {
    match v {
        Some(JsonValue::Number(t)) => Some(t@),
        Some(JsonValue::Text(s)) => Some(trim(s@)),
        _ => None,
    }
}

/// The integer as a small unsigned value.
pub open spec fn as_u8(o: Option<nat>) -> Option<u8> {
    match o {
        Some(n) => Some(n as u8),
        None => None,
    }
}

/// The integer as a 32-bit unsigned value.
pub open spec fn as_u32(o: Option<nat>) -> Option<u32> {
    match o {
        Some(n) => Some(n as u32),
        None => None,
    }
}

/// The integer as a 64-bit unsigned value.
pub open spec fn as_u64(o: Option<nat>) -> Option<u64> {
    match o {
        Some(n) => Some(n as u64),
        None => None,
    }
}

/// The integer as a 32-bit signed value.
pub open spec fn as_i32(o: Option<int>) -> Option<i32> {
    match o {
        Some(n) => Some(n as i32),
        None => None,
    }
}

/// `m` holds the fields of the measure object `obj`.
pub open spec fn measure_fits(m: Measure<String>, obj: Seq<(String, JsonValue)>) -> bool {
    &&& opt_view(m.cds_code) == json_string(member(obj, "cdsCode"@))
    &&& m.indicator_id == as_u8(json_unsigned(member(obj, "indicatorId"@), 255))
    &&& opt_view(m.status) == json_number(member(obj, "status"@))
    &&& opt_view(m.change) == json_number(member(obj, "change"@))
    &&& m.change_id == as_i32(json_i32(member(obj, "changeId"@)))
    &&& m.status_id == as_i32(json_i32(member(obj, "statusId"@)))
    &&& m.performance == as_i32(json_i32(member(obj, "performance"@)))
    &&& m.total_groups == as_u32(json_unsigned(member(obj, "totalGroups"@), 4294967295))
    &&& m.red == as_u32(json_unsigned(member(obj, "red"@), 4294967295))
    &&& m.orange == as_u32(json_unsigned(member(obj, "orange"@), 4294967295))
    &&& m.yellow == as_u32(json_unsigned(member(obj, "yellow"@), 4294967295))
    &&& m.green == as_u32(json_unsigned(member(obj, "green"@), 4294967295))
    &&& m.blue == as_u32(json_unsigned(member(obj, "blue"@), 4294967295))
    &&& m.count == as_u64(json_unsigned(member(obj, "count"@), 18446744073709551615))
    &&& opt_view(m.student_group) == json_string(member(obj, "studentGroup"@))
    &&& m.school_year_id == as_u8(json_unsigned(member(obj, "schoolYearId"@), 255))
    &&& m.is_private_data == json_bool(member(obj, "isPrivateData"@))
}

/// Each field of a parsed measure is read from the member of its own name:
/// a number member gives its value (its text, for status and change), a
/// string member its text, a boolean member itself, and an absent member
/// nothing.
pub proof fn law_measure_fields_read_their_members(m: Measure<String>, obj: Seq<(String, JsonValue)>)
    requires
        measure_fits(m, obj),
    ensures
        member(obj, "cdsCode"@) matches Some(JsonValue::Text(t)) ==> opt_view(m.cds_code) == Some(t@),
        member(obj, "cdsCode"@) is None ==> m.cds_code is None,
        member(obj, "indicatorId"@) matches Some(JsonValue::Number(t)) ==> m.indicator_id == as_u8(parsed_unsigned(t@, 255)),
        member(obj, "indicatorId"@) is None ==> m.indicator_id is None,
        member(obj, "status"@) matches Some(JsonValue::Number(t)) ==> opt_view(m.status) == Some(t@),
        member(obj, "status"@) matches Some(JsonValue::Text(t)) ==> opt_view(m.status) == Some(trim(t@)),
        member(obj, "status"@) is None ==> m.status is None,
        member(obj, "change"@) matches Some(JsonValue::Number(t)) ==> opt_view(m.change) == Some(t@),
        member(obj, "change"@) matches Some(JsonValue::Text(t)) ==> opt_view(m.change) == Some(trim(t@)),
        member(obj, "change"@) is None ==> m.change is None,
        member(obj, "changeId"@) matches Some(JsonValue::Number(t)) ==> m.change_id == as_i32(parsed_i32(t@)),
        member(obj, "changeId"@) is None ==> m.change_id is None,
        member(obj, "statusId"@) matches Some(JsonValue::Number(t)) ==> m.status_id == as_i32(parsed_i32(t@)),
        member(obj, "statusId"@) is None ==> m.status_id is None,
        member(obj, "performance"@) matches Some(JsonValue::Number(t)) ==> m.performance == as_i32(parsed_i32(t@)),
        member(obj, "performance"@) is None ==> m.performance is None,
        member(obj, "totalGroups"@) matches Some(JsonValue::Number(t)) ==> m.total_groups == as_u32(parsed_unsigned(t@, 4294967295)),
        member(obj, "totalGroups"@) is None ==> m.total_groups is None,
        member(obj, "red"@) matches Some(JsonValue::Number(t)) ==> m.red == as_u32(parsed_unsigned(t@, 4294967295)),
        member(obj, "red"@) is None ==> m.red is None,
        member(obj, "orange"@) matches Some(JsonValue::Number(t)) ==> m.orange == as_u32(parsed_unsigned(t@, 4294967295)),
        member(obj, "orange"@) is None ==> m.orange is None,
        member(obj, "yellow"@) matches Some(JsonValue::Number(t)) ==> m.yellow == as_u32(parsed_unsigned(t@, 4294967295)),
        member(obj, "yellow"@) is None ==> m.yellow is None,
        member(obj, "green"@) matches Some(JsonValue::Number(t)) ==> m.green == as_u32(parsed_unsigned(t@, 4294967295)),
        member(obj, "green"@) is None ==> m.green is None,
        member(obj, "blue"@) matches Some(JsonValue::Number(t)) ==> m.blue == as_u32(parsed_unsigned(t@, 4294967295)),
        member(obj, "blue"@) is None ==> m.blue is None,
        member(obj, "count"@) matches Some(JsonValue::Number(t)) ==> m.count == as_u64(parsed_unsigned(t@, 18446744073709551615)),
        member(obj, "count"@) is None ==> m.count is None,
        member(obj, "studentGroup"@) matches Some(JsonValue::Text(t)) ==> opt_view(m.student_group) == Some(t@),
        member(obj, "studentGroup"@) is None ==> m.student_group is None,
        member(obj, "schoolYearId"@) matches Some(JsonValue::Number(t)) ==> m.school_year_id == as_u8(parsed_unsigned(t@, 255)),
        member(obj, "schoolYearId"@) is None ==> m.school_year_id is None,
        member(obj, "isPrivateData"@) matches Some(JsonValue::Bool(b)) ==> m.is_private_data == Some(b),
        member(obj, "isPrivateData"@) is None ==> m.is_private_data is None,
{
}

/// A parsed measure's field depends only on the member of its own name: two
/// measure objects that agree on a member give measures that agree on that
/// member's field, whatever their other members hold.
pub proof fn law_measure_fields_follow_own_members(
    m1: Measure<String>,
    o1: Seq<(String, JsonValue)>,
    m2: Measure<String>,
    o2: Seq<(String, JsonValue)>,
)
    requires
        measure_fits(m1, o1),
        measure_fits(m2, o2),
    ensures
        member(o1, "cdsCode"@) == member(o2, "cdsCode"@) ==> opt_view(m1.cds_code) == opt_view(m2.cds_code),
        member(o1, "indicatorId"@) == member(o2, "indicatorId"@) ==> m1.indicator_id == m2.indicator_id,
        member(o1, "status"@) == member(o2, "status"@) ==> opt_view(m1.status) == opt_view(m2.status),
        member(o1, "change"@) == member(o2, "change"@) ==> opt_view(m1.change) == opt_view(m2.change),
        member(o1, "changeId"@) == member(o2, "changeId"@) ==> m1.change_id == m2.change_id,
        member(o1, "statusId"@) == member(o2, "statusId"@) ==> m1.status_id == m2.status_id,
        member(o1, "performance"@) == member(o2, "performance"@) ==> m1.performance == m2.performance,
        member(o1, "totalGroups"@) == member(o2, "totalGroups"@) ==> m1.total_groups == m2.total_groups,
        member(o1, "red"@) == member(o2, "red"@) ==> m1.red == m2.red,
        member(o1, "orange"@) == member(o2, "orange"@) ==> m1.orange == m2.orange,
        member(o1, "yellow"@) == member(o2, "yellow"@) ==> m1.yellow == m2.yellow,
        member(o1, "green"@) == member(o2, "green"@) ==> m1.green == m2.green,
        member(o1, "blue"@) == member(o2, "blue"@) ==> m1.blue == m2.blue,
        member(o1, "count"@) == member(o2, "count"@) ==> m1.count == m2.count,
        member(o1, "studentGroup"@) == member(o2, "studentGroup"@) ==> opt_view(m1.student_group) == opt_view(m2.student_group),
        member(o1, "schoolYearId"@) == member(o2, "schoolYearId"@) ==> m1.school_year_id == m2.school_year_id,
        member(o1, "isPrivateData"@) == member(o2, "isPrivateData"@) ==> m1.is_private_data == m2.is_private_data,
{
}

/// A measure block: present exactly when the member is an object.
pub open spec fn measure_block_fits(m: Option<Measure<String>>, v: Option<JsonValue>) -> bool {
    match v {
        Some(JsonValue::Object(o)) => m matches Some(x) && measure_fits(x, o@),
        _ => m is None,
    }
}

/// The identifier of an indicator object, 0 when it has none that fits.
pub open spec fn entry_id(entry: Seq<(String, JsonValue)>) -> u8 {
    match as_u8(json_unsigned(member(entry, "indicatorId"@), 255)) {
        Some(id) => id,
        None => 0,
    }
}

/// The compact text of a block, `null` where it is absent.
pub open spec fn block_text(v: Option<JsonValue>) -> Seq<char> {
    match v {
        Some(x) => json_text(x),
        None => json_text(JsonValue::Null),
    }
}

/// `ind` is the indicator read from the object `entry`: its identifier, the
/// published category (`UNKNOWN` for other identifiers), the exact text of
/// both blocks, and both blocks read as measures.
pub open spec fn indicator_fits(ind: Indicator<String>, entry: Seq<(String, JsonValue)>) -> bool {
    let id = entry_id(entry);
    &&& ind.indicator_id == id
    &&& ind.primary_json@ == block_text(member(entry, "primary"@))
    &&& ind.secondary_json@ == block_text(member(entry, "secondary"@))
    &&& ind.category@ == match spec_indicator_category(id) {
        Some(c) => c,
        None => "UNKNOWN"@,
    }
    &&& measure_block_fits(ind.primary, member(entry, "primary"@))
    &&& measure_block_fits(ind.secondary, member(entry, "secondary"@))
}

/// An indicator is read from its own members: its identifier from
/// `indicatorId` (0 when absent), an identifier outside 1 through 8 giving
/// the category `UNKNOWN`, and each block present exactly when `primary` or
/// `secondary` is an object, with the block's exact JSON text.
pub proof fn law_indicator_reads_its_members(ind: Indicator<String>, entry: Seq<(String, JsonValue)>)
    requires
        indicator_fits(ind, entry),
    ensures
        member(entry, "indicatorId"@) matches Some(JsonValue::Number(t)) ==> (parsed_unsigned(t@, 255) matches Some(n)
            ==> ind.indicator_id == n as u8),
        member(entry, "indicatorId"@) is None ==> ind.indicator_id == 0,
        (ind.indicator_id == 0 || ind.indicator_id > 8) ==> ind.category@ == "UNKNOWN"@,
        member(entry, "primary"@) matches Some(JsonValue::Object(o)) ==> ind.primary is Some,
        !(member(entry, "primary"@) matches Some(JsonValue::Object(o))) ==> ind.primary is None,
        member(entry, "secondary"@) matches Some(JsonValue::Object(o)) ==> ind.secondary is Some,
        !(member(entry, "secondary"@) matches Some(JsonValue::Object(o))) ==> ind.secondary is None,
        member(entry, "primary"@) matches Some(v) ==> ind.primary_json@ == json_text(v),
        member(entry, "secondary"@) matches Some(v) ==> ind.secondary_json@ == json_text(v),
{
}

/// The entries of a payload: an array's elements, nothing for null, or the
/// single value itself.
pub open spec fn json_entries(v: JsonValue) -> Seq<JsonValue> {
    match v {
        JsonValue::Null => Seq::empty(),
        JsonValue::Array(a) => a@,
        other => seq![other],
    }
}

/// The members of the entries that are objects, in order.
pub open spec fn entry_objects(es: Seq<JsonValue>) -> Seq<Seq<(String, JsonValue)>>
    decreases es.len(),
{
    if es.len() == 0 {
        Seq::empty()
    } else {
        match es.last() {
            JsonValue::Object(o) => entry_objects(es.drop_last()).push(o@),
            _ => entry_objects(es.drop_last()),
        }
    }
}

/// `out` holds one indicator for each object entry of the payload value, in
/// order.
pub open spec fn indicators_fit(out: Seq<Indicator<String>>, v: JsonValue) -> bool {
    let objs = entry_objects(json_entries(v));
    &&& out.len() == objs.len()
    &&& forall|i: int| 0 <= i < out.len() ==> indicator_fits(#[trigger] out[i], objs[i])
}

proof fn lemma_entry_objects_count(es: Seq<JsonValue>)
    ensures
        entry_objects(es).len() == es.filter(|e: JsonValue| e is Object).len(),
    decreases es.len(),
{
    reveal_with_fuel(Seq::filter, 1);
    if es.len() > 0 {
        lemma_entry_objects_count(es.drop_last());
    }
}

/// A payload gives one indicator per entry that is an object: none for
/// `null` or a lone number, string or boolean, one for a lone object, and
/// for an array as many as its elements that are objects, other elements
/// skipped.
pub proof fn law_one_indicator_per_object_entry(out: Seq<Indicator<String>>, v: JsonValue)
    requires
        indicators_fit(out, v),
    ensures
        v matches JsonValue::Array(a) ==> out.len() == a@.filter(|e: JsonValue| e is Object).len(),
        v matches JsonValue::Object(o) ==> out.len() == 1 && indicator_fits(out[0], o@),
        (v is Null || v is Bool || v is Number || v is Text) ==> out.len() == 0,
{
    lemma_entry_objects_count(json_entries(v));
    if v is Object {
        assert(entry_objects(json_entries(v)) == entry_objects(seq![v]));
        assert(seq![v].drop_last() =~= Seq::<JsonValue>::empty());
    } else if !(v is Array) && !(v is Null) {
        let one = seq![v];
        assert(json_entries(v) == one);
        assert(one.len() == 1 && one.last() == v);
        assert(one.drop_last() =~= Seq::<JsonValue>::empty());
        assert(entry_objects(one) == entry_objects(one.drop_last()));
        assert(entry_objects(Seq::<JsonValue>::empty()).len() == 0);
    } else if v is Null {
        assert(entry_objects(Seq::<JsonValue>::empty()).len() == 0);
    }
}

/// The value behind an optional reference.
pub open spec fn deref_opt(v: Option<&JsonValue>) -> Option<JsonValue> {
    match v {
        Some(x) => Some(*x),
        None => None,
    }
}

fn member_of<'a>(obj: &'a Vec<(String, JsonValue)>, key: &str) -> (r: Option<&'a JsonValue>)
    ensures
        match r {
            Some(x) => member(obj@, key@) == Some(*x),
            None => member(obj@, key@) is None,
        },
{
    let k = owned(key);
    let mut i: usize = obj.len();
    assert(obj@.take(i as int) =~= obj@);
    while i > 0
        invariant
            i <= obj@.len(),
            k@ == key@,
            member(obj@, key@) == member(obj@.take(i as int), key@),
        decreases i,
    {
        assert(obj@.take(i as int).drop_last() =~= obj@.take(i - 1));
        if obj[i - 1].0 == k {
            return Some(&obj[i - 1].1);
        }
        i = i - 1;
    }
    None
}

fn read_unsigned(v: Option<&JsonValue>, max: u64) -> (r: Option<u64>)
    ensures
        match r {
            Some(n) => json_unsigned(deref_opt(v), max as nat) == Some(n as nat),
            None => json_unsigned(deref_opt(v), max as nat) is None,
        },
{
    match v {
        Some(JsonValue::Number(t)) => {
            let cs = chars_of(t.as_str());
            parse_unsigned(cs.as_slice(), max)
        },
        _ => None,
    }
}

fn read_u8(v: Option<&JsonValue>) -> (r: Option<u8>)
    ensures
        r == as_u8(json_unsigned(deref_opt(v), 255)),
{
    match read_unsigned(v, 255) {
        Some(n) => Some(n as u8),
        None => None,
    }
}

fn read_u32(v: Option<&JsonValue>) -> (r: Option<u32>)
    ensures
        r == as_u32(json_unsigned(deref_opt(v), 4294967295)),
{
    match read_unsigned(v, 4294967295) {
        Some(n) => Some(n as u32),
        None => None,
    }
}

fn read_u64(v: Option<&JsonValue>) -> (r: Option<u64>)
    ensures
        r == as_u64(json_unsigned(deref_opt(v), 18446744073709551615)),
{
    read_unsigned(v, 18446744073709551615)
}

fn read_i32(v: Option<&JsonValue>) -> (r: Option<i32>)
    ensures
        r == as_i32(json_i32(deref_opt(v))),
{
    match v {
        Some(JsonValue::Number(t)) => {
            let cs = chars_of(t.as_str());
            parse_i32(cs.as_slice())
        },
        _ => None,
    }
}

fn read_bool(v: Option<&JsonValue>) -> (r: Option<bool>)
    ensures
        r == json_bool(deref_opt(v)),
{
    match v {
        Some(JsonValue::Bool(b)) => Some(*b),
        _ => None,
    }
}

fn read_string(v: Option<&JsonValue>) -> (r: Option<String>)
    ensures
        opt_view(r) == json_string(deref_opt(v)),
{
    match v {
        None => None,
        Some(JsonValue::Null) => None,
        Some(JsonValue::Text(s)) => Some(s.clone()),
        Some(other) => Some(compact_json(other)),
    }
}

fn read_number(v: Option<&JsonValue>) -> (r: Option<String>)
    ensures
        opt_view(r) == json_number(deref_opt(v)),
{
    match v {
        Some(JsonValue::Number(t)) => Some(t.clone()),
        Some(JsonValue::Text(s)) => Some(trim_string(s.as_str())),
        _ => None,
    }
}

/// Reads one measure object.
fn parse_measure(obj: &Vec<(String, JsonValue)>) -> (m: Measure<String>)
    ensures
        measure_fits(m, obj@),
{
    Measure {
        cds_code: read_string(member_of(obj, "cdsCode")),
        indicator_id: read_u8(member_of(obj, "indicatorId")),
        status: read_number(member_of(obj, "status")),
        change: read_number(member_of(obj, "change")),
        change_id: read_i32(member_of(obj, "changeId")),
        status_id: read_i32(member_of(obj, "statusId")),
        performance: read_i32(member_of(obj, "performance")),
        total_groups: read_u32(member_of(obj, "totalGroups")),
        red: read_u32(member_of(obj, "red")),
        orange: read_u32(member_of(obj, "orange")),
        yellow: read_u32(member_of(obj, "yellow")),
        green: read_u32(member_of(obj, "green")),
        blue: read_u32(member_of(obj, "blue")),
        count: read_u64(member_of(obj, "count")),
        student_group: read_string(member_of(obj, "studentGroup")),
        school_year_id: read_u8(member_of(obj, "schoolYearId")),
        is_private_data: read_bool(member_of(obj, "isPrivateData")),
    }
}

fn parse_block(v: Option<&JsonValue>) -> (m: Option<Measure<String>>)
    ensures
        measure_block_fits(m, deref_opt(v)),
{
    match v {
        Some(JsonValue::Object(o)) => Some(parse_measure(o)),
        _ => None,
    }
}

fn block_json(v: Option<&JsonValue>) -> (r: String)
    ensures
        r@ == block_text(deref_opt(v)),
{
    match v {
        Some(x) => compact_json(x),
        None => compact_json(&JsonValue::Null),
    }
}

/// Reads one indicator object.
fn parse_entry(obj: &Vec<(String, JsonValue)>) -> (ind: Indicator<String>)
    ensures
        indicator_fits(ind, obj@),
{
    let id = match read_u8(member_of(obj, "indicatorId")) {
        Some(id) => id,
        None => 0,
    };
    let category = match indicator_category(id) {
        Some(name) => owned(name),
        None => owned("UNKNOWN"),
    };
    Indicator {
        indicator_id: id,
        category,
        primary_json: block_json(member_of(obj, "primary")),
        secondary_json: block_json(member_of(obj, "secondary")),
        primary: parse_block(member_of(obj, "primary")),
        secondary: parse_block(member_of(obj, "secondary")),
    }
}

/// Reads the indicators of a payload value: the object entries of an array,
/// none for null, or the single value when it is an object.
pub fn indicators_of(v: &JsonValue) -> (out: Vec<Indicator<String>>)
    ensures
        indicators_fit(out@, *v),
{
    let mut out: Vec<Indicator<String>> = Vec::new();
    match v {
        JsonValue::Null => {
            assert(entry_objects(json_entries(*v)) =~= Seq::<Seq<(String, JsonValue)>>::empty());
        },
        JsonValue::Array(a) => {
            let mut i: usize = 0;
            assert(a@.take(0) =~= Seq::<JsonValue>::empty());
            while i < a.len()
                invariant
                    i <= a@.len(),
                    json_entries(*v) == a@,
                    out@.len() == entry_objects(a@.take(i as int)).len(),
                    forall|k: int|
                        0 <= k < out@.len() ==> indicator_fits(
                            #[trigger] out@[k],
                            entry_objects(a@.take(i as int))[k],
                        ),
                decreases a@.len() - i,
            {
                assert(a@.take(i + 1).drop_last() =~= a@.take(i as int));
                assert(a@.take(i + 1).last() == a@[i as int]);
                match &a[i] {
                    JsonValue::Object(o) => {
                        let ind = parse_entry(o);
                        out.push(ind);
                    },
                    _ => {},
                }
                i = i + 1;
            }
            assert(a@.take(a@.len() as int) =~= a@);
        },
        JsonValue::Object(o) => {
            let ind = parse_entry(o);
            out.push(ind);
            assert(json_entries(*v) =~= seq![*v]);
            assert(seq![*v].drop_last() =~= Seq::<JsonValue>::empty());
            assert(entry_objects(Seq::<JsonValue>::empty()) =~= Seq::<Seq<(String, JsonValue)>>::empty());
            assert(entry_objects(seq![*v]) =~= seq![o@]);
            assert(out@[0] == ind);
        },
        _ => {
            assert(json_entries(*v) =~= seq![*v]);
            assert(seq![*v].drop_last() =~= Seq::<JsonValue>::empty());
            assert(entry_objects(Seq::<JsonValue>::empty()) =~= Seq::<Seq<(String, JsonValue)>>::empty());
            assert(entry_objects(seq![*v]).len() == 0);
        },
    }
    out
}

/// Parses a payload's indicators, or gives the JSON parser's error message.
pub fn parse_indicators(payload: &[u8]) -> (r: Result<Vec<Indicator<String>>, String>)
    ensures
        match json_document(payload@) {
            Some(v) => r is Ok && indicators_fit(r->Ok_0@, v),
            None => r is Err,
        },
{
    match parse_json(payload) {
        Ok(v) => Ok(indicators_of(&v)),
        Err(message) => Err(message),
    }
}

impl SummaryCard<String> {
    /// Reads a card from a payload for the request it answers: the request's
    /// school and years, the payload's indicators, the provenance given and
    /// the payload text (invalid UTF-8 replaced) and its JSON value. A payload
    /// that is not JSON gives the parser's message.
    pub fn from_payload(spec: &FetchSpec, payload: &[u8], provenance: Provenance) -> (r: Result<
        SummaryCard<String>,
        String,
    >)
        ensures
            match json_document(payload@) {
                Some(v) => r matches Ok(card) && card.school == spec.school && card.year == spec.year
                    && card.dashboard_year_id == spec.dashboard_year_id && card.provenance == provenance
                    && card.raw_data@ == utf8_lossy(payload@) && indicators_fit(card.indicators@, v)
                    && card.raw_json_data == v,
                None => r is Err,
            },
    {
        let raw_data = decode_lossy(payload);
        let value = parse_json(payload)?;
        let indicators = indicators_of(&value);
        Ok(
            SummaryCard {
                school: spec.school.clone(),
                year: spec.year,
                dashboard_year_id: spec.dashboard_year_id,
                indicators,
                provenance,
                raw_data,
                raw_json_data: value,
            },
        )
    }

    /// Reads a card from a JSON string alone: no school or year yet, blank
    /// provenance that records the text's length in bytes, and the text as
    /// the raw payload.
    pub fn from_json_str(json: &str) -> (r: Result<SummaryCard<String>, String>)
        ensures
            match json_document(vstd::utf8::encode_utf8(json@)) {
                Some(v) => r matches Ok(card) && card.school.cds_code@.len() == 0
                    && card.school.school_name@.len() == 0 && card.school.county is None
                    && card.school.district is None && card.school.city is None && card.year == 0
                    && card.dashboard_year_id == 0 && card.provenance.source_url@.len() == 0
                    && card.provenance.retrieved_at_utc@.len() == 0
                    && card.provenance.payload_sha256 is None
                    && card.provenance.payload_bytes == vstd::utf8::encode_utf8(json@).len()
                    && card.provenance.http_status is None && card.provenance.attempts == 0
                    && card.provenance.method_version@.len() == 0 && card.raw_data@ == json@
                    && indicators_fit(card.indicators@, v) && card.raw_json_data == v,
                None => r is Err,
            },
    {
        let bytes = json.as_bytes();
        let value = parse_json(bytes)?;
        let indicators = indicators_of(&value);
        Ok(
            SummaryCard {
                school: SchoolRecord {
                    cds_code: String::new(),
                    school_name: String::new(),
                    county: None,
                    district: None,
                    city: None,
                },
                year: 0,
                dashboard_year_id: 0,
                indicators,
                provenance: Provenance {
                    source_url: String::new(),
                    retrieved_at_utc: String::new(),
                    payload_sha256: None,
                    payload_bytes: bytes.len(),
                    http_status: None,
                    attempts: 0,
                    method_version: String::new(),
                },
                raw_data: owned(json),
                raw_json_data: value,
            },
        )
    }

    /// Reads the card's payload text again: no text leaves no indicators and
    /// an empty JSON array; otherwise the indicators and the JSON value are
    /// read from the text and the provenance records its length in bytes.
    /// Text that is not JSON changes nothing and gives the parser's message.
    pub fn parse_raw_data(&mut self) -> (r: Result<(), String>)
        ensures
            old(self).raw_data@.len() == 0 ==> r is Ok && final(self).indicators@.len() == 0
                && is_empty_array(final(self).raw_json_data)
                && final(self).raw_data == old(self).raw_data && final(self).school == old(self).school
                && final(self).year == old(self).year && final(self).dashboard_year_id == old(self).dashboard_year_id
                && final(self).provenance == old(self).provenance,
            old(self).raw_data@.len() > 0 ==> match json_document(vstd::utf8::encode_utf8(old(self).raw_data@)) {
                Some(v) => r is Ok && indicators_fit(final(self).indicators@, v)
                    && final(self).raw_json_data == v && final(self).raw_data == old(self).raw_data && final(self).school == old(self).school
                    && final(self).year == old(self).year
                    && final(self).dashboard_year_id == old(self).dashboard_year_id
                    && final(self).provenance == (Provenance {
                        payload_bytes: vstd::utf8::encode_utf8(old(self).raw_data@).len() as usize,
                        ..old(self).provenance
                    }),
                None => r is Err && *final(self) == *old(self),
            },
    {
        if self.raw_data.unicode_len() == 0 {
            self.indicators = Vec::new();
            self.raw_json_data = JsonValue::Array(Vec::new());
            return Ok(());
        }
        let parsed = parse_json(self.raw_data.as_str().as_bytes());
        match parsed {
            Ok(value) => {
                let n = self.raw_data.as_str().as_bytes().len();
                self.indicators = indicators_of(&value);
                self.raw_json_data = value;
                self.provenance.payload_bytes = n;
                Ok(())
            },
            Err(message) => Err(message),
        }
    }
}

} // verus!
