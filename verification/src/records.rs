//! Raw counter records as the provider hands them over, and the schema
//! decode step that turns them into typed tenant records.

use vstd::prelude::*;

verus! {

/// The four latency buckets of one tenant record: counts of operations whose
/// latency fell into that bucket, since tenant start.
#[derive(Clone, Copy, PartialEq, Eq, Structural, Debug)]
pub struct Stats {
    pub ten_ms: u64,
    pub one_hundred_ms: u64,
    pub one_second: u64,
    pub ten_second: u64,
}

/// One named datum of a raw counter record. Values whose shape this tool
/// never reads are collapsed into `Other`.
pub enum NamedValue {
    UInt64(u64),
    Text(String),
    Other,
}

/// One named field of a raw counter record.
pub struct NamedField {
    pub name: String,
    pub value: NamedValue,
}

/// One tenant's raw state at one poll instant, before schema decoding.
pub struct RawRecord {
    pub instance: i32,
    pub fields: Vec<NamedField>,
}

/// A decoded tenant record: stable instance id, full tenant name, buckets.
pub struct ZoneRecord {
    pub instance: i32,
    pub name: String,
    pub stats: Stats,
}

/// A schema mismatch between this tool and its counter source; fatal for the
/// whole poll. Each variant carries the offending field name.
#[derive(Debug)]
pub enum DecodeError {
    MissingField(String),
    WrongShape(String),
}

/// The `u64` payload of a named value, if it has that shape.
pub open spec fn spec_as_u64(v: NamedValue) -> Option<u64> {
    match v {
        NamedValue::UInt64(x) => Some(x),
        _ => None,
    }
}

/// The text payload of a named value, if it has that shape.
pub open spec fn spec_as_text(v: NamedValue) -> Option<Seq<char>> {
    match v {
        NamedValue::Text(s) => Some(s@),
        _ => None,
    }
}

/// Read a named value expected to hold a `u64` bucket counter.
pub fn read_u64(data: &NamedValue) -> (r: Option<u64>)
    ensures
        r == spec_as_u64(*data),
{
    match data {
        NamedValue::UInt64(x) => Some(*x),
        _ => None,
    }
}

/// Read a named value expected to hold text (the tenant name).
pub fn read_string<'a>(data: &'a NamedValue) -> (r: Option<&'a String>)
    ensures
        match r {
            Some(s) => spec_as_text(*data) == Some(s@),
            None => spec_as_text(*data) is None,
        },
{
    match data {
        NamedValue::Text(s) => Some(s),
        _ => None,
    }
}

/// The value of the first field called `name`, if any.
pub open spec fn field_lookup(fields: Seq<NamedField>, name: Seq<char>) -> Option<NamedValue>
    decreases fields.len(),
{
    if fields.len() == 0 {
        None
    } else if fields[0].name@ == name {
        Some(fields[0].value)
    } else {
        field_lookup(fields.drop_first(), name)
    }
}

proof fn lemma_field_lookup_skip(fields: Seq<NamedField>, name: Seq<char>, i: int)
    requires
        0 <= i <= fields.len(),
        forall|j: int| 0 <= j < i ==> fields[j].name@ != name,
    ensures
        field_lookup(fields, name) == field_lookup(fields.skip(i), name),
    decreases i,
{
    if i > 0 {
        assert(fields.drop_first() =~= fields.skip(1));
        lemma_field_lookup_skip(fields.skip(1), name, i - 1);
        assert(fields.skip(1).skip(i - 1) =~= fields.skip(i));
    } else {
        assert(fields.skip(0) =~= fields);
    }
}

/// Find the first field with the given name.
pub fn find_field<'a>(fields: &'a Vec<NamedField>, name: &String) -> (r: Option<&'a NamedValue>)
    ensures
        match r {
            Some(v) => field_lookup(fields@, name@) == Some(*v),
            None => field_lookup(fields@, name@) is None,
        },
{
    let n = fields.len();
    for i in 0..n
        invariant
            n == fields@.len(),
            forall|j: int| 0 <= j < i ==> fields@[j].name@ != name@,
    {
        if fields[i].name.eq(name) {
            proof {
                lemma_field_lookup_skip(fields@, name@, i as int);
                assert(fields@.skip(i as int)[0] == fields@[i as int]);
            }
            return Some(&fields[i].value);
        }
    }
    proof {
        lemma_field_lookup_skip(fields@, name@, n as int);
        assert(fields@.skip(n as int) =~= Seq::<NamedField>::empty());
    }
    None
}

/// The `u64` counter stored under `name`, if the field exists with that shape.
pub open spec fn spec_bucket(fields: Seq<NamedField>, name: Seq<char>) -> Option<u64> {
    match field_lookup(fields, name) {
        Some(v) => spec_as_u64(v),
        None => None,
    }
}

/// The tenant name stored under `zonename`, if the field exists with that shape.
pub open spec fn spec_zonename(fields: Seq<NamedField>) -> Option<Seq<char>> {
    match field_lookup(fields, "zonename"@) {
        Some(v) => spec_as_text(v),
        None => None,
    }
}

/// The first bucket field, in display order, that is missing or has the wrong
/// shape; `None` when all four decode.
pub open spec fn first_bad_bucket(fields: Seq<NamedField>) -> Option<Seq<char>> {
    if spec_bucket(fields, "10ms_ops"@) is None {
        Some("10ms_ops"@)
    } else if spec_bucket(fields, "100ms_ops"@) is None {
        Some("100ms_ops"@)
    } else if spec_bucket(fields, "1s_ops"@) is None {
        Some("1s_ops"@)
    } else if spec_bucket(fields, "10s_ops"@) is None {
        Some("10s_ops"@)
    } else {
        None
    }
}

/// The field name an error carries.
pub open spec fn error_field(e: DecodeError) -> Seq<char> {
    match e {
        DecodeError::MissingField(n) => n@,
        DecodeError::WrongShape(n) => n@,
    }
}

fn read_bucket(fields: &Vec<NamedField>, name: &String) -> (r: Result<u64, DecodeError>)
    ensures
        match r {
            Ok(x) => spec_bucket(fields@, name@) == Some(x),
            Err(e) => spec_bucket(fields@, name@) is None && error_field(e) == name@ && match e {
                DecodeError::MissingField(n) => field_lookup(fields@, n@) is None,
                DecodeError::WrongShape(n) => field_lookup(fields@, n@) is Some,
            },
        },
{
    match find_field(fields, name) {
        None => Err(DecodeError::MissingField(name.clone())),
        Some(v) => match read_u64(v) {
            Some(x) => Ok(x),
            None => Err(DecodeError::WrongShape(name.clone())),
        },
    }
}

/// Decode the four bucket counters out of a record's fields. Succeeds exactly
/// when each of the four bucket fields is present with a `u64` payload; the
/// error names the first bucket, in display order, that does not decode.
pub fn get_stats(fields: &Vec<NamedField>) -> (r: Result<Stats, DecodeError>)
    ensures
        r is Ok <==> first_bad_bucket(fields@) is None,
        match r {
            Ok(s) => {
                &&& spec_bucket(fields@, "10ms_ops"@) == Some(s.ten_ms)
                &&& spec_bucket(fields@, "100ms_ops"@) == Some(s.one_hundred_ms)
                &&& spec_bucket(fields@, "1s_ops"@) == Some(s.one_second)
                &&& spec_bucket(fields@, "10s_ops"@) == Some(s.ten_second)
            },
            Err(e) => first_bad_bucket(fields@) == Some(error_field(e)) && match e {
                DecodeError::MissingField(n) => field_lookup(fields@, n@) is None,
                DecodeError::WrongShape(n) => field_lookup(fields@, n@) is Some,
            },
        },
{
    let ten_ms = match read_bucket(fields, &String::from_str("10ms_ops")) {
        Ok(x) => x,
        Err(e) => { return Err(e); },
    };
    let one_hundred_ms = match read_bucket(fields, &String::from_str("100ms_ops")) {
        Ok(x) => x,
        Err(e) => { return Err(e); },
    };
    let one_second = match read_bucket(fields, &String::from_str("1s_ops")) {
        Ok(x) => x,
        Err(e) => { return Err(e); },
    };
    let ten_second = match read_bucket(fields, &String::from_str("10s_ops")) {
        Ok(x) => x,
        Err(e) => { return Err(e); },
    };
    Ok(Stats { ten_ms, one_hundred_ms, one_second, ten_second })
}

/// Whether a raw record's fields carry everything a tenant record needs.
pub open spec fn record_decodes(fields: Seq<NamedField>) -> bool {
    spec_zonename(fields) is Some && first_bad_bucket(fields) is None
}

/// Decode one raw record into a typed tenant record. Succeeds exactly when
/// the `zonename` field is present as text and all four buckets decode; the
/// tenant name and counters are taken verbatim from the fields.
pub fn decode_record(raw: &RawRecord) -> (r: Result<ZoneRecord, DecodeError>)
    ensures
        r is Ok <==> record_decodes(raw.fields@),
        match r {
            Ok(z) => {
                &&& z.instance == raw.instance
                &&& Some(z.name@) == spec_zonename(raw.fields@)
                &&& spec_bucket(raw.fields@, "10ms_ops"@) == Some(z.stats.ten_ms)
                &&& spec_bucket(raw.fields@, "100ms_ops"@) == Some(z.stats.one_hundred_ms)
                &&& spec_bucket(raw.fields@, "1s_ops"@) == Some(z.stats.one_second)
                &&& spec_bucket(raw.fields@, "10s_ops"@) == Some(z.stats.ten_second)
            },
            Err(e) => {
                &&& error_field(e) == if spec_zonename(raw.fields@) is None {
                    "zonename"@
                } else {
                    first_bad_bucket(raw.fields@)->Some_0
                }
                &&& match e {
                    DecodeError::MissingField(n) => field_lookup(raw.fields@, n@) is None,
                    DecodeError::WrongShape(n) => field_lookup(raw.fields@, n@) is Some,
                }
            },
        },
{
    let zname = match find_field(&raw.fields, &String::from_str("zonename")) {
        None => { return Err(DecodeError::MissingField(String::from_str("zonename"))); },
        Some(v) => match read_string(v) {
            Some(s) => s.clone(),
            None => { return Err(DecodeError::WrongShape(String::from_str("zonename"))); },
        },
    };
    let stats = match get_stats(&raw.fields) {
        Ok(s) => s,
        Err(e) => { return Err(e); },
    };
    Ok(ZoneRecord { instance: raw.instance, name: zname, stats })
}

} // verus!
