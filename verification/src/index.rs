//! The sample index: one poll's worth of decoded tenant records, keyed by
//! stable instance id. Built fresh each poll and consumed as "previous"
//! exactly one poll later.

use vstd::prelude::*;
use crate::records::{
    DecodeError, RawRecord, Stats, ZoneRecord, field_lookup, first_bad_bucket, record_decodes,
    spec_bucket, spec_zonename, decode_record, error_field,
};

verus! {

/// The mathematical content of one decoded tenant record.
pub struct ZoneData {
    pub instance: int,
    pub name: Seq<char>,
    pub stats: Stats,
}

impl View for ZoneRecord {
    type V = ZoneData;

    open spec fn view(&self) -> ZoneData {
        ZoneData { instance: self.instance as int, name: self.name@, stats: self.stats }
    }
}

/// What a raw record decodes to, when it decodes.
pub open spec fn raw_decoded(raw: RawRecord) -> Option<ZoneData> {
    if record_decodes(raw.fields@) {
        Some(
            ZoneData {
                instance: raw.instance as int,
                name: spec_zonename(raw.fields@)->Some_0,
                stats: Stats {
                    ten_ms: spec_bucket(raw.fields@, "10ms_ops"@)->Some_0,
                    one_hundred_ms: spec_bucket(raw.fields@, "100ms_ops"@)->Some_0,
                    one_second: spec_bucket(raw.fields@, "1s_ops"@)->Some_0,
                    ten_second: spec_bucket(raw.fields@, "10s_ops"@)->Some_0,
                },
            },
        )
    } else {
        None
    }
}

/// First record in `s` whose instance id is `id`.
pub open spec fn lookup_seq(s: Seq<ZoneData>, id: int) -> Option<ZoneData>
    decreases s.len(),
{
    if s.len() == 0 {
        None
    } else if s[0].instance == id {
        Some(s[0])
    } else {
        lookup_seq(s.drop_first(), id)
    }
}

/// Last raw record in `raws` whose instance id is `id`: with duplicate ids
/// the later record wins.
pub open spec fn last_with_id(raws: Seq<RawRecord>, id: int) -> Option<RawRecord>
    decreases raws.len(),
{
    if raws.len() == 0 {
        None
    } else if raws.last().instance == id {
        Some(raws.last())
    } else {
        last_with_id(raws.drop_last(), id)
    }
}

/// One poll's decoded records, at most one per instance id.
pub struct SampleIndex {
    pub recs: Vec<ZoneRecord>,
}

/// The mathematical content of a record sequence.
pub open spec fn model(recs: Seq<ZoneRecord>) -> Seq<ZoneData> {
    recs.map_values(|z: ZoneRecord| z@)
}

impl View for SampleIndex {
    type V = Seq<ZoneData>;

    open spec fn view(&self) -> Seq<ZoneData> {
        model(self.recs@)
    }
}

impl SampleIndex {
    /// Instance ids are unique: lookup is unambiguous.
    pub open spec fn wf(self) -> bool {
        forall|i: int, j: int|
            0 <= i < j < self@.len() ==> self@[i].instance != self@[j].instance
    }

    /// The record stored under `id`, if any.
    pub open spec fn spec_lookup(self, id: int) -> Option<ZoneData> {
        lookup_seq(self@, id)
    }

    pub open spec fn contains_id(self, id: int) -> bool {
        self.spec_lookup(id) is Some
    }

    /// Find the record with the given instance id.
    pub fn lookup(&self, id: i32) -> (r: Option<&ZoneRecord>)
        ensures
            match r {
                Some(z) => self.spec_lookup(id as int) == Some(z@),
                None => self.spec_lookup(id as int) is None,
            },
    {
        let n = self.recs.len();
        for i in 0..n
            invariant
                n == self.recs@.len(),
                forall|j: int| 0 <= j < i ==> self@[j].instance != id as int,
        {
            if self.recs[i].instance == id {
                proof {
                    lemma_lookup_seq_skip(self@, id as int, i as int);
                    assert(self@.skip(i as int)[0] == self@[i as int]);
                }
                return Some(&self.recs[i]);
            }
            proof {
                assert(self@[i as int] == self.recs@[i as int]@);
            }
        }
        proof {
            lemma_lookup_seq_skip(self@, id as int, n as int);
            assert(self@.skip(n as int) =~= Seq::<ZoneData>::empty());
        }
        None
    }
}

proof fn lemma_lookup_seq_skip(s: Seq<ZoneData>, id: int, i: int)
    requires
        0 <= i <= s.len(),
        forall|j: int| 0 <= j < i ==> s[j].instance != id,
    ensures
        lookup_seq(s, id) == lookup_seq(s.skip(i), id),
    decreases i,
{
    if i > 0 {
        assert(s.drop_first() =~= s.skip(1));
        lemma_lookup_seq_skip(s.skip(1), id, i - 1);
        assert(s.skip(1).skip(i - 1) =~= s.skip(i));
    } else {
        assert(s.skip(0) =~= s);
    }
}

/// Position of the record holding `id`, if any.
fn find_pos(recs: &Vec<ZoneRecord>, id: i32) -> (r: Option<usize>)
    ensures
        match r {
            Some(k) => k < recs@.len() && recs@[k as int].instance == id,
            None => forall|j: int| 0 <= j < recs@.len() ==> recs@[j].instance != id,
        },
{
    let m = recs.len();
    for k in 0..m
        invariant
            m == recs@.len(),
            forall|j: int| 0 <= j < k ==> recs@[j].instance != id,
    {
        if recs[k].instance == id {
            return Some(k);
        }
    }
    None
}

/// Index a poll's raw records by instance id, decoding each; when two records
/// share an instance id the later one wins. Fails on the first record that
/// does not decode, with that record's error.
pub fn zone_hashmap(data: Vec<RawRecord>) -> (r: Result<SampleIndex, DecodeError>)
    ensures
        r is Ok <==> (forall|i: int|
            0 <= i < data@.len() ==> record_decodes(data@[i].fields@)),
        match r {
            Ok(ix) => {
                &&& ix.wf()
                &&& forall|id: int|
                    #![trigger ix.spec_lookup(id)]
                    ix.spec_lookup(id) == match last_with_id(data@, id) {
                        Some(rr) => raw_decoded(rr),
                        None => None::<ZoneData>,
                    }
            },
            Err(e) => exists|i: int|
                {
                    &&& 0 <= i < data@.len()
                    &&& !record_decodes(data@[i].fields@)
                    &&& forall|j: int| 0 <= j < i ==> record_decodes(data@[j].fields@)
                    &&& error_field(e) == if spec_zonename(data@[i].fields@) is None {
                        "zonename"@
                    } else {
                        first_bad_bucket(data@[i].fields@)->Some_0
                    }
                    &&& match e {
                        DecodeError::MissingField(n) => field_lookup(data@[i].fields@, n@)
                            is None,
                        DecodeError::WrongShape(n) => field_lookup(data@[i].fields@, n@)
                            is Some,
                    }
                },
        },
{
    let mut recs: Vec<ZoneRecord> = Vec::new();
    let n = data.len();
    for i in 0..n
        invariant
            n == data@.len(),
            forall|j: int| 0 <= j < i ==> record_decodes(data@[j].fields@),
            forall|a: int, b: int|
                0 <= a < b < recs@.len() ==> model(recs@)[a].instance
                    != model(recs@)[b].instance,
            forall|id: int|
                #![trigger lookup_seq(model(recs@), id)]
                lookup_seq(model(recs@), id) == match last_with_id(
                    data@.take(i as int),
                    id,
                ) {
                    Some(rr) => raw_decoded(rr),
                    None => None::<ZoneData>,
                },
    {
        let z = match decode_record(&data[i]) {
            Ok(z) => z,
            Err(e) => {
                return Err(e);
            },
        };
        let ghost prev = model(recs@);
        let ghost zd = z@;
        match find_pos(&recs, z.instance) {
            Some(k) => {
                proof {
                    assert(prev[k as int] == recs@[k as int]@);
                }
                recs[k] = z;
                proof {
                    assert(model(recs@) =~= prev.update(
                        k as int,
                        zd,
                    ));
                    assert forall|a: int| 0 <= a < prev.len() implies prev.update(
                        k as int,
                        zd,
                    )[a].instance == prev[a].instance by {}
                    assert forall|id: int|
                        lookup_seq(model(recs@), id) == (if id
                            == zd.instance {
                            Some(zd)
                        } else {
                            lookup_seq(prev, id)
                        }) by {
                        lemma_lookup_seq_update(prev, k as int, zd, id);
                    }
                }
            },
            None => {
                proof {
                    assert forall|j: int| 0 <= j < prev.len() implies prev[j].instance
                        != zd.instance by {
                        assert(prev[j] == recs@[j]@);
                    }
                    lemma_lookup_seq_skip(prev, zd.instance, prev.len() as int);
                    assert(prev.skip(prev.len() as int) =~= Seq::<ZoneData>::empty());
                }
                recs.push(z);
                proof {
                    assert(model(recs@) =~= prev.push(zd));
                    assert forall|id: int|
                        lookup_seq(model(recs@), id) == (if id
                            == zd.instance {
                            Some(zd)
                        } else {
                            lookup_seq(prev, id)
                        }) by {
                        lemma_lookup_seq_push(prev, zd, id);
                    }
                    assert forall|a: int, b: int|
                        0 <= a < b < prev.push(zd).len() implies prev.push(zd)[a].instance
                        != prev.push(zd)[b].instance by {}
                }
            },
        }
        proof {
            assert(data@.take(i + 1).drop_last() =~= data@.take(i as int));
            assert(data@.take(i + 1).last() == data@[i as int]);
            assert forall|id: int|
                last_with_id(data@.take(i + 1), id) == (if id == data@[i as int].instance as int {
                    Some(data@[i as int])
                } else {
                    last_with_id(data@.take(i as int), id)
                }) by {}
            assert(raw_decoded(data@[i as int]) == Some(zd));
        }
    }
    proof {
        assert(data@.take(n as int) =~= data@);
    }
    Ok(SampleIndex { recs })
}

/// Appending a record with a fresh id adds it to lookup and changes nothing else.
proof fn lemma_lookup_seq_push(s: Seq<ZoneData>, z: ZoneData, id: int)
    requires
        lookup_seq(s, z.instance) is None,
    ensures
        lookup_seq(s.push(z), id) == if id == z.instance {
            Some(z)
        } else {
            lookup_seq(s, id)
        },
    decreases s.len(),
{
    if s.len() == 0 {
        assert(s.push(z).drop_first() =~= Seq::<ZoneData>::empty());
    } else {
        assert(s.push(z)[0] == s[0]);
        if s[0].instance != id {
            assert(s.push(z).drop_first() =~= s.drop_first().push(z));
            assert(s.drop_first() =~= s.skip(1));
            lemma_lookup_seq_push(s.drop_first(), z, id);
        } else {
            if id == z.instance {
                assert(lookup_seq(s, z.instance) == Some(s[0]));
            }
        }
    }
}

/// Overwriting the record that holds an id redirects lookup for that id and
/// changes nothing else.
proof fn lemma_lookup_seq_update(s: Seq<ZoneData>, k: int, z: ZoneData, id: int)
    requires
        0 <= k < s.len(),
        s[k].instance == z.instance,
        forall|i: int, j: int| 0 <= i < j < s.len() ==> s[i].instance != s[j].instance,
    ensures
        lookup_seq(s.update(k, z), id) == if id == z.instance {
            Some(z)
        } else {
            lookup_seq(s, id)
        },
    decreases s.len(),
{
    let t = s.update(k, z);
    if k == 0 {
        assert(t[0] == z);
        if id == z.instance {
        } else {
            assert(t.drop_first() =~= s.drop_first());
        }
    } else {
        assert(t[0] == s[0]);
        if s[0].instance == id {
            assert(s[0].instance != s[k].instance);
        } else {
            assert(t.drop_first() =~= s.drop_first().update(k - 1, z));
            lemma_lookup_seq_update(s.drop_first(), k - 1, z, id);
        }
    }
}

} // verus!
