//! The delta engine: combine the current sample index with the previous one
//! into per-tenant bucket deltas, clamping counter regressions to zero and
//! skipping tenants that have no baseline yet.

use vstd::prelude::*;
use crate::records::Stats;
use crate::index::{SampleIndex, ZoneData, lookup_seq};

verus! {

/// One tenant's activity during one interval, ready for filtering and
/// rendering. On the first poll the stats are the raw since-boot totals.
pub struct DeltaRow {
    pub instance: i32,
    pub name: String,
    pub stats: Stats,
    pub is_first: bool,
}

/// The mathematical content of one delta row.
pub struct RowData {
    pub instance: int,
    pub name: Seq<char>,
    pub stats: Stats,
    pub is_first: bool,
}

impl View for DeltaRow {
    type V = RowData;

    open spec fn view(&self) -> RowData {
        RowData {
            instance: self.instance as int,
            name: self.name@,
            stats: self.stats,
            is_first: self.is_first,
        }
    }
}

/// The mathematical content of a row sequence.
pub open spec fn rows_model(rows: Seq<DeltaRow>) -> Seq<RowData> {
    rows.map_values(|r: DeltaRow| r@)
}

/// A bucket delta: the difference of two successive readings, clamped to
/// zero when the counter regressed (reset) instead of wrapping around.
pub open spec fn clamped_sub(c: u64, p: u64) -> u64 {
    if c >= p {
        (c - p) as u64
    } else {
        0
    }
}

/// All four bucket deltas between two readings of one tenant.
pub open spec fn delta_stats(c: Stats, p: Stats) -> Stats {
    Stats {
        ten_ms: clamped_sub(c.ten_ms, p.ten_ms),
        one_hundred_ms: clamped_sub(c.one_hundred_ms, p.one_hundred_ms),
        one_second: clamped_sub(c.one_second, p.one_second),
        ten_second: clamped_sub(c.ten_second, p.ten_second),
    }
}

/// The previous poll's records, if there was a previous poll.
pub open spec fn prev_model(previous: Option<SampleIndex>) -> Option<Seq<ZoneData>> {
    match previous {
        Some(ix) => Some(ix@),
        None => None,
    }
}

/// Whether a current record yields a row: always on the first poll, and
/// otherwise only when the tenant already has a baseline in `prev`.
pub open spec fn yields_row(z: ZoneData, prev: Option<Seq<ZoneData>>) -> bool {
    match prev {
        None => true,
        Some(p) => lookup_seq(p, z.instance) is Some,
    }
}

/// The row a current record yields: raw totals flagged `is_first` on the
/// first poll, clamped deltas against the baseline otherwise.
pub open spec fn row_of(z: ZoneData, prev: Option<Seq<ZoneData>>) -> RowData {
    match prev {
        None => RowData { instance: z.instance, name: z.name, stats: z.stats, is_first: true },
        Some(p) => RowData {
            instance: z.instance,
            name: z.name,
            stats: delta_stats(z.stats, lookup_seq(p, z.instance)->Some_0.stats),
            is_first: false,
        },
    }
}

/// The rows the delta engine produces, in the current index's storage order.
pub open spec fn compute_spec(cur: Seq<ZoneData>, prev: Option<Seq<ZoneData>>) -> Seq<RowData>
    decreases cur.len(),
{
    if cur.len() == 0 {
        Seq::empty()
    } else {
        let front = compute_spec(cur.drop_last(), prev);
        if yields_row(cur.last(), prev) {
            front.push(row_of(cur.last(), prev))
        } else {
            front
        }
    }
}

fn sub_clamped(c: u64, p: u64) -> (r: u64)
    ensures
        r == clamped_sub(c, p),
{
    if c >= p {
        c - p
    } else {
        0
    }
}

/// Compute one poll's delta rows: every tenant of `current` on the first
/// poll (raw totals), otherwise one row of clamped deltas per tenant that is
/// present in both `current` and `previous`.
pub fn compute(current: &SampleIndex, previous: &Option<SampleIndex>) -> (rows: Vec<DeltaRow>)
    ensures
        rows_model(rows@) == compute_spec(current@, prev_model(*previous)),
{
    let ghost prevv = prev_model(*previous);
    let mut rows: Vec<DeltaRow> = Vec::new();
    let n = current.recs.len();
    for i in 0..n
        invariant
            n == current.recs@.len(),
            rows_model(rows@) == compute_spec(current@.take(i as int), prevv),
            prevv == prev_model(*previous),
    {
        let z = &current.recs[i];
        proof {
            assert(current@[i as int] == current.recs@[i as int]@);
            assert(current@.take(i + 1).drop_last() =~= current@.take(i as int));
            assert(current@.take(i + 1).last() == current@[i as int]);
        }
        let ghost before = rows_model(rows@);
        match previous {
            None => {
                rows.push(
                    DeltaRow {
                        instance: z.instance,
                        name: z.name.clone(),
                        stats: z.stats,
                        is_first: true,
                    },
                );
                proof {
                    assert(rows_model(rows@) =~= before.push(row_of(current@[i as int], prevv)));
                }
            },
            Some(p) => {
                match p.lookup(z.instance) {
                    Some(w) => {
                        rows.push(
                            DeltaRow {
                                instance: z.instance,
                                name: z.name.clone(),
                                stats: Stats {
                                    ten_ms: sub_clamped(z.stats.ten_ms, w.stats.ten_ms),
                                    one_hundred_ms: sub_clamped(
                                        z.stats.one_hundred_ms,
                                        w.stats.one_hundred_ms,
                                    ),
                                    one_second: sub_clamped(
                                        z.stats.one_second,
                                        w.stats.one_second,
                                    ),
                                    ten_second: sub_clamped(
                                        z.stats.ten_second,
                                        w.stats.ten_second,
                                    ),
                                },
                                is_first: false,
                            },
                        );
                        proof {
                            assert(rows_model(rows@) =~= before.push(
                                row_of(current@[i as int], prevv),
                            ));
                        }
                    },
                    None => {
                        proof {
                            assert(!yields_row(current@[i as int], prevv));
                        }
                    },
                }
            },
        }
    }
    proof {
        assert(current@.take(n as int) =~= current@);
    }
    rows
}

/// A tenant absent from the previous poll never appears in the delta rows.
pub proof fn lemma_new_tenant_skipped(cur: Seq<ZoneData>, p: Seq<ZoneData>, k: int)
    requires
        0 <= k < compute_spec(cur, Some(p)).len(),
    ensures
        lookup_seq(p, compute_spec(cur, Some(p))[k].instance) is Some,
    decreases cur.len(),
{
    if cur.len() > 0 {
        let front = compute_spec(cur.drop_last(), Some(p));
        if k < front.len() {
            lemma_new_tenant_skipped(cur.drop_last(), p, k);
        }
    }
}

/// On the very first poll every current tenant appears, with its raw
/// since-boot totals, flagged as a first sample.
pub proof fn lemma_first_poll_raw_totals(cur: Seq<ZoneData>)
    ensures
        compute_spec(cur, None).len() == cur.len(),
        forall|k: int|
            0 <= k < cur.len() ==> compute_spec(cur, None)[k] == (RowData {
                instance: cur[k].instance,
                name: cur[k].name,
                stats: cur[k].stats,
                is_first: true,
            }),
    decreases cur.len(),
{
    if cur.len() > 0 {
        lemma_first_poll_raw_totals(cur.drop_last());
        assert forall|k: int| 0 <= k < cur.len() implies compute_spec(cur, None)[k] == (RowData {
            instance: cur[k].instance,
            name: cur[k].name,
            stats: cur[k].stats,
            is_first: true,
        }) by {
            if k < cur.len() - 1 {
                assert(cur.drop_last()[k] == cur[k]);
            }
        }
    }
}

/// For a tenant present in both polls, the delta row is exactly the clamped
/// difference of its bucket counters: `current - previous` where the counter
/// grew, zero where it regressed.
pub proof fn lemma_delta_row_present(cur: Seq<ZoneData>, p: Seq<ZoneData>, id: int)
    requires
        forall|i: int, j: int| 0 <= i < j < cur.len() ==> cur[i].instance != cur[j].instance,
        lookup_seq(cur, id) is Some,
        lookup_seq(p, id) is Some,
    ensures
        exists|k: int|
            {
                &&& 0 <= k < compute_spec(cur, Some(p)).len()
                &&& compute_spec(cur, Some(p))[k] == (RowData {
                    instance: id,
                    name: lookup_seq(cur, id)->Some_0.name,
                    stats: delta_stats(
                        lookup_seq(cur, id)->Some_0.stats,
                        lookup_seq(p, id)->Some_0.stats,
                    ),
                    is_first: false,
                })
            },
    decreases cur.len(),
{
    if cur.len() > 0 {
        let front = compute_spec(cur.drop_last(), Some(p));
        if cur.last().instance == id {
            lemma_lookup_last(cur, id);
            assert(compute_spec(cur, Some(p))[front.len() as int] == row_of(cur.last(), Some(p)));
        } else {
            lemma_lookup_drop_last(cur, id);
            lemma_delta_row_present(cur.drop_last(), p, id);
            let k = choose|k: int|
                0 <= k < front.len() && front[k] == (RowData {
                    instance: id,
                    name: lookup_seq(cur.drop_last(), id)->Some_0.name,
                    stats: delta_stats(
                        lookup_seq(cur.drop_last(), id)->Some_0.stats,
                        lookup_seq(p, id)->Some_0.stats,
                    ),
                    is_first: false,
                });
            assert(compute_spec(cur, Some(p))[k] == front[k]);
        }
    }
}

/// With unique instance ids, a record whose id matches the last entry is the
/// last entry.
proof fn lemma_lookup_last(s: Seq<ZoneData>, id: int)
    requires
        s.len() > 0,
        forall|i: int, j: int| 0 <= i < j < s.len() ==> s[i].instance != s[j].instance,
        s.last().instance == id,
    ensures
        lookup_seq(s, id) == Some(s.last()),
    decreases s.len(),
{
    if s[0].instance != id {
        assert(s.drop_first().last() == s.last());
        lemma_lookup_last(s.drop_first(), id);
    }
}

/// Looking an id up ignores a trailing entry with a different id.
proof fn lemma_lookup_drop_last(s: Seq<ZoneData>, id: int)
    requires
        s.len() > 0,
        s.last().instance != id,
    ensures
        lookup_seq(s.drop_last(), id) == lookup_seq(s, id),
    decreases s.len(),
{
    if s.len() == 1 {
        assert(s.drop_last() =~= Seq::<ZoneData>::empty());
    } else if s[0].instance == id {
        assert(s.drop_last()[0] == s[0]);
    } else {
        assert(s.drop_first().last() == s.last());
        lemma_lookup_drop_last(s.drop_first(), id);
        assert(s.drop_first().drop_last() =~= s.drop_last().drop_first());
        assert(s.drop_last()[0] == s[0]);
    }
}

} // verus!
