//! The presentation filter: decide, per delta row, whether it is printed.
//! A tenant-name filter takes precedence; otherwise zero-activity rows are
//! suppressed unless everything is shown or the row is a first sample.

use vstd::prelude::*;
use crate::delta::{DeltaRow, RowData, rows_model};
use crate::records::Stats;

verus! {

/// No operation fell into any bucket this interval.
pub open spec fn all_zero(s: Stats) -> bool {
    s.ten_ms == 0 && s.one_hundred_ms == 0 && s.one_second == 0 && s.ten_second == 0
}

/// Whether one row is printed. The name filter compares the full,
/// untruncated tenant name and overrides the zero-suppression rule in both
/// directions; without it, a row passes when everything is shown, when it is
/// a first sample (since-boot totals are always informative), or when it saw
/// activity.
pub open spec fn row_kept(r: RowData, zone: Option<Seq<char>>, show_all: bool) -> bool {
    match zone {
        Some(zn) => r.name == zn,
        None => show_all || r.is_first || !all_zero(r.stats),
    }
}

/// The rows that survive filtering, in their original order.
pub open spec fn filter_spec(
    rows: Seq<RowData>,
    zone: Option<Seq<char>>,
    show_all: bool,
) -> Seq<RowData>
    decreases rows.len(),
{
    if rows.len() == 0 {
        Seq::empty()
    } else {
        let front = filter_spec(rows.drop_last(), zone, show_all);
        if row_kept(rows.last(), zone, show_all) {
            front.push(rows.last())
        } else {
            front
        }
    }
}

/// The view of the optional tenant-name filter.
pub open spec fn zone_model(zone: Option<String>) -> Option<Seq<char>> {
    match zone {
        Some(z) => Some(z@),
        None => None,
    }
}

fn is_kept(r: &DeltaRow, zone: &Option<String>, show_all: bool) -> (b: bool)
    ensures
        b == row_kept(r@, zone_model(*zone), show_all),
{
    match zone {
        Some(zn) => r.name.eq(zn),
        None => show_all || r.is_first || !(r.stats.ten_ms == 0 && r.stats.one_hundred_ms == 0
            && r.stats.one_second == 0 && r.stats.ten_second == 0),
    }
}

/// Keep exactly the rows the presentation policy prints, in order.
pub fn filter_rows(rows: &Vec<DeltaRow>, zone: &Option<String>, show_all: bool) -> (kept: Vec<
    DeltaRow,
>)
    ensures
        rows_model(kept@) == filter_spec(rows_model(rows@), zone_model(*zone), show_all),
{
    let ghost zn = zone_model(*zone);
    let mut kept: Vec<DeltaRow> = Vec::new();
    let n = rows.len();
    for i in 0..n
        invariant
            n == rows@.len(),
            zn == zone_model(*zone),
            rows_model(kept@) == filter_spec(rows_model(rows@).take(i as int), zn, show_all),
    {
        let r = &rows[i];
        proof {
            assert(rows_model(rows@)[i as int] == rows@[i as int]@);
            assert(rows_model(rows@).take(i + 1).drop_last() =~= rows_model(rows@).take(i as int));
            assert(rows_model(rows@).take(i + 1).last() == rows_model(rows@)[i as int]);
        }
        let ghost before = rows_model(kept@);
        if is_kept(r, zone, show_all) {
            kept.push(
                DeltaRow {
                    instance: r.instance,
                    name: r.name.clone(),
                    stats: r.stats,
                    is_first: r.is_first,
                },
            );
            proof {
                assert(rows_model(kept@) =~= before.push(rows@[i as int]@));
            }
        }
    }
    proof {
        assert(rows_model(rows@).take(n as int) =~= rows_model(rows@));
    }
    kept
}

/// Every surviving row passed the policy and came from the input; every
/// input row that passes the policy survives.
pub proof fn lemma_filter_exact(rows: Seq<RowData>, zone: Option<Seq<char>>, show_all: bool)
    ensures
        forall|k: int|
            #![trigger filter_spec(rows, zone, show_all)[k]]
            0 <= k < filter_spec(rows, zone, show_all).len() ==> {
                &&& row_kept(filter_spec(rows, zone, show_all)[k], zone, show_all)
                &&& rows.contains(filter_spec(rows, zone, show_all)[k])
            },
        forall|j: int|
            #![trigger rows[j]]
            0 <= j < rows.len() && row_kept(rows[j], zone, show_all) ==> filter_spec(
                rows,
                zone,
                show_all,
            ).contains(rows[j]),
    decreases rows.len(),
{
    if rows.len() > 0 {
        lemma_filter_exact(rows.drop_last(), zone, show_all);
        let front = filter_spec(rows.drop_last(), zone, show_all);
        let whole = filter_spec(rows, zone, show_all);
        assert forall|k: int| 0 <= k < whole.len() implies {
            &&& row_kept(whole[k], zone, show_all)
            &&& rows.contains(whole[k])
        } by {
            if k < front.len() {
                assert(whole[k] == front[k]);
                assert(rows.drop_last().contains(front[k]));
                let w = choose|w: int|
                    0 <= w < rows.drop_last().len() && rows.drop_last()[w] == front[k];
                assert(rows[w] == front[k]);
            } else {
                assert(whole[k] == rows.last());
            }
        }
        assert forall|j: int|
            0 <= j < rows.len() && row_kept(rows[j], zone, show_all) implies whole.contains(
            rows[j],
        ) by {
            if j < rows.len() - 1 {
                assert(rows.drop_last()[j] == rows[j]);
                let w = choose|w: int| 0 <= w < front.len() && front[w] == rows[j];
                if row_kept(rows.last(), zone, show_all) {
                    assert(whole[w] == rows[j]);
                } else {
                    assert(whole[w] == rows[j]);
                }
            } else {
                if row_kept(rows.last(), zone, show_all) {
                    assert(whole.last() == rows.last());
                }
            }
        }
    }
}

/// Without a name filter, first-sample rows pass whatever their activity:
/// on the very first poll nothing is suppressed by the zero-activity rule.
pub proof fn lemma_first_poll_unfiltered(rows: Seq<RowData>, show_all: bool)
    requires
        forall|k: int| 0 <= k < rows.len() ==> rows[k].is_first,
    ensures
        filter_spec(rows, None, show_all) == rows,
    decreases rows.len(),
{
    if rows.len() > 0 {
        assert(forall|k: int|
            0 <= k < rows.drop_last().len() ==> rows.drop_last()[k] == rows[k]);
        lemma_first_poll_unfiltered(rows.drop_last(), show_all);
        assert(rows[rows.len() - 1].is_first);
        assert(filter_spec(rows, None, show_all) =~= rows);
    } else {
        assert(filter_spec(rows, None, show_all) =~= rows);
    }
}

/// The name filter matches the full, untruncated tenant name: a filtered row
/// is kept exactly when the names are equal, whatever its activity and
/// however long the name is.
pub proof fn lemma_filter_matches_full_name(r: RowData, zn: Seq<char>, show_all: bool)
    ensures
        row_kept(r, Some(zn), show_all) <==> r.name == zn,
{
}

} // verus!
