//! The table renderer: order rows deterministically and lay them out in
//! fixed-width columns, with a header line built from the same widths.

use vstd::prelude::*;
use vstd::multiset::Multiset;
use vstd::string::StrSliceExecFns;
use vstd::string::StringExecFns;
use crate::delta::{DeltaRow, RowData, rows_model, compute, compute_spec, prev_model};
use crate::filter::{filter_rows, filter_spec, zone_model};
use crate::index::SampleIndex;

verus! {

/// The decimal digit characters, least to greatest.
pub open spec fn digit_char(d: nat) -> char
    recommends
        d < 10,
{
    if d == 0 {
        '0'
    } else if d == 1 {
        '1'
    } else if d == 2 {
        '2'
    } else if d == 3 {
        '3'
    } else if d == 4 {
        '4'
    } else if d == 5 {
        '5'
    } else if d == 6 {
        '6'
    } else if d == 7 {
        '7'
    } else if d == 8 {
        '8'
    } else {
        '9'
    }
}

/// The decimal rendering of a number, without sign or padding.
pub open spec fn dec_rep(n: nat) -> Seq<char>
    decreases n,
{
    if n < 10 {
        seq![digit_char(n)]
    } else {
        dec_rep(n / 10).push(digit_char(n % 10))
    }
}

fn digit_str(d: u64) -> (r: &'static str)
    requires
        d < 10,
    ensures
        r@ == seq![digit_char(d as nat)],
{
    let r: &'static str = if d == 0 {
        "0"
    } else if d == 1 {
        "1"
    } else if d == 2 {
        "2"
    } else if d == 3 {
        "3"
    } else if d == 4 {
        "4"
    } else if d == 5 {
        "5"
    } else if d == 6 {
        "6"
    } else if d == 7 {
        "7"
    } else if d == 8 {
        "8"
    } else {
        "9"
    };
    proof {
        reveal_strlit("0");
        reveal_strlit("1");
        reveal_strlit("2");
        reveal_strlit("3");
        reveal_strlit("4");
        reveal_strlit("5");
        reveal_strlit("6");
        reveal_strlit("7");
        reveal_strlit("8");
        reveal_strlit("9");
        assert(r@ =~= seq![digit_char(d as nat)]);
    }
    r
}

/// Render a counter in decimal.
pub fn u64_to_string(n: u64) -> (s: String)
    ensures
        s@ == dec_rep(n as nat),
    decreases n,
{
    if n < 10 {
        String::from_str(digit_str(n))
    } else {
        let mut s = u64_to_string(n / 10);
        let d = digit_str(n % 10);
        s.append(d);
        proof {
            assert(s@ =~= dec_rep((n / 10) as nat).push(digit_char((n % 10) as nat)));
        }
        s
    }
}

/// A run of spaces.
pub open spec fn spaces(n: nat) -> Seq<char> {
    Seq::new(n, |i: int| ' ')
}

/// A field right-justified to width `w`: space-padded on the left, left as
/// it stands when it is already wide enough.
pub open spec fn pad_left(s: Seq<char>, w: nat) -> Seq<char> {
    if s.len() >= w {
        s
    } else {
        spaces((w - s.len()) as nat) + s
    }
}

/// Right-justify a field to `w` display characters.
pub fn pad_left_str(s: &str, w: usize) -> (r: String)
    ensures
        r@ == pad_left(s@, w as nat),
{
    let len = s.unicode_len();
    let mut r = String::new();
    if len < w {
        let pad = w - len;
        for j in 0..pad
            invariant
                r@ =~= spaces(j as nat),
        {
            r.append(" ");
            proof {
                reveal_strlit(" ");
                assert(r@ =~= spaces(j as nat + 1));
            }
        }
    }
    r.append(s);
    proof {
        if s@.len() >= w as nat {
            assert(r@ =~= s@);
        }
    }
    r
}

/// A tenant label as displayed: at most the first eight characters of the
/// full name.
pub open spec fn display_label(name: Seq<char>) -> Seq<char> {
    if name.len() <= 8 {
        name
    } else {
        name.subrange(0, 8)
    }
}

/// Truncate a tenant name to its display label.
pub fn truncate_label(name: &String) -> (r: String)
    ensures
        r@ == display_label(name@),
{
    let len = name.as_str().unicode_len();
    let upto = if len >= 8 {
        8
    } else {
        len
    };
    let cut = name.as_str().substring_char(0, upto);
    proof {
        if name@.len() <= 8 {
            assert(name@.subrange(0, name@.len() as int) =~= name@);
        }
    }
    cut.to_owned()
}

/// The character that separates two columns.
pub open spec fn column_gap() -> Seq<char> {
    seq![' ']
}

/// One data row as printed: the truncated tenant label right-justified to
/// eight characters, then the four bucket counters each right-justified to
/// ten, single spaces between the five fields.
pub open spec fn line_of(r: RowData) -> Seq<char> {
    pad_left(display_label(r.name), 8) + column_gap() + pad_left(dec_rep(r.stats.ten_ms as nat), 10)
        + column_gap() + pad_left(dec_rep(r.stats.one_hundred_ms as nat), 10) + column_gap()
        + pad_left(dec_rep(r.stats.one_second as nat), 10) + column_gap() + pad_left(
        dec_rep(r.stats.ten_second as nat),
        10,
    )
}

/// The header as printed: the column labels in the same widths as the data
/// rows.
pub open spec fn header_text() -> Seq<char> {
    pad_left("zone"@, 8) + column_gap() + pad_left("10ms_ops"@, 10) + column_gap() + pad_left(
        "100ms_ops"@,
        10,
    ) + column_gap() + pad_left("1s_ops"@, 10) + column_gap() + pad_left("10s_ops"@, 10)
}

fn push_column(line: &mut String, field: &str, w: usize)
    ensures
        final(line)@ == old(line)@ + column_gap() + pad_left(field@, w as nat),
{
    line.append(" ");
    let padded = pad_left_str(field, w);
    line.append(padded.as_str());
    proof {
        reveal_strlit(" ");
        assert(" "@ =~= column_gap());
    }
}

/// Lay one delta row out in fixed-width columns.
pub fn format_row(r: &DeltaRow) -> (line: String)
    ensures
        line@ == line_of(r@),
{
    let label = truncate_label(&r.name);
    let mut line = pad_left_str(label.as_str(), 8);
    let f1 = u64_to_string(r.stats.ten_ms);
    push_column(&mut line, f1.as_str(), 10);
    let f2 = u64_to_string(r.stats.one_hundred_ms);
    push_column(&mut line, f2.as_str(), 10);
    let f3 = u64_to_string(r.stats.one_second);
    push_column(&mut line, f3.as_str(), 10);
    let f4 = u64_to_string(r.stats.ten_second);
    push_column(&mut line, f4.as_str(), 10);
    line
}

/// The header line to print, or nothing when headers are suppressed.
pub fn print_header(hide: bool) -> (r: Option<String>)
    ensures
        match r {
            Some(line) => (!hide && line@ == header_text()),
            None => (hide),
        },
{
    if hide {
        return None;
    }
    let mut line = pad_left_str("zone", 8);
    push_column(&mut line, "10ms_ops", 10);
    push_column(&mut line, "100ms_ops", 10);
    push_column(&mut line, "1s_ops", 10);
    push_column(&mut line, "10s_ops", 10);
    Some(line)
}

/// The magnitude of an instance id: the sort key's first component.
pub open spec fn abs_val(i: int) -> int {
    if i < 0 {
        -i
    } else {
        i
    }
}

/// Strict display order: ascending absolute value of the instance id, ties
/// broken by the original id ascending.
pub open spec fn row_lt(a: RowData, b: RowData) -> bool {
    abs_val(a.instance) < abs_val(b.instance) || (abs_val(a.instance) == abs_val(b.instance)
        && a.instance < b.instance)
}

/// Non-strict display order.
pub open spec fn row_le(a: RowData, b: RowData) -> bool {
    !row_lt(b, a)
}

/// The rows stand in display order.
pub open spec fn rows_ordered(s: Seq<RowData>) -> bool {
    forall|i: int, j: int| 0 <= i < j < s.len() ==> row_le(s[i], s[j])
}

/// `x` placed into an ordered run: before the first entry it strictly
/// precedes, after every entry it does not, so that equals keep their
/// arrival order.
pub open spec fn insert_sorted(x: RowData, s: Seq<RowData>) -> Seq<RowData>
    decreases s.len(),
{
    if s.len() == 0 {
        seq![x]
    } else if row_lt(x, s[0]) {
        seq![x] + s
    } else {
        seq![s[0]] + insert_sorted(x, s.drop_first())
    }
}

/// The rows in display order: each row inserted stably into the run of the
/// rows before it.
pub open spec fn sort_spec(s: Seq<RowData>) -> Seq<RowData>
    decreases s.len(),
{
    if s.len() == 0 {
        Seq::empty()
    } else {
        insert_sorted(s.last(), sort_spec(s.drop_last()))
    }
}

fn row_before(a: &DeltaRow, b: &DeltaRow) -> (r: bool)
    ensures
        r == row_lt(a@, b@),
{
    let aa: i64 = if a.instance < 0 {
        -(a.instance as i64)
    } else {
        a.instance as i64
    };
    let bb: i64 = if b.instance < 0 {
        -(b.instance as i64)
    } else {
        b.instance as i64
    };
    aa < bb || (aa == bb && a.instance < b.instance)
}

fn clone_row(r: &DeltaRow) -> (c: DeltaRow)
    ensures
        c@ == r@,
{
    DeltaRow { instance: r.instance, name: r.name.clone(), stats: r.stats, is_first: r.is_first }
}

proof fn lemma_insert_at(x: RowData, s: Seq<RowData>, j: int)
    requires
        0 <= j <= s.len(),
        forall|k: int| 0 <= k < j ==> !row_lt(x, s[k]),
        j < s.len() ==> row_lt(x, s[j]),
    ensures
        insert_sorted(x, s) == s.take(j) + seq![x] + s.skip(j),
    decreases j,
{
    if s.len() == 0 {
        assert(insert_sorted(x, s) =~= s.take(0) + seq![x] + s.skip(0));
    } else if j == 0 {
        assert(insert_sorted(x, s) =~= s.take(0) + seq![x] + s.skip(0));
    } else {
        lemma_insert_at(x, s.drop_first(), j - 1);
        assert(insert_sorted(x, s) =~= s.take(j) + seq![x] + s.skip(j)) by {
            assert(s.drop_first().take(j - 1) =~= s.take(j).drop_first());
            assert(s.drop_first().skip(j - 1) =~= s.skip(j));
            assert(seq![s[0]] + (s.take(j).drop_first() + seq![x] + s.skip(j)) =~= s.take(j)
                + seq![x] + s.skip(j));
        }
    }
}

/// Sort the filtered rows into display order, stably.
pub fn sort_rows(rows: &Vec<DeltaRow>) -> (sorted: Vec<DeltaRow>)
    ensures
        rows_model(sorted@) == sort_spec(rows_model(rows@)),
{
    let mut out: Vec<DeltaRow> = Vec::new();
    let n = rows.len();
    for i in 0..n
        invariant
            n == rows@.len(),
            rows_model(out@) == sort_spec(rows_model(rows@).take(i as int)),
    {
        let x = clone_row(&rows[i]);
        let ghost before = rows_model(out@);
        let m = out.len();
        let mut j: usize = 0;
        while j < m && !row_before(&x, &out[j])
            invariant
                m == out@.len(),
                0 <= j <= m,
                x@ == rows@[i as int]@,
                forall|k: int| 0 <= k < j ==> !row_lt(x@, #[trigger] rows_model(out@)[k]),
            decreases m - j,
        {
            proof {
                assert(rows_model(out@)[j as int] == out@[j as int]@);
            }
            j += 1;
        }
        proof {
            if j < m {
                assert(rows_model(out@)[j as int] == out@[j as int]@);
            }
        }
        out.insert(j, x);
        proof {
            lemma_insert_at(rows@[i as int]@, before, j as int);
            assert(rows_model(out@) =~= before.take(j as int) + seq![rows@[i as int]@]
                + before.skip(j as int));
            assert(rows_model(rows@).take(i + 1).drop_last() =~= rows_model(rows@).take(i as int));
            assert(rows_model(rows@).take(i + 1).last() == rows@[i as int]@);
        }
    }
    proof {
        assert(rows_model(rows@).take(n as int) =~= rows_model(rows@));
    }
    out
}

proof fn lemma_insert_sorted_props(x: RowData, s: Seq<RowData>)
    requires
        rows_ordered(s),
    ensures
        rows_ordered(insert_sorted(x, s)),
        insert_sorted(x, s).to_multiset() =~= s.to_multiset().insert(x),
    decreases s.len(),
{
    broadcast use vstd::multiset::group_multiset_axioms;

    vstd::seq_lib::lemma_multiset_commutative(seq![x], s);
    if s.len() == 0 {
        assert(seq![x].to_multiset() =~= Multiset::empty().insert(x)) by {
            assert(seq![x] =~= Seq::<RowData>::empty().push(x));
            Seq::<RowData>::empty().to_multiset_ensures();
        }
        assert(s.to_multiset() =~= Multiset::<RowData>::empty()) by {
            s.to_multiset_ensures();
        }
    } else if row_lt(x, s[0]) {
        assert(seq![x].to_multiset() =~= Multiset::empty().insert(x)) by {
            assert(seq![x] =~= Seq::<RowData>::empty().push(x));
            Seq::<RowData>::empty().to_multiset_ensures();
        }
        assert((seq![x] + s).to_multiset() =~= s.to_multiset().insert(x));
        assert forall|i: int, j: int|
            0 <= i < j < (seq![x] + s).len() implies row_le(
            (seq![x] + s)[i],
            (seq![x] + s)[j],
        ) by {
            if i == 0 && j > 0 {
                assert((seq![x] + s)[j] == s[j - 1]);
                if j > 1 {
                    assert(row_le(s[0], s[j - 1]));
                }
            }
        }
    } else {
        lemma_insert_sorted_props(x, s.drop_first());
        let rest = insert_sorted(x, s.drop_first());
        s.to_multiset_ensures();
        assert(s.contains(s[0]));
        assert(s.to_multiset().count(s[0]) > 0);
        assert(s.drop_first().to_multiset() =~= s.to_multiset().remove(s[0])) by {
            assert(s[0] == s.first());
            s.to_multiset_ensures();
            assert(s.drop_first() =~= s.remove(0));
            assert(s.remove(0).to_multiset() =~= s.to_multiset().remove(s[0]));
        }
        vstd::seq_lib::lemma_multiset_commutative(seq![s[0]], rest);
        assert(seq![s[0]].to_multiset() =~= Multiset::empty().insert(s[0])) by {
            assert(seq![s[0]] =~= Seq::<RowData>::empty().push(s[0]));
            Seq::<RowData>::empty().to_multiset_ensures();
        }
        assert((seq![s[0]] + rest).to_multiset() =~= s.to_multiset().insert(x));
        assert forall|a: int, b: int|
            0 <= a < b < (seq![s[0]] + rest).len() implies row_le(
            (seq![s[0]] + rest)[a],
            (seq![s[0]] + rest)[b],
        ) by {
            if a == 0 {
                assert((seq![s[0]] + rest)[b] == rest[b - 1]);
                assert(rest.to_multiset().count(rest[b - 1]) > 0) by {
                    rest.to_multiset_ensures();
                    assert(rest.contains(rest[b - 1]));
                }
                assert(s.to_multiset().remove(s[0]).insert(x).count(rest[b - 1]) > 0);
                if rest[b - 1] == x {
                    assert(row_le(s[0], x));
                } else {
                    assert(s.to_multiset().count(rest[b - 1]) > 0);
                    s.to_multiset_ensures();
                    assert(s.contains(rest[b - 1]));
                    let w = choose|w: int| 0 <= w < s.len() && s[w] == rest[b - 1];
                    if w > 0 {
                        assert(row_le(s[0], s[w]));
                    }
                }
            } else {
                assert((seq![s[0]] + rest)[a] == rest[a - 1]);
                assert((seq![s[0]] + rest)[b] == rest[b - 1]);
                assert(row_le(rest[a - 1], rest[b - 1]));
            }
        }
    }
}

/// Sorting output: the display order is ascending absolute instance id with
/// ties by original id, and the rows are exactly the input rows.
pub proof fn lemma_sort_spec_props(s: Seq<RowData>)
    ensures
        rows_ordered(sort_spec(s)),
        sort_spec(s).to_multiset() =~= s.to_multiset(),
    decreases s.len(),
{
    broadcast use vstd::multiset::group_multiset_axioms;

    if s.len() > 0 {
        lemma_sort_spec_props(s.drop_last());
        lemma_insert_sorted_props(s.last(), sort_spec(s.drop_last()));
        assert(sort_spec(s) == insert_sorted(s.last(), sort_spec(s.drop_last())));
        assert(sort_spec(s).to_multiset() =~= sort_spec(s.drop_last()).to_multiset().insert(
            s.last(),
        ));
        assert(s =~= s.drop_last().push(s.last()));
        s.drop_last().to_multiset_ensures();
        assert(s.drop_last().push(s.last()).to_multiset() =~= s.drop_last().to_multiset().insert(
            s.last(),
        ));
    } else {
        assert(sort_spec(s) =~= s);
    }
}

/// No two rows share an instance id.
pub open spec fn distinct_ids(s: Seq<RowData>) -> bool {
    forall|i: int, j: int| 0 <= i < j < s.len() ==> s[i].instance != s[j].instance
}

proof fn lemma_distinct_ids_multiset(s: Seq<RowData>, t: Seq<RowData>)
    requires
        distinct_ids(s),
        s.to_multiset() == t.to_multiset(),
    ensures
        distinct_ids(t),
{
    broadcast use vstd::multiset::group_multiset_axioms;

    s.to_multiset_ensures();
    t.to_multiset_ensures();
    assert forall|i: int, j: int|
        0 <= i < j < t.len() implies t[i].instance != t[j].instance by {
        if t[i].instance == t[j].instance {
            if t[i] == t[j] {
                assert(t.remove(i).to_multiset() =~= t.to_multiset().remove(t[i]));
                t.remove(i).to_multiset_ensures();
                assert(t.remove(i)[j - 1] == t[j]);
                assert(t.remove(i).contains(t[j]));
                assert(t.remove(i).to_multiset().count(t[j]) > 0);
                assert(t.to_multiset().remove(t[i]).count(t[i]) > 0);
                assert(t.to_multiset().count(t[i]) >= 2);
                assert(s.no_duplicates()) by {
                    assert forall|a: int, b: int|
                        0 <= a < s.len() && 0 <= b < s.len() && a != b implies s[a]
                        != s[b] by {
                        assert(s[a].instance != s[b].instance);
                    }
                }
                s.lemma_multiset_has_no_duplicates();
            } else {
                assert(t.contains(t[i]));
                assert(t.contains(t[j]));
                assert(t.to_multiset().count(t[i]) > 0);
                assert(t.to_multiset().count(t[j]) > 0);
                assert(s.to_multiset().count(t[i]) > 0);
                assert(s.to_multiset().count(t[j]) > 0);
                assert(s.contains(t[i]));
                assert(s.contains(t[j]));
                let u = choose|u: int| 0 <= u < s.len() && s[u] == t[i];
                let w = choose|w: int| 0 <= w < s.len() && s[w] == t[j];
                assert(u != w);
                assert(s[u].instance != s[w].instance);
            }
        }
    }
}

proof fn lemma_ordered_unique(a: Seq<RowData>, b: Seq<RowData>)
    requires
        rows_ordered(a),
        rows_ordered(b),
        distinct_ids(a),
        a.to_multiset() == b.to_multiset(),
    ensures
        a == b,
    decreases a.len(),
{
    broadcast use vstd::multiset::group_multiset_axioms;

    a.to_multiset_ensures();
    b.to_multiset_ensures();
    if a.len() == 0 {
        assert(a =~= b);
    } else {
        assert(b.len() == a.len());
        assert(a.contains(a[0]));
        assert(b.to_multiset().count(a[0]) > 0);
        assert(b.contains(a[0]));
        let k = choose|k: int| 0 <= k < b.len() && b[k] == a[0];
        assert(row_le(b[0], a[0])) by {
            if k > 0 {
                assert(row_le(b[0], b[k]));
            }
        }
        assert(b.contains(b[0]));
        assert(b.to_multiset().count(b[0]) > 0);
        assert(a.to_multiset().count(b[0]) > 0);
        assert(a.contains(b[0]));
        let m = choose|m: int| 0 <= m < a.len() && a[m] == b[0];
        assert(row_le(a[0], b[0])) by {
            if m > 0 {
                assert(row_le(a[0], a[m]));
            }
        }
        assert(a[0].instance == b[0].instance);
        assert(m == 0);
        assert(a[0] == b[0]);
        assert(a.drop_first() =~= a.remove(0));
        assert(b.drop_first() =~= b.remove(0));
        assert(a.remove(0).to_multiset() =~= a.to_multiset().remove(a[0]));
        assert(b.remove(0).to_multiset() =~= b.to_multiset().remove(b[0]));
        assert(a.drop_first().to_multiset() == b.drop_first().to_multiset());
        lemma_ordered_unique(a.drop_first(), b.drop_first());
        assert forall|x: int| 0 <= x < a.len() implies a[x] == b[x] by {
            if x > 0 {
                assert(a.drop_first()[x - 1] == b.drop_first()[x - 1]);
            }
        }
        assert(a =~= b);
    }
}

/// Reproducibility of the display order: two batches that hold the same
/// rows, in whatever arrival order, render in the same order, as long as no
/// two rows share an instance id.
pub proof fn lemma_sort_permutation_invariant(s1: Seq<RowData>, s2: Seq<RowData>)
    requires
        distinct_ids(s1),
        s1.to_multiset() == s2.to_multiset(),
    ensures
        sort_spec(s1) == sort_spec(s2),
{
    lemma_sort_spec_props(s1);
    lemma_sort_spec_props(s2);
    lemma_distinct_ids_multiset(s1, sort_spec(s1));
    lemma_ordered_unique(sort_spec(s1), sort_spec(s2));
}

/// The views of a batch of printed lines.
pub open spec fn lines_model(lines: Seq<String>) -> Seq<Seq<char>> {
    lines.map_values(|l: String| l@)
}

/// Everything one poll prints below the header: the delta rows, filtered,
/// in display order, laid out in fixed-width columns.
pub open spec fn print_stats_spec(
    cur: Seq<crate::index::ZoneData>,
    prev: Option<Seq<crate::index::ZoneData>>,
    zone: Option<Seq<char>>,
    all: bool,
) -> Seq<Seq<char>> {
    sort_spec(filter_spec(compute_spec(cur, prev), zone, all)).map_values(|r: RowData| line_of(r))
}

/// Produce one poll's data lines from the current and previous sample
/// indexes and the presentation knobs.
pub fn print_stats(
    curr: &SampleIndex,
    prev: &Option<SampleIndex>,
    zone: &Option<String>,
    all: bool,
) -> (lines: Vec<String>)
    ensures
        lines_model(lines@) == print_stats_spec(curr@, prev_model(*prev), zone_model(*zone), all),
{
    let rows = compute(curr, prev);
    let kept = filter_rows(&rows, zone, all);
    let sorted = sort_rows(&kept);
    let mut lines: Vec<String> = Vec::new();
    let n = sorted.len();
    for i in 0..n
        invariant
            n == sorted@.len(),
            rows_model(sorted@) == sort_spec(
                filter_spec(
                    compute_spec(curr@, prev_model(*prev)),
                    zone_model(*zone),
                    all,
                ),
            ),
            lines_model(lines@) =~= rows_model(sorted@).take(i as int).map_values(
                |r: RowData| line_of(r),
            ),
    {
        let line = format_row(&sorted[i]);
        let ghost lb = lines_model(lines@);
        lines.push(line);
        proof {
            assert(rows_model(sorted@)[i as int] == sorted@[i as int]@);
            assert(lines_model(lines@) =~= lb.push(line@));
            assert(rows_model(sorted@).take(i + 1) =~= rows_model(sorted@).take(i as int).push(
                rows_model(sorted@)[i as int],
            ));
            assert(lines_model(lines@) =~= rows_model(sorted@).take(i + 1).map_values(
                |r: RowData| line_of(r),
            ));
        }
    }
    proof {
        assert(rows_model(sorted@).take(n as int) =~= rows_model(sorted@));
    }
    lines
}

} // verus!
