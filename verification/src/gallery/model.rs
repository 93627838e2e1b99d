use vstd::prelude::*;
use std::collections::HashMap;
use crate::db::queries::{MediaItem, month_key};
use crate::gallery::row_types::{GalleryRow, GalleryThumb};
use crate::gallery::ui_data::{GalleryRowData, ThumbnailData};
use crate::util::time::{format_month_label, month_label};

verus! {

broadcast use vstd::std_specs::hash::group_hash_axioms;

/// The shape of one gallery row, in terms of positions in the item list:
/// a month header opened by the item at `first`, or a row showing the items
/// `start..end`.
pub enum RowPlan {
    Header { first: int },
    Image { start: int, end: int },
}

/// End (exclusive) of the run of items that share the month of
/// `items[start]`, looking no further than `stop`.
pub open spec fn run_end(items: Seq<MediaItem>, start: int, stop: int) -> int
    decreases stop - start,
{
    if start + 1 >= stop {
        start + 1
    } else if month_key(items[start + 1]) != month_key(items[start]) {
        start + 1
    } else {
        run_end(items, start + 1, stop)
    }
}

/// The items `start..end` cut into rows of `n`; the last row holds the rest.
pub open spec fn chunk_plan(start: int, end: int, n: int) -> Seq<RowPlan>
    decreases end - start,
{
    if start >= end || n <= 0 {
        seq![]
    } else if end - start <= n {
        seq![RowPlan::Image { start, end }]
    } else {
        seq![RowPlan::Image { start, end: start + n }] + chunk_plan(start + n, end, n)
    }
}

/// The rows for the items `start..stop`: for each run of items of one month,
/// a header followed by the run's items in rows of `n`.
pub open spec fn layout(items: Seq<MediaItem>, n: int, start: int, stop: int) -> Seq<RowPlan>
    decreases stop - start,
{
    if start >= stop {
        seq![]
    } else {
        proof {
            lemma_run_end_bounds(items, start, stop);
        }
        let e = run_end(items, start, stop);
        seq![RowPlan::Header { first: start }] + chunk_plan(start, e, n) + layout(items, n, e, stop)
    }
}

/// The rows of the whole gallery for `items` with `n` columns.
pub open spec fn gallery_layout(items: Seq<MediaItem>, n: int) -> Seq<RowPlan> {
    layout(items, n, 0, items.len() as int)
}

/// Row indices of the month headers among `plans`, in order.
pub open spec fn header_rows(plans: Seq<RowPlan>) -> Seq<int>
    decreases plans.len(),
{
    if plans.len() == 0 {
        seq![]
    } else {
        let h = header_rows(plans.drop_last());
        if plans.last() is Header {
            h.push(plans.len() - 1)
        } else {
            h
        }
    }
}

/// `m` after recording, in column order, the cells of the first `cnt` items
/// of a row at index `r` whose first item is `items[start]`.
pub open spec fn row_positions(
    m: Map<i64, (usize, usize)>,
    items: Seq<MediaItem>,
    start: int,
    cnt: int,
    r: int,
) -> Map<i64, (usize, usize)>
    decreases cnt,
{
    if cnt <= 0 {
        m
    } else {
        row_positions(m, items, start, cnt - 1, r).insert(
            items[start + cnt - 1].id,
            (r as usize, (cnt - 1) as usize),
        )
    }
}

/// For every item shown in `plans`, the (row, column) of its cell; when an id
/// is shown more than once, the cell filled last wins.
pub open spec fn cell_positions(plans: Seq<RowPlan>, items: Seq<MediaItem>) -> Map<
    i64,
    (usize, usize),
>
    decreases plans.len(),
{
    if plans.len() == 0 {
        Map::empty()
    } else {
        let m = cell_positions(plans.drop_last(), items);
        match plans.last() {
            RowPlan::Header { .. } => m,
            RowPlan::Image { start, end } => row_positions(
                m,
                items,
                start,
                end - start,
                plans.len() - 1,
            ),
        }
    }
}

/// `row` is the gallery row that `plan` describes for `items`.
pub open spec fn row_matches(row: GalleryRow, plan: RowPlan, items: Seq<MediaItem>) -> bool {
    match plan {
        RowPlan::Header { first } => match row {
            GalleryRow::MonthHeader { label, year, month } => {
                &&& year == items[first].year
                &&& month == items[first].month
                &&& label@ == month_label(year, month)
            },
            GalleryRow::ImageRow { .. } => false,
        },
        RowPlan::Image { start, end } => match row {
            GalleryRow::ImageRow { items: cells } => {
                &&& cells@.len() == end - start
                &&& forall|c: int|
                    0 <= c < cells@.len() ==> (#[trigger] cells@[c]).depicts(items[start + c])
            },
            GalleryRow::MonthHeader { .. } => false,
        },
    }
}

/// `rows` are exactly the rows that `plans` describe.
pub open spec fn rows_match(rows: Seq<GalleryRow>, plans: Seq<RowPlan>, items: Seq<MediaItem>) -> bool {
    &&& rows.len() == plans.len()
    &&& forall|r: int| 0 <= r < rows.len() ==> row_matches(#[trigger] rows[r], plans[r], items)
}

/// `entry` is the month-scroller entry of the header at row `r` of `plans`.
pub open spec fn month_entry_matches(
    entry: (i32, i32, String, usize),
    plans: Seq<RowPlan>,
    items: Seq<MediaItem>,
    r: int,
) -> bool {
    &&& 0 <= r < plans.len()
    &&& plans[r] matches RowPlan::Header { first } && {
        &&& entry.0 == items[first].year
        &&& entry.1 == items[first].month
        &&& entry.2@ == month_label(entry.0, entry.1)
        &&& entry.3 == r
    }
}

/// `months` lists, in order, one entry for each header of `plans`.
pub open spec fn months_match(
    months: Seq<(i32, i32, String, usize)>,
    plans: Seq<RowPlan>,
    items: Seq<MediaItem>,
) -> bool {
    &&& months.len() == header_rows(plans).len()
    &&& forall|j: int|
        0 <= j < months.len() ==> month_entry_matches(
            #[trigger] months[j],
            plans,
            items,
            header_rows(plans)[j],
        )
}

pub proof fn lemma_run_end_bounds(items: Seq<MediaItem>, start: int, stop: int)
    requires
        start < stop,
    ensures
        start < run_end(items, start, stop) <= stop,
        forall|k: int|
            start <= k < run_end(items, start, stop) ==> month_key(#[trigger] items[k]) == month_key(
                items[start],
            ),
        run_end(items, start, stop) < stop ==> month_key(items[run_end(items, start, stop)])
            != month_key(items[start]),
    decreases stop - start,
{
    if start + 1 >= stop {
    } else if month_key(items[start + 1]) != month_key(items[start]) {
    } else {
        lemma_run_end_bounds(items, start + 1, stop);
    }
}

/// A run whose items all share one month reaches the bound.
proof fn lemma_run_end_uniform(items: Seq<MediaItem>, start: int, stop: int)
    requires
        start < stop,
        forall|k: int| start <= k < stop ==> month_key(#[trigger] items[k]) == month_key(items[start]),
    ensures
        run_end(items, start, stop) == stop,
    decreases stop - start,
{
    if start + 1 < stop {
        assert(month_key(items[start + 1]) == month_key(items[start]));
        lemma_run_end_uniform(items, start + 1, stop);
    }
}

/// A run that starts before a change of month at `s` ends at or before `s`,
/// whatever the bound beyond `s`.
proof fn lemma_run_end_stable(items: Seq<MediaItem>, start: int, s: int, i: int)
    requires
        start < s < i,
        month_key(items[s - 1]) != month_key(items[s]),
    ensures
        run_end(items, start, i) == run_end(items, start, s),
    decreases s - start,
{
    if start + 1 >= s {
    } else if month_key(items[start + 1]) != month_key(items[start]) {
    } else {
        lemma_run_end_stable(items, start + 1, s, i);
    }
}

/// Appending the remaining items of the run that starts at `s` to the
/// layout of the items before `s`.
proof fn lemma_layout_extend(items: Seq<MediaItem>, n: int, start: int, s: int, i: int)
    requires
        0 <= start <= s < i,
        start < s ==> month_key(items[s - 1]) != month_key(items[s]),
        forall|k: int| s <= k < i ==> month_key(#[trigger] items[k]) == month_key(items[s]),
    ensures
        layout(items, n, start, i) == layout(items, n, start, s) + seq![
            RowPlan::Header { first: s },
        ] + chunk_plan(s, i, n),
    decreases s - start,
{
    if start == s {
        lemma_run_end_uniform(items, s, i);
        assert(layout(items, n, i, i) == Seq::<RowPlan>::empty());
        assert(layout(items, n, s, s) == Seq::<RowPlan>::empty());
        assert(layout(items, n, start, i) =~= layout(items, n, start, s) + seq![
            RowPlan::Header { first: s },
        ] + chunk_plan(s, i, n));
    } else {
        lemma_run_end_stable(items, start, s, i);
        lemma_run_end_bounds(items, start, s);
        let e = run_end(items, start, s);
        lemma_layout_extend(items, n, e, s, i);
        assert(layout(items, n, start, i) =~= layout(items, n, start, s) + seq![
            RowPlan::Header { first: s },
        ] + chunk_plan(s, i, n));
    }
}

/// Splits off the first row of a chunked run.
proof fn lemma_chunk_plan_step(c: int, end: int, n: int)
    requires
        c < end,
        n > 0,
    ensures
        chunk_plan(c, end, n) == seq![
            RowPlan::Image { start: c, end: if end - c <= n { end } else { c + n } },
        ] + chunk_plan(if end - c <= n { end } else { c + n }, end, n),
{
    if end - c <= n {
        assert(chunk_plan(end, end, n) == Seq::<RowPlan>::empty());
        assert(chunk_plan(c, end, n) =~= seq![RowPlan::Image { start: c, end: end }] + chunk_plan(
            end,
            end,
            n,
        ));
    }
}

/// Pushes the rows of the items `start..end` (one month's run) in rows of `n`,
/// recording the cell of each item in `positions`.
fn flush_run(
    rows: &mut Vec<GalleryRow>,
    positions: &mut HashMap<i64, (usize, usize)>,
    items: &[MediaItem],
    start: usize,
    end: usize,
    n: usize,
    Ghost(base): Ghost<Seq<RowPlan>>,
)
    requires
        start < end <= items@.len(),
        n > 0,
        rows_match(old(rows)@, base, items@),
        old(positions)@ == cell_positions(base, items@),
    ensures
        rows_match(final(rows)@, base + chunk_plan(start as int, end as int, n as int), items@),
        final(positions)@ == cell_positions(
            base + chunk_plan(start as int, end as int, n as int),
            items@,
        ),
{
    let ghost full = chunk_plan(start as int, end as int, n as int);
    let ghost mut added: Seq<RowPlan> = Seq::empty();
    let mut c = start;
    assert(base + added =~= base);
    while c < end
        invariant
            start <= c <= end <= items@.len(),
            n > 0,
            full == chunk_plan(start as int, end as int, n as int),
            added + chunk_plan(c as int, end as int, n as int) == full,
            rows_match(rows@, base + added, items@),
            positions@ == cell_positions(base + added, items@),
        decreases end - c,
    {
        let e = if end - c <= n { end } else { c + n };
        proof {
            lemma_chunk_plan_step(c as int, end as int, n as int);
        }
        let ghost plan_before = base + added;
        let ghost r: int = plan_before.len() as int;
        let mut cells: Vec<GalleryThumb> = Vec::new();
        let mut k = c;
        while k < e
            invariant
                c <= k <= e <= items@.len(),
                cells@.len() == k - c,
                forall|j: int| 0 <= j < cells@.len() ==> (#[trigger] cells@[j]).depicts(items@[c + j]),
                rows@.len() == r,
                positions@ == row_positions(
                    cell_positions(plan_before, items@),
                    items@,
                    c as int,
                    k - c,
                    r,
                ),
            decreases e - k,
        {
            let row_idx = rows.len();
            positions.insert(items[k].id, (row_idx, k - c));
            cells.push(GalleryThumb::from(&items[k]));
            k = k + 1;
        }
        let ghost rows_before = rows@;
        rows.push(GalleryRow::ImageRow { items: cells });
        proof {
            let new_plan = RowPlan::Image { start: c as int, end: e as int };
            let after = plan_before.push(new_plan);
            assert(after.drop_last() =~= plan_before);
            assert(after =~= base + added.push(new_plan));
            assert(row_matches(rows@[r], new_plan, items@));
            assert forall|q: int| 0 <= q < rows@.len() implies row_matches(
                #[trigger] rows@[q],
                after[q],
                items@,
            ) by {
                if q < r {
                    assert(rows@[q] == rows_before[q]);
                    assert(after[q] == plan_before[q]);
                }
            }
            added = added.push(new_plan);
            assert(added + chunk_plan(e as int, end as int, n as int) =~= full);
        }
        c = e;
    }
    assert(added =~= full);
}

/// Builds the flat row sequence, the month entries and the item position
/// index for items pre-sorted by month (year and month descending, date
/// ascending). Each run of consecutive items of one month becomes a header
/// row followed by rows of at most `n_cols` thumbnails; each month entry is
/// (year, month, label, index of its header row); positions map an item id
/// to the (row, column) of its cell.
pub fn build_rows(items: &[MediaItem], n_cols: usize) -> (res: (
    Vec<GalleryRow>,
    Vec<(i32, i32, String, usize)>,
    HashMap<i64, (usize, usize)>,
))
    requires
        n_cols > 0,
    ensures
        rows_match(res.0@, gallery_layout(items@, n_cols as int), items@),
        months_match(res.1@, gallery_layout(items@, n_cols as int), items@),
        res.2@ == cell_positions(gallery_layout(items@, n_cols as int), items@),
{
    let mut rows: Vec<GalleryRow> = Vec::new();
    let mut months: Vec<(i32, i32, String, usize)> = Vec::new();
    let mut positions: HashMap<i64, (usize, usize)> = HashMap::new();
    let ghost n = n_cols as int;
    let mut run_start: usize = 0;
    let mut i: usize = 0;
    while i < items.len()
        invariant
            n == n_cols as int,
            n_cols > 0,
            i <= items@.len(),
            i == 0 ==> rows@.len() == 0 && months@.len() == 0 && positions@ == Map::<
                i64,
                (usize, usize),
            >::empty(),
            i > 0 ==> {
                let plans = layout(items@, n, 0, run_start as int) + seq![
                    RowPlan::Header { first: run_start as int },
                ];
                &&& run_start < i
                &&& forall|k: int|
                    run_start <= k < i ==> month_key(#[trigger] items@[k]) == month_key(
                        items@[run_start as int],
                    )
                &&& run_start > 0 ==> month_key(items@[run_start - 1]) != month_key(
                    items@[run_start as int],
                )
                &&& rows_match(rows@, plans, items@)
                &&& months_match(months@, plans, items@)
                &&& positions@ == cell_positions(plans, items@)
            },
        decreases items@.len() - i,
    {
        let item = &items[i];
        if i == 0 || items[run_start].year != item.year || items[run_start].month != item.month {
            let ghost prev_start = run_start as int;
            let ghost before = layout(items@, n, 0, i as int);
            if i > 0 {
                flush_run(
                    &mut rows,
                    &mut positions,
                    items,
                    run_start,
                    i,
                    n_cols,
                    Ghost(
                        layout(items@, n, 0, run_start as int) + seq![
                            RowPlan::Header { first: run_start as int },
                        ],
                    ),
                );
                proof {
                    lemma_layout_extend(items@, n, 0, prev_start, i as int);
                    let plans = layout(items@, n, 0, run_start as int) + seq![
                        RowPlan::Header { first: run_start as int },
                    ];
                    lemma_chunk_plan_images(prev_start, i as int, n);
                    lemma_header_rows_no_header(plans, chunk_plan(prev_start, i as int, n));
                    assert(before == plans + chunk_plan(prev_start, i as int, n));
                    assert(months_match(months@, before, items@)) by {
                        assert forall|j: int| 0 <= j < months@.len() implies month_entry_matches(
                            #[trigger] months@[j],
                            before,
                            items@,
                            header_rows(before)[j],
                        ) by {
                            assert(month_entry_matches(months@[j], plans, items@, header_rows(plans)[j]));
                            assert(before[header_rows(plans)[j]] == plans[header_rows(plans)[j]]);
                        }
                    }
                }
            } else {
                proof {
                    assert(before =~= Seq::<RowPlan>::empty());
                    assert(cell_positions(before, items@) == Map::<i64, (usize, usize)>::empty());
                    assert(header_rows(before) =~= Seq::<int>::empty());
                }
            }
            let label = format_month_label(item.year, item.month);
            let row_idx = rows.len();
            months.push((item.year, item.month, label.clone(), row_idx));
            rows.push(GalleryRow::MonthHeader { label, year: item.year, month: item.month });
            run_start = i;
            proof {
                let plans = before + seq![RowPlan::Header { first: i as int }];
                assert(plans.drop_last() =~= before);
                assert(header_rows(plans) == header_rows(before).push(before.len() as int));
                assert(cell_positions(plans, items@) == cell_positions(before, items@));
                assert forall|q: int| 0 <= q < rows@.len() implies row_matches(
                    #[trigger] rows@[q],
                    plans[q],
                    items@,
                ) by {
                    if q < before.len() {
                        assert(plans[q] == before[q]);
                    }
                }
                assert forall|j: int| 0 <= j < months@.len() implies month_entry_matches(
                    #[trigger] months@[j],
                    plans,
                    items@,
                    header_rows(plans)[j],
                ) by {
                    if j < months@.len() - 1 {
                        assert(month_entry_matches(months@[j], before, items@, header_rows(before)[j]));
                        assert(plans[header_rows(before)[j]] == before[header_rows(before)[j]]);
                    }
                }
            }
        }
        i = i + 1;
    }
    if items.len() > 0 {
        let ghost plans = layout(items@, n, 0, run_start as int) + seq![
            RowPlan::Header { first: run_start as int },
        ];
        flush_run(&mut rows, &mut positions, items, run_start, items.len(), n_cols, Ghost(plans));
        proof {
            lemma_layout_extend(items@, n, 0, run_start as int, items@.len() as int);
            lemma_chunk_plan_images(run_start as int, items@.len() as int, n);
            let all = plans + chunk_plan(run_start as int, items@.len() as int, n);
            assert(gallery_layout(items@, n) == all);
            lemma_header_rows_no_header(plans, chunk_plan(run_start as int, items@.len() as int, n));
            assert forall|j: int| 0 <= j < months@.len() implies month_entry_matches(
                #[trigger] months@[j],
                all,
                items@,
                header_rows(all)[j],
            ) by {
                assert(month_entry_matches(months@[j], plans, items@, header_rows(plans)[j]));
                assert(all[header_rows(plans)[j]] == plans[header_rows(plans)[j]]);
            }
        }
    } else {
        proof {
            assert(gallery_layout(items@, n) =~= Seq::<RowPlan>::empty());
            assert(header_rows(gallery_layout(items@, n)) =~= Seq::<int>::empty());
        }
    }
    (rows, months, positions)
}

/// Every row of a chunked run is an image row.
proof fn lemma_chunk_plan_images(start: int, end: int, n: int)
    ensures
        forall|q: int|
            0 <= q < chunk_plan(start, end, n).len() ==> #[trigger] chunk_plan(start, end, n)[q] is Image,
    decreases end - start,
{
    if start >= end || n <= 0 {
    } else if end - start <= n {
    } else {
        lemma_chunk_plan_images(start + n, end, n);
        let rest = chunk_plan(start + n, end, n);
        assert forall|q: int| 0 <= q < chunk_plan(start, end, n).len() implies #[trigger] chunk_plan(
            start,
            end,
            n,
        )[q] is Image by {
            if q > 0 {
                assert(chunk_plan(start, end, n)[q] == rest[q - 1]);
            }
        }
    }
}

/// Appending image rows adds no header.
proof fn lemma_header_rows_no_header(plans: Seq<RowPlan>, more: Seq<RowPlan>)
    requires
        forall|q: int| 0 <= q < more.len() ==> #[trigger] more[q] is Image,
    ensures
        header_rows(plans + more) == header_rows(plans),
    decreases more.len(),
{
    if more.len() == 0 {
        assert(plans + more =~= plans);
    } else {
        let shorter = more.drop_last();
        assert((plans + more).drop_last() =~= plans + shorter);
        assert((plans + more).last() == more[more.len() - 1]);
        lemma_header_rows_no_header(plans, shorter);
    }
}

/// The cells of an image row as the interface receives them.
pub open spec fn cells_shown(cells: Seq<ThumbnailData>, items: Seq<GalleryThumb>) -> bool {
    &&& cells.len() == items.len()
    &&& forall|i: int|
        0 <= i < items.len() ==> {
            &&& #[trigger] cells[i].item_id == items[i].item_id as i32
            &&& !cells[i].thumb_ready
            &&& cells[i].media_type@ == items[i].media_type@
        }
}

/// A row as the user interface receives it: a header carries its label and
/// no cells; an image row carries its cells, each with its id narrowed to
/// an `i32` and its thumbnail not yet loaded.
pub fn row_to_slint(row: &GalleryRow) -> (r: GalleryRowData)
    ensures
        r.is_header == (row is MonthHeader),
        match row {
            GalleryRow::MonthHeader { label, .. } => {
                &&& r.header_label@ == label@
                &&& r.item_count == 0
                &&& r.items@.len() == 0
            },
            GalleryRow::ImageRow { items } => {
                &&& r.header_label@.len() == 0
                &&& r.item_count == items@.len() as i32
                &&& cells_shown(r.items@, items@)
            },
        },
{
    match row {
        GalleryRow::MonthHeader { label, .. } => GalleryRowData {
            is_header: true,
            header_label: label.clone(),
            item_count: 0,
            items: Vec::new(),
        },
        GalleryRow::ImageRow { items } => {
            let mut cells: Vec<ThumbnailData> = Vec::new();
            let mut i: usize = 0;
            while i < items.len()
                invariant
                    i <= items@.len(),
                    cells_shown(cells@, items@.take(i as int)),
                decreases items@.len() - i,
            {
                cells.push(
                    ThumbnailData {
                        item_id: items[i].item_id as i32,
                        thumb_ready: false,
                        media_type: items[i].media_type.clone(),
                    },
                );
                i = i + 1;
                assert(items@.take(i as int).drop_last() =~= items@.take(i - 1));
            }
            assert(items@.take(i as int) =~= items@);
            let n = cells.len() as i32;
            GalleryRowData { is_header: false, header_label: String::new(), item_count: n, items: cells }
        },
    }
}

} // verus!
