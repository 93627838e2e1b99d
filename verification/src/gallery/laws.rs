use vstd::prelude::*;
use crate::db::queries::{MediaItem, month_key};
use crate::gallery::model::{
    RowPlan, run_end, chunk_plan, layout, gallery_layout, cell_positions, row_positions,
    lemma_run_end_bounds,
};

verus! {

/// The item positions shown by the image rows of `plans`, in row order.
pub open spec fn shown_indices(plans: Seq<RowPlan>) -> Seq<int>
    decreases plans.len(),
{
    if plans.len() == 0 {
        seq![]
    } else {
        let rest = shown_indices(plans.drop_first());
        match plans[0] {
            RowPlan::Header { .. } => rest,
            RowPlan::Image { start, end } => index_range(start, end) + rest,
        }
    }
}

/// The positions `start..end`.
pub open spec fn index_range(start: int, end: int) -> Seq<int> {
    Seq::new(if end >= start { (end - start) as nat } else { 0 }, |k: int| start + k)
}

proof fn lemma_shown_concat(a: Seq<RowPlan>, b: Seq<RowPlan>)
    ensures
        shown_indices(a + b) == shown_indices(a) + shown_indices(b),
    decreases a.len(),
{
    if a.len() == 0 {
        assert(a + b =~= b);
        assert(shown_indices(a) =~= Seq::<int>::empty());
        assert(shown_indices(b) =~= Seq::<int>::empty() + shown_indices(b));
    } else {
        lemma_shown_concat(a.drop_first(), b);
        assert((a + b).drop_first() =~= a.drop_first() + b);
        assert((a + b)[0] == a[0]);
        match a[0] {
            RowPlan::Header { .. } => {},
            RowPlan::Image { start, end } => {
                assert(index_range(start, end) + (shown_indices(a.drop_first()) + shown_indices(b))
                    =~= index_range(start, end) + shown_indices(a.drop_first()) + shown_indices(b));
            },
        }
    }
}

proof fn lemma_chunk_shown(start: int, end: int, n: int)
    requires
        start <= end,
        n > 0,
    ensures
        shown_indices(chunk_plan(start, end, n)) == index_range(start, end),
    decreases end - start,
{
    if start >= end {
        assert(index_range(start, end) =~= Seq::<int>::empty());
    } else if end - start <= n {
        let p = chunk_plan(start, end, n);
        assert(p.drop_first() =~= Seq::<RowPlan>::empty());
        assert(shown_indices(p.drop_first()) =~= Seq::<int>::empty());
        assert(index_range(start, end) + Seq::<int>::empty() =~= index_range(start, end));
    } else {
        lemma_chunk_shown(start + n, end, n);
        let p = chunk_plan(start, end, n);
        let rest = chunk_plan(start + n, end, n);
        assert(p == seq![RowPlan::Image { start, end: start + n }] + rest);
        lemma_shown_concat(seq![RowPlan::Image { start, end: start + n }], rest);
        let one = seq![RowPlan::Image { start, end: start + n }];
        assert(one.drop_first() =~= Seq::<RowPlan>::empty());
        assert(shown_indices(one.drop_first()) =~= Seq::<int>::empty());
        assert(shown_indices(one) =~= index_range(start, start + n));
        assert(index_range(start, start + n) + index_range(start + n, end) =~= index_range(
            start,
            end,
        ));
    }
}

proof fn lemma_layout_shown(items: Seq<MediaItem>, n: int, start: int, stop: int)
    requires
        start <= stop,
        n > 0,
    ensures
        shown_indices(layout(items, n, start, stop)) == index_range(start, stop),
    decreases stop - start,
{
    if start >= stop {
        assert(index_range(start, stop) =~= Seq::<int>::empty());
    } else {
        lemma_run_end_bounds(items, start, stop);
        let e = run_end(items, start, stop);
        lemma_layout_shown(items, n, e, stop);
        lemma_chunk_shown(start, e, n);
        let h = seq![RowPlan::Header { first: start }];
        let c = chunk_plan(start, e, n);
        let rest = layout(items, n, e, stop);
        assert(layout(items, n, start, stop) == h + c + rest);
        lemma_shown_concat(h + c, rest);
        lemma_shown_concat(h, c);
        assert(h.drop_first() =~= Seq::<RowPlan>::empty());
        assert(shown_indices(h.drop_first()) =~= Seq::<int>::empty());
        assert(shown_indices(h) =~= Seq::<int>::empty());
        assert(index_range(start, e) + index_range(e, stop) =~= index_range(start, stop));
        assert(Seq::<int>::empty() + index_range(start, e) =~= index_range(start, e));
    }
}

/// Every item is shown exactly once, in the order of the item list: reading
/// the image rows of the gallery from top to bottom and left to right visits
/// the items 0, 1, ..., len - 1.
pub proof fn law_rows_show_every_item_once_in_order(items: Seq<MediaItem>, n: int)
    requires
        n > 0,
    ensures
        shown_indices(gallery_layout(items, n)) == index_range(0, items.len() as int),
{
    lemma_layout_shown(items, n, 0, items.len() as int);
}

/// Properties of every row of a layout of the items `start..stop`.
pub open spec fn rows_well_shaped(items: Seq<MediaItem>, n: int, plans: Seq<RowPlan>, start: int, stop: int) -> bool {
    &&& plans.len() > 0 ==> plans[0] is Header
    &&& forall|r: int|
        0 <= r < plans.len() ==> match #[trigger] plans[r] {
            RowPlan::Header { first } => {
                &&& start <= first < stop
                &&& r + 1 < plans.len()
                &&& plans[r + 1] matches RowPlan::Image { start: s, end: _ } && s == first
            },
            RowPlan::Image { start: s, end: e } => {
                &&& start <= s < e <= stop
                &&& e - s <= n
                &&& r > 0
                &&& forall|k: int| s <= k < e ==> month_key(#[trigger] items[k]) == month_key(items[s])
                &&& match plans[r - 1] {
                    RowPlan::Header { first } => first == s,
                    RowPlan::Image { start: _, end: pe } => pe == s && month_key(items[pe - 1])
                        == month_key(items[s]),
                }
            },
        }
}

proof fn lemma_chunk_shape(items: Seq<MediaItem>, start: int, end: int, n: int)
    requires
        start < end,
        n > 0,
        forall|k: int| start <= k < end ==> month_key(#[trigger] items[k]) == month_key(items[start]),
    ensures
        chunk_plan(start, end, n).len() > 0,
        chunk_plan(start, end, n)[0] matches RowPlan::Image { start: s, end: _ } && s == start,
        forall|r: int|
            0 <= r < chunk_plan(start, end, n).len() ==> match #[trigger] chunk_plan(start, end, n)[r] {
                RowPlan::Header { .. } => false,
                RowPlan::Image { start: s, end: e } => {
                    &&& start <= s < e <= end
                    &&& e - s <= n
                    &&& forall|k: int| s <= k < e ==> month_key(#[trigger] items[k]) == month_key(
                        items[start],
                    )
                    &&& r > 0 ==> (chunk_plan(start, end, n)[r - 1] matches RowPlan::Image {
                        start: _,
                        end: pe,
                    } && pe == s)
                },
            },
    decreases end - start,
{
    if end - start > n {
        lemma_chunk_shape(items, start + n, end, n);
        let p = chunk_plan(start, end, n);
        let rest = chunk_plan(start + n, end, n);
        assert forall|r: int| 0 <= r < p.len() implies match #[trigger] p[r] {
            RowPlan::Header { .. } => false,
            RowPlan::Image { start: s, end: e } => {
                &&& start <= s < e <= end
                &&& e - s <= n
                &&& forall|k: int| s <= k < e ==> month_key(#[trigger] items[k]) == month_key(
                    items[start],
                )
                &&& r > 0 ==> (p[r - 1] matches RowPlan::Image { start: _, end: pe } && pe == s)
            },
        } by {
            if r > 0 {
                assert(p[r] == rest[r - 1]);
                if r > 1 {
                    assert(p[r - 1] == rest[r - 2]);
                }
            }
        }
    }
}

proof fn lemma_layout_shape(items: Seq<MediaItem>, n: int, start: int, stop: int)
    requires
        0 <= start <= stop <= items.len(),
        n > 0,
    ensures
        rows_well_shaped(items, n, layout(items, n, start, stop), start, stop),
    decreases stop - start,
{
    if start < stop {
        lemma_run_end_bounds(items, start, stop);
        let e = run_end(items, start, stop);
        lemma_layout_shape(items, n, e, stop);
        lemma_chunk_shape(items, start, e, n);
        let h = seq![RowPlan::Header { first: start }];
        let c = chunk_plan(start, e, n);
        let rest = layout(items, n, e, stop);
        let p = layout(items, n, start, stop);
        assert(p == h + c + rest);
        assert forall|r: int| 0 <= r < p.len() implies match #[trigger] p[r] {
            RowPlan::Header { first } => {
                &&& start <= first < stop
                &&& r + 1 < p.len()
                &&& p[r + 1] matches RowPlan::Image { start: s, end: _ } && s == first
            },
            RowPlan::Image { start: s, end: e2 } => {
                &&& start <= s < e2 <= stop
                &&& e2 - s <= n
                &&& r > 0
                &&& forall|k: int| s <= k < e2 ==> month_key(#[trigger] items[k]) == month_key(items[s])
                &&& match p[r - 1] {
                    RowPlan::Header { first } => first == s,
                    RowPlan::Image { start: _, end: pe } => pe == s && month_key(items[pe - 1])
                        == month_key(items[s]),
                }
            },
        } by {
            if r == 0 {
                assert(p[1] == c[0]);
            } else if r < 1 + c.len() {
                assert(p[r] == c[r - 1]);
                if r > 1 {
                    assert(p[r - 1] == c[r - 2]);
                }
                match p[r] {
                    RowPlan::Image { start: s, end: e2 } => {
                        assert(forall|k: int| s <= k < e2 ==> month_key(#[trigger] items[k]) == month_key(items[start]));
                        assert(month_key(items[s]) == month_key(items[start]));
                        if r > 1 {
                            assert(month_key(items[s - 1]) == month_key(items[start]));
                        }
                    },
                    RowPlan::Header { .. } => {},
                }
            } else {
                let q = r - 1 - c.len();
                assert(p[r] == rest[q]);
                if q > 0 {
                    assert(p[r - 1] == rest[q - 1]);
                    if q + 1 < rest.len() {
                        assert(p[r + 1] == rest[q + 1]);
                    }
                } else {
                    assert(p[r - 1] == c[c.len() - 1]);
                    assert(p[r + 1] == rest[1]);
                }
            }
        }
    }
}

/// Shape of the gallery rows: each header is directly followed by an image
/// row that starts with the header's first item; each image row holds
/// between one and `n` items of a single month and directly follows either
/// the header of its month or the previous row of the same month.
pub proof fn law_rows_are_month_grouped(items: Seq<MediaItem>, n: int)
    requires
        n > 0,
    ensures
        rows_well_shaped(items, n, gallery_layout(items, n), 0, items.len() as int),
{
    lemma_layout_shape(items, n, 0, items.len() as int);
}

/// Every header after the first starts a month different from the month of
/// the item just before it: consecutive runs of one month share a single
/// header.
pub proof fn law_headers_start_new_months(items: Seq<MediaItem>, n: int, r: int)
    requires
        n > 0,
        0 <= r < gallery_layout(items, n).len(),
        gallery_layout(items, n)[r] is Header,
    ensures
        gallery_layout(items, n)[r] matches RowPlan::Header { first } && (first == 0 || month_key(
            items[first - 1],
        ) != month_key(items[first])),
{
    lemma_layout_headers(items, n, 0, items.len() as int);
}

proof fn lemma_chunk_no_header(start: int, end: int, n: int, r: int)
    requires
        0 <= r < chunk_plan(start, end, n).len(),
    ensures
        chunk_plan(start, end, n)[r] is Image,
    decreases end - start,
{
    if start >= end || n <= 0 {
    } else if end - start <= n {
    } else {
        if r > 0 {
            lemma_chunk_no_header(start + n, end, n, r - 1);
        }
    }
}

proof fn lemma_layout_headers(items: Seq<MediaItem>, n: int, start: int, stop: int)
    requires
        0 <= start <= stop <= items.len(),
    ensures
        forall|r: int|
            0 <= r < layout(items, n, start, stop).len() ==> (#[trigger] layout(items, n, start, stop)[r]
                matches RowPlan::Header { first } ==> (first == start || month_key(items[first - 1])
                != month_key(items[first]))),
    decreases stop - start,
{
    if start < stop {
        lemma_run_end_bounds(items, start, stop);
        let e = run_end(items, start, stop);
        lemma_layout_headers(items, n, e, stop);
        let h = seq![RowPlan::Header { first: start }];
        let c = chunk_plan(start, e, n);
        let rest = layout(items, n, e, stop);
        let p = layout(items, n, start, stop);
        assert(p == h + c + rest);
        assert forall|r: int| 0 <= r < p.len() implies (#[trigger] p[r] matches RowPlan::Header {
            first,
        } ==> (first == start || month_key(items[first - 1]) != month_key(items[first]))) by {
            if r == 0 {
            } else if r < 1 + c.len() {
                lemma_chunk_no_header(start, e, n, r - 1);
                assert(p[r] == c[r - 1]);
            } else {
                assert(p[r] == rest[r - 1 - c.len()]);
                if e < stop {
                    assert(month_key(items[e - 1]) == month_key(items[start]));
                }
            }
        }
    }
}

/// The cells recorded by `row_positions`.
proof fn lemma_row_positions(
    m: Map<i64, (usize, usize)>,
    items: Seq<MediaItem>,
    start: int,
    cnt: int,
    r: int,
    id: i64,
)
    requires
        0 <= start,
        0 <= cnt <= usize::MAX,
        0 <= r <= usize::MAX,
        start + cnt <= items.len(),
        row_positions(m, items, start, cnt, r).contains_key(id),
    ensures
        ({
            let (pr, pc) = row_positions(m, items, start, cnt, r)[id];
            ||| (m.contains_key(id) && m[id] == (pr, pc) && !(exists|c: int|
                0 <= c < cnt && #[trigger] items[start + c].id == id))
            ||| (pr == r as usize && 0 <= pc < cnt && items[start + pc].id == id)
        }),
    decreases cnt,
{
    if cnt > 0 {
        let prev = row_positions(m, items, start, cnt - 1, r);
        if items[start + cnt - 1].id != id {
            lemma_row_positions(m, items, start, cnt - 1, r, id);
            let (pr, pc) = prev[id];
            if m.contains_key(id) && m[id] == (pr, pc) && !(exists|c: int|
                0 <= c < cnt - 1 && #[trigger] items[start + c].id == id) {
                assert forall|c: int| 0 <= c < cnt implies #[trigger] items[start + c].id != id by {
                    if c < cnt - 1 {
                    }
                }
            }
        }
    }
}

/// Image rows of `plans` lie within the item list.
pub open spec fn image_rows_in_bounds(plans: Seq<RowPlan>, len: int) -> bool {
    forall|r: int|
        0 <= r < plans.len() ==> (#[trigger] plans[r] matches RowPlan::Image { start, end } ==> 0
            <= start <= end <= len)
}

proof fn lemma_cell_positions_locate(plans: Seq<RowPlan>, items: Seq<MediaItem>, id: i64)
    requires
        image_rows_in_bounds(plans, items.len() as int),
        plans.len() <= usize::MAX,
        items.len() <= usize::MAX,
        cell_positions(plans, items).contains_key(id),
    ensures
        ({
            let (r, c) = cell_positions(plans, items)[id];
            &&& r < plans.len()
            &&& plans[r as int] matches RowPlan::Image { start, end } && c < end - start
                && items[start + c].id == id
        }),
    decreases plans.len(),
{
    let prefix = plans.drop_last();
    assert(image_rows_in_bounds(prefix, items.len() as int)) by {
        assert forall|r: int| 0 <= r < prefix.len() implies (#[trigger] prefix[r] matches RowPlan::Image {
            start,
            end,
        } ==> 0 <= start <= end <= items.len()) by {
            assert(prefix[r] == plans[r]);
        }
    }
    let m = cell_positions(prefix, items);
    match plans.last() {
        RowPlan::Header { .. } => {
            lemma_cell_positions_locate(prefix, items, id);
            let (r, c) = m[id];
            assert(plans[r as int] == prefix[r as int]);
        },
        RowPlan::Image { start, end } => {
            assert(plans[plans.len() - 1] == plans.last());
            lemma_row_positions(m, items, start, end - start, plans.len() - 1, id);
            let (pr, pc) = cell_positions(plans, items)[id];
            if m.contains_key(id) && m[id] == (pr, pc) {
                lemma_cell_positions_locate(prefix, items, id);
                assert(plans[pr as int] == prefix[pr as int]);
            }
        },
    }
}

/// Every shown item has a recorded position.
proof fn lemma_cell_positions_complete(plans: Seq<RowPlan>, items: Seq<MediaItem>, r: int, c: int)
    requires
        0 <= r < plans.len(),
        plans[r] matches RowPlan::Image { start, end } && 0 <= c < end - start,
    ensures
        plans[r] matches RowPlan::Image { start, end } && cell_positions(plans, items).contains_key(
            items[start + c].id,
        ),
    decreases plans.len(),
{
    let prefix = plans.drop_last();
    let m = cell_positions(prefix, items);
    if r < plans.len() - 1 {
        assert(prefix[r] == plans[r]);
        lemma_cell_positions_complete(prefix, items, r, c);
        match plans.last() {
            RowPlan::Header { .. } => {},
            RowPlan::Image { start, end } => {
                lemma_row_positions_keep(m, items, start, end - start, plans.len() - 1);
            },
        }
    } else {
        match plans.last() {
            RowPlan::Header { .. } => {},
            RowPlan::Image { start, end } => {
                assert(plans[r] == plans.last());
                lemma_row_positions_has(m, items, start, end - start, plans.len() - 1, c);
            },
        }
    }
}

proof fn lemma_row_positions_keep(
    m: Map<i64, (usize, usize)>,
    items: Seq<MediaItem>,
    start: int,
    cnt: int,
    r: int,
)
    ensures
        forall|k: i64| m.contains_key(k) ==> #[trigger] row_positions(m, items, start, cnt, r).contains_key(k),
    decreases cnt,
{
    if cnt > 0 {
        lemma_row_positions_keep(m, items, start, cnt - 1, r);
        assert forall|k: i64| m.contains_key(k) implies #[trigger] row_positions(
            m,
            items,
            start,
            cnt,
            r,
        ).contains_key(k) by {
            assert(row_positions(m, items, start, cnt - 1, r).contains_key(k));
        }
    }
}

proof fn lemma_row_positions_has(
    m: Map<i64, (usize, usize)>,
    items: Seq<MediaItem>,
    start: int,
    cnt: int,
    r: int,
    c: int,
)
    requires
        0 <= c < cnt,
    ensures
        row_positions(m, items, start, cnt, r).contains_key(items[start + c].id),
    decreases cnt,
{
    if c < cnt - 1 {
        lemma_row_positions_has(m, items, start, cnt - 1, r, c);
    }
}

/// The position index is exact: an id has a position if and only if some
/// shown item carries it, and its position is the (row, column) of a cell
/// that shows an item with that id.
pub proof fn law_positions_locate_items(items: Seq<MediaItem>, n: int, id: i64)
    requires
        n > 0,
        items.len() <= usize::MAX,
        gallery_layout(items, n).len() <= usize::MAX,
    ensures
        cell_positions(gallery_layout(items, n), items).contains_key(id) <==> exists|j: int|
            0 <= j < items.len() && #[trigger] items[j].id == id,
        cell_positions(gallery_layout(items, n), items).contains_key(id) ==> ({
            let plans = gallery_layout(items, n);
            let (r, c) = cell_positions(plans, items)[id];
            &&& r < plans.len()
            &&& plans[r as int] matches RowPlan::Image { start, end } && c < end - start
                && items[start + c].id == id
        }),
{
    let plans = gallery_layout(items, n);
    lemma_layout_shape(items, n, 0, items.len() as int);
    assert(image_rows_in_bounds(plans, items.len() as int)) by {
        assert forall|r: int| 0 <= r < plans.len() implies (#[trigger] plans[r] matches RowPlan::Image {
            start,
            end,
        } ==> 0 <= start <= end <= items.len()) by {
            match plans[r] {
                RowPlan::Header { .. } => {},
                RowPlan::Image { start, end } => {},
            }
        }
    }
    if cell_positions(plans, items).contains_key(id) {
        lemma_cell_positions_locate(plans, items, id);
        let (r, c) = cell_positions(plans, items)[id];
        match plans[r as int] {
            RowPlan::Image { start, end } => {
                assert(items[start + c].id == id);
            },
            RowPlan::Header { .. } => {},
        }
    }
    if exists|j: int| 0 <= j < items.len() && #[trigger] items[j].id == id {
        let j = choose|j: int| 0 <= j < items.len() && #[trigger] items[j].id == id;
        lemma_layout_shown(items, n, 0, items.len() as int);
        assert(index_range(0, items.len() as int)[j] == j);
        assert(shown_indices(plans)[j] == j);
        lemma_shown_find(plans, j);
        let (r, c) = choose|r: int, c: int| 0 <= r < plans.len() && #[trigger] shown_at(plans[r], c, j);
        lemma_cell_positions_complete(plans, items, r, c);
    }
}

/// `plan` is an image row whose column `c` shows the item at position `j`.
pub open spec fn shown_at(plan: RowPlan, c: int, j: int) -> bool {
    plan matches RowPlan::Image { start, end } && 0 <= c < end - start && start + c == j
}

proof fn lemma_shown_find(plans: Seq<RowPlan>, j: int)
    requires
        shown_indices(plans).contains(j),
    ensures
        exists|r: int, c: int| 0 <= r < plans.len() && #[trigger] shown_at(plans[r], c, j),
    decreases plans.len(),
{
    let rest = plans.drop_first();
    match plans[0] {
        RowPlan::Header { .. } => {
            lemma_shown_find(rest, j);
            let (r, c) = choose|r: int, c: int| 0 <= r < rest.len() && #[trigger] shown_at(rest[r], c, j);
            assert(plans[r + 1] == rest[r]);
            assert(shown_at(plans[r + 1], c, j));
        },
        RowPlan::Image { start, end } => {
            let k = choose|k: int| 0 <= k < shown_indices(plans).len() && shown_indices(plans)[k] == j;
            let ir = index_range(start, end);
            if k < ir.len() {
                assert(shown_at(plans[0], k, j));
            } else {
                assert(shown_indices(rest)[k - ir.len()] == j);
                lemma_shown_find(rest, j);
                let (r, c) = choose|r: int, c: int| 0 <= r < rest.len() && #[trigger] shown_at(rest[r], c, j);
                assert(plans[r + 1] == rest[r]);
                assert(shown_at(plans[r + 1], c, j));
            }
        },
    }
}

} // verus!
