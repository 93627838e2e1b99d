use vstd::prelude::*;
use std::collections::{HashMap, HashSet};
use std::time::{Duration, SystemTime, UNIX_EPOCH};
use crate::db::queries::MediaItem;
use crate::gallery::model::{
    build_rows, gallery_layout, header_rows, cell_positions, rows_match, months_match, RowPlan,
};
use crate::gallery::month_model::{MonthEntry, to_slint};
use crate::gallery::ui_data::{GalleryRowData, MonthEntryData, ThumbnailData};
use crate::gallery::row_types::{GalleryRow, GalleryThumb};
use crate::util::time::month_label;
use crate::util::log_throttle::duration_as_nanos;

verus! {

broadcast use vstd::std_specs::hash::group_hash_axioms;

/// `entries` are, in order, the month-scroller entries of the headers of
/// `plans`: year, month and label of the header's month, and the header's row.
pub open spec fn entries_match(entries: Seq<MonthEntry>, plans: Seq<RowPlan>, items: Seq<MediaItem>) -> bool {
    &&& entries.len() == header_rows(plans).len()
    &&& forall|j: int|
        0 <= j < entries.len() ==> {
            let r = #[trigger] header_rows(plans)[j];
            &&& 0 <= r < plans.len()
            &&& plans[r] matches RowPlan::Header { first } && {
                &&& entries[j].year == items[first].year
                &&& entries[j].month == items[first].month
                &&& entries[j].label@ == month_label(entries[j].year, entries[j].month)
                &&& entries[j].row_index == r
            }
        }
}

/// The entry is for (year, month).
pub open spec fn entry_is_for(e: MonthEntry, year: i32, month: i32) -> bool {
    e.year == year && e.month == month
}

/// Item of `items` belongs to (year, month).
pub open spec fn in_month(year: i32, month: i32) -> spec_fn(MediaItem) -> bool {
    |i: MediaItem| i.year == year && i.month == month
}

/// Index of the first element of `s` with id `id`, if any.
pub open spec fn first_with_id(s: Seq<MediaItem>, id: i64) -> Option<int> {
    if exists|j: int| 0 <= j < s.len() && #[trigger] s[j].id == id && forall|k: int| 0 <= k < j ==> s[k].id != id {
        Some(choose|j: int| 0 <= j < s.len() && #[trigger] s[j].id == id && forall|k: int| 0 <= k < j ==> s[k].id != id)
    } else {
        None
    }
}

/// Position of the first item of `items` with id `id`.
pub fn position_of_id(items: &[MediaItem], id: i64) -> (r: Option<usize>)
    ensures
        match first_with_id(items@, id) {
            None => r is None,
            Some(j) => r is Some && r.unwrap() as int == j && 0 <= j < items@.len(),
        },
{
    let mut k: usize = 0;
    while k < items.len()
        invariant
            k <= items@.len(),
            forall|q: int| 0 <= q < k ==> (#[trigger] items@[q]).id != id,
        decreases items@.len() - k,
    {
        if items[k].id == id {
            proof {
                let s = items@;
                assert(0 <= k < s.len() && s[k as int].id == id && forall|q: int| 0 <= q < k ==> s[q].id != id);
                let j = choose|j: int| 0 <= j < s.len() && #[trigger] s[j].id == id && forall|q: int| 0 <= q < j ==> s[q].id != id;
                if j < k {
                    assert(s[j].id != id);
                } else if j > k {
                    assert(s[k as int].id != id);
                }
            }
            return Some(k);
        }
        k = k + 1;
    }
    None
}

/// A cell as the display receives it.
pub open spec fn cell_data_of(d: ThumbnailData, t: GalleryThumb, shown: Set<i64>) -> bool {
    &&& d.item_id == t.item_id as i32
    &&& d.thumb_ready == shown.contains(t.item_id)
    &&& d.media_type@ == t.media_type@
}

/// A row as the display receives it.
pub open spec fn row_data_of(d: GalleryRowData, row: GalleryRow, shown: Set<i64>) -> bool {
    &&& d.is_header == (row is MonthHeader)
    &&& match row {
        GalleryRow::MonthHeader { label, .. } => {
            &&& d.header_label@ == label@
            &&& d.item_count == 0
            &&& d.items@.len() == 0
        },
        GalleryRow::ImageRow { items } => {
            &&& d.header_label@.len() == 0
            &&& d.item_count == items@.len() as i32
            &&& d.items@.len() == items@.len()
            &&& forall|c: int| 0 <= c < items@.len() ==> cell_data_of(#[trigger] d.items@[c], items@[c], shown)
        },
    }
}

/// The cell reported when the thumbnail of `id` is shown: its (row,
/// column) when the grid has a cell for it.
pub open spec fn shown_cell(plan: Seq<RowPlan>, items: Seq<MediaItem>, id: i64) -> Option<(usize, usize)> {
    if cell_positions(plan, items).contains_key(id) {
        Some(cell_positions(plan, items)[id])
    } else {
        None
    }
}

/// The shown thumbnails after the thumbnail of `id` is shown: `id` joins
/// them when the grid has a cell for it.
pub open spec fn shown_after_show(shown: Set<i64>, plan: Seq<RowPlan>, items: Seq<MediaItem>, id: i64) -> Set<i64> {
    if cell_positions(plan, items).contains_key(id) {
        shown.insert(id)
    } else {
        shown
    }
}

/// The cell reported when the thumbnail of `id` is cleared: its (row,
/// column) when the thumbnail was shown.
pub open spec fn cleared_cell(shown: Set<i64>, plan: Seq<RowPlan>, items: Seq<MediaItem>, id: i64) -> Option<(usize, usize)> {
    if shown.contains(id) {
        Some(cell_positions(plan, items)[id])
    } else {
        None
    }
}

/// The month a clock reading picks for "Reminisce": the reading's
/// sub-second nanoseconds modulo the number of months.
pub open spec fn reminisce_index(nanos: u128, months: nat) -> int {
    ((nanos % 1_000_000_000) as int) % (months as int)
}

/// The gallery's model: every indexed item in display order, the rows built
/// from them, the month entries and the cell of each item.
pub struct GalleryController {
    rows: Vec<GalleryRow>,
    month_entries: Vec<MonthEntry>,
    n_cols: usize,
    all_items: Vec<MediaItem>,
    item_positions: HashMap<i64, (usize, usize)>,
    /// Ids of the items whose cell shows its thumbnail.
    shown: HashSet<i64>,
}

#[verifier::external_type_specification]
#[verifier::external_body]
pub struct ExSystemTime(SystemTime);

/// Calls std's `SystemTime::now`. The reading depends on the clock; nothing
/// is stated of it.
#[verifier::external_body]
fn system_now() -> SystemTime {
    SystemTime::now()
}

/// Calls std's `SystemTime::duration_since(UNIX_EPOCH)`: the time since
/// 1970, or the zero duration (`unwrap_or_default`) for a time before it.
/// The reading depends on the clock; nothing more is stated of it.
#[verifier::external_body]
fn since_unix_epoch(t: &SystemTime) -> Duration {
    t.duration_since(UNIX_EPOCH).unwrap_or_default()
}

/// Calls std's `Duration::subsec_nanos`: the fractional part of the duration
/// in nanoseconds, that is, its whole length in nanoseconds (`as_nanos`)
/// less the whole seconds.
#[verifier::external_body]
fn subsec_nanos(d: &Duration) -> (r: u32)
    ensures
        r < 1_000_000_000,
        r == duration_as_nanos(*d) % 1_000_000_000,
{
    d.subsec_nanos()
}

impl GalleryController {
    #[verifier::type_invariant]
    spec fn wf(self) -> bool {
        let plans = gallery_layout(self.all_items@, self.n_cols as int);
        &&& self.all_items@.len() > 0 ==> self.n_cols > 0
        &&& rows_match(self.rows@, plans, self.all_items@)
        &&& entries_match(self.month_entries@, plans, self.all_items@)
        &&& self.item_positions@ == cell_positions(plans, self.all_items@)
        &&& self.shown@.subset_of(self.item_positions@.dom())
    }

    /// Ids of the items whose cell shows its thumbnail.
    pub closed spec fn shown_view(self) -> Set<i64> {
        self.shown@
    }

    /// The gallery rows.
    pub closed spec fn rows_view(self) -> Seq<GalleryRow> {
        self.rows@
    }

    /// All items of the gallery, in display order.
    pub closed spec fn items_view(self) -> Seq<MediaItem> {
        self.all_items@
    }

    /// Number of thumbnail columns.
    pub closed spec fn columns(self) -> usize {
        self.n_cols
    }

    /// The month entries, in row order.
    pub closed spec fn entries_view(self) -> Seq<MonthEntry> {
        self.month_entries@
    }

    /// The rows that the gallery shows.
    pub open spec fn plan(self) -> Seq<RowPlan> {
        gallery_layout(self.items_view(), self.columns() as int)
    }

    /// Only items that have a cell show a thumbnail.
    pub open spec fn shows_only_cells(self) -> bool {
        self.shown_view().subset_of(cell_positions(self.plan(), self.items_view()).dom())
    }

    /// An empty gallery with `n_cols` columns.
    pub fn new(n_cols: usize) -> (g: GalleryController)
        ensures
            g.items_view() == Seq::<MediaItem>::empty(),
            g.columns() == n_cols,
            g.shown_view().is_empty(),
    {
        let g = GalleryController {
            rows: Vec::new(),
            month_entries: Vec::new(),
            n_cols,
            all_items: Vec::new(),
            item_positions: HashMap::new(),
            shown: HashSet::new(),
        };
        proof {
            assert(gallery_layout(Seq::<MediaItem>::empty(), n_cols as int) =~= Seq::<RowPlan>::empty());
            assert(header_rows(Seq::<RowPlan>::empty()) =~= Seq::<int>::empty());
        }
        g
    }

    /// Replaces the gallery's items (pre-sorted by year and month descending,
    /// date ascending) and rebuilds rows, month entries and positions from
    /// them.
    pub fn reload(&mut self, items: Vec<MediaItem>)
        requires
            old(self).columns() > 0,
        ensures
            final(self).items_view() == items@,
            final(self).columns() == old(self).columns(),
            final(self).shown_view().is_empty(),
    {
        proof {
            use_type_invariant(&*self);
        }
        let n_cols = self.n_cols;
        let (rows, month_data, positions) = build_rows(items.as_slice(), n_cols);
        let ghost plans = gallery_layout(items@, n_cols as int);
        let mut entries: Vec<MonthEntry> = Vec::new();
        let mut j: usize = 0;
        while j < month_data.len()
            invariant
                j <= month_data@.len(),
                months_match(month_data@, plans, items@),
                entries@.len() == j,
                forall|k: int|
                    0 <= k < j ==> {
                        &&& (#[trigger] entries@[k]).year == month_data@[k].0
                        &&& entries@[k].month == month_data@[k].1
                        &&& entries@[k].label@ == month_label(entries@[k].year, entries@[k].month)
                        &&& entries@[k].row_index == month_data@[k].3
                    },
            decreases month_data@.len() - j,
        {
            let (y, m, _, r) = &month_data[j];
            entries.push(MonthEntry::new(*y, *m, *r));
            j = j + 1;
        }
        proof {
            assert forall|k: int| 0 <= k < entries@.len() implies {
                let r = #[trigger] header_rows(plans)[k];
                &&& 0 <= r < plans.len()
                &&& plans[r] matches RowPlan::Header { first } && {
                    &&& entries@[k].year == items@[first].year
                    &&& entries@[k].month == items@[first].month
                    &&& entries@[k].label@ == month_label(entries@[k].year, entries@[k].month)
                    &&& entries@[k].row_index == r
                }
            } by {
                assert(entries@[k].year == month_data@[k].0);
            }
        }
        *self = GalleryController {
            rows,
            month_entries: entries,
            n_cols,
            all_items: items,
            item_positions: positions,
            shown: HashSet::new(),
        };
    }

    /// The gallery rows.
    pub fn rows(&self) -> (r: &Vec<GalleryRow>)
        ensures
            r@ == self.rows_view(),
            rows_match(r@, self.plan(), self.items_view()),
    {
        proof {
            use_type_invariant(self);
        }
        &self.rows
    }

    /// The month entries, one per header row, in order.
    pub fn month_entries(&self) -> (r: &Vec<MonthEntry>)
        ensures
            r@ == self.entries_view(),
            entries_match(r@, self.plan(), self.items_view()),
    {
        proof {
            use_type_invariant(self);
        }
        &self.month_entries
    }

    /// Number of thumbnail columns.
    pub fn n_cols(&self) -> (r: usize)
        ensures
            r == self.columns(),
    {
        self.n_cols
    }

    /// The (row, column) of the cell that shows the item with id `item_id`.
    pub fn cell_of(&self, item_id: i64) -> (r: Option<(usize, usize)>)
        ensures
            r == (if cell_positions(self.plan(), self.items_view()).contains_key(item_id) {
                Some(cell_positions(self.plan(), self.items_view())[item_id])
            } else {
                None
            }),
    {
        proof {
            use_type_invariant(self);
        }
        match self.item_positions.get(&item_id) {
            Some(p) => Some(*p),
            None => None,
        }
    }

    /// The header row of the first month entry for (year, month).
    pub fn row_index_for_month(&self, year: i32, month: i32) -> (r: Option<usize>)
        ensures
            match r {
                None => forall|j: int|
                    0 <= j < self.entries_view().len() ==> !entry_is_for(
                        #[trigger] self.entries_view()[j],
                        year,
                        month,
                    ),
                Some(ri) => exists|j: int|
                    0 <= j < self.entries_view().len() && entry_is_for(
                        #[trigger] self.entries_view()[j],
                        year,
                        month,
                    ) && self.entries_view()[j].row_index == ri && forall|k: int|
                        0 <= k < j ==> !entry_is_for(self.entries_view()[k], year, month),
            },
    {
        let mut j: usize = 0;
        while j < self.month_entries.len()
            invariant
                j <= self.month_entries@.len(),
                forall|k: int| 0 <= k < j ==> !entry_is_for(#[trigger] self.month_entries@[k], year, month),
            decreases self.month_entries@.len() - j,
        {
            let e = &self.month_entries[j];
            if e.year == year && e.month == month {
                assert(entry_is_for(self.entries_view()[j as int], year, month));
                assert(self.entries_view()[j as int].row_index == e.row_index);
                assert(forall|k: int| 0 <= k < j ==> !entry_is_for(self.entries_view()[k], year, month));
                return Some(e.row_index);
            }
            j = j + 1;
        }
        None
    }

    /// The month entry at `seed` modulo the number of entries; `None` when
    /// the gallery has no months.
    pub fn month_at_seed(&self, seed: usize) -> (r: Option<&MonthEntry>)
        ensures
            self.entries_view().len() == 0 ==> r is None,
            self.entries_view().len() > 0 ==> r == Some(
                &self.entries_view()[(seed as int) % (self.entries_view().len() as int)],
            ),
    {
        if self.month_entries.len() == 0 {
            return None;
        }
        let idx = seed % self.month_entries.len();
        Some(&self.month_entries[idx])
    }

    /// A month entry picked from the clock's sub-second nanoseconds (for
    /// "Reminisce"); `None` when the gallery has no months.
    pub fn random_month(&self) -> (r: Option<&MonthEntry>)
        ensures
            self.entries_view().len() == 0 <==> r is None,
            r matches Some(e) ==> exists|j: int|
                0 <= j < self.entries_view().len() && *e == #[trigger] self.entries_view()[j],
            r matches Some(e) ==> exists|d: Duration|
                *e == self.entries_view()[reminisce_index(#[trigger] duration_as_nanos(d), self.entries_view().len())],
    {
        if self.month_entries.len() == 0 {
            return None;
        }
        let d = since_unix_epoch(&system_now());
        let seed: usize = subsec_nanos(&d) as usize;
        let r = self.month_at_seed(seed);
        proof {
            let j = (seed as int) % (self.entries_view().len() as int);
            assert(*r.unwrap() == self.entries_view()[j]);
            assert(j == reminisce_index(duration_as_nanos(d), self.entries_view().len()));
        }
        r
    }

    /// Copies of the items filed under (year, month), in display order.
    pub fn items_in_month(&self, year: i32, month: i32) -> (r: Vec<MediaItem>)
        ensures
            r@ == self.items_view().filter(in_month(year, month)),
    {
        let mut out: Vec<MediaItem> = Vec::new();
        let mut k: usize = 0;
        let ghost pred = in_month(year, month);
        while k < self.all_items.len()
            invariant
                k <= self.all_items@.len(),
                pred == in_month(year, month),
                out@ == self.all_items@.take(k as int).filter(pred),
            decreases self.all_items@.len() - k,
        {
            let item = &self.all_items[k];
            proof {
                assert(self.all_items@.take(k + 1) =~= self.all_items@.take(k as int).push(*item));
                self.all_items@.take(k as int).lemma_filter_push(*item, pred);
            }
            if item.year == year && item.month == month {
                out.push(item.duplicate());
            }
            k = k + 1;
        }
        assert(self.all_items@.take(k as int) =~= self.all_items@);
        out
    }

    /// The first item with id `id`.
    pub fn item_by_id(&self, id: i64) -> (r: Option<&MediaItem>)
        ensures
            match first_with_id(self.items_view(), id) {
                None => r is None,
                Some(j) => r == Some(&self.items_view()[j]),
            },
    {
        match position_of_id(self.all_items.as_slice(), id) {
            Some(k) => Some(&self.all_items[k]),
            None => None,
        }
    }

    /// The thumbnails of row `row_idx`; empty for header rows and rows past
    /// the end.
    pub fn items_in_row(&self, row_idx: usize) -> (r: &[GalleryThumb])
        ensures
            row_idx < self.plan().len() ==> match self.plan()[row_idx as int] {
                RowPlan::Header { .. } => r@.len() == 0,
                RowPlan::Image { start, end } => r@.len() == end - start && forall|c: int|
                    0 <= c < r@.len() ==> (#[trigger] r@[c]).depicts(self.items_view()[start + c]),
            },
            row_idx >= self.plan().len() ==> r@.len() == 0,
    {
        proof {
            use_type_invariant(self);
        }
        if row_idx < self.rows.len() {
            match &self.rows[row_idx] {
                GalleryRow::ImageRow { items } => items.as_slice(),
                GalleryRow::MonthHeader { .. } => &[],
            }
        } else {
            &[]
        }
    }

    /// The cell of an item now shows its thumbnail: its (row, column) comes
    /// back for the display; `None` when no cell shows the item.
    pub fn update_thumbnail(&mut self, item_id: i64) -> (r: Option<(usize, usize)>)
        ensures
            final(self).items_view() == old(self).items_view(),
            final(self).columns() == old(self).columns(),
            final(self).entries_view() == old(self).entries_view(),
            final(self).rows_view() == old(self).rows_view(),
            r == shown_cell(old(self).plan(), old(self).items_view(), item_id),
            final(self).shown_view() == shown_after_show(
                old(self).shown_view(),
                old(self).plan(),
                old(self).items_view(),
                item_id,
            ),
    {
        proof {
            use_type_invariant(&*self);
        }
        let r = self.cell_of(item_id);
        if r.is_some() {
            let mut shown = HashSet::new();
            std::mem::swap(&mut shown, &mut self.shown);
            shown.insert(item_id);
            self.shown = shown;
        }
        r
    }

    /// The cell of an item no longer shows its thumbnail: its (row, column)
    /// comes back for the display when it showed one, `None` otherwise.
    pub fn clear_thumbnail(&mut self, item_id: i64) -> (r: Option<(usize, usize)>)
        ensures
            final(self).items_view() == old(self).items_view(),
            final(self).columns() == old(self).columns(),
            final(self).entries_view() == old(self).entries_view(),
            final(self).rows_view() == old(self).rows_view(),
            r == cleared_cell(old(self).shown_view(), old(self).plan(), old(self).items_view(), item_id),
            final(self).shown_view() == old(self).shown_view().remove(item_id),
    {
        proof {
            use_type_invariant(&*self);
        }
        if self.shown.contains(&item_id) {
            let r = self.cell_of(item_id);
            let mut shown = HashSet::new();
            std::mem::swap(&mut shown, &mut self.shown);
            shown.remove(&item_id);
            self.shown = shown;
            r
        } else {
            None
        }
    }

    /// The month entries as the month scroller receives them.
    pub fn build_month_model(&self) -> (r: Vec<MonthEntryData>)
        ensures
            r@.len() == self.entries_view().len(),
            forall|j: int|
                0 <= j < r@.len() ==> {
                    &&& (#[trigger] r@[j]).label@ == self.entries_view()[j].label@
                    &&& r@[j].year == self.entries_view()[j].year
                    &&& r@[j].month == self.entries_view()[j].month
                    &&& r@[j].row_index == self.entries_view()[j].row_index as i32
                },
    {
        let mut out: Vec<MonthEntryData> = Vec::new();
        let mut j: usize = 0;
        while j < self.month_entries.len()
            invariant
                j <= self.month_entries@.len(),
                out@.len() == j,
                forall|k: int|
                    0 <= k < j ==> {
                        &&& (#[trigger] out@[k]).label@ == self.month_entries@[k].label@
                        &&& out@[k].year == self.month_entries@[k].year
                        &&& out@[k].month == self.month_entries@[k].month
                        &&& out@[k].row_index == self.month_entries@[k].row_index as i32
                    },
            decreases self.month_entries@.len() - j,
        {
            out.push(to_slint(&self.month_entries[j]));
            j = j + 1;
        }
        out
    }

    /// The rows as the display receives them: headers with their label,
    /// image rows with their cells, a cell marked ready when it shows its
    /// thumbnail.
    pub fn row_model(&self) -> (r: Vec<GalleryRowData>)
        ensures
            r@.len() == self.rows_view().len(),
            forall|k: int| 0 <= k < r@.len() ==> row_data_of(#[trigger] r@[k], self.rows_view()[k], self.shown_view()),
    {
        let mut out: Vec<GalleryRowData> = Vec::new();
        let mut k: usize = 0;
        while k < self.rows.len()
            invariant
                k <= self.rows@.len(),
                out@.len() == k,
                forall|q: int| 0 <= q < k ==> row_data_of(#[trigger] out@[q], self.rows@[q], self.shown@),
            decreases self.rows@.len() - k,
        {
            let data = match &self.rows[k] {
                GalleryRow::MonthHeader { label, .. } => GalleryRowData {
                    is_header: true,
                    header_label: label.clone(),
                    item_count: 0,
                    items: Vec::new(),
                },
                GalleryRow::ImageRow { items } => {
                    let mut cells: Vec<ThumbnailData> = Vec::new();
                    let mut c: usize = 0;
                    while c < items.len()
                        invariant
                            c <= items@.len(),
                            cells@.len() == c,
                            forall|q: int| 0 <= q < c ==> cell_data_of(#[trigger] cells@[q], items@[q], self.shown@),
                        decreases items@.len() - c,
                    {
                        cells.push(
                            ThumbnailData {
                                item_id: items[c].item_id as i32,
                                thumb_ready: self.shown.contains(&items[c].item_id),
                                media_type: items[c].media_type.clone(),
                            },
                        );
                        c = c + 1;
                    }
                    let n = items.len() as i32;
                    GalleryRowData { is_header: false, header_label: String::new(), item_count: n, items: cells }
                },
            };
            out.push(data);
            k = k + 1;
        }
        out
    }
}

/// Showing an item's thumbnail (`update_thumbnail`) and then clearing it
/// (`clear_thumbnail`), which leaves the items and the layout as they were:
/// the clearing reports the cell that the showing reported, none when the
/// grid has no cell for the item, and the shown thumbnails end as they were
/// before, less the item's.
pub proof fn law_show_then_clear(g: GalleryController, id: i64)
    requires
        g.shows_only_cells(),
    ensures
        ({
            let shown = shown_after_show(g.shown_view(), g.plan(), g.items_view(), id);
            &&& cleared_cell(shown, g.plan(), g.items_view(), id) == shown_cell(g.plan(), g.items_view(), id)
            &&& shown.remove(id) == g.shown_view().remove(id)
        }),
{
    assert(g.shown_view().insert(id).remove(id) =~= g.shown_view().remove(id));
}

/// "Reminisce" can land on every month, and which one follows the clock:
/// a reading whose sub-second part is `j` nanoseconds picks month `j` of a
/// gallery with more than `j` months; any reading picks one of the months;
/// and the whole seconds of a reading play no part.
pub proof fn law_reminisce_follows_the_clock(months: nat, j: u128, nanos: u128)
    requires
        months > 0,
    ensures
        j < months && j < 1_000_000_000 ==> reminisce_index(j, months) == j,
        0 <= reminisce_index(nanos, months) < months,
        reminisce_index(nanos, months) == reminisce_index((nanos % 1_000_000_000) as u128, months),
{
    if j < months && j < 1_000_000_000 {
        vstd::arithmetic::div_mod::lemma_small_mod(j as nat, 1_000_000_000);
        vstd::arithmetic::div_mod::lemma_small_mod(j as nat, months);
    }
}

} // verus!
