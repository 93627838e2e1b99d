pub mod cache;

use vstd::prelude::*;
use crate::db::queries::MediaItem;
use crate::gallery::controller::{first_with_id, position_of_id};
use cache::{PreloadCache, PreloadedImage};

verus! {

/// Index the viewer moves to on "next": one further, while that stays
/// inside the month's items.
pub open spec fn next_index(current: int, len: int) -> Option<int> {
    if current + 1 < len { Some(current + 1) } else { None }
}

/// Index the viewer moves to on "previous": one back, unless at the start.
pub open spec fn prev_index(current: int) -> Option<int> {
    if current > 0 { Some(current - 1) } else { None }
}

/// Start of the preload window: `count` before the current index, or 0.
pub open spec fn window_start(current: int, count: int) -> int {
    if current >= count { current - count } else { 0 }
}

/// End (exclusive) of the preload window: `count` past the current index,
/// within the item list.
pub open spec fn window_end(current: int, count: int, len: int) -> int {
    if current + count + 1 < len { current + count + 1 } else { len }
}

/// Positions in `start..end`, other than `current`, whose item's path is
/// not among the keys of `cached`, in increasing order.
pub open spec fn preload_positions(
    items: Seq<MediaItem>,
    current: int,
    start: int,
    end: int,
    cached: Set<Seq<char>>,
) -> Seq<int>
    decreases end - start,
{
    if start >= end {
        seq![]
    } else {
        let before = preload_positions(items, current, start, end - 1, cached);
        if end - 1 != current && !cached.contains(items[end - 1].path@) {
            before.push(end - 1)
        } else {
            before
        }
    }
}

/// Viewer state: the items of the open month, the one on screen, and the
/// decoded images of its neighbours.
pub struct ViewerController {
    /// Items in the current month for swipe navigation.
    pub month_items: Vec<MediaItem>,
    /// Index into month_items of the currently displayed item.
    pub current_index: usize,
    /// Preloaded raw pixels, keyed by path.
    pub preload_cache: PreloadCache,
}

impl ViewerController {
    /// A viewer with no items open.
    pub fn new() -> (v: ViewerController)
        ensures
            v.month_items@.len() == 0,
            v.current_index == 0,
            v.preload_cache@ == Map::<Seq<char>, PreloadedImage>::empty(),
    {
        ViewerController { month_items: Vec::new(), current_index: 0, preload_cache: PreloadCache::new() }
    }

    /// Opens the month `month_items` at the first item with id `item_id`
    /// (at the first item when none has it) and empties the preload cache.
    pub fn open(&mut self, item_id: i64, month_items: Vec<MediaItem>)
        ensures
            final(self).month_items@ == month_items@,
            final(self).preload_cache@ == Map::<Seq<char>, PreloadedImage>::empty(),
            final(self).current_index == match first_with_id(month_items@, item_id) {
                Some(j) => j,
                None => 0,
            },
    {
        self.preload_cache.clear();
        self.current_index = match position_of_id(month_items.as_slice(), item_id) {
            Some(k) => k,
            None => 0,
        };
        self.month_items = month_items;
    }

    /// Paths of the items within `count` of the current one (the current
    /// one excluded) whose images are not cached yet, nearest-first by
    /// position.
    pub fn preload_paths(&self, count: usize) -> (r: Vec<String>)
        requires
            self.current_index + count + 1 <= usize::MAX,
        ensures
            ({
                let len = self.month_items@.len() as int;
                let ci = self.current_index as int;
                let pos = preload_positions(
                    self.month_items@,
                    ci,
                    window_start(ci, count as int),
                    window_end(ci, count as int, len),
                    self.preload_cache@.dom(),
                );
                &&& r@.len() == pos.len()
                &&& forall|k: int| 0 <= k < r@.len() ==> (#[trigger] r@[k])@ == self.month_items@[pos[k]].path@
            }),
    {
        let len = self.month_items.len();
        let ci = self.current_index;
        let start = ci.saturating_sub(count);
        let end = if ci + count + 1 < len { ci + count + 1 } else { len };
        let ghost cached = self.preload_cache@.dom();
        if start >= end {
            return Vec::new();
        }
        let mut out: Vec<String> = Vec::new();
        let mut i = start;
        while i < end
            invariant
                start <= i <= end,
                end <= len,
                len == self.month_items@.len(),
                cached == self.preload_cache@.dom(),
                ({
                    let pos = preload_positions(self.month_items@, ci as int, start as int, i as int, cached);
                    &&& out@.len() == pos.len()
                    &&& forall|k: int|
                        0 <= k < out@.len() ==> (#[trigger] out@[k])@ == self.month_items@[pos[k]].path@
                }),
            decreases end - i,
        {
            let path = &self.month_items[i];
            let path = &path.path;
            if i != ci && !self.preload_cache.contains_key(path.as_str()) {
                out.push(path.clone());
            }
            i = i + 1;
        }
        out
    }

    /// Caches the decoded image of a neighbouring item.
    pub fn store_preloaded(&mut self, path: String, img: PreloadedImage)
        ensures
            final(self).preload_cache@ == old(self).preload_cache@.insert(path@, img),
            final(self).month_items == old(self).month_items,
            final(self).current_index == old(self).current_index,
    {
        self.preload_cache.insert(path, img);
    }

    /// Removes and returns the cached pixels for `path` (freeing them once
    /// displayed).
    pub fn take_from_cache(&mut self, path: &str) -> (r: Option<PreloadedImage>)
        ensures
            r == (if old(self).preload_cache@.contains_key(path@) {
                Some(old(self).preload_cache@[path@])
            } else {
                None
            }),
            final(self).preload_cache@ == old(self).preload_cache@.remove(path@),
            final(self).month_items == old(self).month_items,
            final(self).current_index == old(self).current_index,
    {
        self.preload_cache.remove(path)
    }

    /// The item on screen, if the index is within the month's items.
    pub fn current_item(&self) -> (r: Option<&MediaItem>)
        ensures
            self.current_index < self.month_items@.len() ==> r == Some(
                &self.month_items@[self.current_index as int],
            ),
            self.current_index >= self.month_items@.len() ==> r is None,
    {
        if self.current_index < self.month_items.len() {
            Some(&self.month_items[self.current_index])
        } else {
            None
        }
    }

    /// Moves to the next item of the month and returns it; `None` (and no
    /// move) at the last item.
    pub fn go_next(&mut self) -> (r: Option<&MediaItem>)
        requires
            old(self).current_index < usize::MAX,
        ensures
            final(self).month_items == old(self).month_items,
            final(self).preload_cache == old(self).preload_cache,
            match next_index(old(self).current_index as int, old(self).month_items@.len() as int) {
                Some(n) => final(self).current_index == n && r == Some(&final(self).month_items@[n]),
                None => final(self).current_index == old(self).current_index && r is None,
            },
    {
        if self.current_index + 1 < self.month_items.len() {
            self.current_index = self.current_index + 1;
            Some(&self.month_items[self.current_index])
        } else {
            None
        }
    }

    /// Moves to the previous item of the month and returns it; `None` (and
    /// no move) at the first item.
    pub fn go_prev(&mut self) -> (r: Option<&MediaItem>)
        ensures
            final(self).month_items == old(self).month_items,
            final(self).preload_cache == old(self).preload_cache,
            match prev_index(old(self).current_index as int) {
                Some(p) => final(self).current_index == p && (p < final(self).month_items@.len() ==> r == Some(
                    &final(self).month_items@[p],
                )) && (p >= final(self).month_items@.len() ==> r is None),
                None => final(self).current_index == old(self).current_index && r is None,
            },
    {
        if self.current_index > 0 {
            self.current_index = self.current_index - 1;
            if self.current_index < self.month_items.len() {
                Some(&self.month_items[self.current_index])
            } else {
                None
            }
        } else {
            None
        }
    }
}

/// Moving forward and then back returns to the same item: whenever "next"
/// moves, "previous" from there moves back to where it started.
pub proof fn law_next_then_prev_returns(current: int, len: int)
    requires
        0 <= current,
        next_index(current, len) is Some,
    ensures
        prev_index(next_index(current, len).unwrap()) == Some(current),
{
}

/// Moving back and then forward returns to the same item, for an index
/// within the month's items.
pub proof fn law_prev_then_next_returns(current: int, len: int)
    requires
        0 <= current < len,
        prev_index(current) is Some,
    ensures
        next_index(prev_index(current).unwrap(), len) == Some(current),
{
}

/// The preload window never lists the item on screen, never a cached path,
/// and only items within `count` positions of it.
pub proof fn law_preload_excludes_current_and_cached(
    items: Seq<MediaItem>,
    current: int,
    count: int,
    cached: Set<Seq<char>>,
    k: int,
)
    requires
        0 <= count,
        0 <= current,
        0 <= k < preload_positions(
            items,
            current,
            window_start(current, count),
            window_end(current, count, items.len() as int),
            cached,
        ).len(),
    ensures
        ({
            let p = preload_positions(
                items,
                current,
                window_start(current, count),
                window_end(current, count, items.len() as int),
                cached,
            )[k];
            &&& p != current
            &&& 0 <= p < items.len()
            &&& current - count <= p <= current + count
            &&& !cached.contains(items[p].path@)
        }),
{
    lemma_preload_positions_members(
        items,
        current,
        window_start(current, count),
        window_end(current, count, items.len() as int),
        cached,
        k,
    );
}

proof fn lemma_preload_positions_members(
    items: Seq<MediaItem>,
    current: int,
    start: int,
    end: int,
    cached: Set<Seq<char>>,
    k: int,
)
    requires
        0 <= k < preload_positions(items, current, start, end, cached).len(),
    ensures
        ({
            let p = preload_positions(items, current, start, end, cached)[k];
            &&& p != current
            &&& start <= p < end
            &&& !cached.contains(items[p].path@)
        }),
    decreases end - start,
{
    if start < end {
        let before = preload_positions(items, current, start, end - 1, cached);
        if k < before.len() {
            lemma_preload_positions_members(items, current, start, end - 1, cached, k);
            if end - 1 != current && !cached.contains(items[end - 1].path@) {
                assert(preload_positions(items, current, start, end, cached)[k] == before[k]);
            }
        }
    }
}

} // verus!
