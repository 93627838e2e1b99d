use vstd::prelude::*;
use std::collections::HashSet;
use crate::gallery::row_types::GalleryThumb;
use crate::db::queries::opt_str_view;
use crate::thumbnail::cache::{ThumbnailCache, Thumb, ThumbView, lookup, touched, entries_wf, stored_all, result_entries};
use crate::thumbnail::generator::GenJob;
use crate::thumbnail::loader::LoadResult;

verus! {

broadcast use vstd::std_specs::hash::group_hash_axioms;

/// How many thumbnails the grid keeps loaded before it drops those that
/// scrolled out of sight.
pub const MAX_LOADED_ITEMS: usize = 300;

/// What the thumbnail bookkeeping tracks: items whose thumbnail is being
/// generated, items whose thumbnail file is being loaded, items whose
/// thumbnail the grid shows, and items of the rows seen last.
pub struct SchedState {
    pub gen_queued: Set<i64>,
    pub load_requested: Set<i64>,
    pub loaded: Set<i64>,
    pub visible: Set<i64>,
}

/// What the application is asked to do.
pub enum ThumbAction {
    /// Show a cached thumbnail in the grid.
    Show { item_id: i64, thumb: Thumb },
    /// Load a thumbnail file (when it exists) in the background.
    Load { item_id: i64, thumb_path: String },
    /// Generate a thumbnail.
    Generate(GenJob),
}

/// An action as plain values.
pub enum ActionView {
    Show(i64, ThumbView),
    Load(i64, Seq<char>),
    Generate(i64, Seq<char>, i64),
}

pub open spec fn action_view(a: ThumbAction) -> ActionView {
    match a {
        ThumbAction::Show { item_id, thumb } => ActionView::Show(item_id, thumb@),
        ThumbAction::Load { item_id, thumb_path } => ActionView::Load(item_id, thumb_path@),
        ThumbAction::Generate(job) => ActionView::Generate(job.item_id, job.path@, job.mtime),
    }
}

/// The response to a thumbnail of a visible row: nothing when the grid
/// shows it already; for a generated thumbnail not yet being loaded, the
/// cached image or else a load of its file; for a thumbnail not generated
/// yet and not queued, a generation job.
pub open spec fn visit_step(s: SchedState, e: Seq<(i64, ThumbView)>, t: GalleryThumb) -> (SchedState, Seq<(i64, ThumbView)>, Option<ActionView>) {
    let id = t.item_id;
    let seen = SchedState {
        gen_queued: s.gen_queued,
        load_requested: s.load_requested,
        loaded: s.loaded,
        visible: s.visible.insert(id),
    };
    if s.loaded.contains(id) {
        (seen, e, None)
    } else if t.thumb_ready {
        match opt_str_view(t.thumb_path) {
            Some(p) => if s.load_requested.contains(id) {
                (seen, e, None)
            } else {
                match lookup(e, id) {
                    Some(v) => (
                        SchedState {
                            gen_queued: s.gen_queued,
                            load_requested: s.load_requested,
                            loaded: s.loaded.insert(id),
                            visible: s.visible.insert(id),
                        },
                        touched(e, id),
                        Some(ActionView::Show(id, v)),
                    ),
                    None => (
                        SchedState {
                            gen_queued: s.gen_queued,
                            load_requested: s.load_requested.insert(id),
                            loaded: s.loaded,
                            visible: s.visible.insert(id),
                        },
                        e,
                        Some(ActionView::Load(id, p)),
                    ),
                }
            },
            None => (seen, e, None),
        }
    } else if s.gen_queued.contains(id) {
        (seen, e, None)
    } else {
        (
            SchedState {
                gen_queued: s.gen_queued.insert(id),
                load_requested: s.load_requested,
                loaded: s.loaded,
                visible: s.visible.insert(id),
            },
            e,
            Some(ActionView::Generate(id, t.path@, t.mtime)),
        )
    }
}

/// The responses to the thumbnails `ts`, one after the other.
pub open spec fn visit_all(s: SchedState, e: Seq<(i64, ThumbView)>, ts: Seq<GalleryThumb>) -> (SchedState, Seq<(i64, ThumbView)>, Seq<ActionView>)
    decreases ts.len(),
{
    if ts.len() == 0 {
        (s, e, seq![])
    } else {
        let before = visit_all(s, e, ts.drop_last());
        let step = visit_step(before.0, before.1, ts.last());
        (
            step.0,
            step.1,
            match step.2 {
                Some(a) => before.2.push(a),
                None => before.2,
            },
        )
    }
}

/// The response to a generated thumbnail: it is no longer queued nor being
/// loaded; the cached image is shown, or else its file is loaded.
pub open spec fn generated_step(s: SchedState, e: Seq<(i64, ThumbView)>, id: i64, path: Seq<char>) -> (SchedState, Seq<(i64, ThumbView)>, ActionView) {
    match lookup(e, id) {
        Some(v) => (
            SchedState {
                gen_queued: s.gen_queued.remove(id),
                load_requested: s.load_requested.remove(id),
                loaded: s.loaded.insert(id),
                visible: s.visible,
            },
            touched(e, id),
            ActionView::Show(id, v),
        ),
        None => (
            SchedState {
                gen_queued: s.gen_queued.remove(id),
                load_requested: s.load_requested.remove(id).insert(id),
                loaded: s.loaded,
                visible: s.visible,
            },
            e,
            ActionView::Load(id, path),
        ),
    }
}

/// The ids of a sequence of loaded results.
pub open spec fn result_ids(rs: Seq<LoadResult>) -> Set<i64> {
    rs.map_values(|r: LoadResult| r.item_id).to_set()
}

/// Visiting a thumbnail a second time asks for nothing more: a thumbnail
/// that is shown, being loaded or queued for generation is not asked for
/// again.
pub proof fn law_visit_deduplicates(s: SchedState, e: Seq<(i64, ThumbView)>, t: GalleryThumb)
    ensures
        visit_step(visit_step(s, e, t).0, visit_step(s, e, t).1, t).2 is None,
{
}

/// A generated thumbnail leaves the generation queue and is then either
/// shown or being loaded.
pub proof fn law_generated_is_shown_or_loading(s: SchedState, e: Seq<(i64, ThumbView)>, id: i64, path: Seq<char>)
    ensures
        !generated_step(s, e, id, path).0.gen_queued.contains(id),
        generated_step(s, e, id, path).0.loaded.contains(id) || generated_step(
            s,
            e,
            id,
            path,
        ).0.load_requested.contains(id),
{
}

/// A generated thumbnail that is not cached is loaded from the very file
/// the generator reported, for that item, and the cache is left as it was;
/// a cached one is shown with the cached image.
pub proof fn law_generated_loads_the_reported_file(
    s: SchedState,
    e: Seq<(i64, ThumbView)>,
    id: i64,
    path: Seq<char>,
)
    ensures
        lookup(e, id) is None ==> generated_step(s, e, id, path).2 == ActionView::Load(id, path)
            && generated_step(s, e, id, path).1 == e,
        lookup(e, id) matches Some(v) ==> generated_step(s, e, id, path).2 == ActionView::Show(id, v),
{
}

/// Dropping hidden thumbnails keeps every visible one: afterwards only
/// visible thumbnails are shown, and none of the dropped ones is visible.
pub proof fn law_eviction_keeps_visible(s: SchedState)
    ensures
        s.loaded.difference(s.loaded.difference(s.visible)).subset_of(s.visible),
        s.loaded.difference(s.visible).disjoint(s.visible),
        s.loaded.intersect(s.visible).subset_of(s.loaded.difference(s.loaded.difference(s.visible))),
{
}

/// Bookkeeping of the gallery's thumbnails: which are being generated,
/// loaded, shown, and which the visible rows hold.
pub struct ThumbScheduler {
    gen_queued: HashSet<i64>,
    load_requested: HashSet<i64>,
    loaded: HashSet<i64>,
    visible: HashSet<i64>,
}

impl ThumbScheduler {
    pub closed spec fn state(self) -> SchedState {
        SchedState {
            gen_queued: self.gen_queued@,
            load_requested: self.load_requested@,
            loaded: self.loaded@,
            visible: self.visible@,
        }
    }

    /// Nothing queued, loading, shown or visible.
    pub fn new() -> (s: ThumbScheduler)
        ensures
            s.state().gen_queued.is_empty(),
            s.state().load_requested.is_empty(),
            s.state().loaded.is_empty(),
            s.state().visible.is_empty(),
    {
        ThumbScheduler {
            gen_queued: HashSet::new(),
            load_requested: HashSet::new(),
            loaded: HashSet::new(),
            visible: HashSet::new(),
        }
    }

    /// A generated thumbnail arrived: the cached image is shown, or else
    /// its file is loaded.
    pub fn on_generated(&mut self, cache: &mut ThumbnailCache, item_id: i64, thumb_path: String) -> (a: ThumbAction)
        ensures
            (final(self).state(), final(cache).entries(), action_view(a)) == generated_step(
                old(self).state(),
                old(cache).entries(),
                item_id,
                thumb_path@,
            ),
            final(cache).capacity() == old(cache).capacity(),
            lookup(old(cache).entries(), item_id) is None ==> (a matches ThumbAction::Load { item_id: i, thumb_path: p }
                && i == item_id && p@ == thumb_path@),
    {
        self.gen_queued.remove(&item_id);
        self.load_requested.remove(&item_id);
        match cache.request(item_id) {
            Some(thumb) => {
                self.loaded.insert(item_id);
                ThumbAction::Show { item_id, thumb }
            },
            None => {
                self.load_requested.insert(item_id);
                ThumbAction::Load { item_id, thumb_path }
            },
        }
    }

    /// Loaded thumbnails arrived: they go into the cache and are shown.
    pub fn on_loaded(&mut self, cache: &mut ThumbnailCache, results: Vec<LoadResult>) -> (out: Vec<(i64, Thumb)>)
        ensures
            final(cache).entries() == stored_all(
                old(cache).entries(),
                old(cache).capacity(),
                result_entries(results@),
            ),
            final(cache).capacity() == old(cache).capacity(),
            final(self).state() == (SchedState {
                gen_queued: old(self).state().gen_queued,
                load_requested: old(self).state().load_requested.difference(result_ids(results@)),
                loaded: old(self).state().loaded.union(result_ids(results@)),
                visible: old(self).state().visible,
            }),
            out@.len() == results@.len(),
            forall|i: int|
                0 <= i < out@.len() ==> (#[trigger] out@[i]).0 == results@[i].item_id && out@[i].1@ == (
                    results@[i].pixels@,
                    results@[i].width,
                    results@[i].height,
                ),
    {
        let ghost ids_seq = results@.map_values(|r: LoadResult| r.item_id);
        let out = cache.poll_results(results);
        let ghost lr0 = self.load_requested@;
        let ghost ld0 = self.loaded@;
        let mut i: usize = 0;
        while i < out.len()
            invariant
                i <= out@.len(),
                out@.len() == ids_seq.len(),
                forall|j: int| 0 <= j < out@.len() ==> (#[trigger] out@[j]).0 == ids_seq[j],
                self.load_requested@ == lr0.difference(ids_seq.take(i as int).to_set()),
                self.loaded@ == ld0.union(ids_seq.take(i as int).to_set()),
                self.gen_queued@ == old(self).gen_queued@,
                self.visible@ == old(self).visible@,
            decreases out@.len() - i,
        {
            let id = out[i].0;
            self.load_requested.remove(&id);
            self.loaded.insert(id);
            proof {
                let pre = ids_seq.take(i as int);
                assert(ids_seq.take(i + 1) =~= pre.push(id));
                assert(pre.push(id).to_set() =~= pre.to_set().insert(id)) by {
                    pre.lemma_push_to_set_commute(id);
                }
                assert(self.load_requested@ =~= lr0.difference(pre.to_set().insert(id)));
                assert(self.loaded@ =~= ld0.union(pre.to_set().insert(id)));
            }
            i = i + 1;
        }
        assert(ids_seq.take(i as int) =~= ids_seq);
        out
    }

    /// A new batch of visible rows begins: no item is visible yet.
    pub fn begin_rows(&mut self)
        ensures
            final(self).state() == (SchedState {
                gen_queued: old(self).state().gen_queued,
                load_requested: old(self).state().load_requested,
                loaded: old(self).state().loaded,
                visible: Set::empty(),
            }),
    {
        self.visible.clear();
    }

    /// The thumbnails of a visible row, in order: each is marked visible
    /// and gets its response.
    pub fn visit_row(&mut self, cache: &mut ThumbnailCache, row: &[GalleryThumb]) -> (actions: Vec<ThumbAction>)
        ensures
            ({
                let r = visit_all(old(self).state(), old(cache).entries(), row@);
                &&& final(self).state() == r.0
                &&& final(cache).entries() == r.1
                &&& actions@.map_values(|a: ThumbAction| action_view(a)) == r.2
            }),
            final(cache).capacity() == old(cache).capacity(),
    {
        let mut actions: Vec<ThumbAction> = Vec::new();
        let mut i: usize = 0;
        while i < row.len()
            invariant
                i <= row@.len(),
                cache.capacity() == old(cache).capacity(),
                ({
                    let r = visit_all(old(self).state(), old(cache).entries(), row@.take(i as int));
                    &&& self.state() == r.0
                    &&& cache.entries() == r.1
                    &&& actions@.map_values(|a: ThumbAction| action_view(a)) == r.2
                }),
            decreases row@.len() - i,
        {
            let t = &row[i];
            let id = t.item_id;
            proof {
                assert(row@.take(i + 1).drop_last() =~= row@.take(i as int));
                assert(row@.take(i + 1).last() == row@[i as int]);
            }
            let ghost before_actions = actions@.map_values(|a: ThumbAction| action_view(a));
            self.visible.insert(id);
            if self.loaded.contains(&id) {
            } else if t.thumb_ready {
                match &t.thumb_path {
                    Some(path) => {
                        if !self.load_requested.contains(&id) {
                            match cache.request(id) {
                                Some(thumb) => {
                                    self.loaded.insert(id);
                                    actions.push(ThumbAction::Show { item_id: id, thumb });
                                },
                                None => {
                                    self.load_requested.insert(id);
                                    actions.push(ThumbAction::Load { item_id: id, thumb_path: path.clone() });
                                },
                            }
                        }
                    },
                    None => {},
                }
            } else if !self.gen_queued.contains(&id) {
                self.gen_queued.insert(id);
                actions.push(ThumbAction::Generate(GenJob { item_id: id, path: t.path.clone(), mtime: t.mtime }));
            }
            proof {
                let now = actions@.map_values(|a: ThumbAction| action_view(a));
                if now.len() > before_actions.len() {
                    assert(now =~= before_actions.push(now.last()));
                } else {
                    assert(now =~= before_actions);
                }
            }
            i = i + 1;
        }
        assert(row@.take(i as int) =~= row@);
        actions
    }

    /// When more than MAX_LOADED_ITEMS thumbnails are shown, those not
    /// visible are dropped: the ids to clear from the grid come back, and
    /// they are forgotten as shown, queued or being loaded.
    pub fn evict_hidden(&mut self) -> (r: Vec<i64>)
        ensures
            old(self).state().loaded.len() > MAX_LOADED_ITEMS ==> {
                let evicted = old(self).state().loaded.difference(old(self).state().visible);
                &&& r@.to_set() == evicted
                &&& r@.no_duplicates()
                &&& final(self).state() == (SchedState {
                    gen_queued: old(self).state().gen_queued.difference(evicted),
                    load_requested: old(self).state().load_requested.difference(evicted),
                    loaded: old(self).state().loaded.difference(evicted),
                    visible: old(self).state().visible,
                })
            },
            old(self).state().loaded.len() <= MAX_LOADED_ITEMS ==> r@.len() == 0 && final(self).state()
                == old(self).state(),
    {
        let mut evicted: Vec<i64> = Vec::new();
        if self.loaded.len() <= MAX_LOADED_ITEMS {
            return evicted;
        }
        let ghost loaded0 = self.loaded@;
        let ghost visible0 = self.visible@;
        for id in it: self.loaded.iter()
            invariant
                visible0 == self.visible@,
                loaded0 == self.loaded@,
                it.seq().no_duplicates(),
                it.seq().unref().to_set() == loaded0,
                evicted@.no_duplicates(),
                evicted@.to_set() == it.seq().take(it.index()).unref().to_set().difference(visible0),
                it.index() == it.seq().len() ==> evicted@.to_set() == loaded0.difference(visible0),
        {
            let ghost pre = it.seq().take(it.index());
            assert(it.seq().take(it.index() + 1) =~= pre.push(id));
            assert(pre.push(id).unref() =~= pre.unref().push(*id));
            proof {
                pre.unref().lemma_push_to_set_commute(*id);
            }
            if !self.visible.contains(id) {
                proof {
                    assert(!evicted@.contains(*id)) by {
                        if evicted@.contains(*id) {
                            assert(evicted@.to_set().contains(*id));
                            let j = choose|j: int| 0 <= j < pre.unref().len() && pre.unref()[j] == *id;
                            assert(it.seq()[j] == it.seq()[it.index()]);
                        }
                    }
                }
                let ghost ev0 = evicted@;
                evicted.push(*id);
                proof {
                    ev0.lemma_push_to_set_commute(*id);
                }
            }
            assert(it.index() + 1 == it.seq().len() ==> pre.push(id) =~= it.seq());
        }
        let ghost ev = evicted@.to_set();
        assert(ev =~= loaded0.difference(visible0));
        let ghost gq0 = self.gen_queued@;
        let ghost lr0 = self.load_requested@;
        let mut k: usize = 0;
        while k < evicted.len()
            invariant
                k <= evicted@.len(),
                ev == evicted@.to_set(),
                self.visible@ == visible0,
                self.loaded@ == loaded0.difference(evicted@.take(k as int).to_set()),
                self.gen_queued@ == gq0.difference(evicted@.take(k as int).to_set()),
                self.load_requested@ == lr0.difference(evicted@.take(k as int).to_set()),
            decreases evicted@.len() - k,
        {
            let id = evicted[k];
            let ghost pre = evicted@.take(k as int);
            self.loaded.remove(&id);
            self.gen_queued.remove(&id);
            self.load_requested.remove(&id);
            proof {
                assert(evicted@.take(k + 1) =~= pre.push(id));
                pre.lemma_push_to_set_commute(id);
                assert(self.loaded@ =~= loaded0.difference(pre.to_set().insert(id)));
                assert(self.gen_queued@ =~= gq0.difference(pre.to_set().insert(id)));
                assert(self.load_requested@ =~= lr0.difference(pre.to_set().insert(id)));
            }
            k = k + 1;
        }
        assert(evicted@.take(k as int) =~= evicted@);
        evicted
    }
}

} // verus!
