use vstd::prelude::*;
use crate::db::queries::MediaItem;
use crate::util::time::{timestamp_to_year_month, year_month_of};

verus! {

/// Progress and completion reports of a scan.
#[derive(Debug)]
pub enum ScanEvent {
    Progress { scanned: usize, total_estimate: usize },
    Complete { total: usize, removed: usize },
    Error(String),
}

/// The cached modification time of directory `p`: that of the first cache
/// entry for `p`.
pub open spec fn cache_lookup(cache: Seq<(String, i64)>, p: Seq<char>) -> Option<i64> {
    if exists|j: int| 0 <= j < cache.len() && (#[trigger] cache[j]).0@ == p && forall|k: int| 0 <= k < j ==> cache[k].0@ != p {
        Some(cache[choose|j: int| 0 <= j < cache.len() && (#[trigger] cache[j]).0@ == p && forall|k: int| 0 <= k < j ==> cache[k].0@ != p].1)
    } else {
        None
    }
}

/// A walked directory is unchanged when the cache holds exactly its
/// current modification time.
pub open spec fn dir_unchanged(cache: Seq<(String, i64)>, d: (String, i64)) -> bool {
    cache_lookup(cache, d.0@) == Some(d.1)
}

/// Paths of the walked directories that are unchanged, in walk order.
pub open spec fn unchanged_dirs(cache: Seq<(String, i64)>, walked: Seq<(String, i64)>) -> Seq<Seq<char>>
    decreases walked.len(),
{
    if walked.len() == 0 {
        seq![]
    } else {
        let rest = unchanged_dirs(cache, walked.drop_last());
        if dir_unchanged(cache, walked.last()) { rest.push(walked.last().0@) } else { rest }
    }
}

/// The walked directories that are new or changed, with their current
/// modification times, in walk order.
pub open spec fn changed_dirs(cache: Seq<(String, i64)>, walked: Seq<(String, i64)>) -> Seq<(Seq<char>, i64)>
    decreases walked.len(),
{
    if walked.len() == 0 {
        seq![]
    } else {
        let rest = changed_dirs(cache, walked.drop_last());
        if dir_unchanged(cache, walked.last()) {
            rest
        } else {
            rest.push((walked.last().0@, walked.last().1))
        }
    }
}

/// Some walked directory has path `p`.
pub open spec fn walked_has(walked: Seq<(String, i64)>, p: Seq<char>) -> bool {
    exists|j: int| 0 <= j < walked.len() && (#[trigger] walked[j]).0@ == p
}

/// Cached directories that the walk no longer found, in cache order.
pub open spec fn removed_dirs(cache: Seq<(String, i64)>, walked: Seq<(String, i64)>) -> Seq<Seq<char>>
    decreases cache.len(),
{
    if cache.len() == 0 {
        seq![]
    } else {
        let rest = removed_dirs(cache.drop_last(), walked);
        if walked_has(walked, cache.last().0@) { rest } else { rest.push(cache.last().0@) }
    }
}

/// Which directories a scan must look into, from the cached directory
/// modification times and those of the directories found now.
pub struct DirScanPlan {
    /// Directories whose modification time matches the cache: their files
    /// are skipped.
    pub unchanged: Vec<String>,
    /// New or changed directories, with their current modification time.
    pub changed: Vec<(String, i64)>,
    /// Cached directories that no longer exist.
    pub removed: Vec<String>,
}

pub open spec fn string_views(v: Seq<String>) -> Seq<Seq<char>> {
    v.map_values(|s: String| s@)
}

pub open spec fn pair_views(v: Seq<(String, i64)>) -> Seq<(Seq<char>, i64)> {
    v.map_values(|p: (String, i64)| (p.0@, p.1))
}

fn lookup_cache(cache: &Vec<(String, i64)>, p: &String) -> (r: Option<i64>)
    ensures
        r == cache_lookup(cache@, p@),
{
    let mut k: usize = 0;
    while k < cache.len()
        invariant
            k <= cache@.len(),
            forall|q: int| 0 <= q < k ==> (#[trigger] cache@[q]).0@ != p@,
        decreases cache@.len() - k,
    {
        if cache[k].0 == *p {
            proof {
                let s = cache@;
                assert(0 <= k < s.len() && s[k as int].0@ == p@ && forall|q: int| 0 <= q < k ==> s[q].0@ != p@);
                let j = choose|j: int| 0 <= j < s.len() && (#[trigger] s[j]).0@ == p@ && forall|q: int| 0 <= q < j ==> s[q].0@ != p@;
                if j < k {
                    assert(s[j].0@ != p@);
                } else if j > k {
                    assert(s[k as int].0@ != p@);
                }
            }
            return Some(cache[k].1);
        }
        k = k + 1;
    }
    None
}

fn walked_contains(walked: &Vec<(String, i64)>, p: &String) -> (r: bool)
    ensures
        r == walked_has(walked@, p@),
{
    let mut k: usize = 0;
    while k < walked.len()
        invariant
            k <= walked@.len(),
            forall|q: int| 0 <= q < k ==> (#[trigger] walked@[q]).0@ != p@,
        decreases walked@.len() - k,
    {
        if walked[k].0 == *p {
            return true;
        }
        k = k + 1;
    }
    false
}

/// Sorts the directories found by the walk into unchanged and changed ones
/// by comparing their modification times with the cache, and lists the
/// cached directories that the walk did not find.
pub fn plan_dir_scan(cache: &Vec<(String, i64)>, walked: &Vec<(String, i64)>) -> (plan: DirScanPlan)
    ensures
        string_views(plan.unchanged@) == unchanged_dirs(cache@, walked@),
        pair_views(plan.changed@) == changed_dirs(cache@, walked@),
        string_views(plan.removed@) == removed_dirs(cache@, walked@),
{
    let mut unchanged: Vec<String> = Vec::new();
    let mut changed: Vec<(String, i64)> = Vec::new();
    let mut i: usize = 0;
    while i < walked.len()
        invariant
            i <= walked@.len(),
            string_views(unchanged@) == unchanged_dirs(cache@, walked@.take(i as int)),
            pair_views(changed@) == changed_dirs(cache@, walked@.take(i as int)),
        decreases walked@.len() - i,
    {
        let (p, m) = &walked[i];
        let ghost prefix = walked@.take(i + 1);
        proof {
            assert(prefix.drop_last() =~= walked@.take(i as int));
            assert(prefix.last() == walked@[i as int]);
        }
        let ghost u0 = unchanged@;
        let ghost c0 = changed@;
        if lookup_cache(cache, p) == Some(*m) {
            unchanged.push(p.clone());
            assert(string_views(unchanged@) =~= string_views(u0).push(p@));
        } else {
            changed.push((p.clone(), *m));
            assert(pair_views(changed@) =~= pair_views(c0).push((p@, *m)));
        }
        i = i + 1;
    }
    assert(walked@.take(i as int) =~= walked@);
    let mut removed: Vec<String> = Vec::new();
    let mut k: usize = 0;
    while k < cache.len()
        invariant
            k <= cache@.len(),
            string_views(removed@) == removed_dirs(cache@.take(k as int), walked@),
        decreases cache@.len() - k,
    {
        let p = &cache[k].0;
        let ghost prefix = cache@.take(k + 1);
        proof {
            assert(prefix.drop_last() =~= cache@.take(k as int));
            assert(prefix.last() == cache@[k as int]);
        }
        let ghost r0 = removed@;
        if !walked_contains(walked, p) {
            removed.push(p.clone());
            assert(string_views(removed@) =~= string_views(r0).push(p@));
        }
        k = k + 1;
    }
    assert(cache@.take(k as int) =~= cache@);
    DirScanPlan { unchanged, changed, removed }
}

/// A file must be (re)indexed unless the index already holds it with the
/// same modification time.
pub fn needs_indexing(existing_mtime: Option<i64>, mtime: i64) -> (r: bool)
    ensures
        r == (existing_mtime != Some(mtime)),
{
    match existing_mtime {
        Some(e) => e != mtime,
        None => true,
    }
}

/// The index record of a newly found file: filed under the UTC year and
/// month of its media date, without size or thumbnail yet.
pub fn new_media_item(path: String, mtime: i64, media_date: i64, media_type: &str) -> (item: MediaItem)
    ensures
        item.id == 0,
        item.path == path,
        item.mtime == mtime,
        item.media_date == media_date,
        (item.year, item.month) == year_month_of(media_date),
        item.media_type@ == media_type@,
        item.width is None,
        item.height is None,
        item.thumb_path is None,
        !item.thumb_ready,
{
    let (year, month) = timestamp_to_year_month(media_date);
    MediaItem {
        id: 0,
        path,
        mtime,
        media_date,
        year,
        month,
        media_type: String::from_str(media_type),
        width: None,
        height: None,
        thumb_path: None,
        thumb_ready: false,
    }
}

/// The progress report due after `count` files: one every hundred files,
/// estimating a hundred more to come.
pub fn progress_event(count: usize) -> (r: Option<ScanEvent>)
    requires
        count + 100 <= usize::MAX,
    ensures
        count % 100 == 0 ==> r == Some(ScanEvent::Progress { scanned: count, total_estimate: (count + 100) as usize }),
        count % 100 != 0 ==> r is None,
{
    if count % 100 == 0 {
        Some(ScanEvent::Progress { scanned: count, total_estimate: count + 100 })
    } else {
        None
    }
}

/// A file path is among `files`.
pub open spec fn on_disk(files: Seq<String>, p: Seq<char>) -> bool {
    exists|j: int| 0 <= j < files.len() && (#[trigger] files[j])@ == p
}

/// Ids of the indexed records (id, path, thumbnail path) whose file is not
/// among `files`, in record order.
pub open spec fn orphan_ids(records: Seq<(i64, String, Option<String>)>, files: Seq<String>) -> Seq<i64>
    decreases records.len(),
{
    if records.len() == 0 {
        seq![]
    } else {
        let rest = orphan_ids(records.drop_last(), files);
        if on_disk(files, records.last().1@) { rest } else { rest.push(records.last().0) }
    }
}

/// Thumbnail paths of the records whose file is not among `files`.
pub open spec fn orphan_thumbs(records: Seq<(i64, String, Option<String>)>, files: Seq<String>) -> Seq<Seq<char>>
    decreases records.len(),
{
    if records.len() == 0 {
        seq![]
    } else {
        let rest = orphan_thumbs(records.drop_last(), files);
        if on_disk(files, records.last().1@) {
            rest
        } else {
            match records.last().2 {
                Some(t) => rest.push(t@),
                None => rest,
            }
        }
    }
}

fn files_contain(files: &Vec<String>, p: &String) -> (r: bool)
    ensures
        r == on_disk(files@, p@),
{
    let mut k: usize = 0;
    while k < files.len()
        invariant
            k <= files@.len(),
            forall|q: int| 0 <= q < k ==> (#[trigger] files@[q])@ != p@,
        decreases files@.len() - k,
    {
        if files[k] == *p {
            return true;
        }
        k = k + 1;
    }
    false
}

/// The records of a changed directory that no longer have a file on disk:
/// their ids (to delete) and their thumbnail paths (to remove).
pub fn select_orphans(records: &Vec<(i64, String, Option<String>)>, files: &Vec<String>) -> (r: (
    Vec<i64>,
    Vec<String>,
))
    ensures
        r.0@ == orphan_ids(records@, files@),
        string_views(r.1@) == orphan_thumbs(records@, files@),
{
    let mut ids: Vec<i64> = Vec::new();
    let mut thumbs: Vec<String> = Vec::new();
    let mut i: usize = 0;
    while i < records.len()
        invariant
            i <= records@.len(),
            ids@ == orphan_ids(records@.take(i as int), files@),
            string_views(thumbs@) == orphan_thumbs(records@.take(i as int), files@),
        decreases records@.len() - i,
    {
        let rec = &records[i];
        let ghost prefix = records@.take(i + 1);
        proof {
            assert(prefix.drop_last() =~= records@.take(i as int));
            assert(prefix.last() == records@[i as int]);
        }
        let ghost t0 = thumbs@;
        if !files_contain(files, &rec.1) {
            ids.push(rec.0);
            match &rec.2 {
                Some(t) => {
                    thumbs.push(t.clone());
                    assert(string_views(thumbs@) =~= string_views(t0).push(t@));
                },
                None => {},
            }
        }
        i = i + 1;
    }
    assert(records@.take(i as int) =~= records@);
    (ids, thumbs)
}

/// All record ids, and the thumbnail paths of the records that have one,
/// for a directory that no longer exists.
pub fn select_all_records(records: &Vec<(i64, String, Option<String>)>) -> (r: (Vec<i64>, Vec<String>))
    ensures
        r.0@ == orphan_ids(records@, Seq::<String>::empty()),
        string_views(r.1@) == orphan_thumbs(records@, Seq::<String>::empty()),
{
    let none: Vec<String> = Vec::new();
    select_orphans(records, &none)
}

/// Every walked directory is either skipped or rescanned, never both and
/// never neither; a directory is skipped only when the cache holds exactly
/// its current modification time.
pub proof fn law_walked_dirs_partitioned(cache: Seq<(String, i64)>, walked: Seq<(String, i64)>)
    ensures
        unchanged_dirs(cache, walked).len() + changed_dirs(cache, walked).len() == walked.len(),
        forall|i: int|
            0 <= i < walked.len() ==> (if dir_unchanged(cache, #[trigger] walked[i]) {
                unchanged_dirs(cache, walked).contains(walked[i].0@)
            } else {
                changed_dirs(cache, walked).contains((walked[i].0@, walked[i].1))
            }),
        forall|p: Seq<char>|
            #[trigger] unchanged_dirs(cache, walked).contains(p) ==> exists|i: int|
                0 <= i < walked.len() && (#[trigger] walked[i]).0@ == p && cache_lookup(cache, p) == Some(
                    walked[i].1,
                ),
        forall|c: (Seq<char>, i64)|
            #[trigger] changed_dirs(cache, walked).contains(c) ==> exists|i: int|
                0 <= i < walked.len() && (#[trigger] walked[i]).0@ == c.0 && walked[i].1 == c.1
                    && cache_lookup(cache, c.0) != Some(c.1),
    decreases walked.len(),
{
    if walked.len() > 0 {
        let w0 = walked.drop_last();
        law_walked_dirs_partitioned(cache, w0);
        let u0 = unchanged_dirs(cache, w0);
        let c0 = changed_dirs(cache, w0);
        let u = unchanged_dirs(cache, walked);
        let c = changed_dirs(cache, walked);
        let last = walked.last();
        assert forall|i: int| 0 <= i < walked.len() implies (if dir_unchanged(cache, #[trigger] walked[i]) {
            u.contains(walked[i].0@)
        } else {
            c.contains((walked[i].0@, walked[i].1))
        }) by {
            if i < walked.len() - 1 {
                assert(walked[i] == w0[i]);
                if dir_unchanged(cache, w0[i]) {
                    let k = choose|k: int| 0 <= k < u0.len() && u0[k] == w0[i].0@;
                    if dir_unchanged(cache, last) {
                        assert(u[k] == u0[k]);
                    }
                } else {
                    let k = choose|k: int| 0 <= k < c0.len() && c0[k] == (w0[i].0@, w0[i].1);
                    if !dir_unchanged(cache, last) {
                        assert(c[k] == c0[k]);
                    }
                }
            } else {
                if dir_unchanged(cache, last) {
                    assert(u[u.len() - 1] == last.0@);
                } else {
                    assert(c[c.len() - 1] == (last.0@, last.1));
                }
            }
        }
        assert forall|p: Seq<char>| #[trigger] u.contains(p) implies exists|i: int|
            0 <= i < walked.len() && (#[trigger] walked[i]).0@ == p && cache_lookup(cache, p) == Some(
                walked[i].1,
            ) by {
            let k = choose|k: int| 0 <= k < u.len() && u[k] == p;
            if dir_unchanged(cache, last) && k == u.len() - 1 {
                assert(walked[walked.len() - 1] == last);
            } else {
                assert(u[k] == u0[k]);
                assert(u0.contains(p));
                let i = choose|i: int| 0 <= i < w0.len() && (#[trigger] w0[i]).0@ == p && cache_lookup(cache, p) == Some(w0[i].1);
                assert(walked[i] == w0[i]);
            }
        }
        assert forall|cc: (Seq<char>, i64)| #[trigger] c.contains(cc) implies exists|i: int|
            0 <= i < walked.len() && (#[trigger] walked[i]).0@ == cc.0 && walked[i].1 == cc.1
                && cache_lookup(cache, cc.0) != Some(cc.1) by {
            let k = choose|k: int| 0 <= k < c.len() && c[k] == cc;
            if !dir_unchanged(cache, last) && k == c.len() - 1 {
                assert(walked[walked.len() - 1] == last);
            } else {
                assert(c[k] == c0[k]);
                assert(c0.contains(cc));
                let i = choose|i: int| 0 <= i < w0.len() && (#[trigger] w0[i]).0@ == cc.0 && w0[i].1 == cc.1 && cache_lookup(cache, cc.0) != Some(cc.1);
                assert(walked[i] == w0[i]);
            }
        }
    }
}

/// A directory is reported removed exactly when the cache holds it and the
/// walk did not find it.
pub proof fn law_removed_dirs_exact(cache: Seq<(String, i64)>, walked: Seq<(String, i64)>, p: Seq<char>)
    ensures
        removed_dirs(cache, walked).contains(p) <==> (exists|j: int|
            0 <= j < cache.len() && (#[trigger] cache[j]).0@ == p) && !walked_has(walked, p),
    decreases cache.len(),
{
    if cache.len() > 0 {
        let c0 = cache.drop_last();
        law_removed_dirs_exact(c0, walked, p);
        let r0 = removed_dirs(c0, walked);
        let r = removed_dirs(cache, walked);
        if r.contains(p) {
            let k = choose|k: int| 0 <= k < r.len() && r[k] == p;
            if !walked_has(walked, cache.last().0@) && k == r.len() - 1 {
                assert(cache[cache.len() - 1].0@ == p);
            } else {
                assert(r[k] == r0[k]);
                assert(r0.contains(p));
                let j = choose|j: int| 0 <= j < c0.len() && (#[trigger] c0[j]).0@ == p;
                assert(cache[j] == c0[j]);
            }
        }
        if (exists|j: int| 0 <= j < cache.len() && (#[trigger] cache[j]).0@ == p) && !walked_has(walked, p) {
            let j = choose|j: int| 0 <= j < cache.len() && (#[trigger] cache[j]).0@ == p;
            if j < cache.len() - 1 {
                assert(cache[j] == c0[j]);
                assert(r0.contains(p));
                let k = choose|k: int| 0 <= k < r0.len() && r0[k] == p;
                assert(r[k] == r0[k]);
            } else {
                assert(r[r.len() - 1] == p);
            }
        }
    }
}

/// The records picked for deletion are exactly those whose file is no
/// longer on disk: no record of a file on disk is deleted, and every record
/// of a vanished file is.
pub proof fn law_orphans_exact(records: Seq<(i64, String, Option<String>)>, files: Seq<String>)
    ensures
        forall|k: int|
            0 <= k < orphan_ids(records, files).len() ==> exists|i: int|
                0 <= i < records.len() && (#[trigger] records[i]).0 == #[trigger] orphan_ids(
                    records,
                    files,
                )[k] && !on_disk(files, records[i].1@),
        forall|i: int|
            0 <= i < records.len() && !on_disk(files, (#[trigger] records[i]).1@) ==> orphan_ids(
                records,
                files,
            ).contains(records[i].0),
    decreases records.len(),
{
    if records.len() > 0 {
        let r0 = records.drop_last();
        law_orphans_exact(r0, files);
        let o0 = orphan_ids(r0, files);
        let o = orphan_ids(records, files);
        let last = records.last();
        assert forall|k: int| 0 <= k < o.len() implies exists|i: int|
            0 <= i < records.len() && (#[trigger] records[i]).0 == #[trigger] o[k] && !on_disk(
                files,
                records[i].1@,
            ) by {
            if !on_disk(files, last.1@) && k == o.len() - 1 {
                assert(records[records.len() - 1] == last);
            } else {
                assert(o[k] == o0[k]);
                let i = choose|i: int| 0 <= i < r0.len() && (#[trigger] r0[i]).0 == #[trigger] o0[k] && !on_disk(files, r0[i].1@);
                assert(records[i] == r0[i]);
            }
        }
        assert forall|i: int| 0 <= i < records.len() && !on_disk(files, (#[trigger] records[i]).1@) implies o.contains(
            records[i].0,
        ) by {
            if i < records.len() - 1 {
                assert(records[i] == r0[i]);
                assert(o0.contains(r0[i].0));
                let k = choose|k: int| 0 <= k < o0.len() && o0[k] == r0[i].0;
                if !on_disk(files, last.1@) {
                    assert(o[k] == o0[k]);
                }
            } else {
                assert(o[o.len() - 1] == records[i].0);
            }
        }
    }
}

/// No two walked directories have the same path.
pub open spec fn paths_unique(walked: Seq<(String, i64)>) -> bool {
    forall|i: int, j: int| 0 <= i < j < walked.len() ==> (#[trigger] walked[i]).0@ != (#[trigger] walked[j]).0@
}

proof fn lemma_lookup_first(c: Seq<(String, i64)>, p: Seq<char>, j: int)
    requires
        0 <= j < c.len(),
        c[j].0@ == p,
        forall|k: int| 0 <= k < j ==> c[k].0@ != p,
    ensures
        cache_lookup(c, p) == Some(c[j].1),
{
    assert(exists|q: int| 0 <= q < c.len() && (#[trigger] c[q]).0@ == p && forall|k: int| 0 <= k < q ==> c[k].0@ != p);
    let q = choose|q: int| 0 <= q < c.len() && (#[trigger] c[q]).0@ == p && forall|k: int| 0 <= k < q ==> c[k].0@ != p;
    if q < j {
        assert(c[q].0@ != p);
    } else if q > j {
        assert(c[j].0@ != p);
    }
}

proof fn lemma_lookup_found(c: Seq<(String, i64)>, p: Seq<char>) -> (j: int)
    requires
        cache_lookup(c, p) is Some,
    ensures
        0 <= j < c.len(),
        c[j].0@ == p,
        forall|k: int| 0 <= k < j ==> c[k].0@ != p,
        cache_lookup(c, p) == Some(c[j].1),
{
    choose|q: int| 0 <= q < c.len() && (#[trigger] c[q]).0@ == p && forall|k: int| 0 <= k < q ==> c[k].0@ != p
}

proof fn lemma_first_match(c: Seq<(Seq<char>, i64)>, p: Seq<char>, k: int) -> (j: int)
    requires
        0 <= k < c.len(),
        c[k].0 == p,
    ensures
        0 <= j <= k,
        c[j].0 == p,
        forall|q: int| 0 <= q < j ==> c[q].0 != p,
    decreases k,
{
    if exists|q: int| 0 <= q < k && c[q].0 == p {
        let q = choose|q: int| 0 <= q < k && c[q].0 == p;
        lemma_first_match(c, p, q)
    } else {
        k
    }
}

proof fn lemma_all_unchanged(cache: Seq<(String, i64)>, walked: Seq<(String, i64)>)
    requires
        forall|i: int| 0 <= i < walked.len() ==> dir_unchanged(cache, #[trigger] walked[i]),
    ensures
        changed_dirs(cache, walked).len() == 0,
    decreases walked.len(),
{
    if walked.len() > 0 {
        let w0 = walked.drop_last();
        assert forall|i: int| 0 <= i < w0.len() implies dir_unchanged(cache, #[trigger] w0[i]) by {
            assert(w0[i] == walked[i]);
        }
        lemma_all_unchanged(cache, w0);
        assert(dir_unchanged(cache, walked[walked.len() - 1]));
    }
}

/// Once the modification times of the changed directories are stored, a
/// second scan of the same, unchanged tree skips every directory: the cache
/// then holds the new times of the changed directories ahead of its old
/// entries, as the stored times replace the old ones.
pub proof fn law_rescan_skips_unchanged_tree(
    cache: Seq<(String, i64)>,
    walked: Seq<(String, i64)>,
    next: Seq<(String, i64)>,
)
    requires
        paths_unique(walked),
        pair_views(next) == changed_dirs(cache, walked) + pair_views(cache),
    ensures
        changed_dirs(next, walked).len() == 0,
        unchanged_dirs(next, walked).len() == walked.len(),
{
    let ch = changed_dirs(cache, walked);
    law_walked_dirs_partitioned(cache, walked);
    law_walked_dirs_partitioned(next, walked);
    assert(next.len() == ch.len() + cache.len()) by {
        assert(pair_views(next).len() == next.len());
    }
    assert forall|j: int| 0 <= j < next.len() implies (#[trigger] next[j]).0@ == (if j < ch.len() {
        ch[j].0
    } else {
        cache[j - ch.len()].0@
    }) && next[j].1 == (if j < ch.len() {
        ch[j].1
    } else {
        cache[j - ch.len()].1
    }) by {
        assert(pair_views(next)[j] == (next[j].0@, next[j].1));
        if j >= ch.len() {
            assert(pair_views(cache)[j - ch.len()] == (cache[j - ch.len()].0@, cache[j - ch.len()].1));
        }
    }
    assert forall|i: int| 0 <= i < walked.len() implies dir_unchanged(next, #[trigger] walked[i]) by {
        let p = walked[i].0@;
        let m = walked[i].1;
        if dir_unchanged(cache, walked[i]) {
            let j0 = lemma_lookup_found(cache, p);
            assert forall|k: int| 0 <= k < ch.len() implies ch[k].0 != p by {
                assert(ch.contains(ch[k]));
                let q = choose|q: int|
                    0 <= q < walked.len() && (#[trigger] walked[q]).0@ == ch[k].0 && walked[q].1 == ch[k].1
                        && cache_lookup(cache, ch[k].0) != Some(ch[k].1);
                if ch[k].0 == p {
                    if q < i {
                        assert(walked[q].0@ != walked[i].0@);
                    } else if q > i {
                        assert(walked[i].0@ != walked[q].0@);
                    }
                }
            }
            assert forall|k: int| 0 <= k < ch.len() + j0 implies next[k].0@ != p by {
                if k >= ch.len() {
                    assert(cache[k - ch.len()].0@ != p);
                }
            }
            lemma_lookup_first(next, p, ch.len() + j0);
        } else {
            assert(ch.contains((p, m)));
            let k1 = choose|k: int| 0 <= k < ch.len() && ch[k] == (p, m);
            let k0 = lemma_first_match(ch, p, k1);
            assert(ch.contains(ch[k0]));
            let q = choose|q: int|
                0 <= q < walked.len() && (#[trigger] walked[q]).0@ == ch[k0].0 && walked[q].1 == ch[k0].1
                    && cache_lookup(cache, ch[k0].0) != Some(ch[k0].1);
            if q < i {
                assert(walked[q].0@ != walked[i].0@);
            } else if q > i {
                assert(walked[i].0@ != walked[q].0@);
            }
            assert(ch[k0].1 == m);
            lemma_lookup_first(next, p, k0);
        }
    }
    lemma_all_unchanged(next, walked);
}

} // verus!
