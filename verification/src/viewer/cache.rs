use vstd::prelude::*;

verus! {

/// Raw RGBA8 pixels of a decoded image, with its width and height.
pub type PreloadedImage = (Vec<u8>, u32, u32);

/// Calls std's `<str as PartialEq>::eq`: two string slices are equal when
/// they hold the same characters.
#[verifier::external_body]
pub(crate) fn str_eq(a: &str, b: &str) -> (r: bool)
    ensures
        r == (a@ == b@),
{
    a == b
}

/// Decoded images of the viewer's neighbouring items, keyed by file path.
pub struct PreloadCache {
    entries: Vec<(String, PreloadedImage)>,
}

/// Some entry of `s` has key `k`.
pub open spec fn has_key(s: Seq<(String, PreloadedImage)>, k: Seq<char>) -> bool {
    exists|i: int| 0 <= i < s.len() && (#[trigger] s[i]).0@ == k
}

/// The map from path to image that the entries `s` hold.
pub open spec fn entries_map(s: Seq<(String, PreloadedImage)>) -> Map<Seq<char>, PreloadedImage> {
    Map::new(
        |k: Seq<char>| has_key(s, k),
        |k: Seq<char>| s[choose|i: int| 0 <= i < s.len() && (#[trigger] s[i]).0@ == k].1,
    )
}

/// No two entries of `s` share a key.
pub open spec fn keys_unique(s: Seq<(String, PreloadedImage)>) -> bool {
    forall|i: int, j: int|
        0 <= i < s.len() && 0 <= j < s.len() && (#[trigger] s[i]).0@ == (#[trigger] s[j]).0@ ==> i == j
}

proof fn lemma_lookup(s: Seq<(String, PreloadedImage)>, i: int)
    requires
        keys_unique(s),
        0 <= i < s.len(),
    ensures
        entries_map(s).contains_key(s[i].0@),
        entries_map(s)[s[i].0@] == s[i].1,
{
    let k = s[i].0@;
    assert(has_key(s, k));
    let j = choose|j: int| 0 <= j < s.len() && (#[trigger] s[j]).0@ == k;
    assert(j == i);
}

impl PreloadCache {
    #[verifier::type_invariant]
    spec fn inv(self) -> bool {
        keys_unique(self.entries@)
    }

    /// The cached images, keyed by the content of the path.
    pub closed spec fn view(self) -> Map<Seq<char>, PreloadedImage> {
        entries_map(self.entries@)
    }

    /// An empty cache.
    pub fn new() -> (c: PreloadCache)
        ensures
            c.view() == Map::<Seq<char>, PreloadedImage>::empty(),
    {
        let c = PreloadCache { entries: Vec::new() };
        assert(entries_map(c.entries@) =~= Map::<Seq<char>, PreloadedImage>::empty());
        c
    }

    /// Position of the entry for `path`.
    fn find(&self, path: &str) -> (r: Option<usize>)
        ensures
            match r {
                Some(i) => i < self.entries@.len() && self.entries@[i as int].0@ == path@,
                None => !has_key(self.entries@, path@),
            },
    {
        let mut i: usize = 0;
        while i < self.entries.len()
            invariant
                i <= self.entries@.len(),
                forall|q: int| 0 <= q < i ==> (#[trigger] self.entries@[q]).0@ != path@,
            decreases self.entries@.len() - i,
        {
            if str_eq(self.entries[i].0.as_str(), path) {
                return Some(i);
            }
            i = i + 1;
        }
        None
    }

    /// Whether an image for `path` is cached.
    pub fn contains_key(&self, path: &str) -> (r: bool)
        ensures
            r == self.view().contains_key(path@),
    {
        self.find(path).is_some()
    }

    /// Caches `img` for `path`, replacing any earlier image for it.
    pub fn insert(&mut self, path: String, img: PreloadedImage)
        ensures
            final(self).view() == old(self).view().insert(path@, img),
    {
        proof {
            use_type_invariant(&*self);
        }
        let ghost old_entries = self.entries@;
        match self.find(path.as_str()) {
            Some(i) => {
                let ghost k = path@;
                let mut entries: Vec<(String, PreloadedImage)> = Vec::new();
                std::mem::swap(&mut entries, &mut self.entries);
                entries.set(i, (path, img));
                proof {
                    let s = entries@;
                    assert(keys_unique(s)) by {
                        assert forall|a: int, b: int|
                            0 <= a < s.len() && 0 <= b < s.len() && (#[trigger] s[a]).0@ == (#[trigger] s[b]).0@ implies a == b by {
                            if a != i && b != i {
                                assert(old_entries[a] == s[a] && old_entries[b] == s[b]);
                            } else if a == i && b != i {
                                assert(old_entries[b] == s[b]);
                                assert(old_entries[i as int].0@ == k);
                            } else if a != i && b == i {
                                assert(old_entries[a] == s[a]);
                                assert(old_entries[i as int].0@ == k);
                            }
                        }
                    }
                    assert forall|q: Seq<char>| #[trigger] has_key(s, q) == (q == k || has_key(old_entries, q)) by {
                        if has_key(old_entries, q) {
                            let a = choose|a: int| 0 <= a < old_entries.len() && (#[trigger] old_entries[a]).0@ == q;
                            if a != i {
                                assert(s[a] == old_entries[a]);
                            }
                        }
                        if has_key(s, q) && q != k {
                            let a = choose|a: int| 0 <= a < s.len() && (#[trigger] s[a]).0@ == q;
                            assert(s[a] == old_entries[a]);
                        }
                        if q == k {
                            assert(s[i as int].0@ == k);
                        }
                    }
                    assert forall|q: Seq<char>| #[trigger] has_key(s, q) implies entries_map(s)[q] == entries_map(old_entries).insert(k, img)[q] by {
                        let a = choose|a: int| 0 <= a < s.len() && (#[trigger] s[a]).0@ == q;
                        lemma_lookup(s, a);
                        if q != k {
                            assert(s[a] == old_entries[a]);
                            lemma_lookup(old_entries, a);
                        }
                    }
                    assert(entries_map(s) =~= entries_map(old_entries).insert(k, img));
                }
                self.entries = entries;
            },
            None => {
                let ghost k = path@;
                let mut entries: Vec<(String, PreloadedImage)> = Vec::new();
                std::mem::swap(&mut entries, &mut self.entries);
                entries.push((path, img));
                proof {
                    let s = entries@;
                    let n = old_entries.len() as int;
                    assert(keys_unique(s)) by {
                        assert forall|a: int, b: int|
                            0 <= a < s.len() && 0 <= b < s.len() && (#[trigger] s[a]).0@ == (#[trigger] s[b]).0@ implies a == b by {
                            if a < n && b < n {
                                assert(old_entries[a] == s[a] && old_entries[b] == s[b]);
                            } else if a < n {
                                assert(old_entries[a] == s[a]);
                            } else if b < n {
                                assert(old_entries[b] == s[b]);
                            }
                        }
                    }
                    assert forall|q: Seq<char>| #[trigger] has_key(s, q) == (q == k || has_key(old_entries, q)) by {
                        if has_key(old_entries, q) {
                            let a = choose|a: int| 0 <= a < old_entries.len() && (#[trigger] old_entries[a]).0@ == q;
                            assert(s[a] == old_entries[a]);
                        }
                        if has_key(s, q) && q != k {
                            let a = choose|a: int| 0 <= a < s.len() && (#[trigger] s[a]).0@ == q;
                            assert(s[a] == old_entries[a]);
                        }
                        if q == k {
                            assert(s[n].0@ == k);
                        }
                    }
                    assert forall|q: Seq<char>| #[trigger] has_key(s, q) implies entries_map(s)[q] == entries_map(old_entries).insert(k, img)[q] by {
                        let a = choose|a: int| 0 <= a < s.len() && (#[trigger] s[a]).0@ == q;
                        lemma_lookup(s, a);
                        if q != k {
                            assert(s[a] == old_entries[a]);
                            lemma_lookup(old_entries, a);
                        }
                    }
                    assert(entries_map(s) =~= entries_map(old_entries).insert(k, img));
                }
                self.entries = entries;
            },
        }
    }

    /// Removes and returns the image cached for `path`.
    pub fn remove(&mut self, path: &str) -> (r: Option<PreloadedImage>)
        ensures
            r == (if old(self).view().contains_key(path@) {
                Some(old(self).view()[path@])
            } else {
                None
            }),
            final(self).view() == old(self).view().remove(path@),
    {
        proof {
            use_type_invariant(&*self);
        }
        let ghost old_entries = self.entries@;
        match self.find(path) {
            Some(i) => {
                let mut entries: Vec<(String, PreloadedImage)> = Vec::new();
                std::mem::swap(&mut entries, &mut self.entries);
                let (_, img) = entries.remove(i);
                proof {
                    let s = entries@;
                    let k = path@;
                    lemma_lookup(old_entries, i as int);
                    assert(keys_unique(s)) by {
                        assert forall|a: int, b: int|
                            0 <= a < s.len() && 0 <= b < s.len() && (#[trigger] s[a]).0@ == (#[trigger] s[b]).0@ implies a == b by {
                            let oa = if a < i { a } else { a + 1 };
                            let ob = if b < i { b } else { b + 1 };
                            assert(s[a] == old_entries[oa]);
                            assert(s[b] == old_entries[ob]);
                        }
                    }
                    assert forall|q: Seq<char>| #[trigger] has_key(s, q) == (q != k && has_key(old_entries, q)) by {
                        if has_key(old_entries, q) && q != k {
                            let a = choose|a: int| 0 <= a < old_entries.len() && (#[trigger] old_entries[a]).0@ == q;
                            if a < i {
                                assert(s[a] == old_entries[a]);
                            } else {
                                assert(a != i);
                                assert(s[a - 1] == old_entries[a]);
                            }
                        }
                        if has_key(s, q) {
                            let a = choose|a: int| 0 <= a < s.len() && (#[trigger] s[a]).0@ == q;
                            let oa = if a < i { a } else { a + 1 };
                            assert(s[a] == old_entries[oa]);
                        }
                    }
                    assert forall|q: Seq<char>| #[trigger] has_key(s, q) implies entries_map(s)[q] == entries_map(old_entries).remove(k)[q] by {
                        let a = choose|a: int| 0 <= a < s.len() && (#[trigger] s[a]).0@ == q;
                        let oa = if a < i { a } else { a + 1 };
                        assert(s[a] == old_entries[oa]);
                        lemma_lookup(s, a);
                        lemma_lookup(old_entries, oa);
                    }
                    assert(entries_map(s) =~= entries_map(old_entries).remove(k));
                }
                self.entries = entries;
                Some(img)
            },
            None => {
                proof {
                    assert(entries_map(old_entries).remove(path@) =~= entries_map(old_entries));
                }
                None
            },
        }
    }

    /// Drops every cached image.
    pub fn clear(&mut self)
        ensures
            final(self).view() == Map::<Seq<char>, PreloadedImage>::empty(),
    {
        self.entries = Vec::new();
        assert(entries_map(self.entries@) =~= Map::<Seq<char>, PreloadedImage>::empty());
    }
}

} // verus!
