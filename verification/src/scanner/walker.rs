use vstd::prelude::*;

verus! {

/// A supported media file found by the walk; `media_type` is "image" or
/// "video".
pub struct MediaFile {
    pub path: String,
    pub media_type: &'static str,
}

/// Index just past the last '/' of `s` (0 when there is none).
pub open spec fn name_start(s: Seq<char>) -> int
    decreases s.len(),
{
    if s.len() == 0 {
        0
    } else if s.last() == '/' {
        s.len() as int
    } else {
        name_start(s.drop_last())
    }
}

/// The last component of a path: the text after its last '/'.
pub open spec fn file_name(s: Seq<char>) -> Seq<char> {
    s.subrange(name_start(s), s.len() as int)
}

/// Index of the last '.' of `s`, if any.
pub open spec fn last_dot(s: Seq<char>) -> Option<int>
    decreases s.len(),
{
    if s.len() == 0 {
        None
    } else if s.last() == '.' {
        Some(s.len() - 1)
    } else {
        last_dot(s.drop_last())
    }
}

/// Extension of a file name, as `Path::extension` reads it: the text after
/// the last '.', provided that something precedes that dot; none for "..".
pub open spec fn name_extension(name: Seq<char>) -> Option<Seq<char>> {
    if name == seq!['.', '.'] {
        None
    } else {
        match last_dot(name) {
            Some(d) => if d == 0 { None } else { Some(name.subrange(d + 1, name.len() as int)) },
            None => None,
        }
    }
}

/// ASCII upper-case letters mapped to lower case; every other character is
/// kept.
pub open spec fn ascii_lower(c: char) -> char {
    if 'A' <= c <= 'Z' { ((c as u32) + 32) as char } else { c }
}

/// `ext` equals the lower-case ASCII word `word` once lower-cased.
/// (Unicode lower-casing maps no non-ASCII character onto the letters of the
/// media extensions, so comparing ASCII letters case-insensitively decides
/// the same question.)
pub open spec fn ext_is(ext: Seq<char>, word: Seq<char>) -> bool {
    ext.len() == word.len() && forall|i: int| 0 <= i < ext.len() ==> ascii_lower(#[trigger] ext[i]) == word[i]
}

pub open spec fn is_image_ext(ext: Seq<char>) -> bool {
    ||| ext_is(ext, seq!['j', 'p', 'g'])
    ||| ext_is(ext, seq!['j', 'p', 'e', 'g'])
    ||| ext_is(ext, seq!['p', 'n', 'g'])
    ||| ext_is(ext, seq!['w', 'e', 'b', 'p'])
}

pub open spec fn is_video_ext(ext: Seq<char>) -> bool {
    ext_is(ext, seq!['m', 'p', '4'])
}

/// Media type of a path: "image" for jpg, jpeg, png and webp, "video" for
/// mp4 (extensions compared without regard to case), none otherwise.
pub open spec fn media_type_of(path: Seq<char>) -> Option<Seq<char>> {
    match name_extension(file_name(path)) {
        Some(ext) => if is_image_ext(ext) {
            Some(seq!['i', 'm', 'a', 'g', 'e'])
        } else if is_video_ext(ext) {
            Some(seq!['v', 'i', 'd', 'e', 'o'])
        } else {
            None
        },
        None => None,
    }
}

/// The characters of `s`.
fn chars_of(s: &str) -> (r: Vec<char>)
    ensures
        r@ == s@,
{
    let n = s.unicode_len();
    let mut out: Vec<char> = Vec::new();
    let mut i: usize = 0;
    while i < n
        invariant
            n == s@.len(),
            i <= n,
            out@ == s@.subrange(0, i as int),
        decreases n - i,
    {
        out.push(s.get_char(i));
        i = i + 1;
        assert(out@ =~= s@.subrange(0, i as int));
    }
    assert(out@ =~= s@);
    out
}

proof fn lemma_name_start(s: Seq<char>)
    ensures
        0 <= name_start(s) <= s.len(),
        forall|i: int| name_start(s) <= i < s.len() ==> s[i] != '/',
        name_start(s) > 0 ==> s[name_start(s) - 1] == '/',
    decreases s.len(),
{
    if s.len() > 0 && s.last() != '/' {
        lemma_name_start(s.drop_last());
        assert forall|i: int| name_start(s) <= i < s.len() implies s[i] != '/' by {
            if i < s.len() - 1 {
                assert(s[i] == s.drop_last()[i]);
            }
        }
        if name_start(s) > 0 {
            assert(s[name_start(s) - 1] == s.drop_last()[name_start(s) - 1]);
        }
    }
}

proof fn lemma_last_dot(s: Seq<char>)
    ensures
        match last_dot(s) {
            Some(d) => 0 <= d < s.len() && s[d] == '.' && forall|i: int| d < i < s.len() ==> s[i] != '.',
            None => forall|i: int| 0 <= i < s.len() ==> s[i] != '.',
        },
    decreases s.len(),
{
    if s.len() > 0 && s.last() != '.' {
        lemma_last_dot(s.drop_last());
        match last_dot(s) {
            Some(d) => {
                assert(s[d] == s.drop_last()[d]);
                assert forall|i: int| d < i < s.len() implies s[i] != '.' by {
                    if i < s.len() - 1 {
                        assert(s[i] == s.drop_last()[i]);
                    }
                }
            },
            None => {
                assert forall|i: int| 0 <= i < s.len() implies s[i] != '.' by {
                    if i < s.len() - 1 {
                        assert(s[i] == s.drop_last()[i]);
                    }
                }
            },
        }
    }
}

/// Whether the characters `cs[from..]` equal `word` after ASCII lower-casing.
fn ext_matches(cs: &Vec<char>, from: usize, word: &str) -> (r: bool)
    requires
        from <= cs@.len(),
    ensures
        r == ext_is(cs@.subrange(from as int, cs@.len() as int), word@),
{
    let n = word.unicode_len();
    if cs.len() - from != n {
        return false;
    }
    let ghost ext = cs@.subrange(from as int, cs@.len() as int);
    let mut i: usize = 0;
    while i < n
        invariant
            n == word@.len(),
            from <= cs@.len(),
            cs@.len() - from == n,
            ext == cs@.subrange(from as int, cs@.len() as int),
            i <= n,
            forall|k: int| 0 <= k < i ==> ascii_lower(#[trigger] ext[k]) == word@[k],
        decreases n - i,
    {
        let total = cs.len();
        assert(from + i < total);
        let c = cs[from + i];
        let lc = if 'A' <= c && c <= 'Z' { ((c as u32) + 32) as u8 as char } else { c };
        assert(lc == ascii_lower(ext[i as int])) by {
            assert(ext[i as int] == c);
        }
        if lc != word.get_char(i) {
            return false;
        }
        i = i + 1;
    }
    true
}

/// The media type of a file path: "image" for .jpg, .jpeg, .png and .webp,
/// "video" for .mp4, whatever the case of the extension; `None` for any
/// other file.
pub fn media_type_for_path(path: &str) -> (r: Option<&'static str>)
    ensures
        match r {
            Some(t) => media_type_of(path@) == Some(t@),
            None => media_type_of(path@) is None,
        },
{
    proof {
        reveal_strlit("jpg");
        reveal_strlit("jpeg");
        reveal_strlit("png");
        reveal_strlit("webp");
        reveal_strlit("mp4");
        reveal_strlit("image");
        reveal_strlit("video");
    }
    let cs = chars_of(path);
    let ghost s = cs@;
    // Start of the file name.
    let mut ns = cs.len();
    while ns > 0 && cs[ns - 1] != '/'
        invariant
            ns <= cs@.len(),
            forall|i: int| ns <= i < cs@.len() ==> cs@[i] != '/',
        decreases ns,
    {
        ns = ns - 1;
    }
    proof {
        lemma_name_start(s);
        let k = name_start(s);
        if ns as int > k {
            assert(s[k - 1] == '/' || k == 0);
        }
        if (ns as int) < k {
            assert(s[ns - 1] == '/');
        }
        assert(ns as int == k);
    }
    let ghost name = file_name(s);
    let name_len = cs.len() - ns;
    // ".." has no extension.
    if name_len == 2 && cs[ns] == '.' && cs[ns + 1] == '.' {
        assert(name =~= seq!['.', '.']);
        return None;
    }
    assert(name != seq!['.', '.']) by {
        if name == seq!['.', '.'] {
            assert(name[0] == cs@[ns as int] && name[1] == cs@[ns + 1]);
        }
    }
    // Last dot within the name.
    let mut d = cs.len();
    while d > ns && cs[d - 1] != '.'
        invariant
            ns <= d <= cs@.len(),
            forall|i: int| d <= i < cs@.len() ==> cs@[i] != '.',
        decreases d,
    {
        d = d - 1;
    }
    proof {
        lemma_last_dot(name);
    }
    if d == ns {
        proof {
            assert(last_dot(name) is None) by {
                match last_dot(name) {
                    Some(q) => {
                        assert(name[q] == cs@[ns + q]);
                    },
                    None => {},
                }
            }
        }
        return None;
    }
    proof {
        let q = (d - 1 - ns) as int;
        assert(name[q] == '.');
        match last_dot(name) {
            Some(q2) => {
                if q2 > q {
                    assert(name[q2] == cs@[ns + q2]);
                }
                if q2 < q {
                    assert(name[q] == cs@[d - 1]);
                }
                assert(q2 == q);
            },
            None => {},
        }
    }
    if d - 1 == ns {
        return None;
    }
    assert(cs@.subrange(d as int, cs@.len() as int) =~= name.subrange((d - ns) as int, name.len() as int));
    if ext_matches(&cs, d, "jpg") || ext_matches(&cs, d, "jpeg") || ext_matches(&cs, d, "png")
        || ext_matches(&cs, d, "webp") {
        Some("image")
    } else if ext_matches(&cs, d, "mp4") {
        Some("video")
    } else {
        None
    }
}

/// The supported media files among the paths of a directory walk, in walk
/// order, each with its media type.
pub fn walk_media(paths: Vec<String>) -> (r: Vec<MediaFile>)
    ensures
        r@.len() <= paths@.len(),
        forall|k: int|
            0 <= k < r@.len() ==> media_type_of((#[trigger] r@[k]).path@) == Some(r@[k].media_type@),
        r@.map_values(|f: MediaFile| f.path@) == paths@.map_values(|p: String| p@).filter(
            |p: Seq<char>| media_type_of(p) is Some,
        ),
{
    let mut out: Vec<MediaFile> = Vec::new();
    let mut i: usize = 0;
    let ghost pred = |p: Seq<char>| media_type_of(p) is Some;
    let ghost views = paths@.map_values(|p: String| p@);
    while i < paths.len()
        invariant
            i <= paths@.len(),
            views == paths@.map_values(|p: String| p@),
            pred == (|p: Seq<char>| media_type_of(p) is Some),
            out@.len() <= i,
            forall|k: int|
                0 <= k < out@.len() ==> media_type_of((#[trigger] out@[k]).path@) == Some(out@[k].media_type@),
            out@.map_values(|f: MediaFile| f.path@) == views.take(i as int).filter(pred),
        decreases paths@.len() - i,
    {
        let p = &paths[i];
        proof {
            assert(views.take(i + 1) =~= views.take(i as int).push(p@));
            views.take(i as int).lemma_filter_push(p@, pred);
        }
        match media_type_for_path(p.as_str()) {
            Some(t) => {
                let ghost before = out@;
                out.push(MediaFile { path: p.clone(), media_type: t });
                assert(out@.map_values(|f: MediaFile| f.path@) =~= before.map_values(|f: MediaFile| f.path@).push(p@));
            },
            None => {},
        }
        i = i + 1;
    }
    assert(views.take(i as int) =~= views);
    out
}

/// A name of a path ends at a separator or at the end: an empty name or "."
/// drops out, any other is recorded after a separator.
pub open spec fn flush_name(done: Seq<char>, name: Seq<char>) -> Seq<char> {
    if name.len() == 0 || name == seq!['.'] {
        done
    } else {
        done + seq!['/'] + name
    }
}

/// Reading a path from the left: the names recorded so far, and the name
/// being read.
pub open spec fn names_read(s: Seq<char>) -> (Seq<char>, Seq<char>)
    decreases s.len(),
{
    if s.len() == 0 {
        (seq![], seq![])
    } else {
        let (done, name) = names_read(s.drop_last());
        if s.last() == '/' {
            (flush_name(done, name), seq![])
        } else {
            (done, name.push(s.last()))
        }
    }
}

/// A path taken by its components, as std's `Path` compares paths: a root,
/// or else a leading "." (a "." that is the whole path or is followed by a
/// separator), then the names between separators, where empty names and "."
/// drop out. Two paths are equal as `Path`s exactly when their keys are.
pub open spec fn path_key(s: Seq<char>) -> Seq<char> {
    let lead = if s.len() > 0 && s[0] == '/' {
        seq!['/']
    } else if s.len() > 0 && s[0] == '.' && (s.len() == 1 || s[1] == '/') {
        seq!['.']
    } else {
        seq![]
    };
    lead + flush_name(names_read(s).0, names_read(s).1)
}

fn flush_name_into(done: &mut Vec<char>, name: &Vec<char>)
    ensures
        final(done)@ == flush_name(old(done)@, name@),
{
    if name.len() == 0 || (name.len() == 1 && name[0] == '.') {
        proof {
            if name.len() == 1 {
                assert(name@ =~= seq!['.']);
            }
        }
        return;
    }
    proof {
        assert(name@ != seq!['.']) by {
            if name@ == seq!['.'] {
                assert(name@[0] == '.');
            }
        }
    }
    let ghost start = done@;
    done.push('/');
    let mut k: usize = 0;
    while k < name.len()
        invariant
            k <= name@.len(),
            done@ == start + seq!['/'] + name@.take(k as int),
        decreases name@.len() - k,
    {
        done.push(name[k]);
        k = k + 1;
        assert(done@ =~= start + seq!['/'] + name@.take(k as int));
    }
    assert(name@.take(k as int) =~= name@);
}

/// The component key of a path (see `path_key`).
fn path_key_of(s: &str) -> (r: Vec<char>)
    ensures
        r@ == path_key(s@),
{
    let cs = chars_of(s);
    let mut done: Vec<char> = Vec::new();
    let mut name: Vec<char> = Vec::new();
    let mut i: usize = 0;
    while i < cs.len()
        invariant
            i <= cs@.len(),
            cs@ == s@,
            (done@, name@) == names_read(s@.take(i as int)),
        decreases cs@.len() - i,
    {
        assert(s@.take(i as int + 1).drop_last() =~= s@.take(i as int));
        if cs[i] == '/' {
            flush_name_into(&mut done, &name);
            name = Vec::new();
            assert(name@ =~= seq![]);
        } else {
            name.push(cs[i]);
        }
        i = i + 1;
    }
    assert(s@.take(i as int) =~= s@);
    flush_name_into(&mut done, &name);
    let mut r: Vec<char> = Vec::new();
    if cs.len() > 0 && cs[0] == '/' {
        r.push('/');
    } else if cs.len() > 0 && cs[0] == '.' && (cs.len() == 1 || cs[1] == '/') {
        r.push('.');
    }
    let ghost lead = r@;
    let mut k: usize = 0;
    while k < done.len()
        invariant
            k <= done@.len(),
            r@ == lead + done@.take(k as int),
        decreases done@.len() - k,
    {
        r.push(done[k]);
        k = k + 1;
        assert(r@ =~= lead + done@.take(k as int));
    }
    assert(done@.take(k as int) =~= done@);
    r
}

fn same_chars(a: &Vec<char>, b: &Vec<char>) -> (r: bool)
    ensures
        r == (a@ == b@),
{
    if a.len() != b.len() {
        return false;
    }
    let mut k: usize = 0;
    while k < a.len()
        invariant
            k <= a@.len(),
            a@.len() == b@.len(),
            forall|q: int| 0 <= q < k ==> a@[q] == b@[q],
        decreases a@.len() - k,
    {
        if a[k] != b[k] {
            return false;
        }
        k = k + 1;
    }
    assert(a@ =~= b@);
    true
}

/// Whether the walk goes into a directory: it does unless the directory is
/// one to skip (and with it, everything below it). Paths are compared by
/// their components, so "/m/a/", "/m//a" and "/m/./a" all name "/m/a".
pub fn enters_dir(dir: &str, skip_dirs: &Vec<String>) -> (r: bool)
    ensures
        r == !exists|q: int| 0 <= q < skip_dirs@.len() && path_key((#[trigger] skip_dirs@[q])@) == path_key(dir@),
{
    let key = path_key_of(dir);
    let mut k: usize = 0;
    while k < skip_dirs.len()
        invariant
            k <= skip_dirs@.len(),
            key@ == path_key(dir@),
            forall|q: int| 0 <= q < k ==> path_key((#[trigger] skip_dirs@[q])@) != path_key(dir@),
        decreases skip_dirs@.len() - k,
    {
        let other = path_key_of(skip_dirs[k].as_str());
        if same_chars(&other, &key) {
            return false;
        }
        k = k + 1;
    }
    true
}

} // verus!
