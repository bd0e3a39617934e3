use crate::request::{DOT, SLASH};
use vstd::prelude::*;
use vstd::string::StringSliceAdditionalSpecFns;

verus! {

/// Index of the last occurrence of `b` in `s`, or -1 when it does not occur.
pub open spec fn last_index_of(s: Seq<u8>, b: u8) -> int
    decreases s.len(),
{
    if s.len() == 0 {
        -1
    } else if s.last() == b {
        s.len() - 1
    } else {
        last_index_of(s.drop_last(), b)
    }
}

/// The pieces of `s` between slashes, empty pieces included: `a//b` gives
/// `a`, the empty sequence and `b`.
pub open spec fn segments(s: Seq<u8>) -> Seq<Seq<u8>>
    decreases s.len(),
{
    if s.len() == 0 {
        seq![Seq::empty()]
    } else if s.last() == SLASH {
        segments(s.drop_last()).push(Seq::empty())
    } else {
        let p = segments(s.drop_last());
        p.update(p.len() - 1, p.last().push(s.last()))
    }
}

pub open spec fn is_current_dir(seg: Seq<u8>) -> bool {
    seg == seq![DOT]
}

pub open spec fn is_parent_dir(seg: Seq<u8>) -> bool {
    seg == seq![DOT, DOT]
}

/// A component that names an entry inside its directory: not empty, not `.`
/// or `..`, and free of slashes.
pub open spec fn is_plain_component(seg: Seq<u8>) -> bool {
    &&& seg.len() > 0
    &&& !is_current_dir(seg)
    &&& !is_parent_dir(seg)
    &&& !seg.contains(SLASH)
}

/// Applies one segment to the directory stack built so far: empty and `.`
/// segments are ignored, `..` leaves the last directory and fails when there
/// is none left, anything else enters a directory.
pub open spec fn apply_segment(
    stack: Option<Seq<Seq<u8>>>,
    seg: Seq<u8>,
) -> Option<Seq<Seq<u8>>> {
    match stack {
        None => None,
        Some(st) => if seg.len() == 0 || is_current_dir(seg) {
            Some(st)
        } else if is_parent_dir(seg) {
            if st.len() == 0 {
                None
            } else {
                Some(st.drop_last())
            }
        } else {
            Some(st.push(seg))
        },
    }
}

pub open spec fn normalize_segments(
    start: Seq<Seq<u8>>,
    segs: Seq<Seq<u8>>,
) -> Option<Seq<Seq<u8>>>
    decreases segs.len(),
{
    if segs.len() == 0 {
        Some(start)
    } else {
        apply_segment(normalize_segments(start, segs.drop_last()), segs.last())
    }
}

/// The components of `root` joined with the request path `rel`, once `.` and
/// `..` are applied, the root itself as the first component. `None` when
/// `rel` is absolute (joining it would discard the root) or climbs above the
/// directory that holds the root.
pub open spec fn normalize(root: Seq<u8>, rel: Seq<u8>) -> Option<Seq<Seq<u8>>> {
    if rel.len() > 0 && rel[0] == SLASH {
        None
    } else {
        normalize_segments(seq![root], segments(rel))
    }
}

/// `root` followed by each component, each after a slash.
pub open spec fn joined(root: Seq<u8>, comps: Seq<Seq<u8>>) -> Seq<u8>
    decreases comps.len(),
{
    if comps.len() == 0 {
        root
    } else {
        joined(root, comps.drop_last()) + seq![SLASH] + comps.last()
    }
}

/// The filesystem path that `rel` names below `root`: the normalized join,
/// kept only when its first component is still `root`. A path may leave the
/// root and come back (`../static/x` below `static`); what counts is where
/// it ends.
pub open spec fn resolved(root: Seq<u8>, rel: Seq<u8>) -> Option<Seq<u8>> {
    match normalize(root, rel) {
        Some(comps) => if comps.len() >= 1 && comps[0] == root {
            Some(joined(root, comps.skip(1)))
        } else {
            None
        },
        None => None,
    }
}

/// The path exactly as the request joins it to `root`, before any
/// normalization: what must exist for the request to be served.
pub open spec fn requested(root: Seq<u8>, rel: Seq<u8>) -> Seq<u8> {
    root + seq![SLASH] + rel
}

pub open spec fn views(v: Seq<Vec<u8>>) -> Seq<Seq<u8>> {
    v.map_values(|x: Vec<u8>| x@)
}

proof fn lemma_segments_nonempty(s: Seq<u8>)
    ensures
        segments(s).len() >= 1,
    decreases s.len(),
{
    if s.len() > 0 {
        lemma_segments_nonempty(s.drop_last());
    }
}

/// Every component that normalization keeps is a plain one, or stands
/// where it stood in the starting stack.
pub proof fn lemma_normalized_plain(start: Seq<Seq<u8>>, segs: Seq<Seq<u8>>)
    requires
        forall|j: int| 0 <= j < segs.len() ==> !(#[trigger] segs[j]).contains(SLASH),
    ensures
        normalize_segments(start, segs) matches Some(comps) ==> forall|j: int|
            0 <= j < comps.len() ==> is_plain_component(#[trigger] comps[j]) || (j
                < start.len() && comps[j] == start[j]),
    decreases segs.len(),
{
    if segs.len() > 0 {
        let prev = segs.drop_last();
        assert forall|j: int| 0 <= j < prev.len() implies !(#[trigger] prev[j]).contains(SLASH) by {
            assert(prev[j] == segs[j]);
        }
        lemma_normalized_plain(start, prev);
        assert(segs.last() == segs[segs.len() - 1]);
        if let Some(st) = normalize_segments(start, prev) {
            let seg = segs.last();
            if !(seg.len() == 0 || is_current_dir(seg)) && !is_parent_dir(seg) {
                let nst = st.push(seg);
                assert forall|j: int| 0 <= j < nst.len() implies is_plain_component(
                    #[trigger] nst[j],
                ) || (j < start.len() && nst[j] == start[j]) by {
                    if j < st.len() {
                        assert(nst[j] == st[j]);
                    }
                }
            } else if is_parent_dir(seg) && st.len() > 0 {
                let nst = st.drop_last();
                assert forall|j: int| 0 <= j < nst.len() implies is_plain_component(
                    #[trigger] nst[j],
                ) || (j < start.len() && nst[j] == start[j]) by {
                    assert(nst[j] == st[j]);
                }
            }
        }
    }
}

/// No segment holds a slash.
pub proof fn lemma_segments_slash_free(s: Seq<u8>)
    ensures
        forall|j: int|
            0 <= j < segments(s).len() ==> !(#[trigger] segments(s)[j]).contains(SLASH),
    decreases s.len(),
{
    lemma_segments_nonempty(s);
    if s.len() > 0 {
        let prev = segments(s.drop_last());
        lemma_segments_slash_free(s.drop_last());
        lemma_segments_nonempty(s.drop_last());
        if s.last() == SLASH {
            assert forall|j: int| 0 <= j < segments(s).len() implies !(
            #[trigger] segments(s)[j]).contains(SLASH) by {
                if j < prev.len() {
                    assert(segments(s)[j] == prev[j]);
                } else {
                    assert(segments(s)[j] == Seq::<u8>::empty());
                }
            }
        } else {
            assert forall|j: int| 0 <= j < segments(s).len() implies !(
            #[trigger] segments(s)[j]).contains(SLASH) by {
                if j < prev.len() - 1 {
                    assert(segments(s)[j] == prev[j]);
                } else {
                    let last = prev.last();
                    assert(last == prev[prev.len() - 1]);
                    let ext = last.push(s.last());
                    assert(segments(s)[j] == ext);
                    if ext.contains(SLASH) {
                        let k = choose|k: int| 0 <= k < ext.len() && ext[k] == SLASH;
                        if k < last.len() {
                            assert(last[k] == SLASH);
                        }
                    }
                }
            }
        }
    }
}

fn is_current_dir_bytes(seg: &Vec<u8>) -> (r: bool)
    ensures
        r == is_current_dir(seg@),
{
    let r = seg.len() == 1 && seg[0] == DOT;
    if r {
        assert(seg@ =~= seq![DOT]);
    }
    r
}

fn is_parent_dir_bytes(seg: &Vec<u8>) -> (r: bool)
    ensures
        r == is_parent_dir(seg@),
{
    let r = seg.len() == 2 && seg[0] == DOT && seg[1] == DOT;
    if r {
        assert(seg@ =~= seq![DOT, DOT]);
    }
    r
}

/// A fresh copy of `b`.
pub fn copy_of(b: &[u8]) -> (r: Vec<u8>)
    ensures
        r@ == b@,
{
    let mut out: Vec<u8> = Vec::new();
    let mut i: usize = 0;
    while i < b.len()
        invariant
            i <= b@.len(),
            out@ == b@.take(i as int),
        decreases b@.len() - i,
    {
        out.push(b[i]);
        i = i + 1;
        assert(out@ =~= b@.take(i as int));
    }
    assert(b@.take(i as int) =~= b@);
    out
}

/// Normalizes `root` joined with the request path `rel` into its
/// components, or gives `None` when `rel` is absolute or climbs above the
/// directory that holds the root.
pub fn normalize_path(root: &[u8], rel: &[u8]) -> (r: Option<Vec<Vec<u8>>>)
    ensures
        match r {
            Some(v) => normalize(root@, rel@) == Some(views(v@)),
            None => normalize(root@, rel@) is None,
        },
{
    if rel.len() > 0 && rel[0] == SLASH {
        return None;
    }
    let mut stack: Vec<Vec<u8>> = Vec::new();
    stack.push(copy_of(root));
    let mut ok: bool = true;
    let mut cur: Vec<u8> = Vec::new();
    let mut i: usize = 0;
    proof {
        assert(rel@.take(0) =~= Seq::<u8>::empty());
        assert(segments(rel@.take(0)).drop_last() =~= Seq::<Seq<u8>>::empty());
        assert(views(stack@) =~= seq![root@]);
    }
    while i < rel.len()
        invariant
            i <= rel@.len(),
            segments(rel@.take(i as int)).len() >= 1,
            cur@ == segments(rel@.take(i as int)).last(),
            ok ==> normalize_segments(
                seq![root@],
                segments(rel@.take(i as int)).drop_last(),
            ) == Some(
                views(stack@),
            ),
            !ok ==> normalize_segments(
                seq![root@],
                segments(rel@.take(i as int)).drop_last(),
            ) is None,
        decreases rel@.len() - i,
    {
        let ghost before = segments(rel@.take(i as int));
        let b = rel[i];
        proof {
            assert(rel@.take(i + 1).drop_last() =~= rel@.take(i as int));
            assert(rel@.take(i + 1).last() == b);
        }
        if b == SLASH {
            if ok {
                if cur.len() == 0 || is_current_dir_bytes(&cur) {
                } else if is_parent_dir_bytes(&cur) {
                    if stack.len() == 0 {
                        ok = false;
                    } else {
                        let ghost old_stack = stack@;
                        stack.pop();
                        assert(views(stack@) =~= views(old_stack).drop_last());
                    }
                } else {
                    let ghost old_stack = stack@;
                    let seg = cur.clone();
                    stack.push(seg);
                    assert(views(stack@) =~= views(old_stack).push(cur@));
                }
            }
            cur = Vec::new();
            proof {
                let after = segments(rel@.take(i + 1));
                assert(after == before.push(Seq::empty()));
                assert(after.drop_last() =~= before);
                assert(before =~= before.drop_last().push(before.last()));
                lemma_segments_nonempty(rel@.take(i + 1));
                assert(cur@ =~= after.last());
            }
        } else {
            cur.push(b);
            proof {
                let after = segments(rel@.take(i + 1));
                assert(after == before.update(before.len() - 1, before.last().push(b)));
                assert(after.drop_last() =~= before.drop_last());
                assert(cur@ == after.last());
            }
        }
        i = i + 1;
    }
    proof {
        let all = segments(rel@.take(i as int));
        assert(rel@.take(i as int) =~= rel@);
        assert(all =~= all.drop_last().push(all.last()));
    }
    if !ok {
        return None;
    }
    if cur.len() == 0 || is_current_dir_bytes(&cur) {
    } else if is_parent_dir_bytes(&cur) {
        if stack.len() == 0 {
            return None;
        } else {
            let ghost old_stack = stack@;
            stack.pop();
            assert(views(stack@) =~= views(old_stack).drop_last());
        }
    } else {
        let ghost old_stack = stack@;
        stack.push(cur);
        assert(views(stack@) =~= views(old_stack).push(cur@));
    }
    Some(stack)
}

/// The last component of a path: what follows its last slash.
pub open spec fn file_name(path: Seq<u8>) -> Seq<u8> {
    path.skip(last_index_of(path, SLASH) + 1)
}

/// The extension of a path's file name: what follows the last dot of the
/// name, where that dot is not its first byte.
pub open spec fn extension(path: Seq<u8>) -> Option<Seq<u8>> {
    let name = file_name(path);
    let k = last_index_of(name, DOT);
    if k > 0 {
        Some(name.skip(k + 1))
    } else {
        None
    }
}

/// The media types that responses declare.
#[derive(Clone, Copy, Debug, PartialEq, Eq, Structural)]
pub enum ContentType {
    Html,
    Css,
    Javascript,
    Png,
    Jpeg,
    OctetStream,
}

/// The content type of a file, from its extension alone.
pub open spec fn content_type_for(ext: Option<Seq<u8>>) -> ContentType {
    match ext {
        Some(e) => if e == "html".spec_bytes() {
            ContentType::Html
        } else if e == "css".spec_bytes() {
            ContentType::Css
        } else if e == "js".spec_bytes() {
            ContentType::Javascript
        } else if e == "png".spec_bytes() {
            ContentType::Png
        } else if e == "jpg".spec_bytes() || e == "jpeg".spec_bytes() {
            ContentType::Jpeg
        } else {
            ContentType::OctetStream
        },
        None => ContentType::OctetStream,
    }
}

impl ContentType {
    /// The header value of this content type.
    pub open spec fn text(self) -> Seq<u8> {
        match self {
            ContentType::Html => "text/html".spec_bytes(),
            ContentType::Css => "text/css".spec_bytes(),
            ContentType::Javascript => "application/javascript".spec_bytes(),
            ContentType::Png => "image/png".spec_bytes(),
            ContentType::Jpeg => "image/jpeg".spec_bytes(),
            ContentType::OctetStream => "application/octet-stream".spec_bytes(),
        }
    }

    /// The header value of this content type.
    pub fn mime(&self) -> (r: &'static str)
        ensures
            r.spec_bytes() == self.text(),
    {
        match self {
            ContentType::Html => "text/html",
            ContentType::Css => "text/css",
            ContentType::Javascript => "application/javascript",
            ContentType::Png => "image/png",
            ContentType::Jpeg => "image/jpeg",
            ContentType::OctetStream => "application/octet-stream",
        }
    }
}

/// Finds the last `b` in `s`.
pub fn last_index(s: &[u8], b: u8) -> (r: Option<usize>)
    ensures
        match r {
            Some(k) => k < s@.len() && last_index_of(s@, b) == k,
            None => last_index_of(s@, b) == -1,
        },
{
    let mut i: usize = s.len();
    assert(s@.take(i as int) =~= s@);
    while i > 0
        invariant
            i <= s@.len(),
            last_index_of(s@, b) == last_index_of(s@.take(i as int), b),
        decreases i,
    {
        proof {
            assert(s@.take(i as int).drop_last() =~= s@.take(i - 1));
        }
        if s[i - 1] == b {
            return Some(i - 1);
        }
        i = i - 1;
    }
    None
}

/// Whether `s` from index `start` on equals `t`.
pub fn tail_equals(s: &[u8], start: usize, t: &[u8]) -> (r: bool)
    requires
        start <= s@.len(),
    ensures
        r == (s@.skip(start as int) == t@),
{
    if s.len() - start != t.len() {
        proof {
            if s@.skip(start as int) == t@ {
                assert(s@.skip(start as int).len() == t@.len());
            }
        }
        return false;
    }
    let n = s.len();
    let mut i: usize = 0;
    while i < t.len()
        invariant
            n == s@.len(),
            start <= s@.len(),
            start + t@.len() == s@.len(),
            i <= t@.len(),
            forall|j: int| 0 <= j < i ==> s@[start + j] == t@[j],
        decreases t@.len() - i,
    {
        if s[start + i] != t[i] {
            proof {
                assert(s@.skip(start as int)[i as int] != t@[i as int]);
            }
            return false;
        }
        i = i + 1;
    }
    assert(s@.skip(start as int) =~= t@);
    true
}

/// The extension of `path`, as the index where it starts.
pub fn extension_start(path: &[u8]) -> (r: Option<usize>)
    ensures
        match r {
            Some(k) => k <= path@.len() && extension(path@) == Some(path@.skip(k as int)),
            None => extension(path@) is None,
        },
{
    let n = path.len();
    let name_start: usize = match last_index(path, SLASH) {
        Some(k) => k + 1,
        None => 0,
    };
    let ghost name = file_name(path@);
    let mut i: usize = path.len();
    assert(name.take(i - name_start) =~= name);
    while i > name_start
        invariant
            n == path@.len(),
            name_start <= i <= path@.len(),
            name == path@.skip(name_start as int),
            name == file_name(path@),
            last_index_of(name, DOT) == last_index_of(name.take(i - name_start), DOT),
        decreases i,
    {
        proof {
            assert(name.take(i - name_start).drop_last() =~= name.take(i - 1 - name_start));
        }
        assert(name.take(i - name_start).last() == path@[i - 1]);
        if path[i - 1] == DOT {
            assert(last_index_of(name, DOT) == i - 1 - name_start);
            if i - 1 > name_start {
                assert(name.skip(i - name_start) =~= path@.skip(i as int));
                return Some(i);
            } else {
                return None;
            }
        }
        i = i - 1;
    }
    assert(name.take(0) =~= Seq::<u8>::empty());
    None
}

/// The content type of the file at `path`.
pub fn content_type_of(path: &[u8]) -> (r: ContentType)
    ensures
        r == content_type_for(extension(path@)),
{
    match extension_start(path) {
        None => ContentType::OctetStream,
        Some(k) => if tail_equals(path, k, "html".as_bytes()) {
            ContentType::Html
        } else if tail_equals(path, k, "css".as_bytes()) {
            ContentType::Css
        } else if tail_equals(path, k, "js".as_bytes()) {
            ContentType::Javascript
        } else if tail_equals(path, k, "png".as_bytes()) {
            ContentType::Png
        } else if tail_equals(path, k, "jpg".as_bytes()) || tail_equals(
            path,
            k,
            "jpeg".as_bytes(),
        ) {
            ContentType::Jpeg
        } else {
            ContentType::OctetStream
        },
    }
}

/// The path below `root` that the request path `rel` names, or `None` when
/// the normalized join does not end up below `root`.
pub fn resolve(root: &str, rel: &[u8]) -> (r: Option<Vec<u8>>)
    ensures
        match r {
            Some(p) => resolved(root.spec_bytes(), rel@) == Some(p@),
            None => resolved(root.spec_bytes(), rel@) is None,
        },
{
    let root_bytes = root.as_bytes();
    let comps = match normalize_path(root_bytes, rel) {
        Some(c) => c,
        None => return None,
    };
    if comps.len() == 0 {
        return None;
    }
    proof {
        assert(comps@[0]@.skip(0) =~= comps@[0]@);
        assert(views(comps@)[0] == comps@[0]@);
    }
    if !tail_equals(&comps[0], 0, root_bytes) {
        return None;
    }
    let mut out = copy_of(root_bytes);
    let ghost rest = views(comps@).skip(1);
    let mut c: usize = 1;
    assert(rest.take(0) =~= Seq::<Seq<u8>>::empty());
    while c < comps.len()
        invariant
            1 <= c <= comps@.len(),
            rest == views(comps@).skip(1),
            out@ == joined(root.spec_bytes(), rest.take(c - 1)),
        decreases comps@.len() - c,
    {
        let comp = &comps[c];
        out.push(SLASH);
        let mut j: usize = 0;
        let ghost base = out@;
        while j < comp.len()
            invariant
                j <= comp@.len(),
                out@ == base + comp@.take(j as int),
            decreases comp@.len() - j,
        {
            out.push(comp[j]);
            j = j + 1;
            assert(out@ =~= base + comp@.take(j as int));
        }
        proof {
            assert(comp@.take(j as int) =~= comp@);
            assert(rest.take(c as int).drop_last() =~= rest.take(c - 1));
            assert(rest.take(c as int).last() == comp@);
        }
        c = c + 1;
    }
    assert(rest.take(c - 1) =~= rest);
    Some(out)
}

/// The path exactly as the request joins it to `root`.
pub fn requested_path(root: &str, rel: &[u8]) -> (r: Vec<u8>)
    ensures
        r@ == requested(root.spec_bytes(), rel@),
{
    let mut out = copy_of(root.as_bytes());
    out.push(SLASH);
    let tail = copy_of(rel);
    let mut i: usize = 0;
    let ghost base = out@;
    while i < tail.len()
        invariant
            i <= tail@.len(),
            tail@ == rel@,
            out@ == base + rel@.take(i as int),
        decreases tail@.len() - i,
    {
        out.push(tail[i]);
        i = i + 1;
        assert(out@ =~= base + rel@.take(i as int));
    }
    assert(rel@.take(i as int) =~= rel@);
    out
}

} // verus!
