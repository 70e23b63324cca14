//! Where a watched path lives inside the working tree.
//!
//! A path is read as its components: the runs of characters between
//! separators, without the empty ones and without single dots. A watched path
//! is mapped by cutting off the components of its watch root and appending the
//! rest to the components of the repository root.

use crate::error::SyncError;
use vstd::prelude::*;

verus! {

/// The views of a sequence of strings.
pub open spec fn texts(strings: Seq<String>) -> Seq<Seq<char>> {
    strings.map_values(|s: String| s@)
}

pub open spec fn is_absolute(path: Seq<char>) -> bool {
    path.len() > 0 && path[0] == '/'
}

/// The segment `..`, which names the directory above.
pub open spec fn parent_ref() -> Seq<char> {
    seq!['.', '.']
}

/// The characters of `path` that follow its last separator.
pub open spec fn tail_segment(path: Seq<char>) -> Seq<char>
    decreases path.len(),
{
    if path.len() == 0 || path.last() == '/' {
        Seq::empty()
    } else {
        tail_segment(path.drop_last()).push(path.last())
    }
}

/// A segment as a list of components: itself, or nothing where it is empty or
/// a single dot.
pub open spec fn kept(segment: Seq<char>) -> Seq<Seq<char>> {
    if segment.len() == 0 || segment == seq!['.'] {
        Seq::empty()
    } else {
        seq![segment]
    }
}

/// The components of `path` that a separator has ended.
pub open spec fn closed_components(path: Seq<char>) -> Seq<Seq<char>>
    decreases path.len(),
{
    if path.len() == 0 {
        Seq::empty()
    } else if path.last() == '/' {
        closed_components(path.drop_last()) + kept(tail_segment(path.drop_last()))
    } else {
        closed_components(path.drop_last())
    }
}

/// The components of `path`, first to last.
pub open spec fn components(path: Seq<char>) -> Seq<Seq<char>> {
    closed_components(path) + kept(tail_segment(path))
}

/// What a component is: not empty, not a single dot, without a separator.
pub open spec fn is_component(part: Seq<char>) -> bool {
    &&& part.len() > 0
    &&& part != seq!['.']
    &&& !part.contains('/')
}

/// The path that has the components `parts`, with a leading separator where
/// it is absolute.
pub open spec fn rendered(absolute: bool, parts: Seq<Seq<char>>) -> Seq<char>
    decreases parts.len(),
{
    if parts.len() == 0 {
        if absolute {
            seq!['/']
        } else {
            Seq::empty()
        }
    } else if parts.len() == 1 {
        rendered(absolute, parts.drop_last()) + parts.last()
    } else {
        rendered(absolute, parts.drop_last()) + seq!['/'] + parts.last()
    }
}

/// What is left of `watched` below `root`.
pub open spec fn relative_part(watched: Seq<char>, root: Seq<char>) -> Seq<Seq<char>> {
    components(watched).skip(components(root).len() as int)
}

/// Whether `watched` is an absolute path strictly below `root` that never
/// steps up again once it has left `root`.
pub open spec fn lies_under(watched: Seq<char>, root: Seq<char>) -> bool {
    &&& is_absolute(watched)
    &&& components(root).len() < components(watched).len()
    &&& components(root).is_prefix_of(components(watched))
    &&& !relative_part(watched, root).contains(parent_ref())
}

/// Whether the components `place` lead strictly below the components `base`:
/// by at least one more, and by none that steps up.
pub open spec fn below(place: Seq<Seq<char>>, base: Seq<Seq<char>>) -> bool {
    &&& base.len() < place.len()
    &&& base.is_prefix_of(place)
    &&& !place.skip(base.len() as int).contains(parent_ref())
}

/// Whether `dest` is a place strictly inside the tree at `repo`.
pub open spec fn strictly_inside(dest: Seq<char>, repo: Seq<char>) -> bool {
    below(components(dest), components(repo))
}

/// The components of the place of `watched` in the working tree at `repo`.
pub open spec fn mapped_components(watched: Seq<char>, root: Seq<char>, repo: Seq<char>) -> Seq<
    Seq<char>,
> {
    components(repo) + relative_part(watched, root)
}

/// The place of `watched` in the working tree at `repo`.
pub open spec fn mapped_text(watched: Seq<char>, root: Seq<char>, repo: Seq<char>) -> Seq<char> {
    rendered(is_absolute(repo), mapped_components(watched, root, repo))
}

/// The directory that holds the place of `watched`.
pub open spec fn mapped_parent_text(watched: Seq<char>, root: Seq<char>, repo: Seq<char>) -> Seq<
    char,
> {
    rendered(is_absolute(repo), mapped_components(watched, root, repo).drop_last())
}

/// The first of `roots`, from position `from` on, that `watched` lies under;
/// the number of roots where there is none.
pub open spec fn anchor_from(watched: Seq<char>, roots: Seq<Seq<char>>, from: int) -> int
    decreases roots.len() - from,
{
    if from < 0 || from >= roots.len() {
        roots.len() as int
    } else if lies_under(watched, roots[from]) {
        from
    } else {
        anchor_from(watched, roots, from + 1)
    }
}

/// The watch root that `watched` is mapped by: the first that it lies under.
pub open spec fn anchor(watched: Seq<char>, roots: Seq<Seq<char>>) -> int {
    anchor_from(watched, roots, 0)
}

/// Whether some watch root gives `watched` a place in the working tree.
pub open spec fn mappable(watched: Seq<char>, roots: Seq<Seq<char>>) -> bool {
    anchor(watched, roots) < roots.len()
}

/// How one more character changes what has been read of a path.
proof fn lemma_read_char(path: Seq<char>, c: char)
    ensures
        c == '/' ==> tail_segment(path.push(c)) == Seq::<char>::empty() && closed_components(
            path.push(c),
        ) == closed_components(path) + kept(tail_segment(path)),
        c != '/' ==> tail_segment(path.push(c)) == tail_segment(path).push(c) && closed_components(
            path.push(c),
        ) == closed_components(path),
{
    assert(path.push(c).drop_last() == path);
    assert(path.push(c).last() == c);
}

fn chars_of(text: &str) -> (chars: Vec<char>)
    ensures
        chars@ == text@,
{
    let mut chars: Vec<char> = Vec::new();
    for c in it: text.chars()
        invariant
            it.seq() == text@,
            chars@ == it.seq().take(it.index() as int),
    {
        chars.push(c);
    }
    chars
}

/// Appends the segment `path[start..end]` to `parts` where it is a component.
fn keep_segment(parts: &mut Vec<String>, path: &str, chars: &Vec<char>, start: usize, end: usize)
    requires
        chars@ == path@,
        start <= end <= chars@.len(),
    ensures
        texts(final(parts)@) == texts(old(parts)@) + kept(
            path@.subrange(start as int, end as int),
        ),
{
    let ghost segment = path@.subrange(start as int, end as int);
    let len = end - start;
    if len == 0 || (len == 1 && chars[start] == '.') {
        assert(segment.len() == 0 || segment == seq!['.']) by {
            if len == 1 {
                assert(segment =~= seq!['.']);
            }
        }
        assert(texts(parts@) + kept(segment) =~= texts(parts@));
    } else {
        let piece = path.substring_char(start, end);
        assert(segment != seq!['.']) by {
            if segment == seq!['.'] {
                assert(segment.len() == 1);
                assert(segment[0] == '.');
            }
        }
        parts.push(String::from_str(piece));
        assert(texts(parts@) =~= texts(old(parts)@) + kept(segment));
    }
}

/// Splits a path into its components.
pub fn split_path(path: &str) -> (parts: Vec<String>)
    ensures
        texts(parts@) == components(path@),
{
    let chars = chars_of(path);
    let n = chars.len();
    let mut parts: Vec<String> = Vec::new();
    let mut start: usize = 0;
    let mut i: usize = 0;
    assert(path@.take(0) =~= Seq::<char>::empty());
    assert(path@.subrange(0, 0) =~= Seq::<char>::empty());
    assert(texts(parts@) =~= Seq::<Seq<char>>::empty());
    while i < n
        invariant
            chars@ == path@,
            n == chars@.len(),
            start <= i <= n,
            texts(parts@) == closed_components(path@.take(i as int)),
            path@.subrange(start as int, i as int) == tail_segment(path@.take(i as int)),
        decreases n - i,
    {
        proof {
            lemma_read_char(path@.take(i as int), path@[i as int]);
            assert(path@.take(i + 1) =~= path@.take(i as int).push(path@[i as int]));
        }
        if chars[i] == '/' {
            keep_segment(&mut parts, path, &chars, start, i);
            start = i + 1;
            assert(path@.subrange(start as int, i + 1) =~= Seq::<char>::empty());
        } else {
            assert(path@.subrange(start as int, i + 1) =~= path@.subrange(
                start as int,
                i as int,
            ).push(path@[i as int]));
        }
        i += 1;
    }
    assert(path@.take(n as int) =~= path@);
    keep_segment(&mut parts, path, &chars, start, n);
    parts
}


/// The tail segment of a path holds no separator.
proof fn lemma_tail_plain(path: Seq<char>)
    ensures
        !tail_segment(path).contains('/'),
    decreases path.len(),
{
    if path.len() == 0 || path.last() == '/' {
    } else {
        lemma_tail_plain(path.drop_last());
        let before = tail_segment(path.drop_last());
        assert forall|i: int| 0 <= i < before.push(path.last()).len() implies before.push(
            path.last(),
        )[i] != '/' by {
            if i < before.len() {
                assert(before.contains(before[i]));
            }
        }
    }
}

proof fn lemma_closed_are_components(path: Seq<char>)
    ensures
        forall|i: int|
            0 <= i < closed_components(path).len() ==> is_component(
                #[trigger] closed_components(path)[i],
            ),
    decreases path.len(),
{
    if path.len() > 0 {
        let before = closed_components(path.drop_last());
        let tail = tail_segment(path.drop_last());
        lemma_closed_are_components(path.drop_last());
        lemma_tail_plain(path.drop_last());
        assert forall|i: int| 0 <= i < closed_components(path).len() implies is_component(
            #[trigger] closed_components(path)[i],
        ) by {
            if i < before.len() {
                assert(closed_components(path)[i] == before[i]);
            } else {
                assert(closed_components(path)[i] == tail);
            }
        }
    }
}

/// Every component of a path is a component: not empty, not a single dot,
/// without a separator.
pub proof fn lemma_components_are_proper(path: Seq<char>)
    ensures
        forall|i: int|
            0 <= i < components(path).len() ==> is_component(#[trigger] components(path)[i]),
{
    lemma_closed_are_components(path);
    lemma_tail_plain(path);
}

/// Characters other than the separator lengthen the tail segment and end no
/// component.
proof fn lemma_append_plain(path: Seq<char>, more: Seq<char>)
    requires
        !more.contains('/'),
    ensures
        tail_segment(path + more) == tail_segment(path) + more,
        closed_components(path + more) == closed_components(path),
    decreases more.len(),
{
    if more.len() == 0 {
        assert(path + more =~= path);
        assert(tail_segment(path) + more =~= tail_segment(path));
    } else {
        let c = more.last();
        assert(more.contains(c));
        assert forall|i: int| 0 <= i < more.drop_last().len() implies more.drop_last()[i]
            != '/' by {
            assert(more.contains(more[i]));
        }
        lemma_append_plain(path, more.drop_last());
        lemma_read_char(path + more.drop_last(), c);
        assert(path + more =~= (path + more.drop_last()).push(c));
        assert(tail_segment(path) + more =~= (tail_segment(path) + more.drop_last()).push(c));
    }
}

/// Writing components out and reading them back gives the same components,
/// and the leading separator says whether the path is absolute.
pub proof fn lemma_rendered_reads_back(absolute: bool, parts: Seq<Seq<char>>)
    requires
        forall|i: int| 0 <= i < parts.len() ==> is_component(#[trigger] parts[i]),
    ensures
        components(rendered(absolute, parts)) == parts,
        is_absolute(rendered(absolute, parts)) == absolute,
    decreases parts.len(),
{
    let none = Seq::<char>::empty();
    if parts.len() == 0 {
        if absolute {
            lemma_read_char(none, '/');
            assert(none.push('/') =~= seq!['/']);
        }
        assert(components(rendered(absolute, parts)) =~= parts);
    } else {
        let head = rendered(absolute, parts.drop_last());
        let last = parts.last();
        lemma_rendered_reads_back(absolute, parts.drop_last());
        assert(is_component(last));
        if parts.len() == 1 {
            assert(parts.drop_last() =~= Seq::<Seq<char>>::empty());
            lemma_append_plain(head, last);
            if absolute {
                lemma_read_char(none, '/');
                assert(none.push('/') =~= seq!['/']);
                assert(tail_segment(head) + last =~= last);
            } else {
                assert(head + last =~= last);
                assert(tail_segment(head) + last =~= last);
                assert(last.contains(last[0]));
            }
            assert(components(head + last) =~= seq![last]);
            assert(seq![last] =~= parts);
        } else {
            lemma_read_char(head, '/');
            assert(head + seq!['/'] =~= head.push('/'));
            lemma_append_plain(head.push('/'), last);
            assert(tail_segment(head.push('/')) + last =~= last);
            assert(components(head) == parts.drop_last());
            assert(components(head + seq!['/'] + last) =~= parts.drop_last() + seq![last]);
            assert(parts.drop_last() + seq![last] =~= parts);
            assert(is_component(parts[0]));
            assert(parts.drop_last()[0] == parts[0]);
            assert(head.len() > 0) by {
                if !absolute {
                    assert(parts.drop_last().len() >= 1);
                    assert(components(head).len() >= 1);
                    if head.len() == 0 {
                        assert(components(head) =~= Seq::<Seq<char>>::empty());
                    }
                }
            }
            assert((head + seq!['/'] + last)[0] == head[0]);
        }
    }
}


/// A place in the working tree: the path of an entry and of the directory
/// that holds it.
pub struct Place {
    pub path: String,
    pub parent: String,
}

/// Writes the first `count` of `parts` out as a path.
fn render(absolute: bool, parts: &Vec<String>, count: usize) -> (out: String)
    requires
        count <= parts@.len(),
    ensures
        out@ == rendered(absolute, texts(parts@).take(count as int)),
{
    let mut out = if absolute {
        String::from_str("/")
    } else {
        String::new()
    };
    proof {
        reveal_strlit("/");
        assert("/"@ =~= seq!['/']);
        assert(texts(parts@).take(0) =~= Seq::<Seq<char>>::empty());
    }
    let mut i: usize = 0;
    while i < count
        invariant
            i <= count <= parts@.len(),
            "/"@ == seq!['/'],
            out@ == rendered(absolute, texts(parts@).take(i as int)),
        decreases count - i,
    {
        proof {
            let next = texts(parts@).take(i + 1);
            assert(next.drop_last() =~= texts(parts@).take(i as int));
            assert(next.last() == parts@[i as int]@);
        }
        if i > 0 {
            out.append("/");
        }
        out.append(parts[i].as_str());
        i += 1;
    }
    out
}

fn starts_at_root(path: &str) -> (absolute: bool)
    ensures
        absolute == is_absolute(path@),
{
    path.unicode_len() > 0 && path.get_char(0) == '/'
}

fn is_parent_ref(part: &str) -> (up: bool)
    ensures
        up == (part@ == parent_ref()),
{
    let up = part.unicode_len() == 2 && part.get_char(0) == '.' && part.get_char(1) == '.';
    proof {
        if up {
            assert(part@ =~= parent_ref());
        }
    }
    up
}

/// Maps `watched`, reported below the watch root `root`, to its place in the
/// working tree at `repo`. There is none unless `watched` lies under `root`.
pub fn map_path(watched: &str, root: &str, repo: &str) -> (place: Option<Place>)
    ensures
        place is Some <==> lies_under(watched@, root@),
        place matches Some(p) ==> {
            &&& p.path@ == mapped_text(watched@, root@, repo@)
            &&& p.parent@ == mapped_parent_text(watched@, root@, repo@)
        },
{
    if !starts_at_root(watched) {
        return None;
    }
    let whole = split_path(watched);
    let base = split_path(root);
    if base.len() >= whole.len() {
        return None;
    }
    let ghost w = components(watched@);
    let ghost r = components(root@);
    let mut i: usize = 0;
    while i < base.len()
        invariant
            i <= base@.len() < whole@.len(),
            texts(whole@) == w,
            texts(base@) == r,
            w == components(watched@),
            r == components(root@),
            forall|j: int| 0 <= j < i ==> w[j] == r[j],
        decreases base@.len() - i,
    {
        assert(w[i as int] == whole@[i as int]@);
        assert(r[i as int] == base@[i as int]@);
        if !(whole[i] == base[i]) {
            proof {
                if r.is_prefix_of(w) {
                    assert(w.subrange(0, r.len() as int)[i as int] == w[i as int]);
                }
            }
            return None;
        }
        i += 1;
    }
    assert(r.is_prefix_of(w)) by {
        assert(r =~= w.subrange(0, r.len() as int));
    }
    let ghost rel = relative_part(watched@, root@);
    let mut all = split_path(repo);
    let mut k: usize = base.len();
    while k < whole.len()
        invariant
            base@.len() <= k <= whole@.len(),
            texts(whole@) == w,
            texts(base@) == r,
            rel == relative_part(watched@, root@),
            rel == w.skip(r.len() as int),
            texts(all@) == components(repo@) + rel.take(k - base@.len()),
            forall|j: int| 0 <= j < k - base@.len() ==> rel[j] != parent_ref(),
        decreases whole@.len() - k,
    {
        assert(w[k as int] == whole@[k as int]@);
        assert(rel[k - base@.len()] == w[k as int]);
        if is_parent_ref(whole[k].as_str()) {
            assert(rel.contains(parent_ref()));
            return None;
        }
        let part = whole[k].clone();
        let ghost before = all@;
        all.push(part);
        assert(texts(all@) =~= texts(before).push(part@));
        assert(rel.take(k + 1 - base@.len()) =~= rel.take(k - base@.len()).push(w[k as int]));
        assert(texts(all@) =~= components(repo@) + rel.take(k + 1 - base@.len()));
        k += 1;
    }
    assert(rel.take(rel.len() as int) =~= rel);
    let absolute = starts_at_root(repo);
    let path = render(absolute, &all, all.len());
    let parent = render(absolute, &all, all.len() - 1);
    proof {
        assert(texts(all@).take(all@.len() as int) =~= texts(all@));
        assert(texts(all@).take(all@.len() - 1) =~= texts(all@).drop_last());
    }
    Some(Place { path, parent })
}

/// Maps `watched` by the first of `roots` that it lies under. A path that
/// lies under none of them has no place in the working tree.
pub fn map_watched(watched: &str, roots: &Vec<String>, repo: &str) -> (place: Result<
    Place,
    SyncError,
>)
    ensures
        place is Ok <==> mappable(watched@, texts(roots@)),
        place matches Ok(p) ==> {
            let root = texts(roots@)[anchor(watched@, texts(roots@))];
            &&& p.path@ == mapped_text(watched@, root, repo@)
            &&& p.parent@ == mapped_parent_text(watched@, root, repo@)
        },
        place matches Err(e) ==> e == SyncError::InvalidPath,
{
    let ghost all = texts(roots@);
    let mut i: usize = 0;
    while i < roots.len()
        invariant
            i <= roots@.len(),
            all == texts(roots@),
            anchor(watched@, all) == anchor_from(watched@, all, i as int),
        decreases roots@.len() - i,
    {
        assert(all[i as int] == roots@[i as int]@);
        match map_path(watched, roots[i].as_str(), repo) {
            Some(place) => {
                return Ok(place);
            },
            None => {},
        }
        i += 1;
    }
    Err(SyncError::InvalidPath)
}

/// The place of a watched path lies strictly inside the working tree: its
/// components are those of the repository root, then at least one more, and
/// none of the added ones steps up. The directory that holds it is the
/// repository root or lies inside it.
pub proof fn lemma_place_is_inside(watched: Seq<char>, root: Seq<char>, repo: Seq<char>)
    requires
        lies_under(watched, root),
    ensures
        components(mapped_text(watched, root, repo)) == components(repo) + relative_part(
            watched,
            root,
        ),
        relative_part(watched, root).len() > 0,
        !relative_part(watched, root).contains(parent_ref()),
        is_absolute(mapped_text(watched, root, repo)) == is_absolute(repo),
        components(mapped_parent_text(watched, root, repo)) == components(repo) + relative_part(
            watched,
            root,
        ).drop_last(),
        components(mapped_text(watched, root, repo)).last() == components(watched).last(),
{
    let rel = relative_part(watched, root);
    let all = mapped_components(watched, root, repo);
    lemma_components_are_proper(watched);
    lemma_components_are_proper(repo);
    assert forall|i: int| 0 <= i < all.len() implies is_component(#[trigger] all[i]) by {
        if i >= components(repo).len() {
            assert(all[i] == components(watched)[i - components(repo).len() + components(
                root,
            ).len()]);
        }
    }
    lemma_rendered_reads_back(is_absolute(repo), all);
    lemma_rendered_reads_back(is_absolute(repo), all.drop_last());
    assert(all.drop_last() =~= components(repo) + rel.drop_last());
}

/// Two watched paths under one root keep their relation in the working tree:
/// one place lies within the other exactly where the watched paths do, so
/// paths that are disjoint are mapped to places that are disjoint.
pub proof fn lemma_mapping_keeps_nesting(
    outer: Seq<char>,
    inner: Seq<char>,
    root: Seq<char>,
    repo: Seq<char>,
)
    requires
        lies_under(outer, root),
        lies_under(inner, root),
    ensures
        components(mapped_text(outer, root, repo)).is_prefix_of(
            components(mapped_text(inner, root, repo)),
        ) <==> components(outer).is_prefix_of(components(inner)),
{
    lemma_place_is_inside(outer, root, repo);
    lemma_place_is_inside(inner, root, repo);
    let base = components(repo);
    let r = components(root);
    let a = components(outer);
    let b = components(inner);
    let ra = relative_part(outer, root);
    let rb = relative_part(inner, root);
    let pa = base + ra;
    let pb = base + rb;
    if a.is_prefix_of(b) {
        assert(pa =~= pb.subrange(0, pa.len() as int)) by {
            assert forall|i: int| 0 <= i < pa.len() implies pa[i] == pb[i] by {
                if i >= base.len() {
                    let j = i - base.len() + r.len();
                    assert(b.subrange(0, a.len() as int)[j] == b[j]);
                }
            }
        }
    }
    if pa.is_prefix_of(pb) {
        assert(a =~= b.subrange(0, a.len() as int)) by {
            assert forall|i: int| 0 <= i < a.len() implies a[i] == b[i] by {
                if i < r.len() {
                    assert(a.subrange(0, r.len() as int)[i] == a[i]);
                    assert(b.subrange(0, r.len() as int)[i] == b[i]);
                } else {
                    let j = i - r.len() + base.len();
                    assert(pb.subrange(0, pa.len() as int)[j] == pb[j]);
                    assert(pa[j] == ra[i - r.len()]);
                    assert(pb[j] == rb[i - r.len()]);
                }
            }
        }
    }
}


/// No watched path is mapped out of the working tree.
pub proof fn lemma_no_escape(watched: Seq<char>, root: Seq<char>, repo: Seq<char>)
    requires
        lies_under(watched, root),
    ensures
        strictly_inside(mapped_text(watched, root, repo), repo),
{
    lemma_place_is_inside(watched, root, repo);
    let dest = components(mapped_text(watched, root, repo));
    let base = components(repo);
    assert(dest.subrange(0, base.len() as int) =~= base);
    assert(dest.skip(base.len() as int) =~= relative_part(watched, root));
}

/// The watch root that maps a path is the first that the path lies under.
pub proof fn lemma_anchor(watched: Seq<char>, roots: Seq<Seq<char>>)
    ensures
        0 <= anchor(watched, roots) <= roots.len(),
        mappable(watched, roots) ==> lies_under(watched, roots[anchor(watched, roots)]),
        forall|j: int| 0 <= j < anchor(watched, roots) ==> !lies_under(watched, #[trigger] roots[j]),
{
    lemma_anchor_from(watched, roots, 0);
}

proof fn lemma_anchor_from(watched: Seq<char>, roots: Seq<Seq<char>>, from: int)
    requires
        0 <= from <= roots.len(),
    ensures
        from <= anchor_from(watched, roots, from) <= roots.len(),
        anchor_from(watched, roots, from) < roots.len() ==> lies_under(
            watched,
            roots[anchor_from(watched, roots, from)],
        ),
        forall|j: int|
            from <= j < anchor_from(watched, roots, from) ==> !lies_under(
                watched,
                #[trigger] roots[j],
            ),
    decreases roots.len() - from,
{
    if from < roots.len() && !lies_under(watched, roots[from]) {
        lemma_anchor_from(watched, roots, from + 1);
    }
}

} // verus!
