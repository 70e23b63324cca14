//! What the mirror comes to: a model of the files that the commands touch,
//! and the law that a batch of changes leaves the working tree in step with
//! the watched tree.
//!
//! The model holds files only, each under the components of its path; a
//! directory is there as long as a file lies below it. The effect of a
//! command is what its description says of a file system that carries it out
//! without failure.

use crate::event::Change;
use crate::mirror::{
    copy_of, lemma_planned_within, planned, planned_ops, refused, removal_of, Command, Mirror,
};
use crate::path::{
    anchor, components, lemma_place_is_inside, lies_under, mappable, relative_part,
};
use vstd::prelude::*;

verus! {

/// Whether some file of `files` lies strictly below `path`.
pub open spec fn is_dir(files: Map<Seq<Seq<char>>, Seq<u8>>, path: Seq<Seq<char>>) -> bool {
    exists|key: Seq<Seq<char>>|
        #[trigger] files.dom().contains(key) && path.is_prefix_of(key) && path.len() < key.len()
}

/// `files` without what lies at or below `dir`.
pub open spec fn erased(files: Map<Seq<Seq<char>>, Seq<u8>>, dir: Seq<Seq<char>>) -> Map<
    Seq<Seq<char>>,
    Seq<u8>,
> {
    Map::new(
        |key: Seq<Seq<char>>| files.dom().contains(key) && !dir.is_prefix_of(key),
        |key: Seq<Seq<char>>| files[key],
    )
}

/// The path below `src` that stands where `key` stands below `dst`.
pub open spec fn counterpart(key: Seq<Seq<char>>, src: Seq<Seq<char>>, dst: Seq<Seq<char>>) -> Seq<
    Seq<char>,
> {
    src + key.skip(dst.len() as int)
}

/// `files` with every file at or below `src` copied to its counterpart at or
/// below `dst`, replacing what is there.
pub open spec fn overlaid(
    files: Map<Seq<Seq<char>>, Seq<u8>>,
    src: Seq<Seq<char>>,
    dst: Seq<Seq<char>>,
) -> Map<Seq<Seq<char>>, Seq<u8>> {
    Map::new(
        |key: Seq<Seq<char>>|
            files.dom().contains(key) || (dst.is_prefix_of(key) && files.dom().contains(
                counterpart(key, src, dst),
            )),
        |key: Seq<Seq<char>>|
            if dst.is_prefix_of(key) && files.dom().contains(counterpart(key, src, dst)) {
                files[counterpart(key, src, dst)]
            } else {
                files[key]
            },
    )
}

impl Command {
    /// The files once the command has been carried out.
    pub open spec fn applied(self, files: Map<Seq<Seq<char>>, Seq<u8>>) -> Map<
        Seq<Seq<char>>,
        Seq<u8>,
    > {
        match self {
            Command::CopyTree { from, .. } => overlaid(files, components(from), self.target()),
            Command::CopyFile { from, to, .. } => if files.dom().contains(components(from)) {
                files.insert(components(to), files[components(from)])
            } else {
                files
            },
            Command::RemoveTree { path } => erased(files, components(path)),
            Command::RemoveFile { path } => files.remove(components(path)),
        }
    }
}

impl Mirror {
    /// The files once the mutation has been made: the path is probed and the
    /// command that is chosen is carried out.
    pub open spec fn applied(self, files: Map<Seq<Seq<char>>, Seq<u8>>) -> Map<
        Seq<Seq<char>>,
        Seq<u8>,
    > {
        self.command(is_dir(files, components(self.probe()))).applied(files)
    }
}

/// Whether file or directory, a copy brings everything at or below the
/// watched entry to its place.
pub proof fn lemma_copy_overlays(op: Mirror, repo: Seq<char>, files: Map<Seq<Seq<char>>, Seq<u8>>)
    requires
        op is CopyInto,
        op.within(repo),
    ensures
        op.applied(files) == overlaid(files, components(op.probe()), components(op.dest())),
{
    let src = components(op.probe());
    let dst = components(op.dest());
    let after = overlaid(files, src, dst);
    assert(dst.drop_last().push(dst.last()) =~= dst);
    if !is_dir(files, src) {
        assert(counterpart(dst, src, dst) =~= src);
        assert forall|key: Seq<Seq<char>>|
            dst.is_prefix_of(key) && files.dom().contains(
                #[trigger] counterpart(key, src, dst),
            ) implies key == dst by {
            let twin = counterpart(key, src, dst);
            assert(src.is_prefix_of(twin)) by {
                assert(twin.subrange(0, src.len() as int) =~= src);
            }
            if key.len() == dst.len() {
                assert(key =~= key.subrange(0, dst.len() as int));
            }
        }
        assert(op.applied(files) =~= after);
    }
}

/// Whether file or directory, a removal leaves nothing at or below its place.
pub proof fn lemma_removal_erases(op: Mirror, files: Map<Seq<Seq<char>>, Seq<u8>>)
    requires
        op is RemoveFrom,
    ensures
        op.applied(files) == erased(files, components(op.dest())),
{
    let dst = components(op.dest());
    if !is_dir(files, dst) {
        assert forall|key: Seq<Seq<char>>| #[trigger]
            files.dom().contains(key) && dst.is_prefix_of(key) implies key == dst by {
            if key.len() == dst.len() {
                assert(key =~= key.subrange(0, dst.len() as int));
            }
        }
        assert(op.applied(files) =~= erased(files, dst));
    }
}


/// The files once the mutations `ops` have been made, first to last.
pub open spec fn run(ops: Seq<Mirror>, files: Map<Seq<Seq<char>>, Seq<u8>>) -> Map<
    Seq<Seq<char>>,
    Seq<u8>,
>
    decreases ops.len(),
{
    if ops.len() == 0 {
        files
    } else {
        ops.last().applied(run(ops.drop_last(), files))
    }
}

proof fn lemma_run_append(
    first: Seq<Mirror>,
    then: Seq<Mirror>,
    files: Map<Seq<Seq<char>>, Seq<u8>>,
)
    ensures
        run(first + then, files) == run(then, run(first, files)),
    decreases then.len(),
{
    if then.len() == 0 {
        assert(first + then =~= first);
    } else {
        assert((first + then).drop_last() =~= first + then.drop_last());
        lemma_run_append(first, then.drop_last(), files);
    }
}

/// What one event comes to in the files, with the watch root `root` and the
/// working tree at `repo`: a creation brings what is at or below the watched
/// path to its place, a removal leaves nothing at or below the place, a
/// rename does the one to the old place and then the other to the new, a
/// write changes nothing.
pub open spec fn effect(
    event: Change,
    root: Seq<char>,
    repo: Seq<char>,
    files: Map<Seq<Seq<char>>, Seq<u8>>,
) -> Map<Seq<Seq<char>>, Seq<u8>> {
    let r = components(root);
    let b = components(repo);
    match event {
        Change::Created(path) => overlaid(
            files,
            r + relative_part(path, root),
            b + relative_part(path, root),
        ),
        Change::Modified(_) => files,
        Change::Removed(path) => erased(files, b + relative_part(path, root)),
        Change::Renamed(from, to) => overlaid(
            erased(files, b + relative_part(from, root)),
            r + relative_part(to, root),
            b + relative_part(to, root),
        ),
    }
}

/// Whether every path of `event` lies under `root`.
pub open spec fn watched(event: Change, root: Seq<char>) -> bool {
    match event {
        Change::Created(path) => lies_under(path, root),
        Change::Modified(path) => lies_under(path, root),
        Change::Removed(path) => lies_under(path, root),
        Change::Renamed(from, to) => lies_under(from, root) && lies_under(to, root),
    }
}

proof fn lemma_single_root(path: Seq<char>, root: Seq<char>, repo: Seq<char>)
    requires
        lies_under(path, root),
    ensures
        mappable(path, seq![root]),
        anchor(path, seq![root]) == 0,
        components(path) == components(root) + relative_part(path, root),
        components(copy_of(path, seq![root], repo).probe()) == components(root) + relative_part(
            path,
            root,
        ),
        components(copy_of(path, seq![root], repo).dest()) == components(repo) + relative_part(
            path,
            root,
        ),
        forall|renaming: bool|
            components((#[trigger] removal_of(path, seq![root], repo, renaming)).dest())
                == components(repo) + relative_part(path, root),
{
    lemma_place_is_inside(path, root, repo);
    assert(components(path) =~= components(root) + relative_part(path, root));
}

/// The mutations that are planned for an event under a single watch root
/// come to the effect of the event.
pub proof fn lemma_plan_has_effect(
    event: Change,
    root: Seq<char>,
    repo: Seq<char>,
    files: Map<Seq<Seq<char>>, Seq<u8>>,
)
    requires
        watched(event, root),
    ensures
        planned(event, seq![root], repo) is Ok,
        run(planned(event, seq![root], repo)->Ok_0, files) == effect(event, root, repo, files),
{
    let roots = seq![root];
    let ops = planned(event, roots, repo)->Ok_0;
    let none = Seq::<Mirror>::empty();
    lemma_planned_within(event, roots, repo);
    assert(run(none, files) == files);
    match event {
        Change::Created(path) => {
            lemma_single_root(path, root, repo);
            assert(ops.drop_last() =~= none);
            assert(ops[0].within(repo));
            lemma_copy_overlays(ops[0], repo, files);
        },
        Change::Modified(_) => {
            assert(ops =~= none);
        },
        Change::Removed(path) => {
            lemma_single_root(path, root, repo);
            assert(ops.drop_last() =~= none);
            lemma_removal_erases(ops[0], files);
        },
        Change::Renamed(from, to) => {
            lemma_single_root(from, root, repo);
            lemma_single_root(to, root, repo);
            let first = seq![ops[0]];
            assert(ops.drop_last() =~= first);
            assert(first.drop_last() =~= none);
            lemma_removal_erases(ops[0], files);
            assert(run(first, files) == ops[0].applied(files));
            assert(ops[1].within(repo));
            lemma_copy_overlays(ops[1], repo, run(first, files));
        },
    }
}

/// What a batch of events comes to in the files, first to last.
pub open spec fn mirrored(
    events: Seq<Change>,
    root: Seq<char>,
    repo: Seq<char>,
    files: Map<Seq<Seq<char>>, Seq<u8>>,
) -> Map<Seq<Seq<char>>, Seq<u8>>
    decreases events.len(),
{
    if events.len() == 0 {
        files
    } else {
        effect(events.last(), root, repo, mirrored(events.drop_last(), root, repo, files))
    }
}

/// The mutations that are planned for a batch under a single watch root come
/// to the effects of its events, and none of the events is refused.
pub proof fn lemma_batch_has_effect(
    events: Seq<Change>,
    root: Seq<char>,
    repo: Seq<char>,
    files: Map<Seq<Seq<char>>, Seq<u8>>,
)
    requires
        forall|i: int| 0 <= i < events.len() ==> watched(#[trigger] events[i], root),
    ensures
        run(planned_ops(events, seq![root], repo), files) == mirrored(events, root, repo, files),
        refused(events, seq![root], repo) == 0,
    decreases events.len(),
{
    if events.len() > 0 {
        let front = events.drop_last();
        assert forall|i: int| 0 <= i < front.len() implies watched(#[trigger] front[i], root) by {
            assert(front[i] == events[i]);
        }
        lemma_batch_has_effect(front, root, repo, files);
        assert(watched(events[events.len() - 1], root));
        lemma_plan_has_effect(events.last(), root, repo, mirrored(front, root, repo, files));
        lemma_run_append(
            planned_ops(front, seq![root], repo),
            planned(events.last(), seq![root], repo)->Ok_0,
            files,
        );
    }
}


/// Whether `left` and `right` hold the same at `key`: no file, or the same
/// file.
pub open spec fn same_at(
    left: Map<Seq<Seq<char>>, Seq<u8>>,
    right: Map<Seq<Seq<char>>, Seq<u8>>,
    key: Seq<Seq<char>>,
) -> bool {
    &&& left.dom().contains(key) <==> right.dom().contains(key)
    &&& left.dom().contains(key) ==> left[key] == right[key]
}

/// Whether the working tree is in step with the watched tree at the path
/// `below` both roots: there is a file in the one exactly where there is one
/// in the other, and it holds the same bytes.
pub open spec fn in_step(
    files: Map<Seq<Seq<char>>, Seq<u8>>,
    root: Seq<char>,
    repo: Seq<char>,
    below: Seq<Seq<char>>,
) -> bool {
    &&& files.dom().contains(components(repo) + below) <==> files.dom().contains(
        components(root) + below,
    )
    &&& files.dom().contains(components(root) + below) ==> files[components(repo) + below]
        == files[components(root) + below]
}

/// Whether `event` speaks of the path `below` the watch root, or of a
/// directory above it.
pub open spec fn reaches(event: Change, root: Seq<char>, below: Seq<Seq<char>>) -> bool {
    match event {
        Change::Created(path) => relative_part(path, root).is_prefix_of(below),
        Change::Modified(path) => relative_part(path, root).is_prefix_of(below),
        Change::Removed(path) => relative_part(path, root).is_prefix_of(below),
        Change::Renamed(from, to) => relative_part(from, root).is_prefix_of(below)
            || relative_part(to, root).is_prefix_of(below),
    }
}

/// Whether one of `events` reaches the path `below` the watch root.
pub open spec fn covered(events: Seq<Change>, root: Seq<char>, below: Seq<Seq<char>>) -> bool
    decreases events.len(),
{
    if events.len() == 0 {
        false
    } else {
        covered(events.drop_last(), root, below) || reaches(events.last(), root, below)
    }
}

/// Whether nothing of `files` lies at or below `dir`.
pub open spec fn vacant(files: Map<Seq<Seq<char>>, Seq<u8>>, dir: Seq<Seq<char>>) -> bool {
    forall|key: Seq<Seq<char>>| dir.is_prefix_of(key) ==> !(#[trigger] files.dom().contains(key))
}

/// Whether `event` records a change between a working tree that was in step
/// and the watched tree as `files` hold it: what was created has no place in
/// the working tree yet, what was removed is gone from the watched tree, what
/// was renamed is gone under its old name and has no place yet under its new
/// one, and the two names are apart. A write records no such change.
pub open spec fn records(
    event: Change,
    root: Seq<char>,
    repo: Seq<char>,
    files: Map<Seq<Seq<char>>, Seq<u8>>,
) -> bool {
    let r = components(root);
    let b = components(repo);
    match event {
        Change::Created(path) => vacant(files, b + relative_part(path, root)),
        Change::Modified(_) => false,
        Change::Removed(path) => vacant(files, r + relative_part(path, root)),
        Change::Renamed(from, to) => {
            &&& vacant(files, r + relative_part(from, root))
            &&& vacant(files, b + relative_part(to, root))
            &&& !relative_part(from, root).is_prefix_of(relative_part(to, root))
            &&& !relative_part(to, root).is_prefix_of(relative_part(from, root))
        },
    }
}

/// Whether `events` are changes on disjoint paths under `root`, each a
/// record of what has happened: no path lies at or below the paths of two of
/// them.
pub open spec fn orderly(
    events: Seq<Change>,
    root: Seq<char>,
    repo: Seq<char>,
    files: Map<Seq<Seq<char>>, Seq<u8>>,
) -> bool
    decreases events.len(),
{
    if events.len() == 0 {
        true
    } else {
        &&& orderly(events.drop_last(), root, repo, files)
        &&& watched(events.last(), root)
        &&& records(events.last(), root, repo, files)
        &&& forall|below: Seq<Seq<char>>| #[trigger]
            reaches(events.last(), root, below) ==> !covered(events.drop_last(), root, below)
    }
}

/// A prefix with something behind it starts a sequence exactly where the
/// prefix starts it and the rest starts what is left.
proof fn lemma_prefix_split(base: Seq<Seq<char>>, rest: Seq<Seq<char>>, key: Seq<Seq<char>>)
    ensures
        (base + rest).is_prefix_of(key) <==> base.is_prefix_of(key) && rest.is_prefix_of(
            key.skip(base.len() as int),
        ),
{
    if (base + rest).is_prefix_of(key) {
        assert(base =~= key.subrange(0, base.len() as int)) by {
            assert forall|i: int| 0 <= i < base.len() implies base[i] == key[i] by {
                assert((base + rest)[i] == key.subrange(0, (base + rest).len() as int)[i]);
            }
        }
        assert(rest =~= key.skip(base.len() as int).subrange(0, rest.len() as int)) by {
            assert forall|i: int| 0 <= i < rest.len() implies rest[i] == key[base.len() + i] by {
                assert((base + rest)[base.len() + i] == key.subrange(
                    0,
                    (base + rest).len() as int,
                )[base.len() + i]);
            }
        }
    }
    if base.is_prefix_of(key) && rest.is_prefix_of(key.skip(base.len() as int)) {
        assert(base + rest =~= key.subrange(0, (base + rest).len() as int)) by {
            assert forall|i: int| 0 <= i < (base + rest).len() implies (base + rest)[i]
                == key[i] by {
                if i < base.len() {
                    assert(base[i] == key.subrange(0, base.len() as int)[i]);
                } else {
                    assert(rest[i - base.len()] == key.skip(base.len() as int).subrange(
                        0,
                        rest.len() as int,
                    )[i - base.len()]);
                }
            }
        }
    }
}

/// Two sequences that start the same sequence start one another.
proof fn lemma_prefixes_compare(one: Seq<Seq<char>>, other: Seq<Seq<char>>, key: Seq<Seq<char>>)
    requires
        one.is_prefix_of(key),
        other.is_prefix_of(key),
    ensures
        one.is_prefix_of(other) || other.is_prefix_of(one),
{
    if one.len() <= other.len() {
        assert(one =~= other.subrange(0, one.len() as int)) by {
            assert forall|i: int| 0 <= i < one.len() implies one[i] == other[i] by {
                assert(one[i] == key.subrange(0, one.len() as int)[i]);
                assert(other[i] == key.subrange(0, other.len() as int)[i]);
            }
        }
    } else {
        assert(other =~= one.subrange(0, other.len() as int)) by {
            assert forall|i: int| 0 <= i < other.len() implies one[i] == other[i] by {
                assert(one[i] == key.subrange(0, one.len() as int)[i]);
                assert(other[i] == key.subrange(0, other.len() as int)[i]);
            }
        }
    }
}

/// How a key at or below `base + rest` is placed: its counterpart below
/// `from + rest` is what stands behind `base` in it, put behind `from`.
proof fn lemma_counterpart(
    key: Seq<Seq<char>>,
    from: Seq<Seq<char>>,
    base: Seq<Seq<char>>,
    rest: Seq<Seq<char>>,
)
    requires
        (base + rest).is_prefix_of(key),
    ensures
        counterpart(key, from + rest, base + rest) == from + key.skip(base.len() as int),
        base + key.skip(base.len() as int) == key,
{
    lemma_prefix_split(base, rest, key);
    let below = key.skip(base.len() as int);
    assert(below.skip(rest.len() as int) =~= key.skip((base + rest).len() as int));
    assert(rest + below.skip(rest.len() as int) =~= below) by {
        assert forall|i: int| 0 <= i < rest.len() implies rest[i] == below[i] by {
            assert(rest[i] == below.subrange(0, rest.len() as int)[i]);
        }
    }
    assert(counterpart(key, from + rest, base + rest) =~= from + below);
    assert(base + below =~= key) by {
        assert forall|i: int| 0 <= i < base.len() implies base[i] == key[i] by {
            assert(base[i] == key.subrange(0, base.len() as int)[i]);
        }
    }
}


/// What holds at `key` of the files `after` a batch, against the `files`
/// before it: where the key lies in the working tree and the batch reaches it
/// (`reached`), it holds what the watched tree holds at its counterpart;
/// everywhere else it holds what it held.
pub open spec fn placed(
    after: Map<Seq<Seq<char>>, Seq<u8>>,
    files: Map<Seq<Seq<char>>, Seq<u8>>,
    r: Seq<Seq<char>>,
    b: Seq<Seq<char>>,
    key: Seq<Seq<char>>,
    reached: bool,
) -> bool {
    if b.is_prefix_of(key) && reached {
        &&& after.dom().contains(key) <==> files.dom().contains(r + key.skip(b.len() as int))
        &&& after.dom().contains(key) ==> after[key] == files[r + key.skip(b.len() as int)]
    } else {
        same_at(after, files, key)
    }
}

/// One or the other.
pub open spec fn either(one: bool, other: bool) -> bool {
    one || other
}

proof fn lemma_outside(r: Seq<Seq<char>>, b: Seq<Seq<char>>, below: Seq<Seq<char>>)
    requires
        !r.is_prefix_of(b),
        !b.is_prefix_of(r),
    ensures
        !b.is_prefix_of(r + below),
        (r + below).skip(r.len() as int) == below,
        r.is_prefix_of(r + below),
{
    assert((r + below).subrange(0, r.len() as int) =~= r);
    assert((r + below).skip(r.len() as int) =~= below);
    if b.is_prefix_of(r + below) {
        lemma_prefixes_compare(b, r, r + below);
    }
}

/// One copy more: what was placed stays placed, and what lies at or below
/// the new place holds what the watched tree holds there.
proof fn lemma_copy_places(
    before: Map<Seq<Seq<char>>, Seq<u8>>,
    files: Map<Seq<Seq<char>>, Seq<u8>>,
    r: Seq<Seq<char>>,
    b: Seq<Seq<char>>,
    rest: Seq<Seq<char>>,
    cover: spec_fn(Seq<Seq<char>>) -> bool,
)
    requires
        !r.is_prefix_of(b),
        !b.is_prefix_of(r),
        forall|key: Seq<Seq<char>>| #[trigger]
            placed(before, files, r, b, key, cover(key.skip(b.len() as int))),
        vacant(files, b + rest),
        forall|below: Seq<Seq<char>>| rest.is_prefix_of(below) ==> !(#[trigger] cover(below)),
    ensures
        forall|key: Seq<Seq<char>>| #[trigger]
            placed(
                overlaid(before, r + rest, b + rest),
                files,
                r,
                b,
                key,
                either(cover(key.skip(b.len() as int)), rest.is_prefix_of(key.skip(b.len() as int))),
            ),
{
    let after = overlaid(before, r + rest, b + rest);
    assert forall|key: Seq<Seq<char>>| #[trigger]
        placed(
            after,
            files,
            r,
            b,
            key,
            either(cover(key.skip(b.len() as int)), rest.is_prefix_of(key.skip(b.len() as int))),
        ) by {
        let below = key.skip(b.len() as int);
        assert(placed(before, files, r, b, key, cover(below)));
        lemma_prefix_split(b, rest, key);
        if b.is_prefix_of(key) && rest.is_prefix_of(below) {
            lemma_counterpart(key, r, b, rest);
            let twin = r + below;
            lemma_outside(r, b, below);
            assert(placed(before, files, r, b, twin, cover(twin.skip(b.len() as int))));
            assert(!cover(below));
            assert(!files.dom().contains(key));
        }
    }
}

/// One removal more: what was placed stays placed, and nothing lies at or
/// below the place that was removed, as nothing lies there in the watched
/// tree.
proof fn lemma_removal_places(
    before: Map<Seq<Seq<char>>, Seq<u8>>,
    files: Map<Seq<Seq<char>>, Seq<u8>>,
    r: Seq<Seq<char>>,
    b: Seq<Seq<char>>,
    rest: Seq<Seq<char>>,
    cover: spec_fn(Seq<Seq<char>>) -> bool,
)
    requires
        !r.is_prefix_of(b),
        !b.is_prefix_of(r),
        forall|key: Seq<Seq<char>>| #[trigger]
            placed(before, files, r, b, key, cover(key.skip(b.len() as int))),
        vacant(files, r + rest),
    ensures
        forall|key: Seq<Seq<char>>| #[trigger]
            placed(
                erased(before, b + rest),
                files,
                r,
                b,
                key,
                either(cover(key.skip(b.len() as int)), rest.is_prefix_of(key.skip(b.len() as int))),
            ),
{
    let after = erased(before, b + rest);
    assert forall|key: Seq<Seq<char>>| #[trigger]
        placed(
            after,
            files,
            r,
            b,
            key,
            either(cover(key.skip(b.len() as int)), rest.is_prefix_of(key.skip(b.len() as int))),
        ) by {
        let below = key.skip(b.len() as int);
        assert(placed(before, files, r, b, key, cover(below)));
        lemma_prefix_split(b, rest, key);
        if b.is_prefix_of(key) && rest.is_prefix_of(below) {
            let twin = r + below;
            lemma_outside(r, b, below);
            lemma_prefix_split(r, rest, twin);
            assert(!files.dom().contains(twin));
        }
    }
}

/// What a batch of orderly events comes to, key by key.
proof fn lemma_mirrored(
    events: Seq<Change>,
    root: Seq<char>,
    repo: Seq<char>,
    files: Map<Seq<Seq<char>>, Seq<u8>>,
)
    requires
        !components(root).is_prefix_of(components(repo)),
        !components(repo).is_prefix_of(components(root)),
        orderly(events, root, repo, files),
    ensures
        forall|key: Seq<Seq<char>>| #[trigger]
            placed(
                mirrored(events, root, repo, files),
                files,
                components(root),
                components(repo),
                key,
                covered(events, root, key.skip(components(repo).len() as int)),
            ),
    decreases events.len(),
{
    let r = components(root);
    let b = components(repo);
    if events.len() > 0 {
        let front = events.drop_last();
        let before = mirrored(front, root, repo, files);
        let cover = |below: Seq<Seq<char>>| covered(front, root, below);
        lemma_mirrored(front, root, repo, files);
        assert forall|key: Seq<Seq<char>>| #[trigger]
            placed(before, files, r, b, key, cover(key.skip(b.len() as int))) by {
            assert(placed(before, files, r, b, key, covered(front, root, key.skip(b.len() as int))));
        }
        match events.last() {
            Change::Created(path) => {
                let rest = relative_part(path, root);
                assert forall|below: Seq<Seq<char>>| rest.is_prefix_of(below) implies !(
                #[trigger] cover(below)) by {
                    assert(reaches(events.last(), root, below));
                }
                lemma_copy_places(before, files, r, b, rest, cover);
            },
            Change::Modified(_) => {},
            Change::Removed(path) => {
                let rest = relative_part(path, root);
                lemma_removal_places(before, files, r, b, rest, cover);
            },
            Change::Renamed(from, to) => {
                let old = relative_part(from, root);
                let new = relative_part(to, root);
                lemma_removal_places(before, files, r, b, old, cover);
                let between = |below: Seq<Seq<char>>| cover(below) || old.is_prefix_of(below);
                let mid = erased(before, b + old);
                assert forall|key: Seq<Seq<char>>| #[trigger]
                    placed(mid, files, r, b, key, between(key.skip(b.len() as int))) by {
                    assert(placed(
                        mid,
                        files,
                        r,
                        b,
                        key,
                        either(
                            cover(key.skip(b.len() as int)),
                            old.is_prefix_of(key.skip(b.len() as int)),
                        ),
                    ));
                }
                assert forall|below: Seq<Seq<char>>| new.is_prefix_of(below) implies !(
                #[trigger] between(below)) by {
                    assert(reaches(events.last(), root, below));
                    if old.is_prefix_of(below) {
                        lemma_prefixes_compare(old, new, below);
                    }
                }
                lemma_copy_places(mid, files, r, b, new, between);
            },
        }
        let after = mirrored(events, root, repo, files);
        assert forall|key: Seq<Seq<char>>| #[trigger]
            placed(
                after,
                files,
                r,
                b,
                key,
                covered(events, root, key.skip(b.len() as int)),
            ) by {
            let below = key.skip(b.len() as int);
            match events.last() {
                Change::Created(path) => {
                    let rest = relative_part(path, root);
                    assert(placed(
                        after,
                        files,
                        r,
                        b,
                        key,
                        either(cover(below), rest.is_prefix_of(below)),
                    ));
                },
                Change::Modified(_) => {},
                Change::Removed(path) => {
                    let rest = relative_part(path, root);
                    assert(placed(
                        after,
                        files,
                        r,
                        b,
                        key,
                        either(cover(below), rest.is_prefix_of(below)),
                    ));
                },
                Change::Renamed(from, to) => {
                    let old = relative_part(from, root);
                    let new = relative_part(to, root);
                    let between = |below: Seq<Seq<char>>| cover(below) || old.is_prefix_of(below);
                    assert(placed(
                        after,
                        files,
                        r,
                        b,
                        key,
                        either(between(below), new.is_prefix_of(below)),
                    ));
                },
            }
        }
    }
}

/// Mirror fidelity. Let the watch root and the working tree lie apart, and
/// let `events` be creations, removals and renames on disjoint paths under
/// the root that record what has happened to the watched tree since the
/// working tree was in step with it. Then the mutations that are planned for
/// the batch, made in their order by a file system that does what the
/// commands say, bring the working tree in step again: below the repository
/// root there is a file exactly where there is one below the watch root, with
/// the same bytes. Nothing outside the working tree is touched, and no event
/// is refused.
pub proof fn lemma_mirror_fidelity(
    events: Seq<Change>,
    root: Seq<char>,
    repo: Seq<char>,
    files: Map<Seq<Seq<char>>, Seq<u8>>,
)
    requires
        !components(root).is_prefix_of(components(repo)),
        !components(repo).is_prefix_of(components(root)),
        orderly(events, root, repo, files),
        forall|below: Seq<Seq<char>>|
            !covered(events, root, below) ==> #[trigger] in_step(files, root, repo, below),
    ensures
        forall|below: Seq<Seq<char>>| #[trigger]
            in_step(run(planned_ops(events, seq![root], repo), files), root, repo, below),
        forall|key: Seq<Seq<char>>|
            !components(repo).is_prefix_of(key) ==> #[trigger] same_at(
                run(planned_ops(events, seq![root], repo), files),
                files,
                key,
            ),
        refused(events, seq![root], repo) == 0,
{
    let r = components(root);
    let b = components(repo);
    lemma_orderly_is_watched(events, root, repo, files);
    lemma_batch_has_effect(events, root, repo, files);
    lemma_mirrored(events, root, repo, files);
    let after = run(planned_ops(events, seq![root], repo), files);
    assert forall|below: Seq<Seq<char>>| #[trigger] in_step(after, root, repo, below) by {
        let key = b + below;
        assert(key.skip(b.len() as int) =~= below);
        assert(key.subrange(0, b.len() as int) =~= b);
        lemma_outside(r, b, below);
        assert(placed(after, files, r, b, key, covered(events, root, key.skip(b.len() as int))));
        assert(placed(
            after,
            files,
            r,
            b,
            r + below,
            covered(events, root, (r + below).skip(b.len() as int)),
        ));
        if !covered(events, root, below) {
            assert(in_step(files, root, repo, below));
        }
    }
    assert forall|key: Seq<Seq<char>>| !b.is_prefix_of(key) implies #[trigger] same_at(
        after,
        files,
        key,
    ) by {
        assert(placed(after, files, r, b, key, covered(events, root, key.skip(b.len() as int))));
    }
}

proof fn lemma_orderly_is_watched(
    events: Seq<Change>,
    root: Seq<char>,
    repo: Seq<char>,
    files: Map<Seq<Seq<char>>, Seq<u8>>,
)
    requires
        orderly(events, root, repo, files),
    ensures
        forall|i: int| 0 <= i < events.len() ==> watched(#[trigger] events[i], root),
    decreases events.len(),
{
    if events.len() > 0 {
        lemma_orderly_is_watched(events.drop_last(), root, repo, files);
        assert forall|i: int| 0 <= i < events.len() implies watched(#[trigger] events[i], root) by {
            if i < events.len() - 1 {
                assert(events.drop_last()[i] == events[i]);
            }
        }
    }
}

} // verus!
