//! The mutations of the working tree: what to copy in and what to remove,
//! decided here and carried out by the caller.

use crate::error::{IoFailure, SyncError};
use crate::event::{changes, Change, ChangeEvent};
use crate::path::{
    anchor, below, components, lemma_anchor, lemma_no_escape, lemma_place_is_inside, map_watched,
    mappable, mapped_parent_text, mapped_text, relative_part, strictly_inside, texts, Place,
};
use vstd::prelude::*;

verus! {

/// How a directory is copied.
#[derive(Clone, Copy, Debug, PartialEq, Eq, Structural)]
pub struct CopySettings {
    /// Replace files that exist at the destination.
    pub overwrite: bool,
    /// Leave files that exist at the destination alone.
    pub skip_exist: bool,
    /// Size of the copy buffer in bytes.
    pub buffer_size: usize,
}

/// The one policy in use: what exists at the destination is replaced.
pub open spec fn always_overwrite() -> CopySettings {
    CopySettings { overwrite: true, skip_exist: false, buffer_size: 64000 }
}

/// A mutation of the working tree, before it is known whether it meets a file
/// or a directory.
#[derive(Debug)]
pub enum MirrorOp {
    /// Copy the watched entry `source` to `dest`, which `parent` holds.
    CopyInto { source: String, dest: String, parent: String },
    /// Delete `dest`. Where `renaming` holds, this is the first half of a
    /// rename and the mutation behind it is the copy that completes it; that
    /// copy is made only once this removal has done its work.
    RemoveFrom { dest: String, renaming: bool },
}

/// A mutation as contracts see it.
pub enum Mirror {
    CopyInto { source: Seq<char>, dest: Seq<char>, parent: Seq<char> },
    RemoveFrom { dest: Seq<char>, renaming: bool },
}

impl View for MirrorOp {
    type V = Mirror;

    open spec fn view(&self) -> Mirror {
        match self {
            MirrorOp::CopyInto { source, dest, parent } => Mirror::CopyInto {
                source: source@,
                dest: dest@,
                parent: parent@,
            },
            MirrorOp::RemoveFrom { dest, renaming } => Mirror::RemoveFrom {
                dest: dest@,
                renaming: *renaming,
            },
        }
    }
}

/// What the caller does to the file system for one mutation.
#[derive(Debug)]
pub enum FsCommand {
    /// Where the directory `from` is there: create the directory `into` with
    /// all that is missing above it, then copy `from` with everything below
    /// it into `into`, under its own name. Where it is not, touch nothing.
    CopyTree { from: String, into: String, settings: CopySettings },
    /// Where the file `from` is there: create the directory `parent` with all
    /// that is missing above it, then copy `from` to `to`, replacing what is
    /// there. Where it is not, touch nothing.
    CopyFile { from: String, to: String, parent: String },
    /// Delete the directory `path` with everything below it.
    RemoveTree { path: String },
    /// Delete the file `path`.
    RemoveFile { path: String },
}

/// A command as contracts see it.
pub enum Command {
    CopyTree { from: Seq<char>, into: Seq<char>, settings: CopySettings },
    CopyFile { from: Seq<char>, to: Seq<char>, parent: Seq<char> },
    RemoveTree { path: Seq<char> },
    RemoveFile { path: Seq<char> },
}

impl View for FsCommand {
    type V = Command;

    open spec fn view(&self) -> Command {
        match self {
            FsCommand::CopyTree { from, into, settings } => Command::CopyTree {
                from: from@,
                into: into@,
                settings: *settings,
            },
            FsCommand::CopyFile { from, to, parent } => Command::CopyFile {
                from: from@,
                to: to@,
                parent: parent@,
            },
            FsCommand::RemoveTree { path } => Command::RemoveTree { path: path@ },
            FsCommand::RemoveFile { path } => Command::RemoveFile { path: path@ },
        }
    }
}

impl Mirror {
    /// The path whose kind decides the command: the watched entry for a copy,
    /// the entry in the working tree for a removal.
    pub open spec fn probe(self) -> Seq<char> {
        match self {
            Mirror::CopyInto { source, .. } => source,
            Mirror::RemoveFrom { dest, .. } => dest,
        }
    }

    /// Whether the mutation is the removal that opens a rename, with the copy
    /// of the rename behind it.
    pub open spec fn leads(self) -> bool {
        self matches Mirror::RemoveFrom { renaming, .. } && renaming
    }

    /// The command for the mutation, given whether the probed path is a
    /// directory.
    pub open spec fn command(self, is_dir: bool) -> Command {
        match self {
            Mirror::CopyInto { source, dest, parent } => if is_dir {
                Command::CopyTree { from: source, into: parent, settings: always_overwrite() }
            } else {
                Command::CopyFile { from: source, to: dest, parent }
            },
            Mirror::RemoveFrom { dest, .. } => if is_dir {
                Command::RemoveTree { path: dest }
            } else {
                Command::RemoveFile { path: dest }
            },
        }
    }

    /// What is reported once the command has run: nothing where it succeeded
    /// or where there was nothing left to remove, else the failure.
    pub open spec fn settled(self, outcome: Result<(), IoFailure>) -> Option<SyncError> {
        match outcome {
            Ok(_) => None,
            Err(failure) => if self is RemoveFrom && failure == IoFailure::NotFound {
                None
            } else {
                Some(SyncError::Io(failure))
            },
        }
    }
}

impl MirrorOp {
    /// The path to probe before the command is chosen.
    pub fn probe(&self) -> (path: String)
        ensures
            path@ == self@.probe(),
    {
        match self {
            MirrorOp::CopyInto { source, .. } => source.clone(),
            MirrorOp::RemoveFrom { dest, .. } => dest.clone(),
        }
    }

    /// Chooses the command: a directory is copied or deleted with everything
    /// below it, anything else as a single file.
    pub fn command(&self, is_dir: bool) -> (command: FsCommand)
        ensures
            command@ == self@.command(is_dir),
    {
        match self {
            MirrorOp::CopyInto { source, dest, parent } => {
                if is_dir {
                    FsCommand::CopyTree {
                        from: source.clone(),
                        into: parent.clone(),
                        settings: CopySettings {
                            overwrite: true,
                            skip_exist: false,
                            buffer_size: 64000,
                        },
                    }
                } else {
                    FsCommand::CopyFile {
                        from: source.clone(),
                        to: dest.clone(),
                        parent: parent.clone(),
                    }
                }
            },
            MirrorOp::RemoveFrom { dest, .. } => {
                if is_dir {
                    FsCommand::RemoveTree { path: dest.clone() }
                } else {
                    FsCommand::RemoveFile { path: dest.clone() }
                }
            },
        }
    }

    /// Whether this is the removal that opens a rename.
    pub fn leads(&self) -> (yes: bool)
        ensures
            yes == self@.leads(),
    {
        match self {
            MirrorOp::RemoveFrom { renaming, .. } => *renaming,
            _ => false,
        }
    }

    /// Judges how the command went. A removal that found nothing to remove
    /// has done its work.
    pub fn settle(&self, outcome: Result<(), IoFailure>) -> (report: Option<SyncError>)
        ensures
            report == self@.settled(outcome),
    {
        match outcome {
            Ok(_) => None,
            Err(failure) => {
                match (self, failure) {
                    (MirrorOp::RemoveFrom { .. }, IoFailure::NotFound) => None,
                    _ => Some(SyncError::Io(failure)),
                }
            },
        }
    }
}

/// The copy of the watched entry `source` to `place`.
pub fn copy_into(source: String, place: Place) -> (op: MirrorOp)
    ensures
        op@ == (Mirror::CopyInto { source: source@, dest: place.path@, parent: place.parent@ }),
{
    MirrorOp::CopyInto { source, dest: place.path, parent: place.parent }
}

/// The removal of what is at `place`, on its own account.
pub fn remove_from(place: Place) -> (op: MirrorOp)
    ensures
        op@ == (Mirror::RemoveFrom { dest: place.path@, renaming: false }),
{
    MirrorOp::RemoveFrom { dest: place.path, renaming: false }
}

/// A rename inside the working tree: the removal of the old place, then the
/// copy of the renamed entry `source` to the new place. The two belong
/// together: the removal is marked as opening the rename, so that the copy
/// is made only once the removal has done its work.
pub fn rename_within(from: Place, source: String, to: Place) -> (ops: Vec<MirrorOp>)
    ensures
        ops@.len() == 2,
        ops@[0]@ == (Mirror::RemoveFrom { dest: from.path@, renaming: true }),
        ops@[1]@ == (Mirror::CopyInto { source: source@, dest: to.path@, parent: to.parent@ }),
{
    let mut ops: Vec<MirrorOp> = Vec::new();
    ops.push(MirrorOp::RemoveFrom { dest: from.path, renaming: true });
    ops.push(copy_into(source, to));
    ops
}

/// The views of a sequence of mutations.
pub open spec fn mirrors(ops: Seq<MirrorOp>) -> Seq<Mirror> {
    ops.map_values(|op: MirrorOp| op@)
}

/// The copy that brings the watched entry `watched` into the working tree.
pub open spec fn copy_of(watched: Seq<char>, roots: Seq<Seq<char>>, repo: Seq<char>) -> Mirror {
    let root = roots[anchor(watched, roots)];
    Mirror::CopyInto {
        source: watched,
        dest: mapped_text(watched, root, repo),
        parent: mapped_parent_text(watched, root, repo),
    }
}

/// The removal of the place of `watched` from the working tree; `renaming`
/// where it opens a rename.
pub open spec fn removal_of(
    watched: Seq<char>,
    roots: Seq<Seq<char>>,
    repo: Seq<char>,
    renaming: bool,
) -> Mirror {
    let root = roots[anchor(watched, roots)];
    Mirror::RemoveFrom { dest: mapped_text(watched, root, repo), renaming }
}

/// The mutations that one event asks for. A write asks for none. A rename
/// asks for two that belong together: the removal of the old place, marked as
/// opening the rename, and behind it the copy to the new place. An event with
/// a path that has no place in the working tree is refused.
pub open spec fn planned(event: Change, roots: Seq<Seq<char>>, repo: Seq<char>) -> Result<
    Seq<Mirror>,
    SyncError,
> {
    match event {
        Change::Created(path) => if mappable(path, roots) {
            Ok(seq![copy_of(path, roots, repo)])
        } else {
            Err(SyncError::InvalidPath)
        },
        Change::Modified(_) => Ok(Seq::empty()),
        Change::Removed(path) => if mappable(path, roots) {
            Ok(seq![removal_of(path, roots, repo, false)])
        } else {
            Err(SyncError::InvalidPath)
        },
        Change::Renamed(from, to) => if mappable(from, roots) && mappable(to, roots) {
            Ok(seq![removal_of(from, roots, repo, true), copy_of(to, roots, repo)])
        } else {
            Err(SyncError::InvalidPath)
        },
    }
}

/// Plans the mutations for one event.
pub fn plan_event(event: &ChangeEvent, roots: &Vec<String>, repo: &str) -> (plan: Result<
    Vec<MirrorOp>,
    SyncError,
>)
    ensures
        plan matches Ok(ops) ==> planned(event@, texts(roots@), repo@) == Ok::<
            Seq<Mirror>,
            SyncError,
        >(mirrors(ops@)),
        plan matches Err(e) ==> planned(event@, texts(roots@), repo@) == Err::<
            Seq<Mirror>,
            SyncError,
        >(e),
{
    let mut ops: Vec<MirrorOp> = Vec::new();
    match event {
        ChangeEvent::Created(path) => {
            match map_watched(path.as_str(), roots, repo) {
                Ok(place) => {
                    ops.push(copy_into(path.clone(), place));
                },
                Err(e) => {
                    return Err(e);
                },
            }
        },
        ChangeEvent::Modified(_) => {},
        ChangeEvent::Removed(path) => {
            match map_watched(path.as_str(), roots, repo) {
                Ok(place) => {
                    ops.push(remove_from(place));
                },
                Err(e) => {
                    return Err(e);
                },
            }
        },
        ChangeEvent::Renamed(from, to) => {
            match map_watched(from.as_str(), roots, repo) {
                Ok(old_place) => {
                    match map_watched(to.as_str(), roots, repo) {
                        Ok(new_place) => {
                            ops = rename_within(old_place, to.clone(), new_place);
                        },
                        Err(e) => {
                            return Err(e);
                        },
                    }
                },
                Err(e) => {
                    return Err(e);
                },
            }
        },
    }
    assert(mirrors(ops@) =~= planned(event@, texts(roots@), repo@)->Ok_0);
    Ok(ops)
}


/// The mutations of a batch: those of its events in order, without the
/// events that are refused.
pub open spec fn planned_ops(events: Seq<Change>, roots: Seq<Seq<char>>, repo: Seq<char>) -> Seq<
    Mirror,
>
    decreases events.len(),
{
    if events.len() == 0 {
        Seq::empty()
    } else {
        planned_ops(events.drop_last(), roots, repo) + match planned(events.last(), roots, repo) {
            Ok(ops) => ops,
            Err(_) => Seq::empty(),
        }
    }
}

/// How many events of a batch are refused.
pub open spec fn refused(events: Seq<Change>, roots: Seq<Seq<char>>, repo: Seq<char>) -> nat
    decreases events.len(),
{
    if events.len() == 0 {
        0
    } else {
        refused(events.drop_last(), roots, repo) + if planned(events.last(), roots, repo) is Err {
            1nat
        } else {
            0nat
        }
    }
}

/// The mutations of a batch, and how many of its events were refused.
pub struct Plan {
    pub ops: Vec<MirrorOp>,
    pub rejected: usize,
}

/// Plans the mutations for a batch of events.
pub fn plan_batch(events: &Vec<ChangeEvent>, roots: &Vec<String>, repo: &str) -> (plan: Plan)
    ensures
        mirrors(plan.ops@) == planned_ops(changes(events@), texts(roots@), repo@),
        plan.rejected == refused(changes(events@), texts(roots@), repo@),
{
    let ghost all = changes(events@);
    let ghost anchors = texts(roots@);
    let mut ops: Vec<MirrorOp> = Vec::new();
    let mut rejected: usize = 0;
    let mut i: usize = 0;
    assert(all.take(0) =~= Seq::<Change>::empty());
    assert(mirrors(ops@) =~= Seq::<Mirror>::empty());
    while i < events.len()
        invariant
            i <= events@.len(),
            all == changes(events@),
            anchors == texts(roots@),
            rejected <= i,
            mirrors(ops@) == planned_ops(all.take(i as int), anchors, repo@),
            rejected == refused(all.take(i as int), anchors, repo@),
        decreases events@.len() - i,
    {
        proof {
            assert(all.take(i + 1).drop_last() =~= all.take(i as int));
            assert(all.take(i + 1).last() == events@[i as int]@);
        }
        match plan_event(&events[i], roots, repo) {
            Ok(more) => {
                let ghost before = ops@;
                let ghost added = more@;
                let mut more = more;
                ops.append(&mut more);
                assert(mirrors(ops@) =~= mirrors(before) + mirrors(added)) by {
                    assert(ops@ == before + added);
                }
            },
            Err(_) => {
                rejected += 1;
            },
        }
        i += 1;
    }
    assert(all.take(i as int) =~= all);
    Plan { ops, rejected }
}

impl Mirror {
    /// The place in the working tree that the mutation is about.
    pub open spec fn dest(self) -> Seq<char> {
        match self {
            Mirror::CopyInto { dest, .. } => dest,
            Mirror::RemoveFrom { dest, .. } => dest,
        }
    }

    /// Whether the mutation stays strictly inside the tree at `repo`; for a
    /// copy also that `parent` is the directory that holds `dest`, and that
    /// the copy bears the name of what is copied.
    pub open spec fn within(self, repo: Seq<char>) -> bool {
        match self {
            Mirror::CopyInto { source, dest, parent } => {
                &&& strictly_inside(dest, repo)
                &&& components(parent) == components(dest).drop_last()
                &&& components(source).len() > 0
                &&& components(source).last() == components(dest).last()
            },
            Mirror::RemoveFrom { dest, .. } => strictly_inside(dest, repo),
        }
    }
}

impl Command {
    /// The components of the entry that the command creates, replaces or
    /// deletes.
    pub open spec fn target(self) -> Seq<Seq<char>> {
        match self {
            Command::CopyTree { from, into, .. } => components(into).push(components(from).last()),
            Command::CopyFile { to, .. } => components(to),
            Command::RemoveTree { path } => components(path),
            Command::RemoveFile { path } => components(path),
        }
    }
}

/// Whichever command is chosen for a mutation that stays inside the working
/// tree, the entry that it creates, replaces or deletes is the place that the
/// mutation is about, strictly inside the tree; a file is copied into the
/// directory that the command has created first.
pub proof fn lemma_command_stays_inside(op: Mirror, repo: Seq<char>, is_dir: bool)
    requires
        op.within(repo),
    ensures
        op.command(is_dir).target() == components(op.dest()),
        below(op.command(is_dir).target(), components(repo)),
        op.command(is_dir) matches Command::CopyFile { to, parent, .. } ==> components(parent)
            == components(to).drop_last(),
{
    match op {
        Mirror::CopyInto { source, dest, parent } => {
            assert(components(dest).drop_last().push(components(dest).last()) =~= components(
                dest,
            ));
        },
        Mirror::RemoveFrom { .. } => {},
    }
}

/// Every mutation that is planned for a batch stays strictly inside the
/// working tree.
pub proof fn lemma_plan_within(events: Seq<Change>, roots: Seq<Seq<char>>, repo: Seq<char>)
    ensures
        forall|i: int|
            0 <= i < planned_ops(events, roots, repo).len() ==> (#[trigger] planned_ops(
                events,
                roots,
                repo,
            )[i]).within(repo),
    decreases events.len(),
{
    if events.len() > 0 {
        lemma_plan_within(events.drop_last(), roots, repo);
        lemma_planned_within(events.last(), roots, repo);
        let before = planned_ops(events.drop_last(), roots, repo);
        let all = planned_ops(events, roots, repo);
        assert forall|i: int| 0 <= i < all.len() implies (#[trigger] all[i]).within(repo) by {
            if i < before.len() {
                assert(all[i] == before[i]);
            } else {
                let more = planned(events.last(), roots, repo)->Ok_0;
                assert(all[i] == more[i - before.len()]);
            }
        }
    }
}

/// Every mutation that is planned for an event stays strictly inside the
/// working tree.
pub proof fn lemma_planned_within(event: Change, roots: Seq<Seq<char>>, repo: Seq<char>)
    ensures
        planned(event, roots, repo) matches Ok(ops) ==> forall|i: int|
            0 <= i < ops.len() ==> (#[trigger] ops[i]).within(repo),
{
    match event {
        Change::Created(path) => lemma_mapped_within(path, roots, repo),
        Change::Modified(_) => {},
        Change::Removed(path) => lemma_mapped_within(path, roots, repo),
        Change::Renamed(from, to) => {
            lemma_mapped_within(from, roots, repo);
            lemma_mapped_within(to, roots, repo);
        },
    }
}

proof fn lemma_mapped_within(watched: Seq<char>, roots: Seq<Seq<char>>, repo: Seq<char>)
    ensures
        mappable(watched, roots) ==> copy_of(watched, roots, repo).within(repo),
        forall|renaming: bool|
            mappable(watched, roots) ==> (#[trigger] removal_of(
                watched,
                roots,
                repo,
                renaming,
            )).within(repo),
{
    lemma_anchor(watched, roots);
    if mappable(watched, roots) {
        let root = roots[anchor(watched, roots)];
        lemma_no_escape(watched, root, repo);
        lemma_place_is_inside(watched, root, repo);
        let rest = relative_part(watched, root);
        assert((components(repo) + rest).drop_last() =~= components(repo) + rest.drop_last());
    }
}

/// A rename is the removal of the old place followed by the copy to the new
/// one: two mutations, in this order. They are the removal that a removal
/// event of the old path asks for, marked as opening the rename, and the copy
/// that a creation event of the new path asks for.
pub proof fn lemma_rename_is_remove_then_copy(
    from: Seq<char>,
    to: Seq<char>,
    roots: Seq<Seq<char>>,
    repo: Seq<char>,
)
    requires
        mappable(from, roots),
        mappable(to, roots),
    ensures
        ({
            let renamed = planned(Change::Renamed(from, to), roots, repo)->Ok_0;
            let removed = planned(Change::Removed(from), roots, repo)->Ok_0;
            let created = planned(Change::Created(to), roots, repo)->Ok_0;
            &&& planned(Change::Renamed(from, to), roots, repo) is Ok
            &&& renamed.len() == 2
            &&& removed.len() == 1
            &&& created.len() == 1
            &&& renamed[0].leads()
            &&& !removed[0].leads()
            &&& renamed[0].dest() == removed[0].dest()
            &&& renamed[0].probe() == removed[0].probe()
            &&& forall|is_dir: bool|
                renamed[0].command(is_dir) == #[trigger] removed[0].command(is_dir)
            &&& forall|result: Result<(), IoFailure>|
                renamed[0].settled(result) == #[trigger] removed[0].settled(result)
            &&& renamed[1] == created[0]
        }),
{
}

/// Whether every removal in `ops` that opens a rename has the copy of the
/// rename behind it.
pub open spec fn paired_up(ops: Seq<Mirror>) -> bool {
    forall|i: int|
        0 <= i < ops.len() && (#[trigger] ops[i]).leads() ==> i + 1 < ops.len() && ops[i
            + 1] is CopyInto
}

/// In the mutations that are planned for a batch, every removal that opens a
/// rename has the copy of the rename behind it.
pub proof fn lemma_plan_paired_up(events: Seq<Change>, roots: Seq<Seq<char>>, repo: Seq<char>)
    ensures
        paired_up(planned_ops(events, roots, repo)),
    decreases events.len(),
{
    if events.len() > 0 {
        lemma_plan_paired_up(events.drop_last(), roots, repo);
        let before = planned_ops(events.drop_last(), roots, repo);
        let all = planned_ops(events, roots, repo);
        assert forall|i: int| 0 <= i < all.len() && (#[trigger] all[i]).leads() implies i + 1
            < all.len() && all[i + 1] is CopyInto by {
            if i < before.len() {
                assert(all[i] == before[i]);
                assert(all[i + 1] == before[i + 1]);
            } else {
                let more = planned(events.last(), roots, repo)->Ok_0;
                assert(all[i] == more[i - before.len()]);
                assert(i == before.len());
                assert(all[i + 1] == more[1]);
            }
        }
    }
}

/// Removing what is not there is no failure: a removal that finds nothing
/// reports nothing, whether it went for a directory or for a file, and
/// whether or not it opens a rename.
pub proof fn lemma_removal_of_absent_is_done(dest: Seq<char>, renaming: bool, is_dir: bool)
    ensures
        (Mirror::RemoveFrom { dest, renaming }).settled(Err(IoFailure::NotFound)) is None,
        (Mirror::RemoveFrom { dest, renaming }).command(is_dir) is RemoveTree || (
        Mirror::RemoveFrom { dest, renaming }).command(is_dir) is RemoveFile,
{
}

} // verus!
