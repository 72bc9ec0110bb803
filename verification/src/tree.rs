//! A model of the directory tree under the binding root, the answers that a
//! file system holding it gives, and the bindings that it stands for; with
//! the proof that a projection given those answers reports those bindings.

use vstd::prelude::*;
use crate::binding::BindingView;
use crate::laws::{lemma_run_join, lemma_run_push, run};
use crate::projector::{
    initial, next, phase_after, report, EventView, Phase, ProjectorView,
};

verus! {

/// An entry of a subdirectory: its base name, and its text or, where it
/// cannot be read as text, the description of the failure.
pub struct FileModel {
    pub name: Seq<char>,
    pub content: Result<Seq<char>, Seq<char>>,
}

/// An entry of the root: its base name, whether it is a directory, and,
/// for a directory, its entries in enumeration order.
pub struct EntryModel {
    pub name: Seq<char>,
    pub is_dir: bool,
    pub files: Seq<FileModel>,
}

/// The mapping `info` with `file` stored in it under its base name, where
/// it could be read; `info` itself where it could not.
pub open spec fn stored(info: Map<Seq<char>, Seq<char>>, file: FileModel) -> Map<
    Seq<char>,
    Seq<char>,
> {
    match file.content {
        Ok(text) => info.insert(file.name, text),
        Err(_) => info,
    }
}

/// The mapping `info` with the readable files of `files` stored in it, each
/// under its base name, a later one in place of an earlier one of the same
/// name.
pub open spec fn filled(info: Map<Seq<char>, Seq<char>>, files: Seq<FileModel>) -> Map<
    Seq<char>,
    Seq<char>,
>
    decreases files.len(),
{
    if files.len() == 0 {
        info
    } else {
        stored(filled(info, files.drop_last()), files.last())
    }
}

/// The binding that a directory of the root stands for.
pub open spec fn binding_of(entry: EntryModel) -> BindingView {
    BindingView { name: entry.name, info: filled(Map::empty(), entry.files) }
}

/// The directories among the root's entries, in enumeration order.
pub open spec fn dirs_of(tree: Seq<EntryModel>) -> Seq<EntryModel>
    decreases tree.len(),
{
    if tree.len() == 0 {
        Seq::empty()
    } else if tree.last().is_dir {
        dirs_of(tree.drop_last()).push(tree.last())
    } else {
        dirs_of(tree.drop_last())
    }
}

/// The bindings that a tree stands for: one for each directory of the
/// root, in enumeration order.
pub open spec fn bindings_of(tree: Seq<EntryModel>) -> Seq<BindingView> {
    Seq::new(dirs_of(tree).len(), |j: int| binding_of(dirs_of(tree)[j]))
}

/// The base names of the root's entries, in enumeration order.
pub open spec fn names_of(tree: Seq<EntryModel>) -> Seq<Seq<char>> {
    Seq::new(tree.len(), |i: int| tree[i].name)
}

/// The places of the directories among the root's entries.
pub open spec fn places_of(tree: Seq<EntryModel>) -> Seq<int>
    decreases tree.len(),
{
    if tree.len() == 0 {
        Seq::empty()
    } else if tree.last().is_dir {
        places_of(tree.drop_last()).push(tree.len() - 1)
    } else {
        places_of(tree.drop_last())
    }
}

/// What the file system answers while the root is enumerated: each entry,
/// then its metadata.
pub open spec fn root_answers(tree: Seq<EntryModel>) -> Seq<EventView>
    decreases tree.len(),
{
    if tree.len() == 0 {
        Seq::empty()
    } else {
        root_answers(tree.drop_last()).push(EventView::Entry(tree.last().name)).push(
            EventView::Metadata(tree.last().is_dir),
        )
    }
}

/// What the file system answers when a file is read.
pub open spec fn read_answer(file: FileModel) -> EventView {
    match file.content {
        Ok(text) => EventView::Text(text),
        Err(reason) => EventView::Failed(reason),
    }
}

/// What the file system answers while a subdirectory is enumerated: each
/// entry, then how reading it went.
pub open spec fn file_answers(files: Seq<FileModel>) -> Seq<EventView>
    decreases files.len(),
{
    if files.len() == 0 {
        Seq::empty()
    } else {
        file_answers(files.drop_last()).push(EventView::Entry(files.last().name)).push(
            read_answer(files.last()),
        )
    }
}

/// What the file system answers for one subdirectory, from its listing to
/// the listing's end.
pub open spec fn binding_answers(entry: EntryModel) -> Seq<EventView> {
    (seq![EventView::Opened] + file_answers(entry.files)).push(EventView::End)
}

/// What the file system answers for the given subdirectories in turn.
pub open spec fn all_binding_answers(dirs: Seq<EntryModel>) -> Seq<EventView>
    decreases dirs.len(),
{
    if dirs.len() == 0 {
        Seq::empty()
    } else {
        all_binding_answers(dirs.drop_last()) + binding_answers(dirs.last())
    }
}

/// What the file system answers from the root's listing to the listing's
/// end.
pub open spec fn whole_root_answers(tree: Seq<EntryModel>) -> Seq<EventView> {
    (seq![EventView::Opened] + root_answers(tree)).push(EventView::End)
}

/// What a file system that holds `tree` under the binding root answers to
/// a projection from its first action to its last, no listing or metadata
/// lookup failing.
pub open spec fn answers(tree: Seq<EntryModel>) -> Seq<EventView> {
    whole_root_answers(tree) + all_binding_answers(dirs_of(tree))
}

/// The failure that a projection reports.
pub open spec fn failure(reason: Seq<char>) -> Option<Result<Seq<BindingView>, Seq<char>>> {
    Some(Err(reason))
}

/// The directories and their places go together.
proof fn lemma_places(tree: Seq<EntryModel>)
    ensures
        places_of(tree).len() == dirs_of(tree).len(),
        forall|j: int|
            0 <= j < places_of(tree).len() ==> 0 <= (#[trigger] places_of(tree)[j]) < tree.len()
                && tree[places_of(tree)[j]] == dirs_of(tree)[j],
    decreases tree.len(),
{
    if tree.len() > 0 {
        lemma_places(tree.drop_last());
    }
}

/// Enumerating the root collects the names of its entries and the places
/// of its directories.
proof fn lemma_root_scan(s: ProjectorView, tree: Seq<EntryModel>)
    requires
        s.phase == Phase::ScanningRoot,
        s.roots.len() == 0,
        s.kept.len() == 0,
    ensures
        run(s, root_answers(tree)) == (ProjectorView {
            roots: names_of(tree),
            kept: places_of(tree),
            ..s
        }),
    decreases tree.len(),
{
    if tree.len() == 0 {
        assert(names_of(tree) =~= s.roots);
        assert(places_of(tree) =~= s.kept);
    } else {
        let before = tree.drop_last();
        let last = tree.last();
        lemma_root_scan(s, before);
        let s1 = run(s, root_answers(before));
        let entered = root_answers(before).push(EventView::Entry(last.name));
        lemma_run_push(s, root_answers(before), EventView::Entry(last.name));
        lemma_run_push(s, entered, EventView::Metadata(last.is_dir));
        let s2 = next(s1, EventView::Entry(last.name));
        let s3 = next(s2, EventView::Metadata(last.is_dir));
        assert(s2.roots =~= names_of(tree));
        assert(s3.kept =~= places_of(tree));
    }
}

/// Enumerating a subdirectory stores its readable files in the binding
/// being filled and changes nothing else but the name of the file last
/// delivered.
proof fn lemma_file_scan(s: ProjectorView, files: Seq<FileModel>)
    requires
        s.phase == Phase::ScanningBinding,
    ensures
        ({
            let t = run(s, file_answers(files));
            &&& t.phase == Phase::ScanningBinding
            &&& t.roots == s.roots
            &&& t.kept == s.kept
            &&& t.done == s.done
            &&& t.error == s.error
            &&& t.current.name == s.current.name
            &&& t.current.info == filled(s.current.info, files)
        }),
    decreases files.len(),
{
    if files.len() > 0 {
        let before = files.drop_last();
        let last = files.last();
        lemma_file_scan(s, before);
        let entered = file_answers(before).push(EventView::Entry(last.name));
        lemma_run_push(s, file_answers(before), EventView::Entry(last.name));
        lemma_run_push(s, entered, read_answer(last));
    }
}

/// Reading the first `k` subdirectories completes their bindings.
proof fn lemma_binding_scan(s: ProjectorView, tree: Seq<EntryModel>, k: int)
    requires
        s.phase == phase_after(0, dirs_of(tree).len()),
        s.roots == names_of(tree),
        s.kept == places_of(tree),
        s.done.len() == 0,
        0 <= k <= dirs_of(tree).len(),
    ensures
        ({
            let t = run(s, all_binding_answers(dirs_of(tree).take(k)));
            &&& t.phase == phase_after(k as nat, dirs_of(tree).len())
            &&& t.roots == s.roots
            &&& t.kept == s.kept
            &&& t.error == s.error
            &&& t.done == bindings_of(tree).take(k)
        }),
    decreases k,
{
    let dirs = dirs_of(tree);
    if k == 0 {
        assert(dirs.take(0) =~= Seq::<EntryModel>::empty());
        assert(s.done =~= bindings_of(tree).take(0));
    } else {
        lemma_binding_scan(s, tree, k - 1);
        lemma_places(tree);
        let entry = dirs[k - 1];
        assert(dirs.take(k).drop_last() =~= dirs.take(k - 1));
        assert(dirs.take(k).last() == entry);
        let before = all_binding_answers(dirs.take(k - 1));
        lemma_run_join(s, before, binding_answers(entry));
        let t0 = run(s, before);
        let opened = seq![EventView::Opened];
        assert(opened =~= Seq::<EventView>::empty().push(EventView::Opened));
        lemma_run_push(t0, Seq::empty(), EventView::Opened);
        let t1 = run(t0, opened);
        assert(t1 == next(t0, EventView::Opened));
        assert(t1.current.name == entry.name);
        lemma_run_join(t0, opened, file_answers(entry.files));
        lemma_file_scan(t1, entry.files);
        let t2 = run(t1, file_answers(entry.files));
        assert(t2.current == binding_of(entry));
        lemma_run_push(t0, opened + file_answers(entry.files), EventView::End);
        let t3 = next(t2, EventView::End);
        assert(t3.done =~= bindings_of(tree).take(k));
    }
}

/// The root's listing being opened and `seen` entries delivered, the
/// projection waits for the next with their names and places collected.
proof fn lemma_root_under_way(seen: Seq<EntryModel>)
    ensures
        run(initial(), seq![EventView::Opened] + root_answers(seen)) == (ProjectorView {
            phase: Phase::ScanningRoot,
            roots: names_of(seen),
            kept: places_of(seen),
            ..initial()
        }),
{
    let opened = seq![EventView::Opened];
    assert(opened =~= Seq::<EventView>::empty().push(EventView::Opened));
    lemma_run_push(initial(), Seq::empty(), EventView::Opened);
    lemma_run_join(initial(), opened, root_answers(seen));
    lemma_root_scan(run(initial(), opened), seen);
}

/// The root being enumerated to its end, the projection goes on to the
/// first directory, or has finished where there is none.
proof fn lemma_root_done(tree: Seq<EntryModel>)
    ensures
        run(initial(), whole_root_answers(tree)) == (ProjectorView {
            phase: phase_after(0, dirs_of(tree).len()),
            roots: names_of(tree),
            kept: places_of(tree),
            ..initial()
        }),
{
    lemma_root_under_way(tree);
    lemma_run_push(initial(), seq![EventView::Opened] + root_answers(tree), EventView::End);
    lemma_places(tree);
}

/// A projection over a file system that holds `tree` under the binding
/// root, and fails no listing and no metadata lookup, finishes and reports
/// the bindings that the tree stands for: one for each directory of the
/// root, in enumeration order, with the files that could be read as text.
pub proof fn lemma_projection_reports_tree(tree: Seq<EntryModel>)
    ensures
        report(run(initial(), answers(tree))) == Some(
            Ok::<Seq<BindingView>, Seq<char>>(bindings_of(tree)),
        ),
{
    let dirs = dirs_of(tree);
    lemma_root_done(tree);
    lemma_run_join(initial(), whole_root_answers(tree), all_binding_answers(dirs));
    lemma_binding_scan(run(initial(), whole_root_answers(tree)), tree, dirs.len() as int);
    assert(dirs.take(dirs.len() as int) =~= dirs);
    assert(bindings_of(tree).take(dirs.len() as int) =~= bindings_of(tree));
}

/// A projection whose root cannot be listed reports that failure.
pub proof fn lemma_unlistable_root_fails(reason: Seq<char>)
    ensures
        report(run(initial(), seq![EventView::Failed(reason)])) == failure(reason),
{
    let failed = seq![EventView::Failed(reason)];
    assert(failed =~= Seq::<EventView>::empty().push(EventView::Failed(reason)));
    lemma_run_push(initial(), Seq::empty(), EventView::Failed(reason));
}

/// A projection whose root listing breaks off, after any entries, reports
/// that failure.
pub proof fn lemma_broken_root_listing_fails(seen: Seq<EntryModel>, reason: Seq<char>)
    ensures
        report(
            run(
                initial(),
                (seq![EventView::Opened] + root_answers(seen)).push(EventView::Failed(reason)),
            ),
        ) == failure(reason),
{
    lemma_root_under_way(seen);
    lemma_run_push(
        initial(),
        seq![EventView::Opened] + root_answers(seen),
        EventView::Failed(reason),
    );
}

/// A projection that cannot look up the metadata of a root entry, after
/// any entries, reports that failure.
pub proof fn lemma_metadata_failure_fails(
    seen: Seq<EntryModel>,
    name: Seq<char>,
    reason: Seq<char>,
)
    ensures
        report(
            run(
                initial(),
                (seq![EventView::Opened] + root_answers(seen)).push(EventView::Entry(name)).push(
                    EventView::Failed(reason),
                ),
            ),
        ) == failure(reason),
{
    let scanned = seq![EventView::Opened] + root_answers(seen);
    lemma_root_under_way(seen);
    lemma_run_push(initial(), scanned, EventView::Entry(name));
    lemma_run_push(initial(), scanned.push(EventView::Entry(name)), EventView::Failed(reason));
}

/// A projection that cannot list a directory of the root, after any
/// number of directories read to their end, reports that failure and none
/// of the bindings completed.
pub proof fn lemma_unlistable_subdirectory_fails(
    tree: Seq<EntryModel>,
    k: int,
    reason: Seq<char>,
)
    requires
        0 <= k < dirs_of(tree).len(),
    ensures
        report(
            run(
                initial(),
                (whole_root_answers(tree) + all_binding_answers(dirs_of(tree).take(k))).push(
                    EventView::Failed(reason),
                ),
            ),
        ) == failure(reason),
{
    let read = all_binding_answers(dirs_of(tree).take(k));
    lemma_root_done(tree);
    lemma_run_join(initial(), whole_root_answers(tree), read);
    lemma_binding_scan(run(initial(), whole_root_answers(tree)), tree, k);
    lemma_run_push(initial(), whole_root_answers(tree) + read, EventView::Failed(reason));
}

/// A projection whose listing of a directory of the root breaks off,
/// after any entries, reports that failure and none of the bindings
/// completed.
pub proof fn lemma_broken_subdirectory_listing_fails(
    tree: Seq<EntryModel>,
    k: int,
    seen: Seq<FileModel>,
    reason: Seq<char>,
)
    requires
        0 <= k < dirs_of(tree).len(),
    ensures
        report(
            run(
                initial(),
                (whole_root_answers(tree) + all_binding_answers(dirs_of(tree).take(k))
                    + seq![EventView::Opened] + file_answers(seen)).push(
                    EventView::Failed(reason),
                ),
            ),
        ) == failure(reason),
{
    let read = all_binding_answers(dirs_of(tree).take(k));
    let opened = seq![EventView::Opened];
    let before = whole_root_answers(tree) + read;
    lemma_root_done(tree);
    lemma_run_join(initial(), whole_root_answers(tree), read);
    lemma_binding_scan(run(initial(), whole_root_answers(tree)), tree, k);
    let t0 = run(initial(), before);
    assert(opened =~= Seq::<EventView>::empty().push(EventView::Opened));
    lemma_run_push(t0, Seq::empty(), EventView::Opened);
    lemma_run_join(initial(), before, opened);
    let t1 = run(initial(), before + opened);
    lemma_run_join(initial(), before + opened, file_answers(seen));
    lemma_file_scan(t1, seen);
    lemma_run_push(initial(), before + opened + file_answers(seen), EventView::Failed(reason));
}

} // verus!
