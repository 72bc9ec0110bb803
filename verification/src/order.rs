//! The order in which a directory is enumerated is not fixed. What a tree
//! stands for does not depend on it: another order of the root gives the
//! same bindings in another order, and another order of a subdirectory
//! gives the same binding.

use vstd::prelude::*;
use vstd::multiset::*;
use vstd::seq_lib::*;
use crate::binding::BindingView;
use crate::laws::run;
use crate::projector::{initial, report};
use crate::tree::{
    answers, binding_of, bindings_of, filled, lemma_projection_reports_tree, stored, EntryModel,
    FileModel,
};

verus! {

/// No two files have the same base name.
pub open spec fn distinct_names(files: Seq<FileModel>) -> bool {
    forall|i: int, j: int| 0 <= i < j < files.len() ==> files[i].name != files[j].name
}

/// The bindings `bag` and, where `entry` is a directory, its binding.
pub open spec fn with_entry(bag: Multiset<BindingView>, entry: EntryModel) -> Multiset<
    BindingView,
> {
    if entry.is_dir {
        bag.insert(binding_of(entry))
    } else {
        bag
    }
}

/// Two files of different names can be stored in either order.
proof fn lemma_stored_commutes(info: Map<Seq<char>, Seq<char>>, a: FileModel, b: FileModel)
    requires
        a.name != b.name,
    ensures
        stored(stored(info, a), b) == stored(stored(info, b), a),
{
    assert(stored(stored(info, a), b) =~= stored(stored(info, b), a));
}

/// Among files of distinct names, any one can be taken as the last.
proof fn lemma_filled_remove(info: Map<Seq<char>, Seq<char>>, files: Seq<FileModel>, i: int)
    requires
        distinct_names(files),
        0 <= i < files.len(),
    ensures
        filled(info, files) == stored(filled(info, files.remove(i)), files[i]),
    decreases files.len(),
{
    if i == files.len() - 1 {
        assert(files.remove(i) =~= files.drop_last());
    } else {
        let before = files.drop_last();
        lemma_filled_remove(info, before, i);
        assert(files.remove(i).drop_last() =~= before.remove(i));
        assert(files.remove(i).last() == files.last());
        lemma_stored_commutes(filled(info, before.remove(i)), files[i], files.last());
    }
}

/// Taking a file out of files of distinct names leaves distinct names.
proof fn lemma_distinct_remove(files: Seq<FileModel>, i: int)
    requires
        distinct_names(files),
        0 <= i < files.len(),
    ensures
        distinct_names(files.remove(i)),
{
    let rest = files.remove(i);
    assert forall|a: int, b: int| 0 <= a < b < rest.len() implies rest[a].name
        != rest[b].name by {
        let a0 = if a < i {
            a
        } else {
            a + 1
        };
        let b0 = if b < i {
            b
        } else {
            b + 1
        };
        assert(rest[a] == files[a0]);
        assert(rest[b] == files[b0]);
    }
}

/// The order in which a subdirectory is enumerated does not matter: the
/// same files, of distinct names, in another order fill the same mapping.
pub proof fn lemma_file_order_is_immaterial(
    info: Map<Seq<char>, Seq<char>>,
    first: Seq<FileModel>,
    second: Seq<FileModel>,
)
    requires
        first.to_multiset() =~= second.to_multiset(),
        distinct_names(first),
        distinct_names(second),
    ensures
        filled(info, first) == filled(info, second),
    decreases first.len(),
{
    broadcast use group_multiset_axioms;

    to_multiset_len(first);
    to_multiset_len(second);
    if first.len() > 0 {
        let x = first.last();
        let before = first.drop_last();
        assert(before.push(x) =~= first);
        to_multiset_build(before, x);
        assert(first.to_multiset().count(x) > 0);
        to_multiset_contains(second, x);
        let i = second.index_of(x);
        to_multiset_remove(second, i);
        assert(before.to_multiset() =~= second.remove(i).to_multiset());
        lemma_distinct_remove(second, i);
        lemma_file_order_is_immaterial(info, before, second.remove(i));
        lemma_filled_remove(info, second, i);
    }
}

/// The bindings of a tree are those of the tree without its last entry
/// and, where that entry is a directory, its binding after them.
proof fn lemma_bindings_unfold(tree: Seq<EntryModel>)
    requires
        tree.len() > 0,
    ensures
        bindings_of(tree).to_multiset() == with_entry(
            bindings_of(tree.drop_last()).to_multiset(),
            tree.last(),
        ),
{
    if tree.last().is_dir {
        assert(bindings_of(tree) =~= bindings_of(tree.drop_last()).push(binding_of(tree.last())));
        to_multiset_build(bindings_of(tree.drop_last()), binding_of(tree.last()));
    } else {
        assert(bindings_of(tree) =~= bindings_of(tree.drop_last()));
    }
}

/// Any entry of the root can be taken as the last.
proof fn lemma_bindings_remove(tree: Seq<EntryModel>, i: int)
    requires
        0 <= i < tree.len(),
    ensures
        bindings_of(tree).to_multiset() == with_entry(
            bindings_of(tree.remove(i)).to_multiset(),
            tree[i],
        ),
    decreases tree.len(),
{
    broadcast use group_multiset_axioms;

    lemma_bindings_unfold(tree);
    if i == tree.len() - 1 {
        assert(tree.remove(i) =~= tree.drop_last());
    } else {
        let before = tree.drop_last();
        lemma_bindings_remove(before, i);
        assert(tree.remove(i).drop_last() =~= before.remove(i));
        assert(tree.remove(i).last() == tree.last());
        lemma_bindings_unfold(tree.remove(i));
        let bag = bindings_of(before.remove(i)).to_multiset();
        assert(with_entry(with_entry(bag, tree[i]), tree.last()) =~= with_entry(
            with_entry(bag, tree.last()),
            tree[i],
        ));
    }
}

/// The order in which the root is enumerated does not matter but for the
/// order of the result: the same entries in another order stand for the
/// same bindings, each as often.
pub proof fn lemma_root_order_is_immaterial(first: Seq<EntryModel>, second: Seq<EntryModel>)
    requires
        first.to_multiset() =~= second.to_multiset(),
    ensures
        bindings_of(first).to_multiset() == bindings_of(second).to_multiset(),
    decreases first.len(),
{
    broadcast use group_multiset_axioms;

    to_multiset_len(first);
    to_multiset_len(second);
    if first.len() == 0 {
        assert(bindings_of(first) =~= bindings_of(second));
    } else {
        let x = first.last();
        let before = first.drop_last();
        assert(before.push(x) =~= first);
        to_multiset_build(before, x);
        assert(first.to_multiset().count(x) > 0);
        to_multiset_contains(second, x);
        let i = second.index_of(x);
        to_multiset_remove(second, i);
        assert(before.to_multiset() =~= second.remove(i).to_multiset());
        lemma_root_order_is_immaterial(before, second.remove(i));
        lemma_bindings_unfold(first);
        lemma_bindings_remove(second, i);
    }
}

/// Two projections over a file system that holds the same entries under
/// the binding root, whatever the order in which each enumerates them,
/// both finish, and report the same bindings, each as often.
pub proof fn lemma_reports_agree_up_to_order(first: Seq<EntryModel>, second: Seq<EntryModel>)
    requires
        first.to_multiset() =~= second.to_multiset(),
    ensures
        report(run(initial(), answers(first))) matches Some(Ok(found)) && report(
            run(initial(), answers(second)),
        ) matches Some(Ok(again)) && found.to_multiset() == again.to_multiset(),
{
    lemma_projection_reports_tree(first);
    lemma_projection_reports_tree(second);
    lemma_root_order_is_immaterial(first, second);
}

} // verus!
