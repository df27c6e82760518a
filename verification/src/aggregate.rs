//! Bottom-up recomputation of cumulative directory sizes.

use vstd::prelude::*;

use crate::item::children_model;
use crate::item::dir_model;
use crate::item::item_model;
use crate::item::lemma_children_model_index;
use crate::item::lemma_seq_file_total_prefix;
use crate::item::lemma_seq_file_total_step;
use crate::item::model_size;
use crate::item::seq_file_total;
use crate::item::subtree_file_total;
use crate::item::DirectoryItem;
use crate::item::FileSystemItem;
use crate::item::NodeModel;

verus! {

/// The tree after aggregation: files are unchanged, every directory's size
/// becomes the sum of its (aggregated) children's sizes.
pub open spec fn aggregate_model(n: NodeModel) -> NodeModel
    decreases n,
{
    match n {
        NodeModel::File { .. } => n,
        NodeModel::Dir { name, path, size, children } => {
            let cs = aggregate_seq(children);
            NodeModel::Dir { name, path, size: sum_sizes(cs), children: cs }
        },
    }
}

/// Aggregation applied to each node of a sequence.
pub open spec fn aggregate_seq(s: Seq<NodeModel>) -> Seq<NodeModel>
    decreases s,
{
    if s.len() == 0 {
        Seq::empty()
    } else {
        aggregate_seq(s.drop_last()).push(aggregate_model(s.last()))
    }
}

/// Sum of the stored size fields over a sequence of nodes.
pub open spec fn sum_sizes(s: Seq<NodeModel>) -> nat
    decreases s,
{
    if s.len() == 0 {
        0
    } else {
        sum_sizes(s.drop_last()) + model_size(s.last())
    }
}

/// Every directory's stored size equals the sum of the sizes of all files
/// below it, throughout the tree.
pub open spec fn sizes_correct(n: NodeModel) -> bool
    decreases n,
{
    match n {
        NodeModel::File { .. } => true,
        NodeModel::Dir { size, children, .. } => size == seq_file_total(children)
            && seq_sizes_correct(children),
    }
}

/// `sizes_correct` over every node of a sequence.
pub open spec fn seq_sizes_correct(s: Seq<NodeModel>) -> bool
    decreases s,
{
    if s.len() == 0 {
        true
    } else {
        seq_sizes_correct(s.drop_last()) && sizes_correct(s.last())
    }
}

/// An aggregated node's stored size is the file total of the original node,
/// and aggregation does not change which files the tree holds.
pub proof fn lemma_aggregate_size(n: NodeModel)
    ensures
        model_size(aggregate_model(n)) == subtree_file_total(n),
        subtree_file_total(aggregate_model(n)) == subtree_file_total(n),
    decreases n,
{
    match n {
        NodeModel::File { .. } => {},
        NodeModel::Dir { children, .. } => {
            lemma_aggregate_seq_size(children);
        },
    }
}

/// The sequence form of `lemma_aggregate_size`.
pub proof fn lemma_aggregate_seq_size(s: Seq<NodeModel>)
    ensures
        sum_sizes(aggregate_seq(s)) == seq_file_total(s),
        seq_file_total(aggregate_seq(s)) == seq_file_total(s),
        aggregate_seq(s).len() == s.len(),
    decreases s,
{
    if s.len() > 0 {
        lemma_aggregate_seq_size(s.drop_last());
        lemma_aggregate_size(s.last());
        assert(aggregate_seq(s).drop_last() =~= aggregate_seq(s.drop_last()));
    }
}

/// Size correctness: after aggregation, every directory's size equals the
/// sum of the sizes of all file descendants, for every directory in the tree.
pub proof fn lemma_aggregate_sizes_correct(n: NodeModel)
    ensures
        sizes_correct(aggregate_model(n)),
    decreases n,
{
    match n {
        NodeModel::File { .. } => {},
        NodeModel::Dir { children, .. } => {
            lemma_aggregate_seq_sizes_correct(children);
            lemma_aggregate_seq_size(children);
        },
    }
}

/// The sequence form of `lemma_aggregate_sizes_correct`.
pub proof fn lemma_aggregate_seq_sizes_correct(s: Seq<NodeModel>)
    ensures
        seq_sizes_correct(aggregate_seq(s)),
    decreases s,
{
    if s.len() > 0 {
        lemma_aggregate_seq_sizes_correct(s.drop_last());
        lemma_aggregate_sizes_correct(s.last());
        assert(aggregate_seq(s).drop_last() =~= aggregate_seq(s.drop_last()));
    }
}

/// Idempotence of aggregation: aggregating an already aggregated tree
/// changes nothing.
pub proof fn lemma_aggregate_idempotent(n: NodeModel)
    ensures
        aggregate_model(aggregate_model(n)) == aggregate_model(n),
    decreases n,
{
    match n {
        NodeModel::File { .. } => {},
        NodeModel::Dir { children, .. } => {
            lemma_aggregate_seq_idempotent(children);
            lemma_aggregate_seq_size(children);
            lemma_aggregate_seq_size(aggregate_seq(children));
        },
    }
}

/// The sequence form of `lemma_aggregate_idempotent`.
pub proof fn lemma_aggregate_seq_idempotent(s: Seq<NodeModel>)
    ensures
        aggregate_seq(aggregate_seq(s)) == aggregate_seq(s),
    decreases s,
{
    if s.len() > 0 {
        lemma_aggregate_seq_idempotent(s.drop_last());
        lemma_aggregate_idempotent(s.last());
        assert(aggregate_seq(s).drop_last() =~= aggregate_seq(s.drop_last()));
        assert(aggregate_seq(aggregate_seq(s)).drop_last() =~= aggregate_seq(
            aggregate_seq(s).drop_last(),
        ));
        assert(aggregate_seq(aggregate_seq(s)) =~= aggregate_seq(s));
    }
}

/// Recomputes every directory size below `d` bottom-up, by moving each child
/// out, aggregating it, and putting the result back in place.
#[verifier::loop_isolation(false)]
fn aggregate_dir(d: DirectoryItem) -> (res: (DirectoryItem, u64))
    requires
        subtree_file_total(dir_model(d)) <= u64::MAX,
    ensures
        dir_model(res.0) == aggregate_model(dir_model(d)),
        res.1 as nat == subtree_file_total(dir_model(d)),
        res.0.size == res.1,
    decreases d,
{
    let ghost d0 = d;
    let DirectoryItem { name, fullpath, children, size: _ } = d;
    let ghost orig = children@;
    let ghost cm = children_model(orig);
    proof {
        lemma_children_model_index(orig);
    }
    let mut rest = children;
    let mut out: Vec<FileSystemItem> = Vec::new();
    let mut total: u64 = 0;
    while rest.len() > 0
        invariant
            out@.len() + rest@.len() == orig.len(),
            rest@ =~= orig.skip(out@.len() as int),
            children_model(out@) == aggregate_seq(cm.take(out@.len() as int)),
            total as nat == seq_file_total(cm.take(out@.len() as int)),
        decreases rest@.len(),
    {
        let ghost k = out@.len() as int;
        proof {
            assert(orig.skip(k)[0] == orig[k]);
            lemma_seq_file_total_step(cm, k);
            lemma_seq_file_total_prefix(cm, k + 1);
            assert(cm.take(k + 1).drop_last() =~= cm.take(k));
            assert(cm.take(k + 1).last() == cm[k]);
        }
        let ghost out_before = out@;
        let child = rest.remove(0);
        let ghost c0 = child;
        proof {
            assert(c0 == orig[k]);
            assert(cm[k] == item_model(c0));
            assert(decreases_to!(d0 => d0.children));
            assert(decreases_to!(d0.children => orig));
            assert(decreases_to!(orig => orig[k]));
        }
        match child {
            FileSystemItem::FileItem(f) => {
                total = total + f.size;
                out.push(FileSystemItem::FileItem(f));
                proof {
                    assert(item_model(out@.last()) == cm[k]);
                    assert(aggregate_model(cm[k]) == cm[k]);
                }
            },
            FileSystemItem::DirectoryItem(dd) => {
                let ghost dd0 = dd;
                proof {
                    assert(decreases_to!(c0 => dd0));
                }
                let (dd2, child_total) = aggregate_dir(dd);
                total = total + child_total;
                out.push(FileSystemItem::DirectoryItem(dd2));
                proof {
                    assert(item_model(c0) == dir_model(dd0));
                    assert(item_model(out@.last()) == dir_model(dd2));
                    assert(item_model(out@.last()) == aggregate_model(cm[k]));
                }
            },
        }
        proof {
            assert(out@.drop_last() =~= out_before);
            assert(children_model(out@) == children_model(out_before).push(
                item_model(out@.last()),
            ));
            assert(children_model(out@) =~= aggregate_seq(cm.take(k + 1)));
        }
    }
    proof {
        assert(cm.take(cm.len() as int) =~= cm);
        lemma_aggregate_seq_size(cm);
    }
    let size = total;
    (DirectoryItem { name, fullpath, children: out, size }, total)
}

/// Recomputes every directory's `size` in place, bottom-up, and returns the
/// root's total, which equals the sum of the sizes of all files in the tree.
pub fn calculate_directory_size(item: &mut DirectoryItem) -> (total: u64)
    requires
        subtree_file_total(dir_model(*old(item))) <= u64::MAX,
    ensures
        dir_model(*final(item)) == aggregate_model(dir_model(*old(item))),
        total as nat == subtree_file_total(dir_model(*old(item))),
        final(item).size == total,
{
    let mut taken = DirectoryItem {
        name: String::new(),
        fullpath: String::new(),
        children: Vec::new(),
        size: 0,
    };
    core::mem::swap(item, &mut taken);
    let (done, total) = aggregate_dir(taken);
    *item = done;
    total
}

} // verus!
