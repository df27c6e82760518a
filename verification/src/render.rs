//! Plain-text rendering of a tree, for diagnostic printing.
//!
//! Each item gets one line; a directory's entries follow, indented one level
//! deeper. A second renderer lists directory names alone.

use vstd::prelude::*;
use vstd::string::StringExecFns;

use crate::item::children_model;
use crate::item::dir_model;
use crate::item::item_model;
use crate::item::lemma_children_model_index;
use crate::item::lemma_seq_file_total_prefix;
use crate::item::lemma_seq_file_total_step;
use crate::item::subtree_file_total;
use crate::item::DirectoryItem;
use crate::item::FileSystemItem;
use crate::item::NodeModel;
use crate::json::indent;
use crate::json::lemma_seq_height_index;
use crate::json::node_height;
use crate::json::write_indent;
use crate::text::dec_str;
use crate::text::u64_to_decimal;

verus! {

/// The one-line description of a node: its kind, name, recomputed file
/// total, and for a directory the number of direct entries.
pub open spec fn display_of(n: NodeModel) -> Seq<char> {
    match n {
        NodeModel::File { name, .. } => "FileItem: "@ + name + " , "@ + dec_str(
            subtree_file_total(n),
        ) + " "@,
        NodeModel::Dir { name, children, .. } => "DirectoryItem: "@ + name + " , "@ + dec_str(
            subtree_file_total(n),
        ) + ", "@ + dec_str(children.len()),
    }
}

impl FileSystemItem {
    /// The display line for this item.
    pub fn display_string(&self) -> (r: String)
        requires
            subtree_file_total(item_model(*self)) <= u64::MAX,
        ensures
            r@ == display_of(item_model(*self)),
    {
        let total = self.size();
        match self {
            FileSystemItem::FileItem(file) => {
                let mut out = String::from_str("FileItem: ");
                out.append(file.name.as_str());
                out.append(" , ");
                let num = u64_to_decimal(total);
                out.append(num.as_str());
                out.append(" ");
                proof {
                    assert(out@ =~= display_of(item_model(*self)));
                }
                out
            },
            FileSystemItem::DirectoryItem(dir) => {
                let mut out = String::from_str("DirectoryItem: ");
                out.append(dir.name.as_str());
                out.append(" , ");
                let num = u64_to_decimal(total);
                out.append(num.as_str());
                out.append(", ");
                let cnt = u64_to_decimal(dir.children.len() as u64);
                out.append(cnt.as_str());
                proof {
                    lemma_children_model_index(dir.children@);
                    assert(out@ =~= display_of(item_model(*self)));
                }
                out
            },
        }
    }
}

/// The rendered text of a subtree: one line per item, each directory's
/// entries indented one level deeper.
pub open spec fn fs_text(n: NodeModel, ind: nat) -> Seq<char>
    decreases n, 1nat,
{
    indent(ind) + display_of(n) + "\n"@ + (match n {
        NodeModel::Dir { children, .. } => fs_children_text(children, ind + 1),
        NodeModel::File { .. } => Seq::empty(),
    })
}

/// The rendered text of a sequence of nodes, in order.
pub open spec fn fs_children_text(s: Seq<NodeModel>, ind: nat) -> Seq<char>
    decreases s, 0nat,
{
    if s.len() == 0 {
        Seq::empty()
    } else {
        fs_children_text(s.drop_last(), ind) + fs_text(s.last(), ind)
    }
}

/// Appends the rendered text of a subtree.
#[verifier::loop_isolation(false)]
fn write_fs_text(out: &mut String, item: &FileSystemItem, ind: usize)
    requires
        subtree_file_total(item_model(*item)) <= u64::MAX,
        ind + node_height(item_model(*item)) <= usize::MAX,
    ensures
        final(out)@ == old(out)@ + fs_text(item_model(*item), ind as nat),
    decreases *item, 1nat,
{
    write_indent(out, ind);
    let line = item.display_string();
    out.append(line.as_str());
    out.append("\n");
    let ghost mid = out@;
    match item {
        FileSystemItem::FileItem(_) => {
            proof {
                assert(out@ =~= old(out)@ + fs_text(item_model(*item), ind as nat));
            }
        },
        FileSystemItem::DirectoryItem(dir) => {
            let ghost cm = children_model(dir.children@);
            proof {
                lemma_children_model_index(dir.children@);
                lemma_seq_height_index(cm);
            }
            let mut i: usize = 0;
            while i < dir.children.len()
                invariant
                    i <= dir.children.len(),
                    out@ == mid + fs_children_text(cm.take(i as int), ind as nat + 1),
                decreases dir.children.len() - i,
            {
                let ghost k = i as int;
                proof {
                    assert(cm.take(k + 1).drop_last() =~= cm.take(k));
                    assert(cm.take(k + 1).last() == cm[k]);
                    lemma_seq_file_total_step(cm, k);
                    lemma_seq_file_total_prefix(cm, k + 1);
                    assert(decreases_to!(*item => dir.children@[k]));
                }
                write_fs_text(out, &dir.children[i], ind + 1);
                i = i + 1;
            }
            proof {
                assert(cm.take(cm.len() as int) =~= cm);
                assert(out@ =~= old(out)@ + fs_text(item_model(*item), ind as nat));
            }
        },
    }
}

/// Renders a subtree as text, starting at the given indent level.
pub fn render_filesystem(item: &FileSystemItem, indent_level: usize) -> (r: String)
    requires
        subtree_file_total(item_model(*item)) <= u64::MAX,
        indent_level + node_height(item_model(*item)) <= usize::MAX,
    ensures
        r@ == fs_text(item_model(*item), indent_level as nat),
{
    let mut out = String::new();
    write_fs_text(&mut out, item, indent_level);
    out
}

/// The rendered directory skeleton: a directory's name on one line, then
/// its subdirectories, indented one level deeper; files leave no line.
pub open spec fn dir_text(n: NodeModel, ind: nat) -> Seq<char>
    decreases n, 1nat,
{
    match n {
        NodeModel::File { .. } => Seq::empty(),
        NodeModel::Dir { name, children, .. } => indent(ind) + name + "\n"@ + dir_children_text(
            children,
            ind + 1,
        ),
    }
}

/// The rendered skeleton of a sequence of nodes, in order.
pub open spec fn dir_children_text(s: Seq<NodeModel>, ind: nat) -> Seq<char>
    decreases s, 0nat,
{
    if s.len() == 0 {
        Seq::empty()
    } else {
        dir_children_text(s.drop_last(), ind) + dir_text(s.last(), ind)
    }
}

/// Appends the rendered skeleton of a directory.
#[verifier::loop_isolation(false)]
fn write_dir_text(out: &mut String, dir: &DirectoryItem, ind: usize)
    requires
        ind + node_height(dir_model(*dir)) <= usize::MAX,
    ensures
        final(out)@ == old(out)@ + dir_text(dir_model(*dir), ind as nat),
    decreases *dir, 1nat,
{
    write_indent(out, ind);
    out.append(dir.name.as_str());
    out.append("\n");
    let ghost mid = out@;
    let ghost cm = children_model(dir.children@);
    proof {
        lemma_children_model_index(dir.children@);
        lemma_seq_height_index(cm);
    }
    let mut i: usize = 0;
    while i < dir.children.len()
        invariant
            i <= dir.children.len(),
            out@ == mid + dir_children_text(cm.take(i as int), ind as nat + 1),
        decreases dir.children.len() - i,
    {
        let ghost k = i as int;
        proof {
            assert(cm.take(k + 1).drop_last() =~= cm.take(k));
            assert(cm.take(k + 1).last() == cm[k]);
        }
        let child = &dir.children[i];
        match child {
            FileSystemItem::DirectoryItem(sub) => {
                proof {
                    assert(decreases_to!(*dir => dir.children@[k]));
                    assert(decreases_to!(dir.children@[k] => *sub));
                }
                write_dir_text(out, sub, ind + 1);
                proof {
                    assert(item_model(*child) == dir_model(*sub));
                    assert(out@ =~= mid + dir_children_text(cm.take(k + 1), ind as nat + 1));
                }
            },
            FileSystemItem::FileItem(_) => {
                proof {
                    assert(dir_text(cm[k], ind as nat + 1) =~= Seq::<char>::empty());
                    assert(out@ =~= mid + dir_children_text(cm.take(k + 1), ind as nat + 1));
                }
            },
        }
        i = i + 1;
    }
    proof {
        assert(cm.take(cm.len() as int) =~= cm);
        assert(out@ =~= old(out)@ + dir_text(dir_model(*dir), ind as nat));
    }
}

/// Renders the directory skeleton under `item`, starting at the given
/// indent level.
pub fn render_dir_only(item: &DirectoryItem, indent_level: usize) -> (r: String)
    requires
        indent_level + node_height(dir_model(*item)) <= usize::MAX,
    ensures
        r@ == dir_text(dir_model(*item), indent_level as nat),
{
    let mut out = String::new();
    write_dir_text(&mut out, item, indent_level);
    out
}

} // verus!
