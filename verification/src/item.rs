//! The tree of scanned filesystem entries and its mathematical model.

use vstd::prelude::*;

verus! {

/// One entry of a scanned hierarchy: a regular file or a directory.
pub enum FileSystemItem {
    FileItem(FileItem),
    DirectoryItem(DirectoryItem),
}

/// A regular file: display name, full path and byte length.
pub struct FileItem {
    pub name: String,
    pub fullpath: String,
    pub size: u64,
}

/// A directory: display name, full path, its entries in enumeration order,
/// and a cumulative byte size that only an aggregation pass makes trustworthy.
pub struct DirectoryItem {
    pub name: String,
    pub fullpath: String,
    pub children: Vec<FileSystemItem>,
    pub size: u64,
}

/// Mathematical model of a node: strings as character sequences, sizes as
/// unbounded naturals, children as a sequence of models.
#[verifier::ext_equal]
pub enum NodeModel {
    File { name: Seq<char>, path: Seq<char>, size: nat },
    Dir { name: Seq<char>, path: Seq<char>, size: nat, children: Seq<NodeModel> },
}

/// The model of one item.
pub open spec fn item_model(item: FileSystemItem) -> NodeModel
    decreases item,
{
    match item {
        FileSystemItem::FileItem(f) => NodeModel::File {
            name: f.name@,
            path: f.fullpath@,
            size: f.size as nat,
        },
        FileSystemItem::DirectoryItem(d) => NodeModel::Dir {
            name: d.name@,
            path: d.fullpath@,
            size: d.size as nat,
            children: children_model(d.children@),
        },
    }
}

/// The models of a sequence of items, in order.
pub open spec fn children_model(s: Seq<FileSystemItem>) -> Seq<NodeModel>
    decreases s,
{
    if s.len() == 0 {
        Seq::empty()
    } else {
        children_model(s.drop_last()).push(item_model(s.last()))
    }
}

/// The model of a directory item.
pub open spec fn dir_model(d: DirectoryItem) -> NodeModel {
    NodeModel::Dir {
        name: d.name@,
        path: d.fullpath@,
        size: d.size as nat,
        children: children_model(d.children@),
    }
}

/// The display name of a node.
pub open spec fn model_name(n: NodeModel) -> Seq<char> {
    match n {
        NodeModel::File { name, .. } => name,
        NodeModel::Dir { name, .. } => name,
    }
}

/// The full path of a node.
pub open spec fn model_path(n: NodeModel) -> Seq<char> {
    match n {
        NodeModel::File { path, .. } => path,
        NodeModel::Dir { path, .. } => path,
    }
}

/// The stored size field of a node.
pub open spec fn model_size(n: NodeModel) -> nat {
    match n {
        NodeModel::File { size, .. } => size,
        NodeModel::Dir { size, .. } => size,
    }
}

/// Sum of the sizes of every file in the subtree rooted at `n`,
/// ignoring the stored directory sizes.
pub open spec fn subtree_file_total(n: NodeModel) -> nat
    decreases n,
{
    match n {
        NodeModel::File { size, .. } => size,
        NodeModel::Dir { children, .. } => seq_file_total(children),
    }
}

/// Sum of `subtree_file_total` over a sequence of nodes.
pub open spec fn seq_file_total(s: Seq<NodeModel>) -> nat
    decreases s,
{
    if s.len() == 0 {
        0
    } else {
        seq_file_total(s.drop_last()) + subtree_file_total(s.last())
    }
}

/// The models of a sequence distribute over its elements.
pub proof fn lemma_children_model_index(s: Seq<FileSystemItem>)
    ensures
        children_model(s).len() == s.len(),
        forall|i: int|
            0 <= i < s.len() ==> #[trigger] children_model(s)[i] == item_model(s[i]),
    decreases s.len(),
{
    if s.len() > 0 {
        lemma_children_model_index(s.drop_last());
        assert forall|i: int| 0 <= i < s.len() implies #[trigger] children_model(s)[i]
            == item_model(s[i]) by {
            if i < s.len() - 1 {
                assert(children_model(s)[i] == children_model(s.drop_last())[i]);
                assert(s.drop_last()[i] == s[i]);
            } else {
                assert(s.last() == s[i]);
            }
        }
    }
}

/// A prefix sum of file totals never exceeds the sum over the whole sequence.
pub proof fn lemma_seq_file_total_prefix(s: Seq<NodeModel>, k: int)
    requires
        0 <= k <= s.len(),
    ensures
        seq_file_total(s.take(k)) <= seq_file_total(s),
    decreases s.len() - k,
{
    if k < s.len() {
        lemma_seq_file_total_step(s, k);
        lemma_seq_file_total_prefix(s, k + 1);
    } else {
        assert(s.take(k) =~= s);
    }
}

/// Extending a prefix by one element adds that element's subtree total.
pub proof fn lemma_seq_file_total_step(s: Seq<NodeModel>, k: int)
    requires
        0 <= k < s.len(),
    ensures
        seq_file_total(s.take(k + 1)) == seq_file_total(s.take(k)) + subtree_file_total(s[k]),
{
    assert(s.take(k + 1).drop_last() =~= s.take(k));
    assert(s.take(k + 1).last() == s[k]);
}

/// Pre-order search for the first directory named `name`: the root counts,
/// files never match, children are tried left to right.
pub open spec fn find_dir_model(n: NodeModel, name: Seq<char>) -> Option<NodeModel>
    decreases n,
{
    match n {
        NodeModel::File { .. } => None,
        NodeModel::Dir { name: nm, children, .. } => if nm == name {
            Some(n)
        } else {
            find_dir_seq(children, name)
        },
    }
}

/// The first match over a sequence of nodes, left to right.
pub open spec fn find_dir_seq(s: Seq<NodeModel>, name: Seq<char>) -> Option<NodeModel>
    decreases s,
{
    if s.len() == 0 {
        None
    } else if find_dir_model(s.first(), name) is Some {
        find_dir_model(s.first(), name)
    } else {
        find_dir_seq(s.drop_first(), name)
    }
}

/// A fruitless prefix does not change the outcome of the search.
pub proof fn lemma_find_dir_seq_skip(s: Seq<NodeModel>, name: Seq<char>, k: int)
    requires
        0 <= k <= s.len(),
        find_dir_seq(s.take(k), name) is None,
    ensures
        find_dir_seq(s, name) == find_dir_seq(s.skip(k), name),
    decreases k,
{
    if k > 0 {
        assert(s.take(k).first() == s.first());
        assert(s.take(k).drop_first() =~= s.drop_first().take(k - 1));
        lemma_find_dir_seq_skip(s.drop_first(), name, k - 1);
        assert(s.drop_first().skip(k - 1) =~= s.skip(k));
    } else {
        assert(s.skip(0) =~= s);
    }
}

/// Searches the tree under `item` for the first directory whose name equals
/// `name`, in pre-order, and returns it.
pub fn find_directory<'a>(item: &'a FileSystemItem, name: &str) -> (r: Option<
    &'a FileSystemItem,
>)
    ensures
        match r {
            Some(found) => find_dir_model(item_model(*item), name@) == Some(item_model(*found)),
            None => find_dir_model(item_model(*item), name@) is None,
        },
    decreases *item,
{
    match item {
        FileSystemItem::DirectoryItem(dir) => {
            if crate::text::str_eq(dir.name.as_str(), name) {
                Some(item)
            } else {
                let ghost cm = children_model(dir.children@);
                proof {
                    lemma_children_model_index(dir.children@);
                }
                let mut i: usize = 0;
                while i < dir.children.len()
                    invariant
                        i <= dir.children.len(),
                        cm == children_model(dir.children@),
                        cm.len() == dir.children@.len(),
                        forall|j: int| 0 <= j < cm.len() ==> #[trigger] cm[j]
                            == item_model(dir.children@[j]),
                        find_dir_seq(cm.take(i as int), name@) is None,
                        *item == FileSystemItem::DirectoryItem(*dir),
                        item_model(*item) is Dir,
                        find_dir_model(item_model(*item), name@) == find_dir_seq(cm, name@),
                    decreases dir.children.len() - i,
                {
                    let ghost k = i as int;
                    proof {
                        assert(decreases_to!(*item => dir.children@[k]));
                    }
                    let child = &dir.children[i];
                    let r = find_directory(child, name);
                    proof {
                        lemma_find_dir_seq_skip(cm, name@, k);
                        assert(cm.skip(k).first() == cm[k]);
                        assert(cm.take(k + 1).take(k) =~= cm.take(k));
                        lemma_find_dir_seq_skip(cm.take(k + 1), name@, k);
                        assert(cm.take(k + 1).skip(k) =~= seq![cm[k]]);
                        assert(seq![cm[k]].first() == cm[k]);
                        assert(seq![cm[k]].drop_first() =~= Seq::<NodeModel>::empty());
                    }
                    match r {
                        Some(found) => {
                            return Some(found);
                        },
                        None => {
                            proof {
                                assert(find_dir_model(cm[k], name@) is None);
                                assert(find_dir_seq(Seq::<NodeModel>::empty(), name@) is None);
                                assert(find_dir_seq(seq![cm[k]], name@) is None);
                                assert(find_dir_seq(cm.take(k + 1), name@) is None);
                            }
                        },
                    }
                    i = i + 1;
                }
                proof {
                    assert(cm.take(cm.len() as int) =~= cm);
                }
                None
            }
        },
        FileSystemItem::FileItem(_) => None,
    }
}

impl FileSystemItem {
    /// The display name of this item.
    pub fn name(&self) -> (r: &str)
        ensures
            r@ == model_name(item_model(*self)),
    {
        match self {
            FileSystemItem::FileItem(file) => file.name.as_str(),
            FileSystemItem::DirectoryItem(dir) => dir.name.as_str(),
        }
    }

    /// Recomputes the total size of every file below this item,
    /// ignoring the stored directory sizes.
    pub fn size(&self) -> (r: u64)
        requires
            subtree_file_total(item_model(*self)) <= u64::MAX,
        ensures
            r as nat == subtree_file_total(item_model(*self)),
        decreases *self,
    {
        match self {
            FileSystemItem::FileItem(file) => file.size,
            FileSystemItem::DirectoryItem(dir) => {
                let ghost m = children_model(dir.children@);
                proof {
                    lemma_children_model_index(dir.children@);
                }
                let mut total: u64 = 0;
                let mut i: usize = 0;
                while i < dir.children.len()
                    invariant
                        i <= dir.children.len(),
                        m == children_model(dir.children@),
                        m.len() == dir.children@.len(),
                        forall|j: int| 0 <= j < m.len() ==> #[trigger] m[j]
                            == item_model(dir.children@[j]),
                        seq_file_total(m) <= u64::MAX,
                        total as nat == seq_file_total(m.take(i as int)),
                        subtree_file_total(item_model(*self)) == seq_file_total(m),
                        *self == FileSystemItem::DirectoryItem(*dir),
                    decreases dir.children.len() - i,
                {
                    proof {
                        lemma_seq_file_total_step(m, i as int);
                        lemma_seq_file_total_prefix(m, i as int + 1);
                        assert(decreases_to!(*self => dir.children@[i as int]));
                    }
                    let child = &dir.children[i];
                    let child_size = child.size();
                    total = total + child_size;
                    i = i + 1;
                }
                proof {
                    assert(m.take(m.len() as int) =~= m);
                }
                total
            },
        }
    }

    /// Whether this item is a directory.
    pub fn is_directory(&self) -> (r: bool)
        ensures
            r == (item_model(*self) is Dir),
    {
        matches!(self, FileSystemItem::DirectoryItem(_))
    }
}

} // verus!
