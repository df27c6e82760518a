//! The tree builder: turns directory listings into a tree of nodes.
//!
//! The library never touches a filesystem. A caller enumerates directories
//! and hands the outcome in as a [`DirListing`]; the builder walks that
//! description and appends one child per file or directory entry, skipping
//! everything else.

use vstd::prelude::*;

use crate::item::children_model;
use crate::item::item_model;
use crate::item::model_name;
use crate::item::model_path;
use crate::item::DirectoryItem;
use crate::item::FileItem;
use crate::item::FileSystemItem;
use crate::item::NodeModel;
use crate::text::base_name;
use crate::text::base_of;
use crate::text::join_path;
use crate::text::join_path_exec;

verus! {

/// What a caller found when it enumerated one directory.
pub enum DirListing {
    /// The entries, in enumeration order.
    Entries(Vec<DirEntry>),
    /// The directory could not be enumerated (permission denied, vanished,
    /// not a directory): a soft failure, the node keeps whatever children
    /// it already has.
    Unreadable,
}

/// One enumerated directory entry.
pub struct DirEntry {
    pub name: String,
    pub kind: EntryKind,
}

/// The classification of one entry, with what the builder needs of it.
pub enum EntryKind {
    /// A regular file, with its byte length.
    File(u64),
    /// A subdirectory, with its own listing.
    Dir(DirListing),
    /// Neither a regular file nor a directory (a symbolic link, a device):
    /// skipped, never traversed and never added as a leaf.
    Other,
}

/// Model of a listing.
#[verifier::ext_equal]
pub enum ListingModel {
    Entries(Seq<EntryModel>),
    Unreadable,
}

/// Model of one entry.
#[verifier::ext_equal]
pub struct EntryModel {
    pub name: Seq<char>,
    pub kind: KindModel,
}

/// Model of an entry's classification.
#[verifier::ext_equal]
pub enum KindModel {
    File(nat),
    Dir(ListingModel),
    Other,
}

/// The model of a listing.
pub open spec fn listing_model(l: DirListing) -> ListingModel
    decreases l,
{
    match l {
        DirListing::Entries(es) => ListingModel::Entries(entries_model(es@)),
        DirListing::Unreadable => ListingModel::Unreadable,
    }
}

/// The models of a sequence of entries, in order.
pub open spec fn entries_model(s: Seq<DirEntry>) -> Seq<EntryModel>
    decreases s,
{
    if s.len() == 0 {
        Seq::empty()
    } else {
        entries_model(s.drop_last()).push(entry_model(s.last()))
    }
}

/// The model of one entry.
pub open spec fn entry_model(e: DirEntry) -> EntryModel
    decreases e,
{
    EntryModel { name: e.name@, kind: kind_model(e.kind) }
}

/// The model of one classification.
pub open spec fn kind_model(k: EntryKind) -> KindModel
    decreases k,
{
    match k {
        EntryKind::File(sz) => KindModel::File(sz as nat),
        EntryKind::Dir(l) => KindModel::Dir(listing_model(l)),
        EntryKind::Other => KindModel::Other,
    }
}

/// The entry models distribute over the elements.
pub proof fn lemma_entries_model_index(s: Seq<DirEntry>)
    ensures
        entries_model(s).len() == s.len(),
        forall|i: int|
            0 <= i < s.len() ==> #[trigger] entries_model(s)[i] == entry_model(s[i]),
    decreases s.len(),
{
    if s.len() > 0 {
        lemma_entries_model_index(s.drop_last());
        assert forall|i: int| 0 <= i < s.len() implies #[trigger] entries_model(s)[i]
            == entry_model(s[i]) by {
            if i < s.len() - 1 {
                assert(entries_model(s)[i] == entries_model(s.drop_last())[i]);
                assert(s.drop_last()[i] == s[i]);
            } else {
                assert(s.last() == s[i]);
            }
        }
    }
}

/// The children the builder appends under a parent with path `parent`,
/// for one listing.
pub open spec fn built_children(parent: Seq<char>, l: ListingModel) -> Seq<NodeModel>
    decreases l,
{
    match l {
        ListingModel::Unreadable => Seq::empty(),
        ListingModel::Entries(es) => built_entries(parent, es),
    }
}

/// The children appended for a sequence of entries, in order.
pub open spec fn built_entries(parent: Seq<char>, es: Seq<EntryModel>) -> Seq<NodeModel>
    decreases es,
{
    if es.len() == 0 {
        Seq::empty()
    } else {
        built_entries(parent, es.drop_last()) + built_entry(parent, es.last())
    }
}

/// The zero or one children appended for one entry: a file leaf, a fully
/// built subdirectory with a placeholder size of zero, or nothing.
pub open spec fn built_entry(parent: Seq<char>, e: EntryModel) -> Seq<NodeModel>
    decreases e,
{
    match e.kind {
        KindModel::File(size) => seq![
            NodeModel::File {
                name: base_of(e.name),
                path: join_path(parent, base_of(e.name)),
                size,
            },
        ],
        KindModel::Dir(sub) => seq![
            NodeModel::Dir {
                name: base_of(e.name),
                path: join_path(parent, base_of(e.name)),
                size: 0,
                children: built_children(join_path(parent, base_of(e.name)), sub),
            },
        ],
        KindModel::Other => Seq::empty(),
    }
}

/// Each entry contributes its children independently of its siblings: the
/// built sequence splits around any one entry's contribution.
pub proof fn lemma_built_entries_decompose(parent: Seq<char>, es: Seq<EntryModel>, i: int)
    requires
        0 <= i < es.len(),
    ensures
        built_entries(parent, es) == built_entries(parent, es.take(i)) + built_entry(parent, es[i])
            + built_entries(parent, es.skip(i + 1)),
    decreases es.len(),
{
    if i == es.len() - 1 {
        assert(es.take(i) =~= es.drop_last());
        assert(es.skip(i + 1) =~= Seq::<EntryModel>::empty());
        assert(built_entries(parent, es) =~= built_entries(parent, es.take(i)) + built_entry(
            parent,
            es[i],
        ) + built_entries(parent, es.skip(i + 1)));
    } else {
        lemma_built_entries_decompose(parent, es.drop_last(), i);
        assert(es.drop_last().take(i) =~= es.take(i));
        assert(es.drop_last()[i] == es[i]);
        assert(es.drop_last().skip(i + 1) =~= es.skip(i + 1).drop_last());
        assert(es.skip(i + 1).last() == es.last());
        assert(built_entries(parent, es.skip(i + 1)) == built_entries(
            parent,
            es.skip(i + 1).drop_last(),
        ) + built_entry(parent, es.last()));
        assert(built_entries(parent, es) =~= built_entries(parent, es.take(i)) + built_entry(
            parent,
            es[i],
        ) + built_entries(parent, es.skip(i + 1)));
    }
}

/// Soft-failure isolation: when one entry's subdirectory cannot be
/// enumerated, every sibling's contribution to the built children is exactly
/// what it is when that subdirectory enumerates fine; only the one entry's
/// own contribution differs.
pub proof fn lemma_soft_failure_isolation(parent: Seq<char>, es: Seq<EntryModel>, i: int)
    requires
        0 <= i < es.len(),
    ensures
        ({
            let failed = es.update(
                i,
                (EntryModel { name: es[i].name, kind: KindModel::Dir(ListingModel::Unreadable) }),
            );
            built_entries(parent, failed) == built_entries(parent, es.take(i)) + built_entry(
                parent,
                failed[i],
            ) + built_entries(parent, es.skip(i + 1)) && built_entries(parent, es)
                == built_entries(parent, es.take(i)) + built_entry(parent, es[i]) + built_entries(
                parent,
                es.skip(i + 1),
            )
        }),
{
    let failed = es.update(
        i,
        (EntryModel { name: es[i].name, kind: KindModel::Dir(ListingModel::Unreadable) }),
    );
    lemma_built_entries_decompose(parent, es, i);
    lemma_built_entries_decompose(parent, failed, i);
    assert(failed.take(i) =~= es.take(i));
    assert(failed.skip(i + 1) =~= es.skip(i + 1));
}

/// Whether the builder keeps an entry: files and directories stay,
/// everything else is skipped.
pub open spec fn relevant(e: EntryModel) -> bool {
    !(e.kind is Other)
}

/// The subsequence of entries the builder keeps, in order.
pub open spec fn relevant_entries(es: Seq<EntryModel>) -> Seq<EntryModel>
    decreases es,
{
    if es.len() == 0 {
        es
    } else if relevant(es.last()) {
        relevant_entries(es.drop_last()).push(es.last())
    } else {
        relevant_entries(es.drop_last())
    }
}

/// Symlink skip: entries that are neither files nor directories are absent
/// from the result; the builder produces exactly what it produces for the
/// relevant entries alone.
pub proof fn lemma_skip_others(parent: Seq<char>, es: Seq<EntryModel>)
    ensures
        built_entries(parent, es) == built_entries(parent, relevant_entries(es)),
    decreases es.len(),
{
    if es.len() > 0 {
        lemma_skip_others(parent, es.drop_last());
        if relevant(es.last()) {
            assert(relevant_entries(es).drop_last() =~= relevant_entries(es.drop_last()));
            assert(relevant_entries(es).last() == es.last());
        } else {
            assert(built_entry(parent, es.last()) =~= Seq::<NodeModel>::empty());
            assert(built_entries(parent, es) =~= built_entries(parent, es.drop_last()));
        }
    }
}

/// Path derivation: every child the builder appends under a parent with path
/// `parent` carries the path `parent` joined with the child's own name by
/// the separator, for file and directory children alike.
pub proof fn lemma_built_path_derivation(parent: Seq<char>, l: ListingModel)
    ensures
        forall|i: int|
            0 <= i < built_children(parent, l).len() ==> #[trigger] model_path(
                built_children(parent, l)[i],
            ) == join_path(parent, model_name(built_children(parent, l)[i])),
{
    match l {
        ListingModel::Unreadable => {
            assert(built_children(parent, l) =~= Seq::<NodeModel>::empty());
        },
        ListingModel::Entries(es) => {
            lemma_built_entries_path(parent, es);
            assert(built_children(parent, l) == built_entries(parent, es));
        },
    }
}

/// The sequence form of `lemma_built_path_derivation`.
pub proof fn lemma_built_entries_path(parent: Seq<char>, es: Seq<EntryModel>)
    ensures
        forall|i: int|
            0 <= i < built_entries(parent, es).len() ==> #[trigger] model_path(
                built_entries(parent, es)[i],
            ) == join_path(parent, model_name(built_entries(parent, es)[i])),
    decreases es.len(),
{
    if es.len() > 0 {
        lemma_built_entries_path(parent, es.drop_last());
        let whole = built_entries(parent, es);
        let head = built_entries(parent, es.drop_last());
        let tail = built_entry(parent, es.last());
        assert forall|i: int| 0 <= i < whole.len() implies #[trigger] model_path(whole[i])
            == join_path(parent, model_name(whole[i])) by {
            if i < head.len() {
                assert(whole[i] == head[i]);
            } else {
                assert(whole[i] == tail[i - head.len()]);
            }
        }
    }
}

/// Populates `file_info.children` from a listing of its directory: one leaf
/// per file, one recursively built node per subdirectory, nothing for other
/// entries, in enumeration order. An unreadable listing appends nothing.
#[verifier::loop_isolation(false)]
pub fn make_tree(file_info: &mut DirectoryItem, listing: &DirListing)
    ensures
        final(file_info).name == old(file_info).name,
        final(file_info).fullpath == old(file_info).fullpath,
        final(file_info).size == old(file_info).size,
        children_model(final(file_info).children@) == children_model(
            old(file_info).children@,
        ) + built_children(old(file_info).fullpath@, listing_model(*listing)),
    decreases *listing,
{
    let ghost l0 = *listing;
    let ghost fi0 = *file_info;
    match listing {
        DirListing::Unreadable => {
            proof {
                assert(children_model(file_info.children@) =~= children_model(fi0.children@)
                    + built_children(fi0.fullpath@, listing_model(l0)));
            }
        },
        DirListing::Entries(entries) => {
            let ghost em = entries_model(entries@);
            proof {
                lemma_entries_model_index(entries@);
                assert(children_model(fi0.children@) + built_entries(fi0.fullpath@, em.take(0))
                    =~= children_model(fi0.children@));
            }
            let mut i: usize = 0;
            while i < entries.len()
                invariant
                    i <= entries.len(),
                    file_info.name == fi0.name,
                    file_info.fullpath == fi0.fullpath,
                    file_info.size == fi0.size,
                    children_model(file_info.children@) == children_model(fi0.children@)
                        + built_entries(fi0.fullpath@, em.take(i as int)),
                decreases entries.len() - i,
            {
                let ghost k = i as int;
                proof {
                    assert(em.take(k + 1).drop_last() =~= em.take(k));
                    assert(em.take(k + 1).last() == em[k]);
                    assert(em[k] == entry_model(entries@[k]));
                }
                let ghost before = file_info.children@;
                let entry = &entries[i];
                let base = base_name(entry.name.as_str());
                match &entry.kind {
                    EntryKind::File(sz) => {
                        let path = join_path_exec(file_info.fullpath.as_str(), base.as_str());
                        file_info.children.push(
                            FileSystemItem::FileItem(
                                FileItem { name: base, fullpath: path, size: *sz },
                            ),
                        );
                        proof {
                            assert(file_info.children@.drop_last() =~= before);
                            assert(children_model(file_info.children@) == children_model(before)
                                .push(item_model(file_info.children@.last())));
                            assert(item_model(file_info.children@.last())
                                == built_entry(fi0.fullpath@, em[k])[0]);
                            assert(children_model(file_info.children@) =~= children_model(
                                fi0.children@,
                            ) + built_entries(fi0.fullpath@, em.take(k + 1)));
                        }
                    },
                    EntryKind::Dir(sub) => {
                        let path = join_path_exec(file_info.fullpath.as_str(), base.as_str());
                        let mut child = DirectoryItem {
                            name: base,
                            fullpath: path,
                            children: Vec::new(),
                            size: 0,
                        };
                        proof {
                            assert(entries@[k] == *entry);
                            assert(decreases_to!(l0 => *sub));
                        }
                        make_tree(&mut child, sub);
                        proof {
                            assert(children_model(Seq::<FileSystemItem>::empty())
                                + built_children(child.fullpath@, listing_model(*sub))
                                =~= built_children(child.fullpath@, listing_model(*sub)));
                        }
                        file_info.children.push(FileSystemItem::DirectoryItem(child));
                        proof {
                            assert(file_info.children@.drop_last() =~= before);
                            assert(children_model(file_info.children@) == children_model(before)
                                .push(item_model(file_info.children@.last())));
                            assert(item_model(file_info.children@.last())
                                == built_entry(fi0.fullpath@, em[k])[0]);
                            assert(children_model(file_info.children@) =~= children_model(
                                fi0.children@,
                            ) + built_entries(fi0.fullpath@, em.take(k + 1)));
                        }
                    },
                    EntryKind::Other => {
                        proof {
                            assert(built_entry(fi0.fullpath@, em[k]) =~= Seq::<NodeModel>::empty());
                            assert(children_model(file_info.children@) =~= children_model(
                                fi0.children@,
                            ) + built_entries(fi0.fullpath@, em.take(k + 1)));
                        }
                    },
                }
                i = i + 1;
            }
            proof {
                assert(em.take(em.len() as int) =~= em);
            }
        },
    }
}

} // verus!
