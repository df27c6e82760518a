//! The entry decision: from a resolved path and its listing to the JSON text.
//!
//! The path comes from an outside picker; an empty path means nothing was
//! selected and short-circuits to an empty result before anything else
//! happens. Otherwise the tree is built, directory sizes are recomputed, and
//! the finished tree is serialized.

use vstd::prelude::*;
use vstd::string::StringExecFns;

use crate::aggregate::aggregate_model;
use crate::aggregate::calculate_directory_size;
use crate::builder::built_children;
use crate::builder::listing_model;
use crate::builder::make_tree;
use crate::builder::DirListing;
use crate::builder::ListingModel;
use crate::item::children_model;
use crate::item::dir_model;
use crate::item::subtree_file_total;
use crate::item::DirectoryItem;
use crate::item::FileSystemItem;
use crate::item::NodeModel;
use crate::json::get_json;
use crate::json::json_node;
use crate::json::node_height;

verus! {

/// The root node before aggregation: a directory whose name and path are
/// both the resolved path, with the built children and a placeholder size.
pub open spec fn root_model(path: Seq<char>, l: ListingModel) -> NodeModel {
    NodeModel::Dir { name: path, path: path, size: 0, children: built_children(path, l) }
}

/// What a whole scan returns: the empty string for an empty path, else the
/// JSON document of the aggregated tree built from the listing.
pub open spec fn scan_output(path: Seq<char>, l: ListingModel) -> Seq<char> {
    if path.len() == 0 {
        Seq::empty()
    } else {
        json_node(aggregate_model(root_model(path, l)), 0)
    }
}

/// Runs one scan over an already enumerated hierarchy. An empty path returns
/// the empty string at once, without touching the listing; otherwise the
/// result is exactly the serialized, size-aggregated tree for `path`.
pub fn scan_report(path: &str, listing: &DirListing) -> (r: String)
    requires
        path@.len() > 0 ==> subtree_file_total(root_model(path@, listing_model(*listing)))
            <= u64::MAX,
        path@.len() > 0 ==> node_height(aggregate_model(root_model(path@, listing_model(*listing))))
            <= usize::MAX,
    ensures
        r@ == scan_output(path@, listing_model(*listing)),
        path@.len() == 0 ==> r@ == Seq::<char>::empty(),
{
    if path.is_empty() {
        return String::new();
    }
    let mut root = DirectoryItem {
        name: String::from_str(path),
        fullpath: String::from_str(path),
        children: Vec::new(),
        size: 0,
    };
    make_tree(&mut root, listing);
    proof {
        assert(children_model(Seq::<FileSystemItem>::empty()) + built_children(
            path@,
            listing_model(*listing),
        ) =~= built_children(path@, listing_model(*listing)));
        assert(dir_model(root) == root_model(path@, listing_model(*listing)));
    }
    calculate_directory_size(&mut root);
    get_json(&root)
}

} // verus!
