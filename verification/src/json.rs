//! The serializer: a pretty-printed JSON document with a fixed schema.
//!
//! A file is an object with the keys `name`, `path`, `size`; a directory has
//! `name`, `path`, `children`, `size`, in that order. The two are told apart
//! by the presence of `children` alone. Nesting is indented by two spaces
//! per level and string values carry the usual JSON escapes.

use vstd::prelude::*;
use vstd::string::StrSliceExecFns;
use vstd::string::StringExecFns;

use crate::item::children_model;
use crate::item::dir_model;
use crate::item::item_model;
use crate::item::DirectoryItem;
use crate::item::FileSystemItem;
use crate::item::NodeModel;
use crate::text::dec_str;
use crate::text::hex_char;
use crate::text::hex_str;
use crate::text::u64_to_decimal;

verus! {

/// Two spaces for every nesting level.
pub open spec fn indent(depth: nat) -> Seq<char>
    decreases depth,
{
    if depth == 0 {
        Seq::empty()
    } else {
        indent((depth - 1) as nat) + "  "@
    }
}

/// How one character appears inside a JSON string literal.
pub open spec fn escape_char(c: char) -> Seq<char> {
    if c == '"' {
        "\\\""@
    } else if c == '\\' {
        "\\\\"@
    } else if c == '\n' {
        "\\n"@
    } else if c == '\r' {
        "\\r"@
    } else if c == '\t' {
        "\\t"@
    } else if c == '\u{8}' {
        "\\b"@
    } else if c == '\u{c}' {
        "\\f"@
    } else if (c as u32) < 32 {
        "\\u00"@ + seq![hex_char((c as u32 / 16) as nat), hex_char((c as u32 % 16) as nat)]
    } else {
        seq![c]
    }
}

/// A whole character sequence, escaped.
pub open spec fn escape_seq(s: Seq<char>) -> Seq<char>
    decreases s,
{
    if s.len() == 0 {
        s
    } else {
        escape_seq(s.drop_last()) + escape_char(s.last())
    }
}

/// A JSON string literal: quoted and escaped.
pub open spec fn quoted(s: Seq<char>) -> Seq<char> {
    "\""@ + escape_seq(s) + "\""@
}

/// A character that stands in a JSON string literal as itself.
pub open spec fn plain_char(c: char) -> bool {
    c != '"' && c != '\\' && (c as u32) >= 32
}

/// Strings without quotes, backslashes or control characters appear in the
/// document verbatim: escaping changes nothing on them.
pub proof fn lemma_escape_plain(s: Seq<char>)
    requires
        forall|i: int| 0 <= i < s.len() ==> plain_char(#[trigger] s[i]),
    ensures
        escape_seq(s) == s,
    decreases s.len(),
{
    if s.len() > 0 {
        assert(plain_char(s[s.len() - 1]));
        lemma_escape_plain(s.drop_last());
        assert(escape_char(s.last()) =~= seq![s.last()]);
        assert(escape_seq(s) =~= s.drop_last() + seq![s.last()]);
        assert(s.drop_last() + seq![s.last()] =~= s);
    }
}

/// The opening of every node object: brace, then the `name` and `path`
/// members, each on its own line.
pub open spec fn json_obj_head(name: Seq<char>, path: Seq<char>, depth: nat) -> Seq<char> {
    "{\n"@ + indent(depth + 1) + "\"name\": "@ + quoted(name) + ",\n"@ + indent(depth + 1)
        + "\"path\": "@ + quoted(path) + ",\n"@
}

/// The closing of every node object: the `size` member and the brace.
pub open spec fn json_obj_tail(size: nat, depth: nat) -> Seq<char> {
    indent(depth + 1) + "\"size\": "@ + dec_str(size) + "\n"@ + indent(depth) + "}"@
}

/// The document produced for one node, placed at a nesting depth.
pub open spec fn json_node(n: NodeModel, depth: nat) -> Seq<char>
    decreases n, 0nat,
{
    match n {
        NodeModel::File { name, path, size } => json_obj_head(name, path, depth) + json_obj_tail(
            size,
            depth,
        ),
        NodeModel::Dir { name, path, size, children } => json_obj_head(name, path, depth) + (indent(
            depth + 1,
        ) + "\"children\": "@ + json_array(children, depth + 1) + ",\n"@) + json_obj_tail(
            size,
            depth,
        ),
    }
}

/// The array of children: empty brackets, or one element per line.
pub open spec fn json_array(s: Seq<NodeModel>, depth: nat) -> Seq<char>
    decreases s, 2nat,
{
    if s.len() == 0 {
        "[]"@
    } else {
        "["@ + json_elems(s, depth) + "\n"@ + indent(depth) + "]"@
    }
}

/// The elements of an array, comma separated, each on its own line one
/// level deeper.
pub open spec fn json_elems(s: Seq<NodeModel>, depth: nat) -> Seq<char>
    decreases s, 1nat,
{
    if s.len() == 0 {
        Seq::empty()
    } else {
        let elem = "\n"@ + indent(depth + 1) + json_node(s.last(), depth + 1);
        if s.len() == 1 {
            elem
        } else {
            json_elems(s.drop_last(), depth) + ","@ + elem
        }
    }
}

/// How much nesting a node needs: one level for a file, two more than its
/// children need for a directory (the object and its child array).
pub open spec fn node_height(n: NodeModel) -> nat
    decreases n,
{
    match n {
        NodeModel::File { .. } => 1,
        NodeModel::Dir { children, .. } => 2 + seq_height(children),
    }
}

/// The largest height among a sequence of nodes.
pub open spec fn seq_height(s: Seq<NodeModel>) -> nat
    decreases s,
{
    if s.len() == 0 {
        0
    } else {
        let rest = seq_height(s.drop_last());
        let last = node_height(s.last());
        if rest > last {
            rest
        } else {
            last
        }
    }
}

/// No element is taller than the sequence's height.
pub proof fn lemma_seq_height_index(s: Seq<NodeModel>)
    ensures
        forall|i: int| 0 <= i < s.len() ==> #[trigger] node_height(s[i]) <= seq_height(s),
    decreases s.len(),
{
    if s.len() > 0 {
        lemma_seq_height_index(s.drop_last());
        assert forall|i: int| 0 <= i < s.len() implies #[trigger] node_height(s[i]) <= seq_height(
            s,
        ) by {
            if i < s.len() - 1 {
                assert(s.drop_last()[i] == s[i]);
            } else {
                assert(s.last() == s[i]);
            }
        }
    }
}

/// Appends two spaces per nesting level.
pub(crate) fn write_indent(out: &mut String, depth: usize)
    ensures
        final(out)@ == old(out)@ + indent(depth as nat),
{
    let mut i: usize = 0;
    while i < depth
        invariant
            i <= depth,
            out@ == old(out)@ + indent(i as nat),
        decreases depth - i,
    {
        out.append("  ");
        i = i + 1;
    }
}

/// Appends a quoted, escaped JSON string literal.
fn write_quoted(out: &mut String, s: &str)
    ensures
        final(out)@ == old(out)@ + quoted(s@),
{
    out.append("\"");
    let n = s.unicode_len();
    let mut i: usize = 0;
    while i < n
        invariant
            i <= n,
            n == s@.len(),
            out@ == old(out)@ + "\""@ + escape_seq(s@.take(i as int)),
        decreases n - i,
    {
        proof {
            assert(s@.take(i as int + 1).drop_last() =~= s@.take(i as int));
            assert(s@.take(i as int + 1).last() == s@[i as int]);
        }
        let c = s.get_char(i);
        if c == '"' {
            out.append("\\\"");
        } else if c == '\\' {
            out.append("\\\\");
        } else if c == '\n' {
            out.append("\\n");
        } else if c == '\r' {
            out.append("\\r");
        } else if c == '\t' {
            out.append("\\t");
        } else if c == '\u{8}' {
            out.append("\\b");
        } else if c == '\u{c}' {
            out.append("\\f");
        } else if (c as u32) < 32 {
            let v = c as u32;
            out.append("\\u00");
            out.append(hex_str(v / 16));
            out.append(hex_str(v % 16));
            proof {
                assert(escape_char(c) =~= "\\u00"@ + seq![hex_char((v / 16) as nat)] + seq![
                    hex_char((v % 16) as nat),
                ]);
            }
        } else {
            let piece = s.substring_char(i, i + 1);
            out.append(piece);
            proof {
                assert(piece@ =~= seq![c]);
            }
        }
        proof {
            assert(out@ =~= old(out)@ + "\""@ + escape_seq(s@.take(i as int + 1)));
        }
        i = i + 1;
    }
    out.append("\"");
    proof {
        assert(s@.take(n as int) =~= s@);
        assert(out@ =~= old(out)@ + quoted(s@));
    }
}

/// Appends the opening members shared by file and directory objects.
fn write_obj_head(out: &mut String, name: &str, path: &str, depth: usize)
    requires
        depth < usize::MAX,
    ensures
        final(out)@ == old(out)@ + json_obj_head(name@, path@, depth as nat),
{
    out.append("{\n");
    write_indent(out, depth + 1);
    out.append("\"name\": ");
    write_quoted(out, name);
    out.append(",\n");
    write_indent(out, depth + 1);
    out.append("\"path\": ");
    write_quoted(out, path);
    out.append(",\n");
    proof {
        assert(out@ =~= old(out)@ + json_obj_head(name@, path@, depth as nat));
    }
}

/// Appends the closing members shared by file and directory objects.
fn write_obj_tail(out: &mut String, size: u64, depth: usize)
    requires
        depth < usize::MAX,
    ensures
        final(out)@ == old(out)@ + json_obj_tail(size as nat, depth as nat),
{
    write_indent(out, depth + 1);
    out.append("\"size\": ");
    let num = u64_to_decimal(size);
    out.append(num.as_str());
    out.append("\n");
    write_indent(out, depth);
    out.append("}");
    proof {
        assert(out@ =~= old(out)@ + json_obj_tail(size as nat, depth as nat));
    }
}

/// Appends the document for one node.
fn write_node(out: &mut String, item: &FileSystemItem, depth: usize)
    requires
        depth + node_height(item_model(*item)) <= usize::MAX,
    ensures
        final(out)@ == old(out)@ + json_node(item_model(*item), depth as nat),
    decreases *item, 1nat,
{
    match item {
        FileSystemItem::FileItem(file) => {
            write_obj_head(out, file.name.as_str(), file.fullpath.as_str(), depth);
            write_obj_tail(out, file.size, depth);
            proof {
                assert(out@ =~= old(out)@ + json_node(item_model(*item), depth as nat));
            }
        },
        FileSystemItem::DirectoryItem(dir) => {
            write_dir_node(out, dir, depth);
        },
    }
}

/// Appends the document for one directory node.
pub fn write_dir_node(out: &mut String, dir: &DirectoryItem, depth: usize)
    requires
        depth + node_height(dir_model(*dir)) <= usize::MAX,
    ensures
        final(out)@ == old(out)@ + json_node(dir_model(*dir), depth as nat),
    decreases *dir, 3nat,
{
    write_obj_head(out, dir.name.as_str(), dir.fullpath.as_str(), depth);
    let ghost mid = out@;
    write_indent(out, depth + 1);
    out.append("\"children\": ");
    write_array(out, &dir.children, depth + 1);
    out.append(",\n");
    proof {
        assert(out@ =~= mid + (indent(depth as nat + 1) + "\"children\": "@ + json_array(
            children_model(dir.children@),
            depth as nat + 1,
        ) + ",\n"@));
    }
    write_obj_tail(out, dir.size, depth);
    proof {
        assert(out@ =~= old(out)@ + json_node(dir_model(*dir), depth as nat));
    }
}

/// Appends the array of children.
fn write_array(out: &mut String, children: &Vec<FileSystemItem>, depth: usize)
    requires
        depth + 1 + seq_height(children_model(children@)) <= usize::MAX,
    ensures
        final(out)@ == old(out)@ + json_array(children_model(children@), depth as nat),
    decreases children@, 2nat,
{
    let ghost cm = children_model(children@);
    proof {
        crate::item::lemma_children_model_index(children@);
        lemma_seq_height_index(cm);
    }
    if children.len() == 0 {
        out.append("[]");
        return ;
    }
    out.append("[");
    let mut i: usize = 0;
    while i < children.len()
        invariant
            i <= children.len(),
            cm == children_model(children@),
            cm.len() == children@.len(),
            forall|j: int| 0 <= j < cm.len() ==> #[trigger] cm[j] == item_model(children@[j]),
            forall|j: int| 0 <= j < cm.len() ==> #[trigger] node_height(cm[j]) <= seq_height(cm),
            depth + 1 + seq_height(cm) <= usize::MAX,
            out@ == old(out)@ + "["@ + json_elems(cm.take(i as int), depth as nat),
        decreases children@.len() - i,
    {
        let ghost k = i as int;
        proof {
            assert(cm.take(k + 1).drop_last() =~= cm.take(k));
            assert(cm.take(k + 1).last() == cm[k]);
        }
        if i > 0 {
            out.append(",");
        }
        out.append("\n");
        write_indent(out, depth + 1);
        proof {
            assert(decreases_to!(children@ => children@[k]));
        }
        write_node(out, &children[i], depth + 1);
        proof {
            assert(out@ =~= old(out)@ + "["@ + json_elems(cm.take(k + 1), depth as nat));
        }
        i = i + 1;
    }
    out.append("\n");
    write_indent(out, depth);
    out.append("]");
    proof {
        assert(cm.take(cm.len() as int) =~= cm);
        assert(out@ =~= old(out)@ + json_array(cm, depth as nat));
    }
}

/// Serializes a finished tree to its JSON document.
pub fn get_json(data: &DirectoryItem) -> (r: String)
    requires
        node_height(dir_model(*data)) <= usize::MAX,
    ensures
        r@ == json_node(dir_model(*data), 0),
{
    let mut out = String::new();
    write_dir_node(&mut out, data, 0);
    proof {
        assert(out@ =~= json_node(dir_model(*data), 0));
    }
    out
}

} // verus!
