use vstd::prelude::*;
use crate::engine::{AckInfo, AckInfoView};
use crate::frame::Header;
use crate::table::{
    first_key_index, lemma_first_key_index, lemma_first_key_index_none, lemma_first_key_index_of,
};
use crate::tree::{
    entry_views, lemma_entry_views_index, obj_lookup, str_eq, Tree, TreeView,
};

verus! {

/// An object after `key` is bound to `value`: the first entry with that key
/// is replaced, or an entry is appended.
pub open spec fn obj_set_view(
    es: Seq<(Seq<char>, TreeView)>,
    key: Seq<char>,
    value: TreeView,
) -> Seq<(Seq<char>, TreeView)> {
    match first_key_index(es, key) {
        Some(j) => es.update(j, (key, value)),
        None => es.push((key, value)),
    }
}

/// Bind `key` to `value` in the object entries: replace the first entry with
/// that key, or append one.
pub fn obj_set(entries: &mut Vec<(String, Tree)>, key: &str, value: Tree)
    ensures
        entry_views(final(entries)@) == obj_set_view(entry_views(old(entries)@), key@, value@),
{
    proof {
        lemma_entry_views_index(entries@);
        lemma_first_key_index(entry_views(entries@), key@);
    }
    let ghost es = entry_views(entries@);
    let ghost value_v = value@;
    let n = entries.len();
    let mut i: usize = 0;
    while i < n
        invariant
            i <= n,
            n == entries@.len(),
            es == entry_views(entries@),
            forall|l: int| 0 <= l < i ==> (#[trigger] es[l]).0 != key@,
        decreases n - i,
    {
        proof {
            lemma_entry_views_index(entries@);
        }
        if str_eq(entries[i].0.as_str(), key) {
            proof {
                assert(es[i as int].0 == key@);
                lemma_first_key_index_of(es, key@, i as int);
            }
            let ghost before_entries = entries@;
            let (k, _prev) = entries.remove(i);
            entries.insert(i, (k, value));
            proof {
                lemma_entry_views_index(entries@);
                lemma_entry_views_index(before_entries);
                assert forall|l: int|
                    0 <= l < entries@.len() implies #[trigger] entry_views(entries@)[l]
                    == es.update(i as int, (key@, value_v))[l] by {
                    assert(entry_views(entries@)[l] == (
                        entries@[l].0@,
                        crate::tree::tree_view(entries@[l].1),
                    ));
                    if l != i {
                        assert(entries@[l] == before_entries[l]);
                        assert(es[l] == (
                            before_entries[l].0@,
                            crate::tree::tree_view(before_entries[l].1),
                        ));
                    }
                }
                assert(entry_views(entries@) =~= es.update(i as int, (key@, value_v)));
            }
            return ;
        }
        i += 1;
    }
    proof {
        lemma_first_key_index_none(es, key@);
    }
    let ghost before_entries = entries@;
    entries.push((key.to_owned(), value));
    proof {
        lemma_entry_views_index(entries@);
        lemma_entry_views_index(before_entries);
        assert forall|l: int|
            0 <= l < entries@.len() implies #[trigger] entry_views(entries@)[l] == es.push(
            (key@, value_v),
        )[l] by {
            assert(entry_views(entries@)[l] == (
                entries@[l].0@,
                crate::tree::tree_view(entries@[l].1),
            ));
            if l < es.len() {
                assert(entries@[l] == before_entries[l]);
                assert(es[l] == (
                    before_entries[l].0@,
                    crate::tree::tree_view(before_entries[l].1),
                ));
            }
        }
        assert(entry_views(entries@) =~= es.push((key@, value_v)));
    }
}

} // verus!

verus! {

/// The value a copy path names: one of the three header fields, else the
/// named top-level field of the matched message.
pub open spec fn resolve_copy_source(a: AckInfoView, path: Seq<char>) -> Option<TreeView> {
    if path == "header.system_id"@ {
        Some(TreeView::UInt(a.original_header.system_id as int))
    } else if path == "header.component_id"@ {
        Some(TreeView::UInt(a.original_header.component_id as int))
    } else if path == "header.sequence"@ {
        Some(TreeView::UInt(a.original_header.sequence as int))
    } else {
        match a.original_message {
            TreeView::Object(es) => obj_lookup(es, path),
            _ => None,
        }
    }
}

/// The acknowledgement object after the first `i` copy entries were applied
/// to the tagged seed: each resolvable copy binds its target field, an
/// unresolvable one is skipped.
pub open spec fn ack_after_copies(a: AckInfoView, i: int) -> Seq<(Seq<char>, TreeView)>
    decreases i,
{
    if i <= 0 {
        seq![("type"@, TreeView::Text(a.message_type))]
    } else {
        let acc = ack_after_copies(a, i - 1);
        match resolve_copy_source(a, a.copy_fields[i - 1].1) {
            Some(v) => obj_set_view(acc, a.copy_fields[i - 1].0, v),
            None => acc,
        }
    }
}

/// The acknowledgement object after the first `i` fixed fields were laid
/// over the copies.
pub open spec fn ack_after_fields(a: AckInfoView, i: int) -> Seq<(Seq<char>, TreeView)>
    decreases i,
{
    if i <= 0 {
        ack_after_copies(a, a.copy_fields.len() as int)
    } else {
        obj_set_view(ack_after_fields(a, i - 1), a.fields[i - 1].0, a.fields[i - 1].1)
    }
}

/// The full acknowledgement object: the type tag, the copied fields, and the
/// fixed fields on top.
pub open spec fn ack_message_view(a: AckInfoView) -> TreeView {
    TreeView::Object(ack_after_fields(a, a.fields.len() as int))
}

/// The header a synthesized acknowledgement carries: it claims to come from
/// the extracted source, with sequence zero.
pub open spec fn ack_header_view(a: AckInfoView) -> Header {
    Header { system_id: a.source_system, component_id: a.source_component, sequence: 0 }
}

/// Assemble the structured acknowledgement a descriptor asks for: the header
/// it claims as origin and the message object, type tag included.  The
/// caller encodes the pair into a frame.
pub fn build_ack_message(ack: &AckInfo) -> (r: (Header, Tree))
    ensures
        r.0 == ack_header_view(ack@),
        r.1@ == ack_message_view(ack@),
{
    let header = Header {
        system_id: ack.source_system,
        component_id: ack.source_component,
        sequence: 0,
    };
    let mut entries: Vec<(String, Tree)> = Vec::new();
    entries.push(("type".to_owned(), Tree::Text(ack.message_type.clone())));
    proof {
        lemma_entry_views_index(entries@);
        assert(entry_views(entries@) =~= ack_after_copies(ack@, 0));
    }
    let n = ack.copy_fields.len();
    let mut i: usize = 0;
    while i < n
        invariant
            i <= n,
            n == ack.copy_fields@.len(),
            entry_views(entries@) == ack_after_copies(ack@, i as int),
        decreases n - i,
    {
        let path = ack.copy_fields[i].1.as_str();
        let resolved: Option<Tree> = if str_eq(path, "header.system_id") {
            Some(Tree::UInt(ack.original_header.system_id as u64))
        } else if str_eq(path, "header.component_id") {
            Some(Tree::UInt(ack.original_header.component_id as u64))
        } else if str_eq(path, "header.sequence") {
            Some(Tree::UInt(ack.original_header.sequence as u64))
        } else {
            match &ack.original_message {
                Tree::Object(msg_entries) => match Tree::obj_get(msg_entries, path) {
                    Some(v) => Some(v.deep_copy()),
                    None => None,
                },
                _ => None,
            }
        };
        proof {
            assert(ack@.copy_fields[i as int] == (
                ack.copy_fields@[i as int].0@,
                ack.copy_fields@[i as int].1@,
            ));
        }
        match resolved {
            Some(v) => {
                proof {
                    assert(resolve_copy_source(ack@, ack@.copy_fields[i as int].1) == Some(v@));
                }
                obj_set(&mut entries, ack.copy_fields[i].0.as_str(), v);
            },
            None => {
                proof {
                    assert(resolve_copy_source(ack@, ack@.copy_fields[i as int].1) is None);
                }
            },
        }
        i += 1;
    }
    proof {
        assert(entry_views(entries@) == ack_after_fields(ack@, 0));
    }
    let m = ack.fields.len();
    let mut j: usize = 0;
    while j < m
        invariant
            j <= m,
            m == ack.fields@.len(),
            entry_views(entries@) == ack_after_fields(ack@, j as int),
        decreases m - j,
    {
        proof {
            lemma_entry_views_index(ack.fields@);
            assert(ack@.fields[j as int] == (
                ack.fields@[j as int].0@,
                crate::tree::tree_view(ack.fields@[j as int].1),
            ));
        }
        let v = ack.fields[j].1.deep_copy();
        obj_set(&mut entries, ack.fields[j].0.as_str(), v);
        j += 1;
    }
    proof {
        lemma_entry_views_index(ack.fields@);
        assert(ack@.fields.len() == ack.fields@.len());
    }
    (header, Tree::Object(entries))
}

} // verus!
