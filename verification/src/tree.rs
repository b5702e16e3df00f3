use vstd::prelude::*;
use crate::table::{first_key_index, lemma_first_key_index, lemma_first_key_index_none, lemma_first_key_index_of};

verus! {

/// A JSON-like structured value: the form in which the engine inspects
/// decoded messages and rule condition values.  Floating-point numbers are
/// carried as their IEEE-754 bit patterns.
pub enum Tree {
    Null,
    Bool(bool),
    Int(i64),
    UInt(u64),
    Float(u64),
    Text(String),
    List(Vec<Tree>),
    Object(Vec<(String, Tree)>),
}

/// Mathematical model of a `Tree`.
#[verifier::ext_equal]
pub enum TreeView {
    Null,
    Bool(bool),
    Int(int),
    UInt(int),
    Float(u64),
    Text(Seq<char>),
    List(Seq<TreeView>),
    Object(Seq<(Seq<char>, TreeView)>),
}

pub open spec fn tree_view(t: Tree) -> TreeView
    decreases t,
{
    match t {
        Tree::Null => TreeView::Null,
        Tree::Bool(b) => TreeView::Bool(b),
        Tree::Int(i) => TreeView::Int(i as int),
        Tree::UInt(u) => TreeView::UInt(u as int),
        Tree::Float(bits) => TreeView::Float(bits),
        Tree::Text(s) => TreeView::Text(s@),
        Tree::List(items) => TreeView::List(tree_views(items@)),
        Tree::Object(entries) => TreeView::Object(entry_views(entries@)),
    }
}

pub open spec fn tree_views(items: Seq<Tree>) -> Seq<TreeView>
    decreases items,
{
    if items.len() == 0 {
        Seq::empty()
    } else {
        tree_views(items.drop_last()).push(tree_view(items.last()))
    }
}

pub open spec fn entry_views(entries: Seq<(String, Tree)>) -> Seq<(Seq<char>, TreeView)>
    decreases entries,
{
    if entries.len() == 0 {
        Seq::empty()
    } else {
        entry_views(entries.drop_last()).push(
            (entries.last().0@, tree_view(entries.last().1)),
        )
    }
}

impl View for Tree {
    type V = TreeView;

    open spec fn view(&self) -> TreeView {
        tree_view(*self)
    }
}

} // verus!

verus! {

pub proof fn lemma_tree_views_index(items: Seq<Tree>)
    ensures
        tree_views(items).len() == items.len(),
        forall|i: int|
            0 <= i < items.len() ==> #[trigger] tree_views(items)[i] == tree_view(items[i]),
    decreases items,
{
    if items.len() > 0 {
        lemma_tree_views_index(items.drop_last());
        assert forall|i: int| 0 <= i < items.len() implies #[trigger] tree_views(items)[i]
            == tree_view(items[i]) by {
            if i < items.len() - 1 {
                assert(items.drop_last()[i] == items[i]);
            }
        }
    }
}

pub proof fn lemma_entry_views_index(entries: Seq<(String, Tree)>)
    ensures
        entry_views(entries).len() == entries.len(),
        forall|i: int|
            0 <= i < entries.len() ==> #[trigger] entry_views(entries)[i] == (
            entries[i].0@,
            tree_view(entries[i].1),
            ),
    decreases entries,
{
    if entries.len() > 0 {
        lemma_entry_views_index(entries.drop_last());
        assert forall|i: int| 0 <= i < entries.len() implies #[trigger] entry_views(entries)[i]
            == (entries[i].0@, tree_view(entries[i].1)) by {
            if i < entries.len() - 1 {
                assert(entries.drop_last()[i] == entries[i]);
            }
        }
    }
}

/// Content equality of two string slices.
pub fn str_eq(a: &str, b: &str) -> (r: bool)
    ensures
        r == (a@ == b@),
{
    let x: String = a.to_owned();
    let y: String = b.to_owned();
    x == y
}

} // verus!

verus! {

impl Tree {
    /// Structure-preserving copy; the model value is unchanged.
    pub fn deep_copy(&self) -> (r: Tree)
        ensures
            r@ == self@,
        decreases *self,
    {
        match self {
            Tree::Null => Tree::Null,
            Tree::Bool(b) => Tree::Bool(*b),
            Tree::Int(i) => Tree::Int(*i),
            Tree::UInt(u) => Tree::UInt(*u),
            Tree::Float(bits) => Tree::Float(*bits),
            Tree::Text(s) => Tree::Text(s.clone()),
            Tree::List(items) => {
                let mut out: Vec<Tree> = Vec::new();
                let n = items.len();
                let mut i: usize = 0;
                while i < n
                    invariant
                        i <= n,
                        out@.len() == i,
                        forall|j: int|
                            0 <= j < i ==> tree_view(#[trigger] out@[j]) == tree_view(items@[j]),
                    decreases n - i,
                {
                    let c = items[i].deep_copy();
                    out.push(c);
                    i += 1;
                }
                proof {
                    lemma_tree_views_index(out@);
                    lemma_tree_views_index(items@);
                    assert(tree_views(out@) =~= tree_views(items@));
                }
                Tree::List(out)
            },
            Tree::Object(entries) => {
                let mut out: Vec<(String, Tree)> = Vec::new();
                let n = entries.len();
                let mut i: usize = 0;
                while i < n
                    invariant
                        i <= n,
                        out@.len() == i,
                        forall|j: int|
                            0 <= j < i ==> (#[trigger] out@[j]).0@ == entries@[j].0@
                                && tree_view(out@[j].1) == tree_view(entries@[j].1),
                    decreases n - i,
                {
                    let k = entries[i].0.clone();
                    let v = entries[i].1.deep_copy();
                    out.push((k, v));
                    i += 1;
                }
                proof {
                    lemma_entry_views_index(out@);
                    lemma_entry_views_index(entries@);
                    assert(entry_views(out@) =~= entry_views(entries@));
                }
                Tree::Object(out)
            },
        }
    }

    /// Content equality on the model values.
    pub fn deep_eq(&self, other: &Tree) -> (r: bool)
        ensures
            r == (self@ == other@),
        decreases *self,
    {
        match (self, other) {
            (Tree::Null, Tree::Null) => true,
            (Tree::Bool(a), Tree::Bool(b)) => a == b,
            (Tree::Int(a), Tree::Int(b)) => a == b,
            (Tree::UInt(a), Tree::UInt(b)) => a == b,
            (Tree::Float(a), Tree::Float(b)) => a == b,
            (Tree::Text(a), Tree::Text(b)) => str_eq(a.as_str(), b.as_str()),
            (Tree::List(xs), Tree::List(ys)) => {
                proof {
                    lemma_tree_views_index(xs@);
                    lemma_tree_views_index(ys@);
                }
                if xs.len() != ys.len() {
                    return false;
                }
                let n = xs.len();
                let mut i: usize = 0;
                while i < n
                    invariant
                        i <= n,
                        forall|j: int|
                            0 <= j < i ==> tree_view(#[trigger] xs@[j]) == tree_view(ys@[j]),
                    decreases n - i,
                {
                    if !xs[i].deep_eq(&ys[i]) {
                        proof {
                            assert(tree_views(xs@)[i as int] == tree_view(xs@[i as int]));
                            assert(tree_views(ys@)[i as int] == tree_view(ys@[i as int]));
                        }
                        return false;
                    }
                    i += 1;
                }
                proof {
                    assert(tree_views(xs@) =~= tree_views(ys@));
                }
                true
            },
            (Tree::Object(xs), Tree::Object(ys)) => {
                proof {
                    lemma_entry_views_index(xs@);
                    lemma_entry_views_index(ys@);
                }
                if xs.len() != ys.len() {
                    return false;
                }
                let n = xs.len();
                let mut i: usize = 0;
                while i < n
                    invariant
                        i <= n,
                        forall|j: int|
                            0 <= j < i ==> (#[trigger] entry_views(xs@)[j]) == entry_views(ys@)[j],
                    decreases n - i,
                {
                    proof {
                        assert(entry_views(xs@)[i as int] == (
                            xs@[i as int].0@,
                            tree_view(xs@[i as int].1),
                        ));
                        assert(entry_views(ys@)[i as int] == (
                            ys@[i as int].0@,
                            tree_view(ys@[i as int].1),
                        ));
                    }
                    if !str_eq(xs[i].0.as_str(), ys[i].0.as_str()) {
                        return false;
                    }
                    if !xs[i].1.deep_eq(&ys[i].1) {
                        return false;
                    }
                    i += 1;
                }
                proof {
                    assert(entry_views(xs@) =~= entry_views(ys@));
                }
                true
            },
            _ => false,
        }
    }
}

} // verus!

verus! {

/// Value at the first entry whose key equals `key`, if any.
pub open spec fn obj_lookup(entries: Seq<(Seq<char>, TreeView)>, key: Seq<char>) -> Option<
    TreeView,
> {
    crate::table::key_lookup(entries, key)
}

} // verus!

verus! {

impl Tree {
    /// Value of the first entry of an object with the given key, by reference.
    pub fn obj_get<'a>(entries: &'a Vec<(String, Tree)>, key: &str) -> (r: Option<&'a Tree>)
        ensures
            match r {
                Some(t) => obj_lookup(entry_views(entries@), key@) == Some(t@),
                None => obj_lookup(entry_views(entries@), key@) is None,
            },
    {
        proof {
            lemma_entry_views_index(entries@);
            lemma_first_key_index(entry_views(entries@), key@);
        }
        let ghost es = entry_views(entries@);
        let n = entries.len();
        let mut i: usize = 0;
        while i < n
            invariant
                i <= n,
                forall|l: int| 0 <= l < i ==> (#[trigger] es[l]).0 != key@,
            decreases n - i,
        {
            if str_eq(entries[i].0.as_str(), key) {
                proof {
                    assert(es[i as int].0 == key@);
                    assert(first_key_index(es, key@) == Some(i as int));
                }
                return Some(&entries[i].1);
            }
            i += 1;
        }
        None
    }
}

/// Structured form of a message: the field entries with a leading tag entry
/// that names the message type.
pub open spec fn to_structured_view(name: Seq<char>, fields: Seq<(Seq<char>, TreeView)>) -> TreeView {
    TreeView::Object(seq![("type"@, TreeView::Text(name))] + fields)
}

/// Split a structured form back into the message-type name and the plain
/// field entries; fails when the value is no object, has no tag entry, or the
/// tag is not text.
pub open spec fn from_structured_view(t: TreeView) -> Option<(Seq<char>, TreeView)> {
    match t {
        TreeView::Object(es) => match first_key_index(es, "type"@) {
            Some(j) => match es[j].1 {
                TreeView::Text(name) => Some((name, TreeView::Object(es.remove(j)))),
                _ => None,
            },
            None => None,
        },
        _ => None,
    }
}

/// Wrap a message's fields into its self-describing structured form.
pub fn to_structured(message_type: &str, fields: Vec<(String, Tree)>) -> (r: Tree)
    ensures
        r@ == to_structured_view(message_type@, entry_views(fields@)),
{
    let ghost fields_v = fields@;
    let mut entries: Vec<(String, Tree)> = Vec::new();
    entries.push(("type".to_owned(), Tree::Text(message_type.to_owned())));
    let mut rest = fields;
    entries.append(&mut rest);
    proof {
        lemma_entry_views_index(entries@);
        lemma_entry_views_index(fields_v);
        assert(entry_views(entries@) =~= seq![("type"@, TreeView::Text(message_type@))]
            + entry_views(fields_v));
    }
    Tree::Object(entries)
}

/// Recover the message-type name and the plain fields from a structured form.
pub fn from_structured(t: Tree) -> (r: Option<(String, Tree)>)
    ensures
        match r {
            Some(p) => from_structured_view(t@) == Some((p.0@, p.1@)),
            None => from_structured_view(t@) is None,
        },
{
    match t {
        Tree::Object(mut entries) => {
            proof {
                lemma_entry_views_index(entries@);
                lemma_first_key_index(entry_views(entries@), "type"@);
            }
            let ghost es = entry_views(entries@);
            let n = entries.len();
            let mut i: usize = 0;
            while i < n
                invariant
                    i <= n,
                    n == entries@.len(),
                    es == entry_views(entries@),
                    forall|l: int| 0 <= l < i ==> (#[trigger] es[l]).0 != "type"@,
                decreases n - i,
            {
                proof {
                    lemma_entry_views_index(entries@);
                }
                if str_eq(entries[i].0.as_str(), "type") {
                    proof {
                        assert(es[i as int].0 == "type"@);
                        assert(first_key_index(es, "type"@) == Some(i as int));
                    }
                    let entry = entries.remove(i);
                    match entry.1 {
                        Tree::Text(name) => {
                            proof {
                                lemma_entry_views_index(entries@);
                                assert(entry_views(entries@) =~= es.remove(i as int));
                            }
                            return Some((name, Tree::Object(entries)));
                        },
                        _ => {
                            return None;
                        },
                    }
                }
                i += 1;
            }
            None
        },
        _ => None,
    }
}

/// The tag entry of a structured message, when the argument is an object
/// whose first "type" entry holds text.
pub fn message_type_of(t: &Tree) -> (r: Option<&String>)
    ensures
        match r {
            Some(s) => t@ matches TreeView::Object(es)
                && obj_lookup(es, "type"@) == Some(TreeView::Text(s@)),
            None => !(t@ matches TreeView::Object(es)
                && obj_lookup(es, "type"@) matches Some(v) && v is Text),
        },
{
    match t {
        Tree::Object(entries) => {
            match Tree::obj_get(entries, "type") {
                Some(v) => match v {
                    Tree::Text(s) => Some(s),
                    _ => None,
                },
                None => None,
            }
        },
        _ => None,
    }
}

/// Turning a message into its structured form and back returns the original
/// name and fields, for every field list that carries no tag entry of its
/// own.
pub proof fn lemma_structured_round_trip(name: Seq<char>, fields: Seq<(Seq<char>, TreeView)>)
    requires
        first_key_index(fields, "type"@) is None,
    ensures
        from_structured_view(to_structured_view(name, fields)) == Some(
            (name, TreeView::Object(fields)),
        ),
{
    let es = seq![("type"@, TreeView::Text(name))] + fields;
    assert(es[0].0 == "type"@);
    assert(first_key_index(es, "type"@) == Some(0int));
    assert(es.remove(0) =~= fields);
}

} // verus!

verus! {

/// Copy a list of keyed trees; the model entries are unchanged.
pub fn copy_entries(entries: &Vec<(String, Tree)>) -> (r: Vec<(String, Tree)>)
    ensures
        entry_views(r@) == entry_views(entries@),
{
    let mut out: Vec<(String, Tree)> = Vec::new();
    let n = entries.len();
    let mut i: usize = 0;
    while i < n
        invariant
            i <= n,
            out@.len() == i,
            forall|j: int|
                0 <= j < i ==> (#[trigger] out@[j]).0@ == entries@[j].0@ && tree_view(out@[j].1)
                    == tree_view(entries@[j].1),
        decreases n - i,
    {
        let k = entries[i].0.clone();
        let v = entries[i].1.deep_copy();
        out.push((k, v));
        i += 1;
    }
    proof {
        lemma_entry_views_index(out@);
        lemma_entry_views_index(entries@);
        assert(entry_views(out@) =~= entry_views(entries@));
    }
    out
}

} // verus!
