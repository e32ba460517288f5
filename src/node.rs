//! Protocol nodes: a tag, a set of string attributes and a content.

use vstd::prelude::*;
use crate::codec::{self, decode_spec, enc_node, encodable, node_wf};
use crate::error::Error;

verus! {

/// The mathematical value of an attribute list: key/value pairs in order.
pub type AttrsModel = Seq<(Seq<char>, Seq<char>)>;

/// The keys of an attribute list are pairwise distinct.
pub open spec fn keys_distinct(a: AttrsModel) -> bool {
    forall|i: int, j: int| 0 <= i < j < a.len() ==> #[trigger] a[i].0 != #[trigger] a[j].0
}

/// The mathematical value of a node.
pub struct NodeModel {
    pub tag: Seq<char>,
    pub attrs: AttrsModel,
    pub content: ContentModel,
}

/// The mathematical value of a node's content.
pub enum ContentModel {
    Empty,
    Nodes(Seq<NodeModel>),
    Bytes(Seq<u8>),
}

/// A set of string attributes with unique keys; order carries no meaning.
#[derive(Debug)]
pub struct Attrs {
    entries: Vec<(String, String)>,
}

/// The value of a list of key/value entries.
pub open spec fn entries_view(v: Seq<(String, String)>) -> AttrsModel {
    v.map_values(|e: (String, String)| (e.0@, e.1@))
}

impl View for Attrs {
    type V = AttrsModel;

    closed spec fn view(&self) -> AttrsModel {
        entries_view(self.entries@)
    }
}

/// Content of a node: nothing, child nodes, or raw bytes.
#[derive(Debug)]
pub enum NodeContent {
    Empty,
    Nodes(Vec<Node>),
    Bytes(Vec<u8>),
}

/// A single protocol node.
#[derive(Debug)]
pub struct Node {
    pub tag: String,
    pub attrs: Attrs,
    pub content: NodeContent,
}

impl View for Node {
    type V = NodeModel;

    open spec fn view(&self) -> NodeModel
        decreases self, 0nat,
    {
        NodeModel {
            tag: self.tag@,
            attrs: self.attrs@,
            content: content_view(&self.content),
        }
    }
}

/// The value of a node's content.
pub open spec fn content_view(c: &NodeContent) -> ContentModel
    decreases c, 0nat,
{
    match c {
        NodeContent::Empty => ContentModel::Empty,
        NodeContent::Bytes(b) => ContentModel::Bytes(b@),
        NodeContent::Nodes(v) => ContentModel::Nodes(children_view(v, v.len() as nat)),
    }
}

/// The values of the first `k` nodes of `v`.
pub open spec fn children_view(v: &Vec<Node>, k: nat) -> Seq<NodeModel>
    decreases v, k,
{
    if k == 0 || k > v.len() {
        Seq::empty()
    } else {
        children_view(v, (k - 1) as nat).push(v[k - 1]@)
    }
}

pub proof fn lemma_children_view(v: &Vec<Node>, k: nat)
    requires
        k <= v.len(),
    ensures
        children_view(v, k).len() == k,
        forall|j: int| 0 <= j < k ==> #[trigger] children_view(v, k)[j] == v[j]@,
    decreases k,
{
    if k > 0 {
        lemma_children_view(v, (k - 1) as nat);
        assert(children_view(v, k) == children_view(v, (k - 1) as nat).push(v[k - 1]@));
    } else {
        assert(children_view(v, k) == Seq::<NodeModel>::empty());
    }
}

/// Relies on `<str as PartialEq>::eq`: two strings are equal when they hold
/// the same characters.
#[verifier::external_body]
pub(crate) fn str_eq(a: &str, b: &str) -> (r: bool)
    ensures
        r == (a@ == b@),
{
    a == b
}

/// `a` has an entry under key `k`.
pub open spec fn has_key(a: AttrsModel, k: Seq<char>) -> bool {
    exists|i: int| 0 <= i < a.len() && #[trigger] a[i].0 == k
}

/// `a` with `k` set to `v`: the entry under `k` takes the new value where
/// there is one, else the pair is added at the end.
pub open spec fn attrs_insert(a: AttrsModel, k: Seq<char>, v: Seq<char>) -> AttrsModel {
    if has_key(a, k) {
        a.update(choose|i: int| 0 <= i < a.len() && #[trigger] a[i].0 == k, (k, v))
    } else {
        a.push((k, v))
    }
}

/// The value stored under `k`, if any.
pub open spec fn attrs_get(a: AttrsModel, k: Seq<char>) -> Option<Seq<char>> {
    if has_key(a, k) {
        Some(a[choose|i: int| 0 <= i < a.len() && #[trigger] a[i].0 == k].1)
    } else {
        None
    }
}

pub proof fn lemma_insert_keeps_distinct(a: AttrsModel, k: Seq<char>, v: Seq<char>)
    requires
        keys_distinct(a),
    ensures
        keys_distinct(attrs_insert(a, k, v)),
        attrs_insert(a, k, v).len() == if has_key(a, k) { a.len() } else { a.len() + 1 },
{
    let r = attrs_insert(a, k, v);
    if has_key(a, k) {
        let c = choose|i: int| 0 <= i < a.len() && #[trigger] a[i].0 == k;
        assert forall|i: int, j: int| 0 <= i < j < r.len() implies #[trigger] r[i].0 != #[trigger] r[j].0 by {
            if i == c {
                assert(a[j].0 != a[c].0);
            } else if j == c {
                assert(a[i].0 != a[c].0);
            } else {
                assert(a[i].0 != a[j].0);
            }
        }
    } else {
        assert forall|i: int, j: int| 0 <= i < j < r.len() implies #[trigger] r[i].0 != #[trigger] r[j].0 by {
            if j == a.len() {
                assert(a[i].0 != k);
            } else {
                assert(a[i].0 != a[j].0);
            }
        }
    }
}

impl Attrs {
    #[verifier::type_invariant]
    spec fn inv(&self) -> bool {
        keys_distinct(self@)
    }

    /// The entry at position `i`.
    pub fn entry(&self, i: usize) -> (r: (&String, &String))
        requires
            i < self@.len(),
        ensures
            (r.0@, r.1@) == self@[i as int],
    {
        let e = &self.entries[i];
        (&e.0, &e.1)
    }

    /// An empty attribute set.
    pub fn new() -> (r: Attrs)
        ensures
            r@ == Seq::<(Seq<char>, Seq<char>)>::empty(),
    {
        let r = Attrs { entries: Vec::new() };
        assert(r@ =~= Seq::<(Seq<char>, Seq<char>)>::empty());
        r
    }

    /// Number of attributes.
    pub fn len(&self) -> (r: usize)
        ensures
            r == self@.len(),
            keys_distinct(self@),
    {
        proof {
            use_type_invariant(self);
        }
        assert(self@.len() == self.entries@.len());
        self.entries.len()
    }

    /// Whether there are no attributes.
    pub fn is_empty(&self) -> (r: bool)
        ensures
            r == (self@.len() == 0),
    {
        assert(self@.len() == self.entries@.len());
        self.entries.len() == 0
    }

    /// Position of the entry under `k`, if any.
    fn position(&self, k: &str) -> (r: Option<usize>)
        ensures
            match r {
                Some(i) => i < self@.len() && self@[i as int].0 == k@,
                None => !has_key(self@, k@),
            },
    {
        let mut i: usize = 0;
        while i < self.entries.len()
            invariant
                i <= self@.len(),
                self.entries@.len() == self@.len(),
                forall|j: int| 0 <= j < i ==> #[trigger] self@[j].0 != k@,
            decreases self@.len() - i,
        {
            assert(self@[i as int].0 == self.entries@[i as int].0@);
            if str_eq(self.entries[i].0.as_str(), k) {
                return Some(i);
            }
            i = i + 1;
        }
        None
    }

    /// The value under `k`, if any.
    pub fn get(&self, k: &str) -> (r: Option<&String>)
        ensures
            match r {
                Some(v) => attrs_get(self@, k@) == Some(v@),
                None => attrs_get(self@, k@) is None,
            },
    {
        match self.position(k) {
            Some(i) => {
                proof {
                    use_type_invariant(self);
                }
                let ghost c = choose|j: int| 0 <= j < self@.len() && #[trigger] self@[j].0 == k@;
                assert(c == i);
                Some(&self.entries[i].1)
            },
            None => None,
        }
    }

    /// Sets `k` to `v`, replacing an earlier value under `k`.
    pub fn insert(&mut self, k: String, v: String)
        ensures
            final(self)@ == attrs_insert(old(self)@, k@, v@),
            keys_distinct(final(self)@),
    {
        proof {
            use_type_invariant(&*self);
            lemma_insert_keeps_distinct(self@, k@, v@);
        }
        let ghost before = self@;
        let pos = self.position(k.as_str());
        if let Some(i) = pos {
            proof {
                use_type_invariant(&*self);
                let c = choose|j: int| 0 <= j < before.len() && #[trigger] before[j].0 == k@;
                assert(c == i);
            }
        }
        let mut entries: Vec<(String, String)> = Vec::new();
        core::mem::swap(&mut self.entries, &mut entries);
        assert(entries_view(entries@) == before);
        match pos {
            Some(i) => {
                entries.set(i, (k, v));
                assert(entries_view(entries@) =~= attrs_insert(before, k@, v@));
            },
            None => {
                entries.push((k, v));
                assert(entries_view(entries@) =~= attrs_insert(before, k@, v@));
            },
        }
        self.entries = entries;
    }
}

impl Node {
    /// A node with tag `tag`, no attributes and no content.
    pub fn new(tag: &str) -> (r: Node)
        ensures
            r@ == (NodeModel { tag: tag@, attrs: Seq::empty(), content: ContentModel::Empty }),
    {
        Node { tag: tag.to_owned(), attrs: Attrs::new(), content: NodeContent::Empty }
    }

    /// This node with attribute `k` set to `v`.
    pub fn with_attr(self, k: &str, v: &str) -> (r: Node)
        ensures
            r@ == (NodeModel { attrs: attrs_insert(self@.attrs, k@, v@), ..self@ }),
            keys_distinct(r@.attrs),
    {
        let mut n = self;
        n.attrs.insert(k.to_owned(), v.to_owned());
        n
    }

    /// This node with `children` as its content.
    pub fn with_children(self, children: Vec<Node>) -> (r: Node)
        ensures
            r@.tag == self@.tag,
            r@.attrs == self@.attrs,
            r@.content == ContentModel::Nodes(children_view(&children, children.len() as nat)),
            children_view(&children, children.len() as nat).len() == children.len(),
            forall|i: int| 0 <= i < children.len() ==> #[trigger] children_view(&children, children.len() as nat)[i] == children[i]@,
    {
        proof {
            lemma_children_view(&children, children.len() as nat);
        }
        Node { tag: self.tag, attrs: self.attrs, content: NodeContent::Nodes(children) }
    }

    /// This node with `bytes` as its content.
    pub fn with_content(self, bytes: Vec<u8>) -> (r: Node)
        ensures
            r@ == (NodeModel { content: ContentModel::Bytes(bytes@), ..self@ }),
    {
        Node { tag: self.tag, attrs: self.attrs, content: NodeContent::Bytes(bytes) }
    }

    /// The first child whose tag is `tag`; none where the content holds no
    /// child nodes.
    pub fn get_child_by_tag(&self, tag: &str) -> (r: Option<&Node>)
        ensures
            match self.content {
                NodeContent::Nodes(v) => match r {
                    Some(c) => exists|i: int|
                        0 <= i < v.len() && v[i] == *c && c.tag@ == tag@
                            && forall|j: int| 0 <= j < i ==> (#[trigger] v[j]).tag@ != tag@,
                    None => forall|j: int| 0 <= j < v.len() ==> (#[trigger] v[j]).tag@ != tag@,
                },
                _ => r is None,
            },
    {
        match &self.content {
            NodeContent::Nodes(v) => {
                let mut i: usize = 0;
                while i < v.len()
                    invariant
                        self.content == NodeContent::Nodes(*v),
                        i <= v@.len(),
                        forall|j: int| 0 <= j < i ==> (#[trigger] v[j]).tag@ != tag@,
                    decreases v@.len() - i,
                {
                    if str_eq(v[i].tag.as_str(), tag) {
                        let c = &v[i];
                        assert(0 <= i < v.len() && v[i as int] == *c && c.tag@ == tag@
                            && forall|j: int| 0 <= j < i ==> (#[trigger] v[j]).tag@ != tag@);
                        return Some(c);
                    }
                    i = i + 1;
                }
                None
            },
            _ => None,
        }
    }

    /// The child nodes; empty where the content holds none.
    pub fn get_children(&self) -> (r: &[Node])
        ensures
            match self.content {
                NodeContent::Nodes(v) => r@ == v@,
                _ => r@.len() == 0,
            },
    {
        match &self.content {
            NodeContent::Nodes(v) => v.as_slice(),
            _ => &[],
        }
    }

    /// The wire form of this node; fails when a length does not fit its field.
    /// A node that encodes has distinct attribute keys throughout.
    pub fn encode(&self) -> (r: Result<Vec<u8>, Error>)
        ensures
            r is Ok <==> encodable(self@),
            r is Ok ==> node_wf(self@),
            r matches Ok(b) ==> b@ == enc_node(self@),
            r matches Err(e) ==> e is Binary,
    {
        let mut out: Vec<u8> = Vec::new();
        match codec::encode_node(self, &mut out) {
            Ok(()) => {
                assert(out@ =~= enc_node(self@));
                Ok(out)
            },
            Err(e) => Err(e),
        }
    }

    /// Decodes one node from the start of `data`; bytes after it are ignored.
    pub fn decode(data: &[u8]) -> (r: Result<Node, Error>)
        ensures
            match decode_spec(data@) {
                Some(m) => r matches Ok(n) && n@ == m && node_wf(m),
                None => r matches Err(e) && e is Binary,
            },
    {
        codec::decode(data)
    }
}

} // verus!
