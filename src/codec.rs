//! The binary wire form of nodes.
//!
//! A node is a list header (`LIST_8 n` or `LIST_16 hi lo`) whose size counts
//! the tag, two entries per attribute and one for the content when there is
//! any; then the tag, the attributes as key/value strings, and the content.
//! Strings and byte contents carry a length prefix (`BINARY_8 n` or
//! `BINARY_20` with a 20-bit length in three bytes).

use vstd::prelude::*;
use vstd::utf8::*;
use crate::error::Error;
use crate::node::{
    attrs_insert, children_view, content_view, keys_distinct, lemma_children_view, Attrs, AttrsModel, ContentModel,
    Node, NodeContent, NodeModel,
};

verus! {

pub const LIST_EMPTY: u8 = 0;
pub const LIST_8: u8 = 248;
pub const LIST_16: u8 = 249;
pub const BINARY_8: u8 = 252;
pub const BINARY_20: u8 = 253;

/// Largest length a 20-bit length prefix can state.
pub const MAX_LEN_20: usize = 1048575;

/// Largest list size a list header can state.
pub const MAX_LIST_SIZE: usize = 65535;

// ---------------------------------------------------------------------------
// What encoding produces

/// The header of a list of `n` items.
pub open spec fn enc_list_size(n: nat) -> Seq<u8> {
    if n <= 255 {
        seq![LIST_8, n as u8]
    } else {
        seq![LIST_16, (n / 256) as u8, (n % 256) as u8]
    }
}

/// The length prefix of a string or byte content of `n` bytes.
pub open spec fn enc_len_prefix(n: nat) -> Seq<u8> {
    if n <= 255 {
        seq![BINARY_8, n as u8]
    } else {
        seq![BINARY_20, (n / 65536) as u8, ((n / 256) % 256) as u8, (n % 256) as u8]
    }
}

/// A byte string with its length prefix.
pub open spec fn enc_bytes(b: Seq<u8>) -> Seq<u8> {
    enc_len_prefix(b.len()) + b
}

/// A text string: its UTF-8 bytes with their length prefix.
pub open spec fn enc_str(s: Seq<char>) -> Seq<u8> {
    enc_bytes(encode_utf8(s))
}

/// The first `k` attributes, each as key then value.
pub open spec fn enc_attrs(a: AttrsModel, k: nat) -> Seq<u8>
    decreases k,
{
    if k == 0 {
        Seq::empty()
    } else {
        enc_attrs(a, (k - 1) as nat) + enc_str(a[k - 1].0) + enc_str(a[k - 1].1)
    }
}

/// Number of list items of a node's header.
pub open spec fn list_size(m: NodeModel) -> nat {
    1 + 2 * m.attrs.len() + if m.content is Empty { 0nat } else { 1nat }
}

/// The wire form of a node.
pub open spec fn enc_node(m: NodeModel) -> Seq<u8>
    decreases m, 0nat,
{
    enc_list_size(list_size(m)) + enc_str(m.tag) + enc_attrs(m.attrs, m.attrs.len())
        + match m.content {
        ContentModel::Empty => Seq::empty(),
        ContentModel::Bytes(b) => enc_bytes(b),
        ContentModel::Nodes(cs) => enc_list_size(cs.len()) + enc_children(cs, cs.len()),
    }
}

/// The first `k` children, one after the other.
pub open spec fn enc_children(cs: Seq<NodeModel>, k: nat) -> Seq<u8>
    decreases cs, k,
{
    if k == 0 || k > cs.len() {
        Seq::empty()
    } else {
        enc_children(cs, (k - 1) as nat) + enc_node(cs[k - 1])
    }
}

/// A string's UTF-8 form fits a 20-bit length.
pub open spec fn str_fits(s: Seq<char>) -> bool {
    encode_utf8(s).len() <= MAX_LEN_20
}

/// Every key and value fits a 20-bit length.
pub open spec fn attrs_fit(a: AttrsModel) -> bool {
    forall|i: int| #![trigger a[i]] 0 <= i < a.len() ==> str_fits(a[i].0) && str_fits(a[i].1)
}

/// A node has a wire form: every length fits its field.
pub open spec fn encodable(m: NodeModel) -> bool
    decreases m,
{
    &&& list_size(m) <= MAX_LIST_SIZE
    &&& str_fits(m.tag)
    &&& attrs_fit(m.attrs)
    &&& match m.content {
        ContentModel::Empty => true,
        ContentModel::Bytes(b) => b.len() <= MAX_LEN_20,
        ContentModel::Nodes(cs) => cs.len() <= MAX_LIST_SIZE && forall|i: int|
            0 <= i < cs.len() ==> encodable(#[trigger] cs[i]),
    }
}

/// A node and all nodes below it have distinct attribute keys.
pub open spec fn node_wf(m: NodeModel) -> bool
    decreases m,
{
    &&& keys_distinct(m.attrs)
    &&& match m.content {
        ContentModel::Nodes(cs) => forall|i: int| 0 <= i < cs.len() ==> node_wf(#[trigger] cs[i]),
        _ => true,
    }
}

/// Every node of a content has distinct attribute keys throughout.
pub open spec fn content_wf(c: ContentModel) -> bool {
    match c {
        ContentModel::Nodes(cs) => forall|i: int| 0 <= i < cs.len() ==> node_wf(#[trigger] cs[i]),
        _ => true,
    }
}

// ---------------------------------------------------------------------------
// Encoder

fn write_u8(out: &mut Vec<u8>, v: u8)
    ensures
        final(out)@ == old(out)@.push(v),
{
    out.push(v);
}

fn write_u16_be(out: &mut Vec<u8>, v: u16)
    ensures
        final(out)@ == old(out)@ + seq![(v / 256) as u8, (v % 256) as u8],
{
    out.push((v >> 8) as u8);
    out.push((v & 0xff) as u8);
    assert((v >> 8) as u8 == (v / 256) as u8) by (bit_vector);
    assert((v & 0xff) as u8 == (v % 256) as u8) by (bit_vector);
    assert(final(out)@ =~= old(out)@ + seq![(v / 256) as u8, (v % 256) as u8]);
}

fn write_u20_be(out: &mut Vec<u8>, v: u32)
    requires
        v <= MAX_LEN_20,
    ensures
        final(out)@ == old(out)@ + seq![(v / 65536) as u8, ((v / 256) % 256) as u8, (v % 256) as u8],
{
    out.push(((v >> 16) & 0x0f) as u8);
    out.push(((v >> 8) & 0xff) as u8);
    out.push((v & 0xff) as u8);
    assert(((v >> 16) & 0x0f) as u8 == (v / 65536) as u8) by (bit_vector)
        requires v <= 1048575u32;
    assert(((v >> 8) & 0xff) as u8 == ((v / 256) % 256) as u8) by (bit_vector);
    assert((v & 0xff) as u8 == (v % 256) as u8) by (bit_vector);
    assert(final(out)@ =~= old(out)@ + seq![(v / 65536) as u8, ((v / 256) % 256) as u8, (v % 256) as u8]);
}

/// Appends `b` unchanged.
pub(crate) fn write_raw(out: &mut Vec<u8>, b: &[u8])
    ensures
        final(out)@ == old(out)@ + b@,
{
    let mut i: usize = 0;
    while i < b.len()
        invariant
            i <= b@.len(),
            out@ == old(out)@ + b@.subrange(0, i as int),
        decreases b@.len() - i,
    {
        out.push(b[i]);
        i = i + 1;
        assert(b@.subrange(0, i as int) =~= b@.subrange(0, i - 1) .push(b@[i - 1]));
    }
    assert(b@.subrange(0, b@.len() as int) =~= b@);
}

fn write_list_size(out: &mut Vec<u8>, n: usize)
    requires
        n <= MAX_LIST_SIZE,
    ensures
        final(out)@ == old(out)@ + enc_list_size(n as nat),
{
    if n <= 255 {
        write_u8(out, LIST_8);
        write_u8(out, n as u8);
        assert(final(out)@ =~= old(out)@ + enc_list_size(n as nat));
    } else {
        write_u8(out, LIST_16);
        write_u16_be(out, n as u16);
        assert(final(out)@ =~= old(out)@ + enc_list_size(n as nat));
    }
}

/// Appends `b` with its length prefix; fails when `b` is too long for one.
fn write_bytes_with_len(out: &mut Vec<u8>, b: &[u8]) -> (r: Result<(), Error>)
    ensures
        r is Ok <==> b@.len() <= MAX_LEN_20,
        r is Ok ==> final(out)@ == old(out)@ + enc_bytes(b@),
        r matches Err(e) ==> e is Binary,
{
    let len = b.len();
    if len <= 255 {
        write_u8(out, BINARY_8);
        write_u8(out, len as u8);
    } else if len <= MAX_LEN_20 {
        write_u8(out, BINARY_20);
        write_u20_be(out, len as u32);
    } else {
        return Err(Error::Binary("bytes too long for BINARY_20".to_owned()));
    }
    let ghost mid = out@;
    assert(mid =~= old(out)@ + enc_len_prefix(len as nat));
    write_raw(out, b);
    assert(final(out)@ =~= old(out)@ + enc_bytes(b@));
    Ok(())
}

/// Appends the UTF-8 bytes of `s` with their length prefix; fails when they
/// are too long for one.
fn write_string(out: &mut Vec<u8>, s: &str) -> (r: Result<(), Error>)
    ensures
        r is Ok <==> str_fits(s@),
        r is Ok ==> final(out)@ == old(out)@ + enc_str(s@),
        r matches Err(e) ==> e is Binary,
{
    let bytes = s.as_bytes();
    match write_bytes_with_len(out, bytes) {
        Ok(()) => Ok(()),
        Err(_) => Err(Error::Binary("string too long for BINARY_20".to_owned())),
    }
}

/// Appends the wire form of `node` to `out`; fails when a length does not
/// fit its field.
pub fn encode_node(node: &Node, out: &mut Vec<u8>) -> (r: Result<(), Error>)
    ensures
        r is Ok <==> encodable(node@),
        r is Ok ==> final(out)@ == old(out)@ + enc_node(node@) && node_wf(node@),
        r matches Err(e) ==> e is Binary,
    decreases node, 1nat,
{
    let ghost m = node@;
    let attr_count = node.attrs.len();
    let has_content = match &node.content {
        NodeContent::Empty => false,
        _ => true,
    };
    if attr_count > MAX_LIST_SIZE / 2 {
        return Err(Error::Binary("too many attributes".to_owned()));
    }
    let size: usize = 1 + 2 * attr_count + if has_content { 1 } else { 0 };
    assert(size == list_size(m));
    if size > MAX_LIST_SIZE {
        return Err(Error::Binary("too many attributes".to_owned()));
    }
    write_list_size(out, size);
    match write_string(out, node.tag.as_str()) {
        Ok(()) => {},
        Err(e) => return Err(e),
    }
    let ghost head = out@;
    let ghost a = node.attrs@;
    assert(m.attrs == a);
    let mut i: usize = 0;
    while i < attr_count
        invariant
            a == node.attrs@,
            m.attrs == a,
            attr_count == a.len(),
            i <= attr_count,
            head == old(out)@ + enc_list_size(size as nat) + enc_str(m.tag),
            out@ == head + enc_attrs(a, i as nat),
            forall|j: int| #![trigger a[j]] 0 <= j < i ==> str_fits(a[j].0) && str_fits(a[j].1),
        decreases attr_count - i,
    {
        let entry = node.attrs.entry(i);
        match write_string(out, entry.0.as_str()) {
            Ok(()) => {},
            Err(e) => {
                assert(!str_fits(a[i as int].0));
                assert(!attrs_fit(a));
                return Err(e);
            },
        }
        match write_string(out, entry.1.as_str()) {
            Ok(()) => {},
            Err(e) => {
                assert(!str_fits(a[i as int].1));
                assert(!attrs_fit(a));
                return Err(e);
            },
        }
        i = i + 1;
        assert(out@ =~= head + enc_attrs(a, i as nat));
    }
    assert(attrs_fit(m.attrs));
    if has_content {
        let ghost before = out@;
        match encode_content(out, node) {
            Ok(()) => {},
            Err(e) => {
                assert(!encodable(m));
                return Err(e);
            },
        }
        assert(out@ =~= old(out)@ + enc_node(m));
    } else {
        assert(out@ =~= old(out)@ + enc_node(m));
    }
    Ok(())
}

/// Appends the wire form of the content of `node`: the empty-list token
/// for no content, the bytes with their length prefix, or the list header
/// and each child.
fn encode_content(out: &mut Vec<u8>, node: &Node) -> (r: Result<(), Error>)
    ensures
        r is Ok <==> match node@.content {
            ContentModel::Bytes(b) => b.len() <= MAX_LEN_20,
            ContentModel::Nodes(cs) => cs.len() <= MAX_LIST_SIZE && forall|i: int|
                0 <= i < cs.len() ==> encodable(#[trigger] cs[i]),
            ContentModel::Empty => true,
        },
        r is Ok ==> final(out)@ == old(out)@ + match node@.content {
            ContentModel::Bytes(b) => enc_bytes(b),
            ContentModel::Nodes(cs) => enc_list_size(cs.len()) + enc_children(cs, cs.len()),
            ContentModel::Empty => seq![LIST_EMPTY],
        },
        r is Ok ==> content_wf(node@.content),
        r matches Err(e) ==> e is Binary,
    decreases node, 0nat,
{
    match &node.content {
        NodeContent::Empty => {
            write_u8(out, LIST_EMPTY);
            Ok(())
        },
        NodeContent::Bytes(b) => write_bytes_with_len(out, b.as_slice()),
        NodeContent::Nodes(children) => {
            let ghost cs = node@.content->Nodes_0;
            assert(node.content == NodeContent::Nodes(*children));
            proof {
                lemma_children_view(children, children.len() as nat);
            }
            let n = children.len();
            assert(forall|j: int| 0 <= j < n ==> #[trigger] cs[j] == children@[j]@);
            if n > MAX_LIST_SIZE {
                return Err(Error::Binary("too many children".to_owned()));
            }
            write_list_size(out, n);
            let ghost head = out@;
            let mut i: usize = 0;
            while i < n
                invariant
                    node@.content == ContentModel::Nodes(cs),
                    node.content == NodeContent::Nodes(*children),
                    cs.len() == n,
                    children@.len() == n,
                    forall|j: int| 0 <= j < n ==> #[trigger] cs[j] == children@[j]@,
                    i <= n,
                    head == old(out)@ + enc_list_size(n as nat),
                    out@ == head + enc_children(cs, i as nat),
                    forall|j: int| 0 <= j < i ==> encodable(#[trigger] cs[j]) && node_wf(cs[j]),
                decreases n - i,
            {
                proof {
                    assert(decreases_to!(*node => children[i as int]));
                }
                match encode_node(&children[i], out) {
                    Ok(()) => {},
                    Err(e) => {
                        assert(!encodable(cs[i as int]));
                        return Err(e);
                    },
                }
                i = i + 1;
                assert(out@ =~= head + enc_children(cs, i as nat));
            }
            assert(out@ =~= old(out)@ + enc_list_size(cs.len()) + enc_children(cs, cs.len()));
            Ok(())
        },
    }
}

// ---------------------------------------------------------------------------
// What decoding reads
//
// Each reader takes the input and a position and gives the value read with
// the position after it, or nothing when the input is truncated or holds a
// token that does not belong there.

pub open spec fn p_u8(d: Seq<u8>, p: int) -> Option<(u8, int)> {
    if 0 <= p < d.len() {
        Some((d[p], p + 1))
    } else {
        None
    }
}

pub open spec fn p_raw(d: Seq<u8>, p: int, n: nat) -> Option<(Seq<u8>, int)> {
    if 0 <= p && p + n <= d.len() {
        Some((d.subrange(p, p + n), p + n))
    } else {
        None
    }
}

/// The size after a list token `tag`.
pub open spec fn p_list_size(d: Seq<u8>, p: int, tag: u8) -> Option<(nat, int)> {
    if tag == LIST_8 && 0 <= p && p + 1 <= d.len() {
        Some((d[p] as nat, p + 1))
    } else if tag == LIST_16 && 0 <= p && p + 2 <= d.len() {
        Some(((d[p] as nat) * 256 + (d[p + 1] as nat), p + 2))
    } else {
        None
    }
}

/// The length after a binary token `tag`.
pub open spec fn p_len(d: Seq<u8>, p: int, tag: u8) -> Option<(nat, int)> {
    if tag == BINARY_8 && 0 <= p && p + 1 <= d.len() {
        Some((d[p] as nat, p + 1))
    } else if tag == BINARY_20 && 0 <= p && p + 3 <= d.len() {
        Some((((d[p] % 16) as nat) * 65536 + (d[p + 1] as nat) * 256 + (d[p + 2] as nat), p + 3))
    } else {
        None
    }
}

/// A length-prefixed byte string that starts with token `tag` at `p - 1`.
pub open spec fn p_binary(d: Seq<u8>, p: int, tag: u8) -> Option<(Seq<u8>, int)> {
    match p_len(d, p, tag) {
        Some((n, q)) => p_raw(d, q, n),
        None => None,
    }
}

/// A string: the empty-list token, or UTF-8 bytes with a length prefix.
pub open spec fn p_str(d: Seq<u8>, p: int) -> Option<(Seq<char>, int)> {
    if !(0 <= p < d.len()) {
        None
    } else if d[p] == LIST_EMPTY {
        Some((Seq::empty(), p + 1))
    } else if d[p] == BINARY_8 || d[p] == BINARY_20 {
        match p_binary(d, p + 1, d[p]) {
            Some((b, e)) => if valid_utf8(b) {
                Some((decode_utf8(b), e))
            } else {
                None
            },
            None => None,
        }
    } else {
        None
    }
}

/// `n` key/value pairs; a repeated key keeps its last value.
pub open spec fn p_attrs(d: Seq<u8>, p: int, n: nat) -> Option<(AttrsModel, int)>
    decreases n,
{
    if n == 0 {
        Some((Seq::empty(), p))
    } else {
        match p_attrs(d, p, (n - 1) as nat) {
            Some((a, q)) => match p_str(d, q) {
                Some((k, q2)) => match p_str(d, q2) {
                    Some((v, q3)) => Some((attrs_insert(a, k, v), q3)),
                    None => None,
                },
                None => None,
            },
            None => None,
        }
    }
}

/// A node.
pub open spec fn p_node(d: Seq<u8>, p: int) -> Option<(NodeModel, int)>
    decreases d.len() - p, 0nat, 0nat,
{
    if !(0 <= p < d.len()) {
        None
    } else {
        match p_list_size(d, p + 1, d[p]) {
            None => None,
            Some((size, q)) => if size == 0 {
                None
            } else {
                match p_str(d, q) {
                    None => None,
                    Some((tag, q2)) => match p_attrs(d, q2, ((size - 1) / 2) as nat) {
                        None => None,
                        Some((a, q3)) => if size % 2 == 1 {
                            Some((NodeModel { tag, attrs: a, content: ContentModel::Empty }, q3))
                        } else if p < q3 <= d.len() {
                            match p_content(d, q3) {
                                Some((c, e)) => Some((NodeModel { tag, attrs: a, content: c }, e)),
                                None => None,
                            }
                        } else {
                            None
                        },
                    },
                }
            },
        }
    }
}

/// The content of a node whose list size counts one.
pub open spec fn p_content(d: Seq<u8>, p: int) -> Option<(ContentModel, int)>
    decreases d.len() - p, 0nat, 0nat,
{
    if !(0 <= p < d.len()) {
        None
    } else if d[p] == LIST_EMPTY {
        Some((ContentModel::Empty, p + 1))
    } else if d[p] == BINARY_8 || d[p] == BINARY_20 {
        match p_binary(d, p + 1, d[p]) {
            Some((b, e)) => Some((ContentModel::Bytes(b), e)),
            None => None,
        }
    } else if d[p] == LIST_8 || d[p] == LIST_16 {
        match p_list_size(d, p + 1, d[p]) {
            Some((n, q)) => if p < q <= d.len() {
                match p_children(d, q, n) {
                    Some((cs, e)) => Some((ContentModel::Nodes(cs), e)),
                    None => None,
                }
            } else {
                None
            },
            None => None,
        }
    } else {
        None
    }
}

/// `n` nodes one after the other.
pub open spec fn p_children(d: Seq<u8>, p: int, n: nat) -> Option<(Seq<NodeModel>, int)>
    decreases d.len() - p, 1nat, n,
{
    if !(0 <= p <= d.len()) {
        None
    } else if n == 0 {
        Some((Seq::empty(), p))
    } else {
        match p_children(d, p, (n - 1) as nat) {
            Some((cs, q)) => if p <= q <= d.len() {
                match p_node(d, q) {
                    Some((c, e)) => Some((cs.push(c), e)),
                    None => None,
                }
            } else {
                None
            },
            None => None,
        }
    }
}

/// What decoding `d` gives: the first node of `d`, whatever follows it.
pub open spec fn decode_spec(d: Seq<u8>) -> Option<NodeModel> {
    match p_node(d, 0) {
        Some((m, _)) => Some(m),
        None => None,
    }
}

/// Reading fewer pairs succeeds where reading more does.
pub proof fn lemma_attrs_prefix(d: Seq<u8>, p: int, k: nat, n: nat)
    requires
        k <= n,
        p_attrs(d, p, n) is Some,
    ensures
        p_attrs(d, p, k) is Some,
    decreases n,
{
    if k < n {
        lemma_attrs_prefix(d, p, k, (n - 1) as nat);
    }
}

/// Reading fewer nodes succeeds where reading more does.
pub proof fn lemma_children_prefix(d: Seq<u8>, p: int, k: nat, n: nat)
    requires
        k <= n,
        p_children(d, p, n) is Some,
    ensures
        p_children(d, p, k) is Some,
    decreases n,
{
    if k < n {
        lemma_children_prefix(d, p, k, (n - 1) as nat);
    }
}

// ---------------------------------------------------------------------------
// Decoder

/// Relies on `String::from_utf8`: valid UTF-8 becomes the string that it
/// encodes, and anything else is refused.
#[verifier::external_body]
fn string_from_utf8(b: Vec<u8>) -> (r: Option<String>)
    ensures
        r is Some <==> valid_utf8(b@),
        r matches Some(s) ==> s@ == decode_utf8(b@),
{
    String::from_utf8(b).ok()
}

fn eof() -> (e: Error)
    ensures
        e is Binary,
{
    Error::Binary("unexpected eof".to_owned())
}

/// Fails unless `len` bytes remain after `position`.
fn check_eos(data: &[u8], position: usize, len: usize) -> (r: Result<(), Error>)
    ensures
        r is Ok <==> position + len <= data@.len(),
        r matches Err(e) ==> e is Binary,
{
    if position <= data.len() && len <= data.len() - position {
        Ok(())
    } else {
        Err(eof())
    }
}

/// Decodes one node from the start of `data`; bytes after it are ignored.
pub fn decode(data: &[u8]) -> (r: Result<Node, Error>)
    ensures
        match decode_spec(data@) {
            Some(m) => r matches Ok(n) && n@ == m && node_wf(m),
            None => r matches Err(e) && e is Binary,
        },
{
    let mut d = Decoder::new(data);
    d.read_node()
}

/// A read position in an input.
struct Decoder<'a> {
    data: &'a [u8],
    pos: usize,
}

impl<'a> Decoder<'a> {
    fn new(data: &'a [u8]) -> (r: Decoder<'a>)
        ensures
            r.data@ == data@,
            r.pos == 0,
    {
        Decoder { data, pos: 0 }
    }

    fn read_u8(&mut self) -> (r: Result<u8, Error>)
        requires
            old(self).pos <= old(self).data@.len(),
        ensures
            final(self).data == old(self).data,
            old(self).pos <= final(self).pos <= final(self).data@.len(),
            match p_u8(old(self).data@, old(self).pos as int) {
                Some((b, e)) => r == Ok::<u8, Error>(b) && final(self).pos == e,
                None => r matches Err(e) && e is Binary,
            },
    {
        match check_eos(self.data, self.pos, 1) {
            Ok(()) => {},
            Err(e) => return Err(e),
        }
        let b = self.data[self.pos];
        self.pos = self.pos + 1;
        Ok(b)
    }

    fn read_u16_be(&mut self) -> (r: Result<u16, Error>)
        requires
            old(self).pos <= old(self).data@.len(),
        ensures
            final(self).data == old(self).data,
            old(self).pos <= final(self).pos <= final(self).data@.len(),
            match p_list_size(old(self).data@, old(self).pos as int, LIST_16) {
                Some((n, e)) => r matches Ok(v) && v as nat == n && final(self).pos == e,
                None => r matches Err(e) && e is Binary,
            },
    {
        match check_eos(self.data, self.pos, 2) {
            Ok(()) => {},
            Err(e) => return Err(e),
        }
        let b0 = self.data[self.pos];
        let b1 = self.data[self.pos + 1];
        self.pos = self.pos + 2;
        let v: u16 = ((b0 as u16) << 8) | (b1 as u16);
        assert(v == (b0 as u16) * 256 + (b1 as u16)) by (bit_vector)
            requires v == ((b0 as u16) << 8) | (b1 as u16);
        Ok(v)
    }

    fn read_u20_be(&mut self) -> (r: Result<u32, Error>)
        requires
            old(self).pos <= old(self).data@.len(),
        ensures
            final(self).data == old(self).data,
            old(self).pos <= final(self).pos <= final(self).data@.len(),
            match p_len(old(self).data@, old(self).pos as int, BINARY_20) {
                Some((n, e)) => r matches Ok(v) && v as nat == n && final(self).pos == e,
                None => r matches Err(e) && e is Binary,
            },
    {
        match check_eos(self.data, self.pos, 3) {
            Ok(()) => {},
            Err(e) => return Err(e),
        }
        let b0 = self.data[self.pos];
        let b1 = self.data[self.pos + 1];
        let b2 = self.data[self.pos + 2];
        self.pos = self.pos + 3;
        let v: u32 = (((b0 as u32) & 0x0f) << 16) | ((b1 as u32) << 8) | (b2 as u32);
        assert(v == ((b0 % 16) as u32) * 65536 + (b1 as u32) * 256 + (b2 as u32)) by (bit_vector)
            requires v == (((b0 as u32) & 0x0f) << 16) | ((b1 as u32) << 8) | (b2 as u32);
        Ok(v)
    }

    fn read_bytes(&mut self, len: usize) -> (r: Result<Vec<u8>, Error>)
        requires
            old(self).pos <= old(self).data@.len(),
        ensures
            final(self).data == old(self).data,
            old(self).pos <= final(self).pos <= final(self).data@.len(),
            match p_raw(old(self).data@, old(self).pos as int, len as nat) {
                Some((b, e)) => r matches Ok(v) && v@ == b && final(self).pos == e,
                None => r matches Err(e) && e is Binary,
            },
    {
        match check_eos(self.data, self.pos, len) {
            Ok(()) => {},
            Err(e) => return Err(e),
        }
        let start = self.pos;
        let total = self.data.len();
        let mut out: Vec<u8> = Vec::with_capacity(len);
        let mut i: usize = 0;
        while i < len
            invariant
                total == self.data@.len(),
                start + len <= total,
                i <= len,
                out@ == self.data@.subrange(start as int, start + i),
            decreases len - i,
        {
            out.push(self.data[start + i]);
            i = i + 1;
            assert(out@ =~= self.data@.subrange(start as int, start + i));
        }
        self.pos = start + len;
        Ok(out)
    }

    /// A length-prefixed byte string after its token `tag`.
    fn read_binary(&mut self, tag: u8) -> (r: Result<Vec<u8>, Error>)
        requires
            old(self).pos <= old(self).data@.len(),
            tag == BINARY_8 || tag == BINARY_20,
        ensures
            final(self).data == old(self).data,
            old(self).pos <= final(self).pos <= final(self).data@.len(),
            match p_binary(old(self).data@, old(self).pos as int, tag) {
                Some((b, e)) => r matches Ok(v) && v@ == b && final(self).pos == e,
                None => r matches Err(e) && e is Binary,
            },
    {
        let len: usize = if tag == BINARY_8 {
            match self.read_u8() {
                Ok(b) => b as usize,
                Err(e) => return Err(e),
            }
        } else {
            match self.read_u20_be() {
                Ok(v) => v as usize,
                Err(e) => return Err(e),
            }
        };
        self.read_bytes(len)
    }

    fn read_string(&mut self) -> (r: Result<String, Error>)
        requires
            old(self).pos <= old(self).data@.len(),
        ensures
            final(self).data == old(self).data,
            old(self).pos <= final(self).pos <= final(self).data@.len(),
            match p_str(old(self).data@, old(self).pos as int) {
                Some((s, e)) => r matches Ok(v) && v@ == s && final(self).pos == e,
                None => r matches Err(e) && e is Binary,
            },
    {
        let tag = match self.read_u8() {
            Ok(t) => t,
            Err(e) => return Err(e),
        };
        if tag == LIST_EMPTY {
            let s = String::new();
            Ok(s)
        } else if tag == BINARY_8 || tag == BINARY_20 {
            let bytes = match self.read_binary(tag) {
                Ok(b) => b,
                Err(e) => return Err(e),
            };
            match string_from_utf8(bytes) {
                Some(s) => Ok(s),
                None => Err(Error::Binary("invalid utf-8 in string".to_owned())),
            }
        } else {
            Err(Error::Binary("unsupported string token".to_owned()))
        }
    }

    fn read_list_size(&mut self, list_tag: u8) -> (r: Result<usize, Error>)
        requires
            old(self).pos <= old(self).data@.len(),
        ensures
            final(self).data == old(self).data,
            old(self).pos <= final(self).pos <= final(self).data@.len(),
            match p_list_size(old(self).data@, old(self).pos as int, list_tag) {
                Some((n, e)) => r matches Ok(v) && v as nat == n && final(self).pos == e,
                None => r matches Err(e) && e is Binary,
            },
    {
        if list_tag == LIST_8 {
            match self.read_u8() {
                Ok(b) => Ok(b as usize),
                Err(e) => Err(e),
            }
        } else if list_tag == LIST_16 {
            match self.read_u16_be() {
                Ok(v) => Ok(v as usize),
                Err(e) => Err(e),
            }
        } else {
            Err(Error::Binary("unsupported list token".to_owned()))
        }
    }

    fn read_node(&mut self) -> (r: Result<Node, Error>)
        requires
            old(self).pos <= old(self).data@.len(),
        ensures
            final(self).data == old(self).data,
            old(self).pos <= final(self).pos <= final(self).data@.len(),
            match p_node(old(self).data@, old(self).pos as int) {
                Some((m, e)) => r matches Ok(n) && n@ == m && node_wf(m) && final(self).pos == e,
                None => r matches Err(e) && e is Binary,
            },
            r is Ok ==> final(self).pos > old(self).pos,
        decreases old(self).data@.len() - old(self).pos,
    {
        let ghost d0 = self.data;
        let ghost d = self.data@;
        let ghost p = self.pos as int;
        let list_tag = match self.read_u8() {
            Ok(t) => t,
            Err(e) => return Err(e),
        };
        let list_size = match self.read_list_size(list_tag) {
            Ok(n) => n,
            Err(e) => return Err(e),
        };
        if list_size == 0 {
            return Err(Error::Binary("empty list size for node".to_owned()));
        }
        let tag = match self.read_string() {
            Ok(s) => s,
            Err(e) => return Err(e),
        };
        let ghost q2 = self.pos as int;
        assert(q2 > p);
        let attr_count = (list_size - 1) / 2;
        let has_content = list_size % 2 == 0;
        let mut attrs = Attrs::new();
        let mut i: usize = 0;
        assert(p_attrs(d, q2, 0) == Some((attrs@, self.pos as int)));
        while i < attr_count
            invariant
                self.data == d0,
                d0 == old(self).data,
                p == old(self).pos,
                d0@ == d,
                p < q2 <= self.pos <= d.len(),
                i <= attr_count,
                keys_distinct(attrs@),
                p_attrs(d, q2, i as nat) == Some((attrs@, self.pos as int)),
                p_node(d, p) is Some ==> p_attrs(d, q2, attr_count as nat) is Some,
            decreases attr_count - i,
        {
            let k = match self.read_string() {
                Ok(s) => s,
                Err(e) => {
                    proof {
                        assert(p_attrs(d, q2, (i + 1) as nat) is None);
                        if p_attrs(d, q2, attr_count as nat) is Some {
                            lemma_attrs_prefix(d, q2, (i + 1) as nat, attr_count as nat);
                        }
                    }
                    return Err(e);
                },
            };
            let v = match self.read_string() {
                Ok(s) => s,
                Err(e) => {
                    proof {
                        assert(p_attrs(d, q2, (i + 1) as nat) is None);
                        if p_attrs(d, q2, attr_count as nat) is Some {
                            lemma_attrs_prefix(d, q2, (i + 1) as nat, attr_count as nat);
                        }
                    }
                    return Err(e);
                },
            };
            attrs.insert(k, v);
            i = i + 1;
        }
        let content = if has_content {
            match self.read_content() {
                Ok(c) => c,
                Err(e) => return Err(e),
            }
        } else {
            NodeContent::Empty
        };
        let n = Node { tag, attrs, content };
        Ok(n)
    }

    fn read_content(&mut self) -> (r: Result<NodeContent, Error>)
        requires
            old(self).pos <= old(self).data@.len(),
        ensures
            final(self).data == old(self).data,
            old(self).pos <= final(self).pos <= final(self).data@.len(),
            match p_content(old(self).data@, old(self).pos as int) {
                Some((c, e)) => r matches Ok(v) && content_view(&v) == c && content_wf(c) && final(self).pos == e,
                None => r matches Err(e) && e is Binary,
            },
            r is Ok ==> final(self).pos > old(self).pos,
        decreases old(self).data@.len() - old(self).pos,
    {
        let ghost d0 = self.data;
        let ghost d = self.data@;
        let ghost p = self.pos as int;
        let tag = match self.read_u8() {
            Ok(t) => t,
            Err(e) => return Err(e),
        };
        if tag == LIST_EMPTY {
            Ok(NodeContent::Empty)
        } else if tag == BINARY_8 || tag == BINARY_20 {
            match self.read_binary(tag) {
                Ok(b) => Ok(NodeContent::Bytes(b)),
                Err(e) => Err(e),
            }
        } else if tag == LIST_8 || tag == LIST_16 {
            let n = match self.read_list_size(tag) {
                Ok(n) => n,
                Err(e) => return Err(e),
            };
            let ghost q = self.pos as int;
            let mut children: Vec<Node> = Vec::new();
            let ghost mut cs: Seq<NodeModel> = Seq::empty();
            let mut i: usize = 0;
            while i < n
                invariant
                    self.data == d0,
                    d0 == old(self).data,
                    p == old(self).pos,
                    d0@ == d,
                    p < q <= self.pos <= d.len(),
                    i <= n,
                    children@.len() == i,
                    cs.len() == i,
                    p_children(d, q, i as nat) == Some((cs, self.pos as int)),
                    p_content(d, p) is Some ==> p_children(d, q, n as nat) is Some,
                    forall|j: int| 0 <= j < i ==> #[trigger] cs[j] == children@[j]@ && node_wf(cs[j]),
                decreases n - i,
            {
                match self.read_node() {
                    Ok(c) => {
                        proof {
                            cs = cs.push(c@);
                        }
                        children.push(c);
                    },
                    Err(e) => {
                        proof {
                            assert(p_children(d, q, (i + 1) as nat) is None);
                            if p_children(d, q, n as nat) is Some {
                                lemma_children_prefix(d, q, (i + 1) as nat, n as nat);
                            }
                        }
                        return Err(e);
                    },
                }
                i = i + 1;
            }
            proof {
                lemma_children_view(&children, n as nat);
                assert(children_view(&children, n as nat) =~= cs);
            }
            Ok(NodeContent::Nodes(children))
        } else {
            Err(Error::Binary("unsupported content token".to_owned()))
        }
    }
}

// ---------------------------------------------------------------------------
// Decoding what was encoded

/// `x` stands in `d` at `p`.
pub open spec fn at(d: Seq<u8>, p: int, x: Seq<u8>) -> bool {
    0 <= p && p + x.len() <= d.len() && d.subrange(p, p + x.len()) == x
}

proof fn lemma_at_split(d: Seq<u8>, p: int, x: Seq<u8>, y: Seq<u8>)
    requires
        at(d, p, x + y),
    ensures
        at(d, p, x),
        at(d, p + x.len(), y),
{
    let w = d.subrange(p, p + x.len() + y.len());
    assert(w == x + y);
    assert(d.subrange(p, p + x.len()) =~= w.subrange(0, x.len() as int));
    assert(w.subrange(0, x.len() as int) =~= x);
    assert(d.subrange(p + x.len(), p + x.len() + y.len()) =~= w.subrange(x.len() as int, w.len() as int));
    assert(w.subrange(x.len() as int, w.len() as int) =~= y);
}

proof fn lemma_list_size_enc(d: Seq<u8>, p: int, n: nat)
    requires
        n <= MAX_LIST_SIZE,
        at(d, p, enc_list_size(n)),
    ensures
        p_list_size(d, p + 1, d[p]) == Some((n, p + enc_list_size(n).len())),
{
    let x = enc_list_size(n);
    assert(forall|i: int| 0 <= i < x.len() ==> d[p + i] == #[trigger] x[i]) by {
        assert forall|i: int| 0 <= i < x.len() implies d[p + i] == #[trigger] x[i] by {
            assert(d.subrange(p, p + x.len())[i] == d[p + i]);
        }
    }
    if n > 255 {
        assert(d[p] == x[0]);
        assert(d[p + 1] == x[1]);
        assert(d[p + 2] == x[2]);
        assert(((n / 256) as u8) as nat * 256 + ((n % 256) as u8) as nat == n) by (nonlinear_arith)
            requires n <= 65535;
    } else {
        assert(d[p] == x[0]);
        assert(d[p + 1] == x[1]);
    }
}

proof fn lemma_binary_enc(d: Seq<u8>, p: int, b: Seq<u8>)
    requires
        b.len() <= MAX_LEN_20,
        at(d, p, enc_bytes(b)),
    ensures
        d[p] == BINARY_8 || d[p] == BINARY_20,
        p_binary(d, p + 1, d[p]) == Some((b, p + enc_bytes(b).len())),
{
    let n = b.len();
    let x = enc_len_prefix(n);
    lemma_at_split(d, p, x, b);
    assert(forall|i: int| 0 <= i < x.len() ==> d[p + i] == #[trigger] x[i]) by {
        assert forall|i: int| 0 <= i < x.len() implies d[p + i] == #[trigger] x[i] by {
            assert(d.subrange(p, p + x.len())[i] == d[p + i]);
        }
    }
    if n > 255 {
        assert(d[p] == x[0]);
        assert(d[p + 1] == x[1]);
        assert(d[p + 2] == x[2]);
        assert(d[p + 3] == x[3]);
        assert((((n / 65536) as u8) % 16) as nat * 65536 + (((n / 256) % 256) as u8) as nat * 256
            + ((n % 256) as u8) as nat == n) by (nonlinear_arith)
            requires n <= 1048575;
    } else {
        assert(d[p] == x[0]);
        assert(d[p + 1] == x[1]);
    }
}

proof fn lemma_str_enc(d: Seq<u8>, p: int, s: Seq<char>)
    requires
        str_fits(s),
        at(d, p, enc_str(s)),
    ensures
        p_str(d, p) == Some((s, p + enc_str(s).len())),
{
    lemma_binary_enc(d, p, encode_utf8(s));
    encode_utf8_valid_utf8(s);
    encode_utf8_decode_utf8(s);
}

proof fn lemma_attrs_enc(d: Seq<u8>, p: int, a: AttrsModel, k: nat)
    requires
        keys_distinct(a),
        attrs_fit(a),
        k <= a.len(),
        at(d, p, enc_attrs(a, k)),
    ensures
        p_attrs(d, p, k) == Some((a.take(k as int), p + enc_attrs(a, k).len())),
    decreases k,
{
    if k > 0 {
        let prev = enc_attrs(a, (k - 1) as nat);
        let ks = enc_str(a[k - 1].0);
        let vs = enc_str(a[k - 1].1);
        lemma_at_split(d, p, prev + ks, vs);
        lemma_at_split(d, p, prev, ks);
        lemma_attrs_enc(d, p, a, (k - 1) as nat);
        lemma_str_enc(d, p + prev.len(), a[k - 1].0);
        lemma_str_enc(d, p + prev.len() + ks.len(), a[k - 1].1);
        let t = a.take(k - 1);
        assert(!crate::node::has_key(t, a[k - 1].0)) by {
            if crate::node::has_key(t, a[k - 1].0) {
                let i = choose|i: int| 0 <= i < t.len() && #[trigger] t[i].0 == a[k - 1].0;
                assert(a[i].0 == a[k - 1].0);
            }
        }
        assert(attrs_insert(t, a[k - 1].0, a[k - 1].1) =~= a.take(k as int));
    } else {
        assert(a.take(0) =~= Seq::<(Seq<char>, Seq<char>)>::empty());
    }
}

/// A node's wire form, wherever it stands in an input, decodes to the node.
#[verifier::rlimit(60)]
pub proof fn lemma_node_enc(d: Seq<u8>, p: int, m: NodeModel)
    requires
        node_wf(m),
        encodable(m),
        at(d, p, enc_node(m)),
    ensures
        p_node(d, p) == Some((m, p + enc_node(m).len())),
    decreases m, 1nat,
{
    let hs = enc_list_size(list_size(m));
    let ts = enc_str(m.tag);
    let attrs = enc_attrs(m.attrs, m.attrs.len());
    let cs = match m.content {
        ContentModel::Empty => Seq::empty(),
        ContentModel::Bytes(b) => enc_bytes(b),
        ContentModel::Nodes(c) => enc_list_size(c.len()) + enc_children(c, c.len()),
    };
    assert(enc_node(m) == hs + ts + attrs + cs);
    lemma_at_split(d, p, hs + ts + attrs, cs);
    lemma_at_split(d, p, hs + ts, attrs);
    lemma_at_split(d, p, hs, ts);
    lemma_list_size_enc(d, p, list_size(m));
    let q = p + hs.len();
    lemma_str_enc(d, q, m.tag);
    let q2 = q + ts.len();
    lemma_attrs_enc(d, q2, m.attrs, m.attrs.len());
    assert(m.attrs.take(m.attrs.len() as int) =~= m.attrs);
    let q3 = q2 + attrs.len();
    let size = list_size(m);
    assert((size - 1) / 2 == m.attrs.len());
    match m.content {
        ContentModel::Empty => {
            assert(size % 2 == 1);
        },
        ContentModel::Bytes(b) => {
            assert(size % 2 == 0);
            lemma_binary_enc(d, q3, b);
        },
        ContentModel::Nodes(c) => {
            assert(size % 2 == 0);
            let ls = enc_list_size(c.len());
            lemma_at_split(d, q3, ls, enc_children(c, c.len()));
            lemma_list_size_enc(d, q3, c.len());
            lemma_children_enc(d, q3 + ls.len(), c, c.len());
            assert(c.take(c.len() as int) =~= c);
        },
    }
}

proof fn lemma_children_enc(d: Seq<u8>, p: int, cs: Seq<NodeModel>, k: nat)
    requires
        k <= cs.len(),
        forall|i: int| 0 <= i < cs.len() ==> node_wf(#[trigger] cs[i]) && encodable(cs[i]),
        at(d, p, enc_children(cs, k)),
    ensures
        p_children(d, p, k) == Some((cs.take(k as int), p + enc_children(cs, k).len())),
    decreases cs, k,
{
    if k > 0 {
        let prev = enc_children(cs, (k - 1) as nat);
        lemma_at_split(d, p, prev, enc_node(cs[k - 1]));
        lemma_children_enc(d, p, cs, (k - 1) as nat);
        lemma_node_enc(d, p + prev.len(), cs[k - 1]);
        assert(cs.take(k - 1).push(cs[k - 1]) =~= cs.take(k as int));
    } else {
        assert(cs.take(0) =~= Seq::<NodeModel>::empty());
    }
}

/// Decoding the wire form of a node gives the node back. Every `Node` whose
/// `encode` succeeds meets both requirements.
pub proof fn lemma_decode_encode(m: NodeModel)
    requires
        node_wf(m),
        encodable(m),
    ensures
        decode_spec(enc_node(m)) == Some(m),
{
    let d = enc_node(m);
    assert(d.subrange(0, d.len() as int) =~= d);
    lemma_node_enc(d, 0, m);
}

// ---------------------------------------------------------------------------
// Decoding looks at no byte past the node it reads

/// `a` is the start of `b`.
pub open spec fn prefix_of(a: Seq<u8>, b: Seq<u8>) -> bool {
    a.len() <= b.len() && a == b.take(a.len() as int)
}

proof fn lemma_same_bytes(a: Seq<u8>, b: Seq<u8>)
    requires
        prefix_of(a, b),
    ensures
        forall|i: int| 0 <= i < a.len() ==> #[trigger] a[i] == b[i],
        forall|i: int, j: int| 0 <= i <= j <= a.len() ==> #[trigger] a.subrange(i, j) == #[trigger] b.subrange(i, j),
{
    assert forall|i: int| 0 <= i < a.len() implies #[trigger] a[i] == b[i] by {
        assert(b.take(a.len() as int)[i] == b[i]);
    }
    assert forall|i: int, j: int| 0 <= i <= j <= a.len() implies #[trigger] a.subrange(i, j) == #[trigger] b.subrange(i, j) by {
        assert(a.subrange(i, j) =~= b.subrange(i, j));
    }
}

proof fn lemma_str_prefix(a: Seq<u8>, b: Seq<u8>, p: int)
    requires
        prefix_of(a, b),
        p_str(a, p) is Some,
    ensures
        p_str(b, p) == p_str(a, p),
        p_str(a, p)->Some_0.1 <= a.len(),
{
    lemma_same_bytes(a, b);
}

proof fn lemma_attrs_extend(a: Seq<u8>, b: Seq<u8>, p: int, n: nat)
    requires
        prefix_of(a, b),
        p_attrs(a, p, n) is Some,
        0 <= p <= a.len(),
    ensures
        p_attrs(b, p, n) == p_attrs(a, p, n),
        p <= p_attrs(a, p, n)->Some_0.1 <= a.len(),
    decreases n,
{
    if n > 0 {
        lemma_attrs_extend(a, b, p, (n - 1) as nat);
        let q = p_attrs(a, p, (n - 1) as nat)->Some_0.1;
        lemma_str_prefix(a, b, q);
        let q2 = p_str(a, q)->Some_0.1;
        lemma_str_prefix(a, b, q2);
    }
}

proof fn lemma_node_extend(a: Seq<u8>, b: Seq<u8>, p: int)
    requires
        prefix_of(a, b),
        p_node(a, p) is Some,
    ensures
        p_node(b, p) == p_node(a, p),
        p < p_node(a, p)->Some_0.1 <= a.len(),
    decreases a.len() - p, 0nat, 0nat,
{
    lemma_same_bytes(a, b);
    let (size, q) = p_list_size(a, p + 1, a[p])->Some_0;
    assert(p_list_size(b, p + 1, b[p]) == p_list_size(a, p + 1, a[p]));
    lemma_str_prefix(a, b, q);
    let q2 = p_str(a, q)->Some_0.1;
    lemma_attrs_extend(a, b, q2, ((size - 1) / 2) as nat);
    let q3 = p_attrs(a, q2, ((size - 1) / 2) as nat)->Some_0.1;
    if size % 2 != 1 {
        lemma_content_extend(a, b, q3);
    }
}

proof fn lemma_content_extend(a: Seq<u8>, b: Seq<u8>, p: int)
    requires
        prefix_of(a, b),
        p_content(a, p) is Some,
    ensures
        p_content(b, p) == p_content(a, p),
        p < p_content(a, p)->Some_0.1 <= a.len(),
    decreases a.len() - p, 0nat, 0nat,
{
    lemma_same_bytes(a, b);
    if a[p] == LIST_8 || a[p] == LIST_16 {
        let (n, q) = p_list_size(a, p + 1, a[p])->Some_0;
        assert(p_list_size(b, p + 1, b[p]) == p_list_size(a, p + 1, a[p]));
        lemma_children_extend(a, b, q, n);
    }
}

proof fn lemma_children_extend(a: Seq<u8>, b: Seq<u8>, p: int, n: nat)
    requires
        prefix_of(a, b),
        p_children(a, p, n) is Some,
    ensures
        p_children(b, p, n) == p_children(a, p, n),
        p <= p_children(a, p, n)->Some_0.1 <= a.len(),
    decreases a.len() - p, 1nat, n,
{
    if n > 0 {
        lemma_children_extend(a, b, p, (n - 1) as nat);
        let q = p_children(a, p, (n - 1) as nat)->Some_0.1;
        lemma_node_extend(a, b, q);
    }
}

/// Decoding any strict prefix of a node's wire form fails. Every `Node`
/// whose `encode` succeeds meets both requirements.
pub proof fn lemma_truncated_fails(m: NodeModel, k: nat)
    requires
        node_wf(m),
        encodable(m),
        k < enc_node(m).len(),
    ensures
        decode_spec(enc_node(m).take(k as int)) is None,
{
    let d = enc_node(m);
    let t = d.take(k as int);
    assert(d.subrange(0, d.len() as int) =~= d);
    lemma_node_enc(d, 0, m);
    assert(t =~= d.take(t.len() as int));
    if p_node(t, 0) is Some {
        lemma_node_extend(t, d, 0);
    }
}

} // verus!
