//! A persistent rope: a binary tree of text leaves whose unchanged
//! subtrees are shared between versions.

use std::rc::Rc;
use vstd::prelude::*;
use vstd::arithmetic::power::lemma_pow0;
use vstd::arithmetic::power2::{lemma_pow2_unfold, pow2};
use vstd::utf8::*;

use crate::text::{lemma_encode_concat, newline_count, share, utf8_len};

verus! {

broadcast use vstd::utf8::group_utf8_lib;

/// A tree node: a leaf holding text, or an inner node whose `weight` is
/// the length in bytes of its left subtree.
enum Node {
    Leaf(String),
    Internal { weight: usize, left: Rc<Node>, right: Rc<Node> },
}

impl Node {
    /// The UTF-8 bytes that the subtree stands for, leaves left to right.
    spec fn bytes(&self) -> Seq<u8>
        decreases self,
    {
        match self {
            Node::Leaf(s) => encode_utf8(s@),
            Node::Internal { left, right, .. } => left.bytes() + right.bytes(),
        }
    }

    /// The characters that the subtree stands for, leaves left to right.
    spec fn chars(&self) -> Seq<char>
        decreases self,
    {
        match self {
            Node::Leaf(s) => s@,
            Node::Internal { left, right, .. } => left.chars() + right.chars(),
        }
    }

    /// Every weight is the byte length of its left subtree, and every
    /// subtree's length fits in a `usize`.
    spec fn wf(&self) -> bool
        decreases self,
    {
        &&& self.bytes().len() <= usize::MAX
        &&& match self {
            Node::Leaf(_) => true,
            Node::Internal { weight, left, right } => {
                &&& weight == left.bytes().len()
                &&& left.wf()
                &&& right.wf()
            },
        }
    }

    spec fn is_leaf(&self) -> bool {
        self is Leaf
    }

    /// The number of levels below the node.
    spec fn depth(&self) -> nat
        decreases self,
    {
        match self {
            Node::Leaf(_) => 0,
            Node::Internal { left, right, .. } => 1 + if left.depth() >= right.depth() {
                left.depth()
            } else {
                right.depth()
            },
        }
    }

    /// The texts of the subtree's leaves, left to right.
    spec fn leaf_texts(&self) -> Seq<Seq<char>>
        decreases self,
    {
        match self {
            Node::Leaf(s) => seq![s@],
            Node::Internal { left, right, .. } => left.leaf_texts() + right.leaf_texts(),
        }
    }

    /// The number of leaves in the subtree.
    spec fn leaf_count(&self) -> nat
        decreases self,
    {
        match self {
            Node::Leaf(_) => 1,
            Node::Internal { left, right, .. } => left.leaf_count() + right.leaf_count(),
        }
    }

    fn new_leaf(text: &str) -> (res: Rc<Node>)
        ensures
            res.is_leaf(),
            res.wf(),
            res.chars() == text@,
            res.bytes() == encode_utf8(text@),
    {
        // Only for its bound: a `str`'s encoding fits in a `usize`.
        let _ = utf8_len(text);
        Rc::new(Node::Leaf(String::from_str(text)))
    }

    fn len(&self) -> (res: usize)
        requires
            self.wf(),
        ensures
            res == self.bytes().len(),
        decreases self,
    {
        match self {
            Node::Leaf(s) => s.as_str().len(),
            Node::Internal { left, right, .. } => left.len() + right.len(),
        }
    }

    fn new_internal(left: Rc<Node>, right: Rc<Node>) -> (res: Rc<Node>)
        requires
            left.wf(),
            right.wf(),
            left.bytes().len() + right.bytes().len() <= usize::MAX,
        ensures
            res.wf(),
            res.bytes() == left.bytes() + right.bytes(),
            res.chars() == left.chars() + right.chars(),
            res.depth() == 1 + if left.depth() >= right.depth() { left.depth() } else { right.depth() },
            res.leaf_count() == left.leaf_count() + right.leaf_count(),
            res.leaf_texts() == left.leaf_texts() + right.leaf_texts(),
    {
        let weight = left.len();
        Rc::new(Node::Internal { weight, left, right })
    }

    /// The character whose encoding starts at byte `index`, if any.
    fn char_at(node: &Rc<Node>, index: usize) -> (res: Option<char>)
        requires
            node.wf(),
            index < node.bytes().len(),
        ensures
            res == char_starting_at(node.bytes(), index as int),
        decreases **node,
    {
        proof { node.lemma_bytes_chars(); }
        match &**node {
            Node::Leaf(s) => {
                let st = s.as_str();
                if st.is_char_boundary(index) {
                    let (_, rest) = st.split_at(index);
                    proof {
                        assert(rest@.len() > 0) by {
                            if rest@.len() == 0 {
                                assert(encode_utf8(rest@) =~= Seq::<u8>::empty());
                            }
                        }
                    }
                    let mut it = rest.chars();
                    it.next()
                } else {
                    None
                }
            },
            Node::Internal { weight, left, right } => {
                let ghost lb = left.bytes();
                let ghost rb = right.bytes();
                proof {
                    left.lemma_bytes_chars();
                    right.lemma_bytes_chars();
                    lemma_boundary_concat(lb, rb);
                }
                if index < *weight {
                    proof {
                        if is_char_boundary(lb, index as int) {
                            let tail = lb.subrange(index as int, lb.len() as int);
                            valid_utf8_split(lb, index as int);
                            lemma_decode_concat(tail, rb);
                            assert(tail + rb =~= (lb + rb).subrange(index as int, (lb + rb).len() as int));
                            assert(decode_utf8(tail).len() > 0) by {
                                if decode_utf8(tail).len() == 0 {
                                    assert(encode_utf8(decode_utf8(tail)) =~= Seq::<u8>::empty());
                                }
                            }
                        }
                    }
                    Node::char_at(left, index)
                } else {
                    proof {
                        assert(is_char_boundary(lb + rb, lb.len() + (index - *weight))
                            == is_char_boundary(rb, index - *weight));
                        assert(rb.subrange(index - *weight, rb.len() as int)
                            =~= (lb + rb).subrange(index as int, (lb + rb).len() as int));
                    }
                    Node::char_at(right, index - *weight)
                }
            },
        }
    }

    /// Whether byte `index` is a character boundary of the subtree's text.
    fn is_boundary(node: &Rc<Node>, index: usize) -> (res: bool)
        requires
            node.wf(),
        ensures
            res == is_char_boundary(node.bytes(), index as int),
        decreases **node,
    {
        proof { node.lemma_bytes_chars(); }
        match &**node {
            Node::Leaf(s) => s.as_str().is_char_boundary(index),
            Node::Internal { weight, left, right } => {
                let ghost lb = left.bytes();
                let ghost rb = right.bytes();
                proof {
                    left.lemma_bytes_chars();
                    right.lemma_bytes_chars();
                    lemma_boundary_concat(lb, rb);
                    is_char_boundary_start_end_of_seq(lb);
                }
                if index <= *weight {
                    Node::is_boundary(left, index)
                } else {
                    proof {
                        assert(is_char_boundary(lb + rb, lb.len() + (index - *weight))
                            == is_char_boundary(rb, index - *weight));
                    }
                    Node::is_boundary(right, index - *weight)
                }
            },
        }
    }

    /// Appends the subtree's text to `out`.
    fn collect_string(&self, out: &mut String)
        ensures
            final(out)@ == old(out)@ + self.chars(),
        decreases self,
    {
        match self {
            Node::Leaf(s) => {
                out.append(s.as_str());
            },
            Node::Internal { left, right, .. } => {
                left.collect_string(out);
                right.collect_string(out);
                assert(final(out)@ =~= old(out)@ + self.chars());
            },
        }
    }

    /// Appends the subtree's leaves to `out`, left to right.
    fn collect_leaves(node: &Rc<Node>, out: &mut Vec<Rc<Node>>)
        requires
            node.wf(),
            all_wf(old(out)@),
            all_leaves(old(out)@),
        ensures
            all_wf(final(out)@),
            all_leaves(final(out)@),
            final(out)@.len() == old(out)@.len() + node.leaf_count(),
            concat_texts(final(out)@) == concat_texts(old(out)@) + node.leaf_texts(),
            concat_bytes(final(out)@) == concat_bytes(old(out)@) + node.bytes(),
        decreases **node,
    {
        match &**node {
            Node::Leaf(_) => {
                let leaf = share(node);
                out.push(leaf);
                proof {
                    assert(final(out)@.drop_last() =~= old(out)@);
                }
            },
            Node::Internal { left, right, .. } => {
                Node::collect_leaves(left, out);
                Node::collect_leaves(right, out);
                assert(concat_bytes(final(out)@) =~= concat_bytes(old(out)@) + node.bytes());
                assert(concat_texts(final(out)@) =~= concat_texts(old(out)@) + node.leaf_texts());
            },
        }
    }

    /// Builds a balanced tree over `leaves[lo..hi]`, halving the range at
    /// each level.
    fn build_balanced(leaves: &Vec<Rc<Node>>, lo: usize, hi: usize) -> (res: Rc<Node>)
        requires
            lo <= hi <= leaves@.len(),
            all_wf(leaves@),
            all_leaves(leaves@),
            concat_bytes(leaves@.subrange(lo as int, hi as int)).len() <= usize::MAX,
        ensures
            res.wf(),
            res.bytes() == concat_bytes(leaves@.subrange(lo as int, hi as int)),
            lo < hi ==> res.leaf_count() == hi - lo,
            lo < hi ==> pow2(res.depth()) < 2 * (hi - lo),
            lo < hi ==> res.leaf_texts() == concat_texts(leaves@.subrange(lo as int, hi as int)),
        decreases hi - lo,
    {
        let n = hi - lo;
        if n == 0 {
            proof {
                reveal_strlit("");
                assert(encode_utf8(""@) =~= Seq::<u8>::empty());
            }
            Node::new_leaf("")
        } else if n == 1 {
            proof {
                let one = leaves@.subrange(lo as int, hi as int);
                assert(one.drop_last() =~= Seq::<Rc<Node>>::empty());
                assert(one.last() == leaves@[lo as int]);
                assert(concat_bytes(one.drop_last()) =~= Seq::<u8>::empty());
                assert(concat_bytes(one) == concat_bytes(one.drop_last()) + one.last().bytes());
                assert(concat_bytes(one) =~= leaves@[lo as int].bytes());
                assert(concat_texts(one.drop_last()) =~= Seq::<Seq<char>>::empty());
                assert(concat_texts(one) == concat_texts(one.drop_last()) + one.last().leaf_texts());
                assert(concat_texts(one) =~= leaves@[lo as int].leaf_texts());
            }
            proof {
                lemma_pow0(2);
            }
            share(&leaves[lo])
        } else {
            let mid = lo + n / 2;
            let ghost whole = leaves@.subrange(lo as int, hi as int);
            let ghost first = leaves@.subrange(lo as int, mid as int);
            let ghost second = leaves@.subrange(mid as int, hi as int);
            proof {
                assert(whole =~= first + second);
                lemma_concat_bytes_add(first, second);
                lemma_concat_texts_add(first, second);
            }
            let left = Node::build_balanced(leaves, lo, mid);
            let right = Node::build_balanced(leaves, mid, hi);
            proof {
                lemma_balanced_depth(left.depth(), right.depth(), (mid - lo) as nat, (hi - mid) as nat);
            }
            Node::new_internal(left, right)
        }
    }

    proof fn lemma_leaf_count_pos(&self)
        ensures
            self.leaf_count() >= 1,
        decreases self,
    {
        if let Node::Internal { left, right, .. } = self {
            left.lemma_leaf_count_pos();
            right.lemma_leaf_count_pos();
        }
    }

    proof fn lemma_bytes_chars(&self)
        ensures
            self.bytes() == encode_utf8(self.chars()),
        decreases self,
    {
        match self {
            Node::Leaf(_) => {},
            Node::Internal { left, right, .. } => {
                left.lemma_bytes_chars();
                right.lemma_bytes_chars();
                lemma_encode_concat(left.chars(), right.chars());
            },
        }
    }

    /// Splits into the bytes before and from `index`, sharing every
    /// subtree that need not be cut.
    fn split_at(node: &Rc<Node>, index: usize) -> (res: (Rc<Node>, Rc<Node>))
        requires
            node.wf(),
            is_char_boundary(node.bytes(), index as int),
        ensures
            res.0.wf(),
            res.1.wf(),
            res.0.bytes() == node.bytes().subrange(0, index as int),
            res.1.bytes() == node.bytes().subrange(index as int, node.bytes().len() as int),
        decreases **node,
    {
        proof { node.lemma_bytes_chars(); }
        match &**node {
            Node::Leaf(s) => {
                let (l, r) = s.as_str().split_at(index);
                (Node::new_leaf(l), Node::new_leaf(r))
            },
            Node::Internal { weight, left, right } => {
                let ghost lb = left.bytes();
                let ghost rb = right.bytes();
                proof {
                    left.lemma_bytes_chars();
                    right.lemma_bytes_chars();
                    lemma_boundary_concat(lb, rb);
                }
                if index < *weight {
                    let (ll, lr) = Node::split_at(left, index);
                    let r = Node::new_internal(lr, share(right));
                    assert(lb.subrange(index as int, lb.len() as int) + rb
                        =~= (lb + rb).subrange(index as int, (lb + rb).len() as int));
                    (ll, r)
                } else if index > *weight {
                    assert(is_char_boundary(lb + rb, lb.len() + (index - *weight)));
                    let (rl, rr) = Node::split_at(right, index - *weight);
                    let l = Node::new_internal(share(left), rl);
                    assert(lb + rb.subrange(0, index - *weight) =~= (lb + rb).subrange(0, index as int));
                    assert(rb.subrange(index - *weight, rb.len() as int)
                        =~= (lb + rb).subrange(index as int, (lb + rb).len() as int));
                    (l, rr)
                } else {
                    assert(lb =~= (lb + rb).subrange(0, index as int));
                    assert(rb =~= (lb + rb).subrange(index as int, (lb + rb).len() as int));
                    (share(left), share(right))
                }
            },
        }
    }
}

/// In a concatenation of valid UTF-8, the character boundaries inside
/// each part are exactly those of the part.
proof fn lemma_boundary_concat(a: Seq<u8>, b: Seq<u8>)
    requires
        valid_utf8(a),
        valid_utf8(b),
    ensures
        valid_utf8(a + b),
        forall|i: int| 0 <= i <= a.len() ==>
            (is_char_boundary(a + b, i) <==> #[trigger] is_char_boundary(a, i)),
        forall|j: int| 0 <= j <= b.len() ==>
            (is_char_boundary(a + b, a.len() + j) <==> #[trigger] is_char_boundary(b, j)),
{
    let ab = a + b;
    assert(valid_utf8(ab));
    assert forall|i: int| 0 <= i <= a.len() implies
        (is_char_boundary(ab, i) <==> #[trigger] is_char_boundary(a, i)) by {
        if i < a.len() {
            is_char_boundary_iff_not_is_continuation_byte(ab, i);
            is_char_boundary_iff_not_is_continuation_byte(a, i);
            assert(ab[i] == a[i]);
        } else {
            is_char_boundary_start_end_of_seq(a);
            if b.len() == 0 {
                assert(ab =~= a);
            } else {
                is_char_boundary_start_end_of_seq(b);
                is_char_boundary_iff_not_is_continuation_byte(b, 0);
                is_char_boundary_iff_not_is_continuation_byte(ab, i);
                assert(ab[i] == b[0]);
            }
        }
    }
    assert forall|j: int| 0 <= j <= b.len() implies
        (is_char_boundary(ab, a.len() + j) <==> #[trigger] is_char_boundary(b, j)) by {
        if j < b.len() {
            is_char_boundary_iff_not_is_continuation_byte(ab, a.len() + j);
            is_char_boundary_iff_not_is_continuation_byte(b, j);
            assert(ab[a.len() + j] == b[j]);
        } else {
            is_char_boundary_start_end_of_seq(b);
            is_char_boundary_start_end_of_seq(ab);
        }
    }
}

/// Decoding a concatenation of valid UTF-8 decodes each part in turn.
proof fn lemma_decode_concat(a: Seq<u8>, b: Seq<u8>)
    requires
        valid_utf8(a),
        valid_utf8(b),
    ensures
        decode_utf8(a + b) == decode_utf8(a) + decode_utf8(b),
{
    lemma_boundary_concat(a, b);
    is_char_boundary_start_end_of_seq(a);
    let ab = a + b;
    decode_utf8_split(ab, a.len() as int);
    assert(ab.subrange(0, a.len() as int) =~= a);
    assert(ab.subrange(a.len() as int, ab.len() as int) =~= b);
}

/// A persistent rope. `insert`, `delete`, `concat` and `split_at` return
/// a new rope and leave the original untouched; unchanged subtrees are
/// shared between the two, which keeps old versions cheap to hold.
pub struct Rope {
    root: Rc<Node>,
}

/// The bytes of `b` with `t` put in at byte `pos`.
pub open spec fn inserted(b: Seq<u8>, pos: int, t: Seq<u8>) -> Seq<u8> {
    b.subrange(0, pos) + t + b.subrange(pos, b.len() as int)
}

/// The bytes of `b` without those in `start..end`.
pub open spec fn deleted(b: Seq<u8>, start: int, end: int) -> Seq<u8> {
    b.subrange(0, start) + b.subrange(end, b.len() as int)
}

impl View for Rope {
    type V = Seq<u8>;

    /// The UTF-8 encoding of the rope's text; offsets into a rope are
    /// offsets into this sequence.
    open spec fn view(&self) -> Seq<u8> {
        encode_utf8(self.text())
    }
}

impl Clone for Rope {
    /// Another handle on the same tree.
    fn clone(&self) -> (res: Self)
        ensures
            res == *self,
    {
        proof { use_type_invariant(self); }
        Rope { root: share(&self.root) }
    }
}

impl Rope {
    #[verifier::type_invariant]
    spec fn inv(&self) -> bool {
        self.root.wf()
    }

    /// The text the rope holds.
    pub closed spec fn text(&self) -> Seq<char> {
        self.root.chars()
    }

    /// The number of levels of the tree below its root.
    pub closed spec fn depth(&self) -> nat {
        self.root.depth()
    }

    /// The texts of the tree's leaves, left to right; together they make
    /// up the text.
    pub closed spec fn leaf_texts(&self) -> Seq<Seq<char>> {
        self.root.leaf_texts()
    }

    /// The number of text pieces (leaves) the tree holds.
    pub closed spec fn leaf_count(&self) -> nat {
        self.root.leaf_count()
    }

    proof fn lemma_view(&self)
        requires
            self.root.wf(),
        ensures
            self@ == self.root.bytes(),
    {
        self.root.lemma_bytes_chars();
    }

    /// A rope holding `text` in a single leaf.
    pub fn new(text: &str) -> (res: Rope)
        ensures
            res.text() == text@,
    {
        Rope { root: Node::new_leaf(text) }
    }

    fn from_node(root: Rc<Node>) -> (res: Rope)
        requires
            root.wf(),
        ensures
            res@ == root.bytes(),
            res.depth() == root.depth(),
            res.leaf_count() == root.leaf_count(),
            res.leaf_texts() == root.leaf_texts(),
    {
        let res = Rope { root };
        proof { res.lemma_view(); }
        res
    }

    /// The length of the text in bytes.
    pub fn len(&self) -> (res: usize)
        ensures
            res == self@.len(),
    {
        proof {
            use_type_invariant(self);
            self.lemma_view();
        }
        self.root.len()
    }

    /// Whether the text is empty.
    pub fn is_empty(&self) -> (res: bool)
        ensures
            res == (self@.len() == 0),
    {
        self.len() == 0
    }

    /// The rope holding this text followed by `other`'s.
    pub fn concat(&self, other: &Rope) -> (res: Rope)
        requires
            self@.len() + other@.len() <= usize::MAX,
        ensures
            res.text() == self.text() + other.text(),
            res@ == self@ + other@,
    {
        proof {
            use_type_invariant(self);
            use_type_invariant(other);
            self.lemma_view();
            other.lemma_view();
            lemma_encode_concat(self.text(), other.text());
        }
        Rope { root: Node::new_internal(share(&self.root), share(&other.root)) }
    }

    /// The ropes holding the bytes before `index` and from `index` on.
    /// Panics where `index` is not a character boundary of the text.
    pub fn split_at(&self, index: usize) -> (res: (Rope, Rope))
        requires
            is_char_boundary(self@, index as int),
        ensures
            res.0@ == self@.subrange(0, index as int),
            res.1@ == self@.subrange(index as int, self@.len() as int),
    {
        proof {
            use_type_invariant(self);
            self.lemma_view();
        }
        let (l, r) = Node::split_at(&self.root, index);
        (Rope::from_node(l), Rope::from_node(r))
    }

    /// Whether byte `index` falls on a character boundary of the text (the
    /// start of a character's encoding, or the end of the text).
    pub fn is_char_boundary(&self, index: usize) -> (res: bool)
        ensures
            res == is_char_boundary(self@, index as int),
    {
        proof {
            use_type_invariant(self);
            self.lemma_view();
        }
        Node::is_boundary(&self.root, index)
    }

    /// The start of the character that ends at byte `pos`: the nearest
    /// character boundary before `pos` (0 when `pos` is 0).
    pub fn prev_char_boundary(&self, pos: usize) -> (res: usize)
        requires
            pos <= self@.len(),
        ensures
            res == prev_boundary(self@, pos as int),
    {
        if pos == 0 {
            return 0;
        }
        let ghost b = self@;
        proof { is_char_boundary_start_end_of_seq(b); }
        let mut q = pos - 1;
        while !self.is_char_boundary(q)
            invariant
                b == self@,
                valid_utf8(b),
                q < pos,
                is_char_boundary(b, 0),
                prev_boundary(b, pos as int) == prev_boundary(b, q + 1),
            decreases q,
        {
            q = q - 1;
        }
        q
    }

    /// The end of the character that starts at byte `pos`: the nearest
    /// character boundary after `pos` (the end when `pos` is at or past it).
    pub fn next_char_boundary(&self, pos: usize) -> (res: usize)
        ensures
            res == next_boundary(self@, pos as int),
    {
        let len = self.len();
        if pos >= len {
            return len;
        }
        let ghost b = self@;
        proof { is_char_boundary_start_end_of_seq(b); }
        let mut r = pos + 1;
        while !self.is_char_boundary(r)
            invariant
                b == self@,
                len == b.len(),
                valid_utf8(b),
                is_char_boundary(b, len as int),
                pos < r <= len,
                next_boundary(b, pos as int) == next_boundary(b, r - 1),
            decreases len - r,
        {
            r = r + 1;
        }
        r
    }

    /// Byte `pos` brought onto a character boundary: the end of the text
    /// when `pos` is at or past it, else the start of the character that
    /// `pos` falls in.
    pub fn settle(&self, pos: usize) -> (res: usize)
        ensures
            res == settled(self@, pos as int),
            res <= self@.len(),
            is_char_boundary(self@, res as int),
    {
        proof { is_char_boundary_start_end_of_seq(self@); }
        let len = self.len();
        if pos >= len {
            len
        } else if self.is_char_boundary(pos) {
            pos
        } else {
            proof { lemma_prev_boundary(self@, pos as int); }
            self.prev_char_boundary(pos)
        }
    }

    /// The number of characters before the character boundary `pos`.
    pub fn char_index_of(&self, pos: usize) -> (res: usize)
        requires
            pos <= self@.len(),
            is_char_boundary(self@, pos as int),
        ensures
            res == char_index(self.text(), pos as int),
    {
        let (left, _) = self.split_at(pos);
        let s = left.to_string();
        let chars = crate::text::chars_of(s.as_str());
        proof {
            assert(decode_utf8(encode_utf8(s@)) == s@);
        }
        chars.len()
    }

    /// From the character boundary `pos`, `n` characters back, stopping
    /// at the start of the text.
    pub fn chars_back(&self, pos: usize, n: usize) -> (res: usize)
        requires
            pos <= self@.len(),
            is_char_boundary(self@, pos as int),
        ensures
            res == byte_offset(
                self.text(),
                if char_index(self.text(), pos as int) >= n { char_index(self.text(), pos as int) - n } else { 0 },
            ),
    {
        let ghost t = self.text();
        let ghost c0 = char_index(t, pos as int) as int;
        proof { lemma_char_index(t, pos as int); }
        let mut p = pos;
        let mut k: usize = 0;
        while k < n && p > 0
            invariant
                t == self.text(),
                self@ == encode_utf8(t),
                0 <= c0 <= t.len(),
                k <= n,
                k <= c0,
                p == byte_offset(t, c0 - k),
            decreases n - k,
        {
            proof {
                if c0 - k == 0 {
                    assert(t.take(0) =~= Seq::<char>::empty());
                }
                lemma_step_back(t, c0 - k);
                lemma_byte_offset(t, c0 - k);
            }
            p = self.prev_char_boundary(p);
            k = k + 1;
        }
        proof {
            if p == 0 && k < n {
                lemma_byte_offset(t, c0 - k);
                assert(encode_utf8(t).subrange(0, 0) =~= Seq::<u8>::empty());
                assert(decode_utf8(Seq::<u8>::empty()) =~= Seq::<char>::empty());
            }
        }
        p
    }

    /// From the character boundary `pos`, `n` characters forward, stopping
    /// at the end of the text.
    pub fn chars_forward(&self, pos: usize, n: usize) -> (res: usize)
        requires
            pos <= self@.len(),
            is_char_boundary(self@, pos as int),
        ensures
            res == byte_offset(
                self.text(),
                if char_index(self.text(), pos as int) + n <= self.text().len() {
                    char_index(self.text(), pos as int) + n
                } else {
                    self.text().len() as int
                },
            ),
    {
        let ghost t = self.text();
        let ghost c0 = char_index(t, pos as int) as int;
        proof { lemma_char_index(t, pos as int); }
        let len = self.len();
        let mut p = pos;
        let mut k: usize = 0;
        while k < n && p < len
            invariant
                t == self.text(),
                self@ == encode_utf8(t),
                len == self@.len(),
                0 <= c0 <= t.len(),
                k <= n,
                c0 + k <= t.len(),
                p == byte_offset(t, c0 + k),
            decreases n - k,
        {
            proof {
                if c0 + k == t.len() {
                    assert(t.take(t.len() as int) =~= t);
                }
                lemma_step_forward(t, c0 + k);
            }
            p = self.next_char_boundary(p);
            k = k + 1;
        }
        proof {
            if p >= len && k < n && c0 + k < t.len() {
                lemma_step_forward(t, c0 + k);
            }
        }
        p
    }

    /// The rope with `text` put in at byte `pos`.
    pub fn insert(&self, pos: usize, text: &str) -> (res: Rope)
        requires
            is_char_boundary(self@, pos as int),
            self@.len() + encode_utf8(text@).len() <= usize::MAX,
        ensures
            res@ == inserted(self@, pos as int, encode_utf8(text@)),
    {
        let (left, right) = self.split_at(pos);
        let middle = Rope::new(text);
        left.concat(&middle).concat(&right)
    }

    /// The rope without the bytes in `start..end`.
    pub fn delete(&self, start: usize, end: usize) -> (res: Rope)
        requires
            start <= end,
            is_char_boundary(self@, start as int),
            is_char_boundary(self@, end as int),
        ensures
            res@ == deleted(self@, start as int, end as int),
    {
        let ghost b = self@;
        proof {
            use_type_invariant(self);
            self.lemma_view();
            valid_utf8_split(b, start as int);
            lemma_boundary_concat(b.subrange(0, start as int), b.subrange(start as int, b.len() as int));
            assert(b.subrange(0, start as int) + b.subrange(start as int, b.len() as int) =~= b);
        }
        let (left, rest) = self.split_at(start);
        proof {
            assert(is_char_boundary(b, start + (end - start)));
        }
        let (_, right) = rest.split_at(end - start);
        assert(right@ =~= b.subrange(end as int, b.len() as int));
        left.concat(&right)
    }

    /// The character whose encoding starts at byte `index`; `None` past
    /// the end or inside a character's encoding.
    pub fn char_at(&self, index: usize) -> (res: Option<char>)
        ensures
            res == char_starting_at(self@, index as int),
    {
        proof {
            use_type_invariant(self);
            self.lemma_view();
        }
        if index >= self.len() {
            return None;
        }
        Node::char_at(&self.root, index)
    }

    /// The same text in a balanced tree, rebuilt from the leaves; useful
    /// after many small edits have left the tree lopsided.
    pub fn rebalance(&self) -> (res: Rope)
        ensures
            res.text() == self.text(),
            res@ == self@,
            res.leaf_texts() == self.leaf_texts(),
            res.leaf_count() == self.leaf_count(),
            pow2(res.depth()) < 2 * res.leaf_count(),
    {
        proof {
            use_type_invariant(self);
            self.lemma_view();
        }
        let mut leaves: Vec<Rc<Node>> = Vec::new();
        proof {
            assert(concat_bytes(leaves@) =~= Seq::<u8>::empty());
            assert(concat_texts(leaves@) =~= Seq::<Seq<char>>::empty());
        }
        Node::collect_leaves(&self.root, &mut leaves);
        proof { self.root.lemma_leaf_count_pos(); }
        assert(leaves@.subrange(0, leaves@.len() as int) =~= leaves@);
        assert(concat_bytes(leaves@) =~= self@);
        let res = Rope::from_node(Node::build_balanced(&leaves, 0, leaves.len()));
        proof {
            assert(decode_utf8(encode_utf8(res.text())) == decode_utf8(encode_utf8(self.text())));
        }
        res
    }

    /// The line (counted from 0) that byte `index` falls on: the number of
    /// line feeds before it. An `index` past the end counts them all.
    pub fn line_at(&self, index: usize) -> (res: usize)
        requires
            index >= self@.len() || is_char_boundary(self@, index as int),
        ensures
            res == newline_count(decode_utf8(
                self@.subrange(0, if index < self@.len() { index as int } else { self@.len() as int }),
            )),
    {
        let len = self.len();
        let cut = if index < len { index } else { len };
        proof {
            is_char_boundary_start_end_of_seq(self@);
        }
        let (before, _) = self.split_at(cut);
        let text = before.to_string();
        let chars = crate::text::chars_of(text.as_str());
        proof {
            assert(chars@ == decode_utf8(before@));
        }
        let mut count: usize = 0;
        let mut i: usize = 0;
        while i < chars.len()
            invariant
                i <= chars@.len(),
                count == newline_count(chars@.take(i as int)),
                count <= i,
            decreases chars@.len() - i,
        {
            assert(chars@.take(i + 1).drop_last() =~= chars@.take(i as int));
            if chars[i] == '\n' {
                count = count + 1;
            }
            i = i + 1;
        }
        assert(chars@.take(i as int) =~= chars@);
        count
    }

    /// A cursor over this rope's bytes, placed at `offset` or at the end
    /// if `offset` lies beyond it.
    pub fn cursor_at(&self, offset: usize) -> (res: Cursor)
        ensures
            res@ == (if offset < self@.len() { offset as nat } else { self@.len() }, self@.len()),
    {
        Cursor::new(offset, self.len())
    }

    /// The rope's text as a `String`.
    pub fn to_string(&self) -> (res: String)
        ensures
            res@ == self.text(),
            encode_utf8(res@) == self@,
            self@.len() <= usize::MAX,
    {
        proof {
            use_type_invariant(self);
            self.lemma_view();
        }
        let mut s = String::new();
        self.root.collect_string(&mut s);
        assert(s@ =~= self.text());
        s
    }
}

/// A byte position within a rope of a given length, kept between the
/// start and the end.
pub struct Cursor {
    offset: usize,
    max: usize,
}

impl View for Cursor {
    type V = (nat, nat);

    /// The position and the length it is kept within.
    closed spec fn view(&self) -> (nat, nat) {
        (self.offset as nat, self.max as nat)
    }
}

impl Cursor {
    #[verifier::type_invariant]
    spec fn inv(&self) -> bool {
        self.offset <= self.max
    }

    fn new(offset: usize, max: usize) -> (res: Self)
        ensures
            res@ == (if offset < max { offset as nat } else { max as nat }, max as nat),
    {
        Cursor { offset: if offset < max { offset } else { max }, max }
    }

    /// Moves `n` bytes towards the start, stopping there.
    pub fn move_left(&mut self, n: usize)
        ensures
            final(self)@ == moved_left(old(self)@, n as nat),
            final(self)@.0 <= final(self)@.1,
    {
        proof { use_type_invariant(&*self); }
        self.offset = self.offset.saturating_sub(n);
    }

    /// Moves `n` bytes towards the end, stopping there.
    pub fn move_right(&mut self, n: usize)
        requires
            old(self)@.0 + n <= usize::MAX,
        ensures
            final(self)@ == moved_right(old(self)@, n as nat),
            final(self)@.0 <= final(self)@.1,
    {
        proof { use_type_invariant(&*self); }
        let moved = self.offset + n;
        self.offset = if moved < self.max { moved } else { self.max };
    }

    /// The current position.
    pub fn position(&self) -> (res: usize)
        ensures
            res == self@.0,
            res <= self@.1,
    {
        proof { use_type_invariant(self); }
        self.offset
    }
}

/// A cursor at `c` moved `n` bytes towards the start, stopping there.
pub open spec fn moved_left(c: (nat, nat), n: nat) -> (nat, nat) {
    (if c.0 >= n { (c.0 - n) as nat } else { 0nat }, c.1)
}

/// A cursor at `c` moved `n` bytes towards the end, stopping there.
pub open spec fn moved_right(c: (nat, nat), n: nat) -> (nat, nat) {
    (if c.0 + n < c.1 { c.0 + n } else { c.1 }, c.1)
}

/// A cursor at `c` after the moves in `moves`, in order; a move is its
/// direction (`true` for towards the end) and its distance.
pub open spec fn after_moves(c: (nat, nat), moves: Seq<(bool, nat)>) -> (nat, nat)
    decreases moves.len(),
{
    if moves.len() == 0 {
        c
    } else {
        let m = moves[0];
        let next = if m.0 { moved_right(c, m.1) } else { moved_left(c, m.1) };
        after_moves(next, moves.drop_first())
    }
}

/// Whatever moves a cursor makes, it stays between the start and the end
/// it was made with.
pub proof fn law_cursor_stays_within(c: (nat, nat), moves: Seq<(bool, nat)>)
    requires
        c.0 <= c.1,
    ensures
        after_moves(c, moves).0 <= c.1,
        after_moves(c, moves).1 == c.1,
    decreases moves.len(),
{
    if moves.len() > 0 {
        let m = moves[0];
        let next = if m.0 { moved_right(c, m.1) } else { moved_left(c, m.1) };
        law_cursor_stays_within(next, moves.drop_first());
    }
}

/// Splitting at a byte and joining the two halves gives the text back.
pub proof fn law_split_then_concat(b: Seq<u8>, i: int)
    requires
        0 <= i <= b.len(),
    ensures
        b.subrange(0, i) + b.subrange(i, b.len() as int) == b,
{
    assert(b.subrange(0, i) + b.subrange(i, b.len() as int) =~= b);
}

/// Inserting text at a character boundary and then deleting the bytes just
/// inserted gives the original text back; both ends of the inserted text
/// are character boundaries, so the delete is allowed.
pub proof fn law_delete_undoes_insert(b: Seq<u8>, pos: int, t: Seq<u8>)
    requires
        valid_utf8(b),
        valid_utf8(t),
        is_char_boundary(b, pos),
    ensures
        is_char_boundary(inserted(b, pos, t), pos),
        is_char_boundary(inserted(b, pos, t), pos + t.len()),
        deleted(inserted(b, pos, t), pos, pos + t.len()) == b,
{
    let front = b.subrange(0, pos);
    let back = b.subrange(pos, b.len() as int);
    valid_utf8_split(b, pos);
    lemma_boundary_concat(front, t);
    lemma_boundary_concat(front + t, back);
    is_char_boundary_start_end_of_seq(t);
    assert(is_char_boundary(front + t, front.len() + 0int));
    assert(is_char_boundary(front + t, front.len() + t.len() as int));
    let ins = inserted(b, pos, t);
    assert(ins == front + t + back);
    assert(ins.subrange(0, pos) =~= front);
    assert(ins.subrange(pos + t.len(), ins.len() as int) =~= back);
    assert(front + back =~= b);
}

/// Inserting at a character boundary keeps the text valid UTF-8, with the
/// inserted text's characters between those before and after `pos`.
pub proof fn law_insert_text(b: Seq<u8>, pos: int, t: Seq<char>)
    requires
        valid_utf8(b),
        is_char_boundary(b, pos),
    ensures
        valid_utf8(inserted(b, pos, encode_utf8(t))),
        decode_utf8(inserted(b, pos, encode_utf8(t)))
            == decode_utf8(b.subrange(0, pos)) + t + decode_utf8(b.subrange(pos, b.len() as int)),
{
    let front = b.subrange(0, pos);
    let back = b.subrange(pos, b.len() as int);
    valid_utf8_split(b, pos);
    let e = encode_utf8(t);
    lemma_decode_concat(front, e);
    valid_utf8_concat(front, e);
    lemma_decode_concat(front + e, back);
}

/// The leaf texts of the nodes in `s`, one after the other.
spec fn concat_texts(s: Seq<Rc<Node>>) -> Seq<Seq<char>>
    decreases s.len(),
{
    if s.len() == 0 {
        Seq::empty()
    } else {
        concat_texts(s.drop_last()) + s.last().leaf_texts()
    }
}

proof fn lemma_concat_texts_add(a: Seq<Rc<Node>>, b: Seq<Rc<Node>>)
    ensures
        concat_texts(a + b) == concat_texts(a) + concat_texts(b),
    decreases b.len(),
{
    if b.len() == 0 {
        assert(a + b =~= a);
        assert(concat_texts(b) =~= Seq::<Seq<char>>::empty());
        assert(concat_texts(a) + concat_texts(b) =~= concat_texts(a));
    } else {
        lemma_concat_texts_add(a, b.drop_last());
        assert((a + b).drop_last() =~= a + b.drop_last());
        assert(concat_texts(a + b) =~= concat_texts(a) + concat_texts(b));
    }
}

/// The nearest character boundary of `b` before byte `i` (0 when `i` is 0).
pub open spec fn prev_boundary(b: Seq<u8>, i: int) -> int
    decreases i,
{
    if i <= 0 {
        0
    } else if is_char_boundary(b, i - 1) {
        i - 1
    } else {
        prev_boundary(b, i - 1)
    }
}

/// The nearest character boundary of `b` after byte `i` (the end when `i`
/// is at or past it).
pub open spec fn next_boundary(b: Seq<u8>, i: int) -> int
    decreases b.len() - i,
{
    if i >= b.len() {
        b.len() as int
    } else if is_char_boundary(b, i + 1) {
        i + 1
    } else {
        next_boundary(b, i + 1)
    }
}

proof fn lemma_prev_boundary(b: Seq<u8>, i: int)
    requires
        valid_utf8(b),
        0 < i <= b.len(),
    ensures
        0 <= prev_boundary(b, i) < i,
        is_char_boundary(b, prev_boundary(b, i)),
        forall|k: int| prev_boundary(b, i) < k < i ==> !#[trigger] is_char_boundary(b, k),
    decreases i,
{
    is_char_boundary_start_end_of_seq(b);
    if !is_char_boundary(b, i - 1) {
        lemma_prev_boundary(b, i - 1);
    }
}

proof fn lemma_next_boundary(b: Seq<u8>, i: int)
    requires
        valid_utf8(b),
        0 <= i < b.len(),
    ensures
        i < next_boundary(b, i) <= b.len(),
        is_char_boundary(b, next_boundary(b, i)),
        forall|k: int| i < k < next_boundary(b, i) ==> !#[trigger] is_char_boundary(b, k),
    decreases b.len() - i,
{
    is_char_boundary_start_end_of_seq(b);
    if !is_char_boundary(b, i + 1) {
        lemma_next_boundary(b, i + 1);
    }
}

/// A non-empty valid encoding with no character boundary inside holds
/// exactly one character.
proof fn lemma_single_char(x: Seq<u8>)
    requires
        valid_utf8(x),
        x.len() > 0,
        forall|j: int| 0 < j < x.len() ==> !#[trigger] is_char_boundary(x, j),
    ensures
        decode_utf8(x).len() == 1,
{
    let w = length_of_first_scalar(x);
    let rest = pop_first_scalar(x);
    assert(valid_first_scalar(x) && valid_utf8(rest));
    assert(1 <= w <= x.len());
    if rest.len() > 0 {
        assert(rest.len() == x.len() - w);
        assert(is_char_boundary(rest, 0));
        assert(is_char_boundary(x, w));
        assert(false);
    }
    assert(decode_utf8(rest) =~= Seq::<char>::empty());
}

/// The bytes of `b` from `q` to `i`, both character boundaries, decode on
/// their own, and the text up to `i` is the text up to `q` followed by them.
proof fn lemma_piece(b: Seq<u8>, q: int, i: int)
    requires
        valid_utf8(b),
        0 <= q <= i <= b.len(),
        is_char_boundary(b, q),
        is_char_boundary(b, i),
    ensures
        valid_utf8(b.subrange(q, i)),
        forall|j: int| 0 <= j <= i - q ==> (#[trigger] is_char_boundary(b.subrange(q, i), j)
            <==> is_char_boundary(b, q + j)),
        decode_utf8(b.subrange(0, i)) == decode_utf8(b.subrange(0, q)) + decode_utf8(b.subrange(q, i)),
        decode_utf8(b.subrange(q, b.len() as int)) == decode_utf8(b.subrange(q, i)) + decode_utf8(
            b.subrange(i, b.len() as int),
        ),
{
    let front = b.subrange(0, q);
    let tail = b.subrange(q, b.len() as int);
    valid_utf8_split(b, q);
    assert(front + tail =~= b);
    lemma_boundary_concat(front, tail);
    assert(is_char_boundary(front + tail, front.len() + (i - q)));
    let x = tail.subrange(0, i - q);
    let after = tail.subrange(i - q, tail.len() as int);
    valid_utf8_split(tail, i - q);
    assert(x =~= b.subrange(q, i));
    assert(after =~= b.subrange(i, b.len() as int));
    assert(x + after =~= tail);
    lemma_boundary_concat(x, after);
    lemma_boundary_concat(front, x);
    assert(front + x =~= b.subrange(0, i));
    assert forall|j: int| 0 <= j <= i - q implies (#[trigger] is_char_boundary(x, j)
        <==> is_char_boundary(b, q + j)) by {
        assert(is_char_boundary(tail, j) == is_char_boundary(front + tail, front.len() + j));
        assert(is_char_boundary(x + after, j) == is_char_boundary(x, j));
    }
    lemma_decode_concat(front, x);
    lemma_decode_concat(x, after);
}

/// What lies between a character boundary and the nearest boundary before
/// it is exactly one character: the last one of the text up to there.
pub proof fn law_prev_boundary_one_char(b: Seq<u8>, i: int)
    requires
        valid_utf8(b),
        0 < i <= b.len(),
        is_char_boundary(b, i),
    ensures
        0 <= prev_boundary(b, i) < i,
        is_char_boundary(b, prev_boundary(b, i)),
        decode_utf8(b.subrange(prev_boundary(b, i), i)).len() == 1,
        decode_utf8(b.subrange(0, prev_boundary(b, i))) == decode_utf8(b.subrange(0, i)).drop_last(),
{
    let q = prev_boundary(b, i);
    lemma_prev_boundary(b, i);
    lemma_piece(b, q, i);
    let x = b.subrange(q, i);
    assert forall|j: int| 0 < j < x.len() implies !#[trigger] is_char_boundary(x, j) by {
        assert(is_char_boundary(x, j) == is_char_boundary(b, q + j));
    }
    lemma_single_char(x);
    assert(decode_utf8(b.subrange(0, i)).drop_last() =~= decode_utf8(b.subrange(0, q)));
}

/// What lies between a character boundary and the nearest boundary after
/// it is exactly one character: the first one of the text from there.
pub proof fn law_next_boundary_one_char(b: Seq<u8>, i: int)
    requires
        valid_utf8(b),
        0 <= i < b.len(),
        is_char_boundary(b, i),
    ensures
        i < next_boundary(b, i) <= b.len(),
        is_char_boundary(b, next_boundary(b, i)),
        decode_utf8(b.subrange(i, next_boundary(b, i))).len() == 1,
        decode_utf8(b.subrange(next_boundary(b, i), b.len() as int))
            == decode_utf8(b.subrange(i, b.len() as int)).drop_first(),
{
    let r = next_boundary(b, i);
    lemma_next_boundary(b, i);
    lemma_piece(b, i, r);
    let x = b.subrange(i, r);
    assert forall|j: int| 0 < j < x.len() implies !#[trigger] is_char_boundary(x, j) by {
        assert(is_char_boundary(x, j) == is_char_boundary(b, i + j));
    }
    lemma_single_char(x);
    assert(decode_utf8(b.subrange(i, b.len() as int)).drop_first()
        =~= decode_utf8(b.subrange(r, b.len() as int)));
}

/// Every node in `s` is a leaf.
spec fn all_leaves(s: Seq<Rc<Node>>) -> bool {
    forall|k: int| 0 <= k < s.len() ==> (#[trigger] s[k]).is_leaf()
}

/// Joining two subtrees built over `a` and `b = a` or `a + 1` leaves, each
/// no deeper than the number of halvings its leaves allow, gives a tree no
/// deeper than the halvings that `a + b` leaves allow.
proof fn lemma_balanced_depth(hl: nat, hr: nat, a: nat, b: nat)
    requires
        1 <= a,
        a <= b <= a + 1,
        pow2(hl) < 2 * a,
        pow2(hr) < 2 * b,
    ensures
        pow2(1 + if hl >= hr { hl } else { hr }) < 2 * (a + b),
{
    let m = if hl >= hr { hl } else { hr };
    lemma_pow2_unfold(m + 1);
    assert(pow2(m) < 2 * b);
    if b == a + 1 {
        if pow2(m) == a + b {
            if m == 0 {
                lemma_pow0(2);
            } else {
                lemma_pow2_unfold(m);
            }
        }
    }
}

/// Every node in `s` is well formed.
spec fn all_wf(s: Seq<Rc<Node>>) -> bool {
    forall|k: int| 0 <= k < s.len() ==> (#[trigger] s[k]).wf()
}

/// The bytes of the nodes in `s`, one after the other.
spec fn concat_bytes(s: Seq<Rc<Node>>) -> Seq<u8>
    decreases s.len(),
{
    if s.len() == 0 {
        Seq::empty()
    } else {
        concat_bytes(s.drop_last()) + s.last().bytes()
    }
}

proof fn lemma_concat_bytes_add(a: Seq<Rc<Node>>, b: Seq<Rc<Node>>)
    ensures
        concat_bytes(a + b) == concat_bytes(a) + concat_bytes(b),
    decreases b.len(),
{
    if b.len() == 0 {
        assert(a + b =~= a);
        assert(concat_bytes(b) =~= Seq::<u8>::empty());
        assert(concat_bytes(a) + concat_bytes(b) =~= concat_bytes(a));
    } else {
        lemma_concat_bytes_add(a, b.drop_last());
        assert((a + b).drop_last() =~= a + b.drop_last());
        assert(concat_bytes(a + b) =~= concat_bytes(a) + concat_bytes(b));
    }
}

/// The number of characters of `t` whose encoding lies before byte `p`.
pub open spec fn char_index(t: Seq<char>, p: int) -> nat {
    decode_utf8(encode_utf8(t).subrange(0, p)).len()
}

/// The byte at which character `k` of `t` starts in its encoding (the end
/// of the encoding for `k == t.len()`).
pub open spec fn byte_offset(t: Seq<char>, k: int) -> nat {
    encode_utf8(t.take(k)).len()
}

/// Byte `p` of `b` brought onto a character boundary: the end when `p` is
/// at or past it, else the start of the character it falls in.
pub open spec fn settled(b: Seq<u8>, p: int) -> int {
    if p >= b.len() {
        b.len() as int
    } else if is_char_boundary(b, p) {
        p
    } else {
        prev_boundary(b, p)
    }
}

/// Where a byte settles is a character boundary within the text.
pub proof fn lemma_settled(b: Seq<u8>, p: int)
    requires
        valid_utf8(b),
        0 <= p,
    ensures
        0 <= settled(b, p) <= b.len(),
        is_char_boundary(b, settled(b, p)),
{
    is_char_boundary_start_end_of_seq(b);
    if p < b.len() && !is_char_boundary(b, p) {
        lemma_prev_boundary(b, p);
    }
}

/// Where character `k` starts is a character boundary, with the encoding
/// of the first `k` characters before it.
pub proof fn lemma_byte_offset(t: Seq<char>, k: int)
    requires
        0 <= k <= t.len(),
    ensures
        byte_offset(t, k) <= encode_utf8(t).len(),
        is_char_boundary(encode_utf8(t), byte_offset(t, k) as int),
        encode_utf8(t).subrange(0, byte_offset(t, k) as int) == encode_utf8(t.take(k)),
        char_index(t, byte_offset(t, k) as int) == k,
{
    let a = t.take(k);
    let c = t.skip(k);
    assert(a + c =~= t);
    lemma_encode_concat(a, c);
    let ea = encode_utf8(a);
    let ec = encode_utf8(c);
    lemma_boundary_concat(ea, ec);
    is_char_boundary_start_end_of_seq(ec);
    assert(is_char_boundary(ea + ec, ea.len() + 0int));
    assert((ea + ec).subrange(0, ea.len() as int) =~= ea);
}

/// A character boundary is where the characters before it end.
pub proof fn lemma_char_index(t: Seq<char>, p: int)
    requires
        0 <= p <= encode_utf8(t).len(),
        is_char_boundary(encode_utf8(t), p),
    ensures
        char_index(t, p) <= t.len(),
        decode_utf8(encode_utf8(t).subrange(0, p)) == t.take(char_index(t, p) as int),
        byte_offset(t, char_index(t, p) as int) == p,
{
    let b = encode_utf8(t);
    decode_utf8_split(b, p);
    let front = b.subrange(0, p);
    let d = decode_utf8(front);
    assert(t.take(d.len() as int) =~= d);
    valid_utf8_split(b, p);
    decode_utf8_encode_utf8(front);
}

/// At the start of character `c > 0`, the previous boundary is the start
/// of character `c - 1`.
proof fn lemma_step_back(t: Seq<char>, c: int)
    requires
        0 < c <= t.len(),
    ensures
        0 < byte_offset(t, c),
        prev_boundary(encode_utf8(t), byte_offset(t, c) as int) == byte_offset(t, c - 1),
{
    let b = encode_utf8(t);
    let p = byte_offset(t, c) as int;
    lemma_byte_offset(t, c);
    if p == 0 {
        assert(b.subrange(0, 0) =~= Seq::<u8>::empty());
        assert(decode_utf8(Seq::<u8>::empty()) =~= Seq::<char>::empty());
    }
    law_prev_boundary_one_char(b, p);
    let q = prev_boundary(b, p);
    lemma_char_index(t, p);
    lemma_char_index(t, q);
    assert(t.take(c).drop_last() =~= t.take(c - 1));
}

/// At the start of character `c < t.len()`, the next boundary is the
/// start of character `c + 1`.
proof fn lemma_step_forward(t: Seq<char>, c: int)
    requires
        0 <= c < t.len(),
    ensures
        byte_offset(t, c) < encode_utf8(t).len(),
        next_boundary(encode_utf8(t), byte_offset(t, c) as int) == byte_offset(t, c + 1),
{
    let b = encode_utf8(t);
    let p = byte_offset(t, c) as int;
    lemma_byte_offset(t, c);
    if p == b.len() {
        assert(b.subrange(0, p) =~= b);
    }
    law_next_boundary_one_char(b, p);
    let r = next_boundary(b, p);
    lemma_piece(b, p, r);
    lemma_char_index(t, p);
    lemma_char_index(t, r);
}

/// The character whose encoding starts at byte `i` of `bytes`, or `None`
/// when `i` is past the end or falls inside a character's encoding.
pub open spec fn char_starting_at(bytes: Seq<u8>, i: int) -> Option<char> {
    if 0 <= i < bytes.len() && is_char_boundary(bytes, i) {
        Some(decode_utf8(bytes.subrange(i, bytes.len() as int))[0])
    } else {
        None
    }
}

} // verus!
