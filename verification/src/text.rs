//! Small text utilities: the std string operations that the editor
//! needs, with their documented behaviour as contracts, and a few
//! conversions between strings and character vectors built on them.

use std::rc::Rc;
use vstd::prelude::*;
use vstd::utf8::encode_utf8;

verus! {

broadcast use vstd::string::group_string_axioms;

/// `Rc::clone`: makes another pointer to the same allocation, so the
/// result holds the same value as the original.
#[verifier::external_body]
pub(crate) fn share<T>(p: &Rc<T>) -> (res: Rc<T>)
    ensures
        res == *p,
{
    Rc::clone(p)
}

/// `String::push`: appends the given character to the end of the string.
#[verifier::external_body]
pub(crate) fn push_char(s: &mut String, c: char)
    ensures
        final(s)@ == old(s)@.push(c),
{
    s.push(c)
}

/// The length of `s`'s UTF-8 encoding, in bytes; it always fits in a
/// `usize`, as that of any slice does.
pub fn utf8_len(s: &str) -> (n: usize)
    ensures
        n == encode_utf8(s@).len(),
{
    s.as_bytes().len()
}

/// The characters of `s`, in order.
pub fn chars_of(s: &str) -> (res: Vec<char>)
    ensures
        res@ == s@,
{
    let mut res: Vec<char> = Vec::new();
    for c in it: s.chars()
        invariant
            res@ == it.seq().take(it.index() as int),
            it.seq() == s@,
    {
        res.push(c);
    }
    res
}

/// Encoding a concatenation encodes each part in turn.
pub proof fn lemma_encode_concat(a: Seq<char>, b: Seq<char>)
    ensures
        encode_utf8(a + b) == encode_utf8(a) + encode_utf8(b),
    decreases a.len(),
{
    if a.len() == 0 {
        assert(a + b =~= b);
    } else {
        lemma_encode_concat(a.drop_first(), b);
        assert((a + b).drop_first() =~= a.drop_first() + b);
        assert((a + b)[0] == a[0]);
    }
}

/// A stretch of a text takes no more bytes to encode than the whole.
pub proof fn lemma_encode_subrange_len(s: Seq<char>, a: int, b: int)
    requires
        0 <= a <= b <= s.len(),
    ensures
        encode_utf8(s.subrange(a, b)).len() <= encode_utf8(s).len(),
{
    let x = s.subrange(0, a);
    let y = s.subrange(a, b);
    let z = s.subrange(b, s.len() as int);
    assert(s =~= x + y + z);
    lemma_encode_concat(x + y, z);
    lemma_encode_concat(x, y);
}

/// The string of `chars[from..to]`.
pub fn string_of(chars: &Vec<char>, from: usize, to: usize) -> (res: String)
    requires
        from <= to <= chars@.len(),
    ensures
        res@ == chars@.subrange(from as int, to as int),
{
    let mut res = String::new();
    let mut i = from;
    while i < to
        invariant
            from <= i <= to <= chars@.len(),
            res@ == chars@.subrange(from as int, i as int),
        decreases to - i,
    {
        push_char(&mut res, chars[i]);
        assert(res@ =~= chars@.subrange(from as int, i + 1));
        i = i + 1;
    }
    res
}

/// The string holding the characters of `chars`.
pub fn string_from_chars(chars: &Vec<char>) -> (res: String)
    ensures
        res@ == chars@,
{
    let res = string_of(chars, 0, chars.len());
    assert(chars@.subrange(0, chars@.len() as int) =~= chars@);
    res
}

/// Whether `a` and `b` hold the same characters.
pub fn same_chars(a: &Vec<char>, b: &str) -> (res: bool)
    ensures
        res == (a@ == b@),
{
    let bc = chars_of(b);
    if a.len() != bc.len() {
        return false;
    }
    let mut i: usize = 0;
    while i < a.len()
        invariant
            a@.len() == bc@.len(),
            bc@ == b@,
            i <= a@.len(),
            a@.take(i as int) == bc@.take(i as int),
        decreases a@.len() - i,
    {
        if a[i] != bc[i] {
            assert(a@[i as int] != b@[i as int]);
            return false;
        }
        assert(a@.take(i + 1) =~= a@.take(i as int).push(a@[i as int]));
        assert(bc@.take(i + 1) =~= bc@.take(i as int).push(bc@[i as int]));
        i = i + 1;
    }
    assert(a@ =~= a@.take(i as int));
    assert(bc@ =~= bc@.take(i as int));
    true
}

/// What `str::to_lowercase` gives for a text: every character replaced by
/// its lowercase mapping in the Unicode tables.
pub uninterp spec fn lowercase(s: Seq<char>) -> Seq<char>;

/// `str::to_lowercase`: the text with every character replaced by its
/// lowercase mapping in the Unicode tables, a result that depends on the
/// text alone.
#[verifier::external_body]
pub(crate) fn to_lowercase(s: &str) -> (res: String)
    ensures
        res@ == lowercase(s@),
{
    s.to_lowercase()
}

/// Whether `w` occurs in `s` as a run of consecutive characters.
pub open spec fn occurs_in(w: Seq<char>, s: Seq<char>) -> bool {
    exists|i: int| 0 <= i && i + w.len() <= s.len() && #[trigger] s.subrange(i, i + w.len()) == w
}

/// Whether `w` occurs in `s` as a run of consecutive characters.
pub fn occurs(w: &Vec<char>, s: &Vec<char>) -> (res: bool)
    ensures
        res == occurs_in(w@, s@),
{
    let slen = s.len();
    let wlen = w.len();
    if wlen > slen {
        return false;
    }
    let last = slen - wlen;
    let mut i: usize = 0;
    while i <= last
        invariant
            last == s@.len() - w@.len(),
            w@.len() <= s@.len(),
            slen == s@.len(),
            wlen == w@.len(),
            i <= last + 1,
            forall|k: int| 0 <= k < i ==> #[trigger] s@.subrange(k, k + w@.len()) != w@,
        decreases last + 1 - i,
    {
        let mut j: usize = 0;
        let mut same = true;
        while j < wlen && same
            invariant
                i <= last,
                last == s@.len() - w@.len(),
                w@.len() <= s@.len(),
                slen == s@.len(),
                wlen == w@.len(),
                j <= w@.len(),
                same ==> forall|m: int| 0 <= m < j ==> s@[i + m] == w@[m],
                !same ==> exists|m: int| 0 <= m < j && s@[i + m] != w@[m],
            decreases w@.len() - j + if same { 1int } else { 0int },
        {
            if s[i + j] != w[j] {
                same = false;
            }
            j = j + 1;
        }
        if same {
            assert(s@.subrange(i as int, i + w@.len()) =~= w@);
            return true;
        }
        proof {
            let m = choose|m: int| 0 <= m < j && s@[i + m] != w@[m];
            assert(s@.subrange(i as int, i + w@.len())[m] == s@[i + m]);
            assert(w@.len() > 0);
        }
        i = i + 1;
    }
    false
}

/// Whether `c` has the Unicode White_Space property.
pub open spec fn is_white_space(c: char) -> bool {
    let u = c as u32;
    ||| 0x9 <= u <= 0xd
    ||| u == 0x20
    ||| u == 0x85
    ||| u == 0xa0
    ||| u == 0x1680
    ||| 0x2000 <= u <= 0x200a
    ||| u == 0x2028
    ||| u == 0x2029
    ||| u == 0x202f
    ||| u == 0x205f
    ||| u == 0x3000
}

/// Whether `c` has the Unicode White_Space property, as
/// `char::is_whitespace` tells.
pub(crate) fn is_whitespace(c: char) -> (res: bool)
    ensures
        res == is_white_space(c),
{
    let u = c as u32;
    (0x9 <= u && u <= 0xd) || u == 0x20 || u == 0x85 || u == 0xa0 || u == 0x1680
        || (0x2000 <= u && u <= 0x200a) || u == 0x2028 || u == 0x2029 || u == 0x202f
        || u == 0x205f || u == 0x3000
}

/// The words of `s`: its longest runs of characters that are not white
/// space, in order, as `str::split_whitespace` yields them.
pub open spec fn words(s: Seq<char>) -> Seq<Seq<char>>
    decreases s.len(),
{
    if s.len() == 0 {
        Seq::empty()
    } else {
        let w = words(s.drop_last());
        let c = s.last();
        if is_white_space(c) {
            w
        } else if s.len() >= 2 && !is_white_space(s[s.len() - 2]) {
            w.update(w.len() - 1, w.last().push(c))
        } else {
            w.push(seq![c])
        }
    }
}

proof fn lemma_words_nonempty(s: Seq<char>)
    requires
        s.len() > 0,
        !is_white_space(s.last()),
    ensures
        words(s).len() > 0,
        words(s).len() == words(s.drop_last()).len() || words(s).len() == words(s.drop_last()).len() + 1,
    decreases s.len(),
{
    if s.len() >= 2 && !is_white_space(s[s.len() - 2]) {
        assert(s.drop_last().last() == s[s.len() - 2]);
        lemma_words_nonempty(s.drop_last());
    }
}

/// The words of `chars`.
pub fn split_words(chars: &Vec<char>) -> (res: Vec<Vec<char>>)
    ensures
        res@.map_values(|w: Vec<char>| w@) == words(chars@),
{
    let mut res: Vec<Vec<char>> = Vec::new();
    let mut i: usize = 0;
    while i < chars.len()
        invariant
            i <= chars@.len(),
            res@.map_values(|w: Vec<char>| w@) == words(chars@.take(i as int)),
        decreases chars@.len() - i,
    {
        let c = chars[i];
        let ghost t = chars@.take(i + 1);
        proof {
            assert(t.drop_last() =~= chars@.take(i as int));
            assert(t.last() == c);
        }
        if is_whitespace(c) {
        } else if i >= 1 && !is_whitespace(chars[i - 1]) {
            proof {
                assert(t[t.len() - 2] == chars@[i - 1]);
                assert(chars@.take(i as int).last() == chars@[i - 1]);
                lemma_words_nonempty(chars@.take(i as int));
            }
            let mut last = res.pop().unwrap();
            last.push(c);
            res.push(last);
        } else {
            let mut w: Vec<char> = Vec::new();
            w.push(c);
            res.push(w);
            proof {
                assert(w@ =~= seq![c]);
            }
        }
        assert(res@.map_values(|w: Vec<char>| w@) =~= words(t));
        i = i + 1;
    }
    assert(chars@.take(i as int) =~= chars@);
    res
}

/// The decimal digit for `d`.
pub open spec fn digit_char(d: nat) -> char {
    (d + 48) as char
}

/// The decimal digits of `n`, without leading zeros.
pub open spec fn decimal(n: nat) -> Seq<char>
    decreases n,
{
    if n < 10 {
        seq![digit_char(n)]
    } else {
        decimal(n / 10).push(digit_char(n % 10))
    }
}

/// `n` written in decimal, as `usize`'s `Display` writes it.
pub fn decimal_string(n: usize) -> (res: String)
    ensures
        res@ == decimal(n as nat),
{
    let mut digits: Vec<char> = Vec::new();
    let mut m = n;
    loop
        invariant_except_break
            decimal(n as nat) == decimal(m as nat) + digits@.reverse(),
        ensures
            decimal(n as nat) == digits@.reverse(),
        decreases m,
    {
        let d = (m % 10) as u8;
        let c = (48u8 + d) as char;
        if m < 10 {
            proof {
                assert(decimal(m as nat) =~= seq![c]);
            }
            digits.push(c);
            proof {
                assert(digits@.reverse() =~= seq![c] + digits@.drop_last().reverse());
                assert(decimal(n as nat) =~= digits@.reverse());
            }
            break;
        }
        proof {
            assert(decimal(m as nat) == decimal((m / 10) as nat).push(c));
        }
        digits.push(c);
        proof {
            assert(digits@.reverse() =~= seq![c] + digits@.drop_last().reverse());
            assert(decimal(n as nat) =~= decimal((m / 10) as nat) + digits@.reverse());
        }
        m = m / 10;
    }
    let mut res = String::new();
    let mut i = digits.len();
    while i > 0
        invariant
            i <= digits@.len(),
            res@ == digits@.subrange(i as int, digits@.len() as int).reverse(),
        decreases i,
    {
        i = i - 1;
        push_char(&mut res, digits[i]);
        assert(digits@.subrange(i as int, digits@.len() as int).reverse()
            =~= digits@.subrange(i + 1, digits@.len() as int).reverse().push(digits@[i as int]));
    }
    assert(digits@.subrange(0, digits@.len() as int) =~= digits@);
    res
}

/// The pieces of `s` between line feeds, as splitting at every `'\n'`
/// yields them; there is always at least one.
pub open spec fn pieces(s: Seq<char>) -> Seq<Seq<char>>
    decreases s.len(),
{
    if s.len() == 0 {
        seq![Seq::empty()]
    } else {
        let p = pieces(s.drop_last());
        if s.last() == '\n' {
            p.push(Seq::empty())
        } else {
            p.update(p.len() - 1, p.last().push(s.last()))
        }
    }
}

/// `l` without one trailing carriage return.
pub open spec fn strip_cr(l: Seq<char>) -> Seq<char> {
    if l.len() > 0 && l.last() == '\r' {
        l.drop_last()
    } else {
        l
    }
}

/// The lines of `s`, as `str::lines` yields them: split at `"\n"` or
/// `"\r\n"`, without the line endings, and with no empty line after a
/// final line ending.
pub open spec fn lines(s: Seq<char>) -> Seq<Seq<char>> {
    let p = pieces(s);
    let n = if p.last().len() == 0 { p.len() - 1 } else { p.len() as int };
    Seq::new(n as nat, |i: int| if i < p.len() - 1 { strip_cr(p[i]) } else { p[i] })
}

/// The pieces joined back together, with a line feed between each two.
pub open spec fn joined_by_newlines(ps: Seq<Seq<char>>) -> Seq<char>
    decreases ps.len(),
{
    if ps.len() == 0 {
        Seq::empty()
    } else if ps.len() == 1 {
        ps[0]
    } else {
        joined_by_newlines(ps.drop_last()) + seq!['\n'] + ps.last()
    }
}

/// Splitting a text at its line feeds loses nothing: no piece holds a line
/// feed, and joining the pieces with line feeds gives the text back.
pub proof fn law_pieces_rejoin(s: Seq<char>)
    ensures
        forall|i: int| 0 <= i < pieces(s).len() ==> !(#[trigger] pieces(s)[i]).contains('\n'),
        joined_by_newlines(pieces(s)) == s,
    decreases s.len(),
{
    lemma_pieces_len(s);
    if s.len() > 0 {
        let r = s.drop_last();
        let p = pieces(r);
        let c = s.last();
        law_pieces_rejoin(r);
        lemma_pieces_len(r);
        let q = pieces(s);
        if c == '\n' {
            assert(q.drop_last() =~= p);
            assert(q.last() =~= Seq::<char>::empty());
            assert(joined_by_newlines(q) =~= r + seq!['\n']);
            assert(r + seq!['\n'] =~= s);
            assert forall|i: int| 0 <= i < q.len() implies !(#[trigger] q[i]).contains('\n') by {
                if i < p.len() {
                    assert(q[i] == p[i]);
                } else {
                    assert(q[i] =~= Seq::<char>::empty());
                }
            }
        } else {
            let x = p.last().push(c);
            assert(q == p.update(p.len() - 1, x));
            if p.len() == 1 {
                assert(joined_by_newlines(p) == p[0]);
                assert(joined_by_newlines(q) == q[0]);
                assert(q[0] =~= r.push(c));
            } else {
                assert(q.drop_last() =~= p.drop_last());
                assert(joined_by_newlines(q) == joined_by_newlines(p.drop_last()) + seq!['\n'] + x);
                assert(joined_by_newlines(q) =~= joined_by_newlines(p).push(c));
            }
            assert(r.push(c) =~= s);
            assert forall|i: int| 0 <= i < q.len() implies !(#[trigger] q[i]).contains('\n') by {
                if i < p.len() - 1 {
                    assert(q[i] == p[i]);
                } else {
                    assert(q[i] == x);
                    assert(!p[p.len() - 1].contains('\n'));
                    if x.contains('\n') {
                        let j = choose|j: int| 0 <= j < x.len() && x[j] == '\n';
                        if j < x.len() - 1 {
                            assert(p.last()[j] == x[j]);
                        }
                    }
                }
            }
        }
    }
}

/// The lines of a text are its pieces between line feeds, in order, each
/// as it stands except that one carriage return just before a line feed is
/// dropped; an empty piece after a final line feed is no line.
pub proof fn law_lines_are_pieces(s: Seq<char>)
    ensures
        lines(s).len() == if pieces(s).last().len() == 0 { pieces(s).len() - 1 } else { pieces(s).len() as int },
        forall|i: int| 0 <= i < lines(s).len() ==> #[trigger] lines(s)[i] == if i < pieces(s).len() - 1
            && pieces(s)[i].len() > 0 && pieces(s)[i].last() == '\r' {
            pieces(s)[i].drop_last()
        } else {
            pieces(s)[i]
        },
{
    lemma_pieces_len(s);
}

/// How many line feeds `s` holds.
pub open spec fn newline_count(s: Seq<char>) -> nat
    decreases s.len(),
{
    if s.len() == 0 {
        0
    } else {
        newline_count(s.drop_last()) + if s.last() == '\n' { 1nat } else { 0nat }
    }
}

/// A sequence holds no more line feeds than characters.
pub proof fn lemma_newline_count_le(s: Seq<char>)
    ensures
        newline_count(s) <= s.len(),
    decreases s.len(),
{
    if s.len() > 0 {
        lemma_newline_count_le(s.drop_last());
    }
}

/// There is one piece more than there are line feeds, and the last piece
/// is empty exactly when `s` is empty or ends with a line feed.
pub proof fn lemma_pieces_len(s: Seq<char>)
    ensures
        pieces(s).len() == newline_count(s) + 1,
        (pieces(s).last().len() == 0) == (s.len() == 0 || s.last() == '\n'),
    decreases s.len(),
{
    if s.len() > 0 {
        lemma_pieces_len(s.drop_last());
    }
}

/// Pieces that are complete in a prefix of `s` are pieces of `s`, and the
/// last piece of the prefix starts the piece of `s` at its place.
pub proof fn lemma_pieces_prefix(s: Seq<char>, i: int)
    requires
        0 <= i <= s.len(),
    ensures
        pieces(s).len() >= pieces(s.take(i)).len(),
        forall|j: int| 0 <= j < pieces(s.take(i)).len() - 1
            ==> #[trigger] pieces(s)[j] == pieces(s.take(i))[j],
    decreases s.len() - i,
{
    lemma_pieces_len(s.take(i));
    if i == s.len() {
        assert(s.take(i) =~= s);
    } else {
        lemma_pieces_prefix(s, i + 1);
        assert(s.take(i + 1).drop_last() =~= s.take(i));
        lemma_pieces_len(s.take(i + 1));
    }
}

} // verus!
