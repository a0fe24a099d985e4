//! A text buffer: the rope being edited, the file it belongs to, whether
//! it has unsaved changes, and the cursor.

use std::time::SystemTime;
use vstd::prelude::*;
use vstd::utf8::*;

use crate::rope::{deleted, inserted, Rope};
use crate::text::{chars_of, lemma_encode_subrange_len, lemma_pieces_len, lemma_pieces_prefix, lines, pieces, string_of, strip_cr};

verus! {

broadcast use vstd::utf8::group_utf8_lib;

/// std's `SystemTime`, held as an opaque value.
#[verifier::external_type_specification]
#[verifier::external_body]
pub struct ExSystemTime(SystemTime);

/// `SystemTime::now`: the current time of the system clock. Nothing is
/// stated of the value, which depends on the clock.
#[verifier::external_body]
fn now() -> SystemTime {
    SystemTime::now()
}

/// The text being edited and what goes with it.
pub struct Buffer {
    rope: Rope,
    file_path: Option<String>,
    dirty: bool,
    modified_at: SystemTime,
    // The cursor lives here because the buffer knows the content; the
    // rope's own `Cursor` serves whoever walks a rope without a buffer.
    cursor: usize,
}

impl Buffer {
    /// The text.
    pub closed spec fn spec_rope(&self) -> Rope {
        self.rope
    }

    /// The file the buffer is saved to, if any.
    pub closed spec fn spec_path(&self) -> Option<Seq<char>> {
        match self.file_path {
            Some(p) => Some(p@),
            None => None,
        }
    }

    /// Whether there are changes not yet saved.
    pub closed spec fn spec_dirty(&self) -> bool {
        self.dirty
    }

    /// The cursor, as a byte offset into the text.
    pub closed spec fn spec_cursor(&self) -> usize {
        self.cursor
    }

    /// An empty buffer tied to no file.
    pub fn new() -> (res: Self)
        ensures
            res.spec_rope().text() == Seq::<char>::empty(),
            res.spec_path() == None::<Seq<char>>,
            !res.spec_dirty(),
            res.spec_cursor() == 0,
    {
        proof {
            reveal_strlit("");
            assert(encode_utf8(""@) =~= Seq::<u8>::empty());
        }
        Buffer { rope: Rope::new(""), file_path: None, dirty: false, modified_at: now(), cursor: 0 }
    }

    /// A buffer holding `text`, read from the file at `path`.
    pub fn from_text(path: String, text: &str) -> (res: Self)
        ensures
            res.spec_rope().text() == text@,
            res.spec_path() == Some(path@),
            !res.spec_dirty(),
            res.spec_cursor() == 0,
    {
        Buffer { rope: Rope::new(text), file_path: Some(path), dirty: false, modified_at: now(), cursor: 0 }
    }

    /// What saving writes: the file's path and the text. Without a file
    /// there is nothing to save to, and the error says so.
    pub fn save_request(&self) -> (res: Result<(String, String), String>)
        ensures
            match res {
                Ok((path, text)) => self.spec_path() == Some(path@) && text@ == self.spec_rope().text(),
                Err(msg) => self.spec_path() is None && msg@ == "buffer sin archivo asociado"@,
            },
    {
        match &self.file_path {
            Some(path) => Ok((path.clone(), self.rope.to_string())),
            None => Err(String::from_str("buffer sin archivo asociado")),
        }
    }

    /// Records that the text has been written to its file.
    pub fn mark_saved(&mut self)
        ensures
            final(self).spec_rope() == old(self).spec_rope(),
            final(self).spec_path() == old(self).spec_path(),
            !final(self).spec_dirty(),
            final(self).spec_cursor() == old(self).spec_cursor(),
    {
        self.dirty = false;
    }

    /// Ties the buffer to the file at `path`.
    pub fn set_file_path(&mut self, path: String)
        ensures
            final(self).spec_rope() == old(self).spec_rope(),
            final(self).spec_path() == Some(path@),
            final(self).spec_dirty() == old(self).spec_dirty(),
            final(self).spec_cursor() == old(self).spec_cursor(),
    {
        self.file_path = Some(path);
    }

    /// The file the buffer is tied to, if any.
    pub fn file_path(&self) -> (res: Option<&str>)
        ensures
            match res {
                Some(p) => self.spec_path() == Some(p@),
                None => self.spec_path() is None,
            },
    {
        match &self.file_path {
            Some(p) => Some(p.as_str()),
            None => None,
        }
    }

    /// The text.
    pub fn rope(&self) -> (res: &Rope)
        ensures
            *res == self.spec_rope(),
    {
        &self.rope
    }

    /// Replaces the text; nothing else changes.
    pub fn set_rope(&mut self, rope: Rope)
        ensures
            final(self).spec_rope() == rope,
            final(self).spec_path() == old(self).spec_path(),
            final(self).spec_dirty() == old(self).spec_dirty(),
            final(self).spec_cursor() == old(self).spec_cursor(),
    {
        self.rope = rope;
    }

    /// Puts `text` in at byte `pos` and marks the buffer modified.
    pub fn insert(&mut self, pos: usize, text: &str)
        requires
            is_char_boundary(old(self).spec_rope()@, pos as int),
            old(self).spec_rope()@.len() + encode_utf8(text@).len() <= usize::MAX,
        ensures
            final(self).spec_rope()@ == inserted(old(self).spec_rope()@, pos as int, encode_utf8(text@)),
            final(self).spec_path() == old(self).spec_path(),
            final(self).spec_dirty(),
            final(self).spec_cursor() == old(self).spec_cursor(),
    {
        self.rope = self.rope.insert(pos, text);
        self.dirty = true;
        self.modified_at = now();
    }

    /// Removes the bytes in `start..end` and marks the buffer modified; an
    /// empty or reversed range changes nothing.
    pub fn delete(&mut self, start: usize, end: usize)
        requires
            start >= end || (is_char_boundary(old(self).spec_rope()@, start as int)
                && is_char_boundary(old(self).spec_rope()@, end as int)),
        ensures
            start >= end ==> *final(self) == *old(self),
            start < end ==> {
                &&& final(self).spec_rope()@ == deleted(old(self).spec_rope()@, start as int, end as int)
                &&& final(self).spec_path() == old(self).spec_path()
                &&& final(self).spec_dirty()
                &&& final(self).spec_cursor() == old(self).spec_cursor()
            },
    {
        if start >= end {
            return;
        }
        self.rope = self.rope.delete(start, end);
        self.dirty = true;
        self.modified_at = now();
    }

    /// Line `line_num` of the text (counted from 0) without its line
    /// ending, or the empty string past the last line.
    pub fn line(&self, line_num: usize) -> (res: String)
        ensures
            res@ == if line_num < lines(self.spec_rope().text()).len() {
                lines(self.spec_rope().text())[line_num as int]
            } else {
                Seq::<char>::empty()
            },
            encode_utf8(res@).len() <= self.spec_rope()@.len(),
            self.spec_rope()@.len() <= usize::MAX,
    {
        let text = self.rope.to_string();
        let chars = chars_of(text.as_str());
        let ghost s = chars@;
        let len = chars.len();
        let mut k: usize = 0;
        let mut start: usize = 0;
        let mut i: usize = 0;
        while i < len
            invariant
                len == s.len(),
                s == chars@,
                s == self.spec_rope().text(),
                self.spec_rope()@.len() <= usize::MAX,
                start <= i <= len,
                k <= line_num,
                k <= i,
                pieces(s.take(i as int)).len() == k + 1,
                pieces(s.take(i as int)).last() == s.subrange(start as int, i as int),
            decreases len - i,
        {
            let ghost p = pieces(s.take(i as int));
            assert(s.take(i + 1).drop_last() =~= s.take(i as int));
            assert(s.take(i + 1).last() == s[i as int]);
            if chars[i] == '\n' {
                if k == line_num {
                    proof {
                        lemma_pieces_prefix(s, i + 1);
                        assert(pieces(s.take(i + 1)) == p.push(Seq::<char>::empty()));
                        assert(pieces(s.take(i + 1)).len() == k + 2);
                        assert(pieces(s.take(i + 1))[k as int] == s.subrange(start as int, i as int));
                        assert(pieces(s)[k as int] == pieces(s.take(i + 1))[k as int]);
                        lemma_pieces_len(s);
                        assert(s == self.spec_rope().text());
                        assert(lines(s).len() > line_num);
                        assert(lines(s)[line_num as int] == strip_cr(s.subrange(start as int, i as int)));
                    }
                    let line = string_of(&chars, start, i);
                    proof { lemma_encode_subrange_len(s, start as int, i as int); }
                    let n = line.as_str().unicode_len();
                    if n > 0 && line.as_str().get_char(n - 1) == '\r' {
                        let stripped = string_of(&chars, start, i - 1);
                        proof { lemma_encode_subrange_len(s, start as int, i - 1); }
                        assert(stripped@ =~= line@.drop_last());
                        return stripped;
                    }
                    return line;
                }
                k = k + 1;
                start = i + 1;
                assert(s.subrange(start as int, i + 1) =~= Seq::<char>::empty());
            } else {
                assert(s.subrange(start as int, i + 1) =~= s.subrange(start as int, i as int).push(s[i as int]));
            }
            i = i + 1;
        }
        proof {
            assert(s.take(len as int) =~= s);
            lemma_pieces_len(s);
            assert(s == self.spec_rope().text());
        }
        if k == line_num {
            proof { lemma_encode_subrange_len(s, start as int, len as int); }
            string_of(&chars, start, len)
        } else {
            let empty = String::new();
            assert(encode_utf8(empty@) =~= Seq::<u8>::empty());
            empty
        }
    }

    /// How many lines the text has; an empty text has one.
    pub fn line_count(&self) -> (res: usize)
        ensures
            res == if self.spec_rope().text().len() == 0 {
                1
            } else if lines(self.spec_rope().text()).len() > 1 {
                lines(self.spec_rope().text()).len()
            } else {
                1
            },
    {
        let text = self.rope.to_string();
        let chars = chars_of(text.as_str());
        let ghost s = chars@;
        let len = chars.len();
        if len == 0 {
            return 1;
        }
        let mut count: usize = 0;
        let mut i: usize = 0;
        while i < len
            invariant
                len == s.len(),
                s == chars@,
                i <= len,
                count <= i,
                count == crate::text::newline_count(s.take(i as int)),
            decreases len - i,
        {
            assert(s.take(i + 1).drop_last() =~= s.take(i as int));
            if chars[i] == '\n' {
                count = count + 1;
            }
            i = i + 1;
        }
        proof {
            assert(s.take(len as int) =~= s);
            lemma_pieces_len(s);
            crate::text::lemma_newline_count_le(s.drop_last());
        }
        let n = if chars[len - 1] == '\n' { count } else { count + 1 };
        if n > 1 { n } else { 1 }
    }

    /// Whether there are changes not yet saved.
    pub fn is_modified(&self) -> (res: bool)
        ensures
            res == self.spec_dirty(),
    {
        self.dirty
    }

    /// The cursor's byte offset.
    pub fn cursor(&self) -> (res: usize)
        ensures
            res == self.spec_cursor(),
    {
        self.cursor
    }

    /// Moves the cursor to `pos`, or to the end of the text if `pos` lies
    /// beyond it.
    pub fn set_cursor(&mut self, pos: usize)
        ensures
            final(self).spec_rope() == old(self).spec_rope(),
            final(self).spec_path() == old(self).spec_path(),
            final(self).spec_dirty() == old(self).spec_dirty(),
            final(self).spec_cursor() == if pos < old(self).spec_rope()@.len() {
                pos as nat
            } else {
                old(self).spec_rope()@.len()
            },
    {
        let len = self.rope.len();
        self.cursor = if pos < len { pos } else { len };
    }
}

} // verus!
