//! The buffers in which results leave the library, and their release.

use crate::segment::Piece;
use vstd::prelude::*;
use vstd::string::*;
use vstd::utf8::encode_utf8;

verus! {

/// A text has bytes exactly where it has characters.
pub proof fn lemma_bytes_of_a_text(text: Seq<char>)
    ensures
        encode_utf8(text).len() == 0 <==> text.len() == 0,
{
}

/// An owned sequence of bytes with its exact length; the bytes are the UTF-8
/// encoding of a text. A buffer that holds a result is `owned` until it is
/// released. One that is not `owned` holds nothing: it is the state of a
/// buffer that was never filled or has been released.
#[derive(Debug, PartialEq, Eq)]
pub struct PinyinStr {
    /// The number of bytes in `data`.
    pub len: usize,
    /// The bytes of the text.
    pub data: Vec<u8>,
    /// Whether the buffer holds a result that is still to be released.
    pub owned: bool,
    /// In an array: 1 for a converted token, 0 for a literal one.
    pub convert: u8,
}

impl PinyinStr {
    /// The length is that of the content, and a buffer that is not owned is
    /// empty.
    pub open spec fn wf(&self) -> bool {
        &&& self.len == self.data@.len()
        &&& !self.owned ==> self.data@.len() == 0
    }

    /// Whether the buffer is an owned one that holds exactly `text` under
    /// the tag `convert`.
    pub open spec fn holds(&self, text: Seq<char>, convert: u8) -> bool {
        &&& self.owned
        &&& self.data@ == encode_utf8(text)
        &&& self.len == self.data@.len()
        &&& self.convert == convert
    }

    /// Whether the buffer holds the text of `piece` under its tag.
    pub open spec fn carries(&self, piece: Piece) -> bool {
        self.holds(piece.text(), piece.tag())
    }

    /// An owned buffer with the bytes of `s` and the tag `convert`. It is
    /// empty exactly where `s` is.
    pub fn from_string(s: String, convert: u8) -> (buffer: PinyinStr)
        ensures
            buffer.holds(s@, convert),
            buffer.wf(),
            buffer.len == 0 <==> s@.len() == 0,
    {
        let data = s.as_str().as_bytes_vec();
        proof {
            lemma_bytes_of_a_text(s@);
        }
        PinyinStr { len: data.len(), data, owned: true, convert }
    }

    /// Releases what the buffer holds. An owned buffer becomes an empty one
    /// that is not owned, and keeps its tag; on a buffer that is not owned
    /// this does nothing, so a second release is harmless.
    pub fn free(&mut self)
        ensures
            old(self).owned ==> final(self).data@.len() == 0 && final(self).len == 0
                && !final(self).owned && final(self).convert == old(self).convert,
            !old(self).owned ==> *final(self) == *old(self),
            old(self).owned || old(self).wf() ==> final(self).wf(),
    {
        if self.owned {
            self.data = Vec::new();
            self.len = 0;
            self.owned = false;
        }
    }
}

impl Default for PinyinStr {
    /// The empty buffer that is not owned.
    fn default() -> (buffer: PinyinStr)
        ensures
            buffer.data@.len() == 0,
            buffer.len == 0,
            !buffer.owned,
            buffer.convert == 0,
            buffer.wf(),
    {
        PinyinStr { len: 0, data: Vec::new(), owned: false, convert: 0 }
    }
}

/// Whether the buffers hold exactly the given pieces, in order, each in an
/// owned buffer under its tag.
pub open spec fn carry(buffers: Seq<PinyinStr>, pieces: Seq<Piece>) -> bool {
    &&& buffers.len() == pieces.len()
    &&& forall|i: int| 0 <= i < pieces.len() ==> (#[trigger] buffers[i]).carries(pieces[i])
}

/// An ordered sequence of buffers with its length.
#[derive(Debug, PartialEq, Eq)]
pub struct PinyinArray {
    /// The number of buffers in `array`.
    pub len: usize,
    /// The buffers, in the order of the tokens that they hold.
    pub array: Vec<PinyinStr>,
}

impl PinyinArray {
    /// The length is that of the sequence, and every buffer is well formed.
    pub open spec fn wf(&self) -> bool {
        &&& self.len == self.array@.len()
        &&& forall|i: int| 0 <= i < self.array@.len() ==> (#[trigger] self.array@[i]).wf()
    }

    /// Whether the array holds exactly the given pieces, in order, each in
    /// an owned buffer under its tag.
    pub open spec fn carries(&self, pieces: Seq<Piece>) -> bool {
        &&& self.len == pieces.len()
        &&& carry(self.array@, pieces)
    }

    /// The array of the given buffers.
    pub fn from_vec(array: Vec<PinyinStr>) -> (out: PinyinArray)
        ensures
            out.array == array,
            out.len == array@.len(),
    {
        PinyinArray { len: array.len(), array }
    }

    /// Releases every buffer of the array, in the array's order, and then
    /// the sequence itself: the array is left empty.
    pub fn free(&mut self)
        ensures
            final(self).array@.len() == 0,
            final(self).len == 0,
            final(self).wf(),
    {
        let mut i: usize = 0;
        while i < self.array.len()
            invariant
                i <= self.array.len(),
            decreases self.array.len() - i,
        {
            self.array[i].free();
            i += 1;
        }
        self.array = Vec::new();
        self.len = 0;
    }
}

/// Releases the buffer behind a handle and leaves the handle empty. On an
/// empty handle this does nothing.
pub fn free_pointer(ptr: &mut Option<PinyinStr>)
    ensures
        *final(ptr) is None,
        *old(ptr) is None ==> *final(ptr) == *old(ptr),
{
    if let Some(mut buffer) = ptr.take() {
        buffer.free();
    }
}

/// Releases the array behind a handle, its buffers first, and leaves the
/// handle empty. On an empty handle this does nothing.
pub fn free_array(array: &mut Option<PinyinArray>)
    ensures
        *final(array) is None,
        *old(array) is None ==> *final(array) == *old(array),
{
    if let Some(mut held) = array.take() {
        held.free();
    }
}

} // verus!
