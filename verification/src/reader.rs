//! A cursor over the bytes of a response, and the mathematical account of what
//! each read takes from them.
//!
//! Text fields are runs of bytes closed by a zero byte. They must be valid UTF-8:
//! a run that is not makes the read fail with `Error::InvalidEncoding`, and nothing
//! is replaced or guessed.

use crate::error::Error;
use crate::wire::{le_i16, le_i32, le_u32, le_u64, read_i16, read_i32, read_u32, read_u64};
use vstd::prelude::*;
use vstd::slice::slice_subrange;
use vstd::utf8::{decode_utf8, valid_utf8};

verus! {

/// The index of the first zero byte of `s` at or after `from`, or the length of `s`
/// where there is none.
pub open spec fn zero_from(s: Seq<u8>, from: int) -> int
    decreases s.len() - from,
{
    if from < 0 || from >= s.len() || s[from] == 0 {
        from
    } else {
        zero_from(s, from + 1)
    }
}

/// The number of bytes of `s` that stand before its first zero byte.
pub open spec fn text_len(s: Seq<u8>) -> int {
    zero_from(s, 0)
}

/// `zero_from` finds the first zero byte: none stands between `from` and the result,
/// and the result is the place of a zero byte or the end.
pub proof fn lemma_zero_from(s: Seq<u8>, from: int)
    requires
        0 <= from <= s.len(),
    ensures
        from <= zero_from(s, from) <= s.len(),
        zero_from(s, from) < s.len() ==> s[zero_from(s, from)] == 0,
        forall|k: int| from <= k < zero_from(s, from) ==> s[k] != 0,
    decreases s.len() - from,
{
    if from < s.len() && s[from] != 0 {
        lemma_zero_from(s, from + 1);
    }
}

/// A parse in progress: the bytes not yet read, and the error that stopped it, if
/// one did. Once stopped, a scan stays as it is whatever is asked of it.
pub struct Scan {
    pub rest: Seq<u8>,
    pub failure: Option<Error>,
}

impl Scan {
    /// A scan at the start of `bytes`.
    pub open spec fn start(bytes: Seq<u8>) -> Scan {
        Scan { rest: bytes, failure: None }
    }

    pub open spec fn ok(self) -> bool {
        self.failure is None
    }

    /// The scan stopped with `e`, unless it had stopped before.
    pub open spec fn fail(self, e: Error) -> Scan {
        if self.ok() {
            Scan { rest: self.rest, failure: Some(e) }
        } else {
            self
        }
    }

    /// The scan itself where `cond` holds, else stopped with `e`.
    pub open spec fn require(self, cond: bool, e: Error) -> Scan {
        if cond {
            self
        } else {
            self.fail(e)
        }
    }

    /// The scan after `n` bytes were taken; stopped with `Truncated` where fewer are left.
    pub open spec fn skip(self, n: int) -> Scan {
        if !self.ok() {
            self
        } else if self.rest.len() < n {
            self.fail(Error::Truncated)
        } else {
            Scan { rest: self.rest.skip(n), failure: None }
        }
    }

    /// The next byte.
    pub open spec fn byte(self) -> u8 {
        self.rest[0]
    }

    /// The next two bytes as a signed little-endian number.
    pub open spec fn int16(self) -> i16 {
        le_i16(self.rest) as i16
    }

    /// The next four bytes as a signed little-endian number.
    pub open spec fn int32(self) -> i32 {
        le_i32(self.rest) as i32
    }

    /// The next four bytes as an unsigned little-endian number.
    pub open spec fn uint32(self) -> u32 {
        le_u32(self.rest) as u32
    }

    /// The next eight bytes as an unsigned little-endian number.
    pub open spec fn uint64(self) -> u64 {
        le_u64(self.rest) as u64
    }

    /// The bytes of the next text field, without the zero byte that closes it.
    pub open spec fn text_bytes(self) -> Seq<u8> {
        self.rest.take(text_len(self.rest))
    }

    /// The next text field.
    pub open spec fn text(self) -> Seq<char> {
        decode_utf8(self.text_bytes())
    }

    /// The scan after `n` bytes were taken where `present` holds, else the scan itself.
    pub open spec fn skip_if(self, present: bool, n: int) -> Scan {
        if present {
            self.skip(n)
        } else {
            self
        }
    }

    /// The scan after a text field was taken where `present` holds, else the scan itself.
    pub open spec fn skip_text_if(self, present: bool) -> Scan {
        if present {
            self.skip_text()
        } else {
            self
        }
    }

    /// The scan after a text field and its closing zero byte were taken. It stops with
    /// `Truncated` where no zero byte is left, and with `InvalidEncoding` where the
    /// bytes before it are not valid UTF-8.
    pub open spec fn skip_text(self) -> Scan {
        if !self.ok() {
            self
        } else if text_len(self.rest) >= self.rest.len() {
            self.fail(Error::Truncated)
        } else if !valid_utf8(self.text_bytes()) {
            self.fail(Error::InvalidEncoding)
        } else {
            Scan { rest: self.rest.skip(text_len(self.rest) + 1), failure: None }
        }
    }
}

/// `String::from_utf8` of std: the text that `bytes` encode, where they are valid
/// UTF-8, and nothing where they are not.
#[verifier::external_body]
fn text_from_utf8(bytes: Vec<u8>) -> (text: Option<String>)
    ensures
        text is Some <==> valid_utf8(bytes@),
        text is Some ==> text.unwrap()@ == decode_utf8(bytes@),
{
    String::from_utf8(bytes).ok()
}

/// A cursor over a borrowed run of bytes. Its view is what has not been read yet.
pub struct Reader<'a> {
    data: &'a [u8],
    pos: usize,
}

impl<'a> View for Reader<'a> {
    type V = Seq<u8>;

    closed spec fn view(&self) -> Seq<u8> {
        self.data@.skip(self.pos as int)
    }
}

impl<'a> Reader<'a> {
    #[verifier::type_invariant]
    spec fn in_bounds(&self) -> bool {
        self.pos <= self.data@.len()
    }

    /// The scan that stands where this reader stands.
    pub open spec fn scan(&self) -> Scan {
        Scan::start(self@)
    }

    /// A reader at the start of `data`.
    pub fn new(data: &'a [u8]) -> (reader: Reader<'a>)
        ensures
            reader@ == data@,
    {
        let reader = Reader { data, pos: 0 };
        assert(data@.skip(0) =~= data@);
        reader
    }

    /// The number of bytes not yet read.
    pub fn remaining(&self) -> (n: usize)
        ensures
            n == self@.len(),
    {
        proof {
            use_type_invariant(self);
        }
        self.data.len() - self.pos
    }

    /// Takes one byte.
    pub fn read_u8(&mut self) -> (r: Result<u8, Error>)
        ensures
            match r {
                Ok(v) => old(self).scan().skip(1).ok() && v == old(self).scan().byte()
                    && final(self)@ == old(self).scan().skip(1).rest,
                Err(e) => old(self).scan().skip(1).failure == Some(e) && final(self)@
                    == old(self)@,
            },
    {
        proof {
            use_type_invariant(&*self);
        }
        if self.data.len() - self.pos < 1 {
            return Err(Error::Truncated);
        }
        let v = self.data[self.pos];
        assert(self.data@.skip(self.pos as int).skip(1) =~= self.data@.skip(self.pos + 1));
        self.pos = self.pos + 1;
        Ok(v)
    }

    /// Takes 2 bytes as a signed little-endian number.
    pub fn read_i16(&mut self) -> (r: Result<i16, Error>)
        ensures
            match r {
                Ok(v) => old(self).scan().skip(2).ok() && v == old(self).scan().int16()
                    && final(self)@ == old(self).scan().skip(2).rest,
                Err(e) => old(self).scan().skip(2).failure == Some(e) && final(self)@
                    == old(self)@,
            },
    {
        proof {
            use_type_invariant(&*self);
        }
        if self.data.len() - self.pos < 2 {
            return Err(Error::Truncated);
        }
        let field = slice_subrange(self.data, self.pos, self.pos + 2);
        let v = read_i16(field);
        assert(self.data@.skip(self.pos as int).skip(2) =~= self.data@.skip(self.pos + 2));
        self.pos = self.pos + 2;
        Ok(v)
    }

    /// Takes 4 bytes as a signed little-endian number.
    pub fn read_i32(&mut self) -> (r: Result<i32, Error>)
        ensures
            match r {
                Ok(v) => old(self).scan().skip(4).ok() && v == old(self).scan().int32()
                    && final(self)@ == old(self).scan().skip(4).rest,
                Err(e) => old(self).scan().skip(4).failure == Some(e) && final(self)@
                    == old(self)@,
            },
    {
        proof {
            use_type_invariant(&*self);
        }
        if self.data.len() - self.pos < 4 {
            return Err(Error::Truncated);
        }
        let field = slice_subrange(self.data, self.pos, self.pos + 4);
        let v = read_i32(field);
        assert(self.data@.skip(self.pos as int).skip(4) =~= self.data@.skip(self.pos + 4));
        self.pos = self.pos + 4;
        Ok(v)
    }

    /// Takes 4 bytes as an unsigned little-endian number.
    pub fn read_u32(&mut self) -> (r: Result<u32, Error>)
        ensures
            match r {
                Ok(v) => old(self).scan().skip(4).ok() && v == old(self).scan().uint32()
                    && final(self)@ == old(self).scan().skip(4).rest,
                Err(e) => old(self).scan().skip(4).failure == Some(e) && final(self)@
                    == old(self)@,
            },
    {
        proof {
            use_type_invariant(&*self);
        }
        if self.data.len() - self.pos < 4 {
            return Err(Error::Truncated);
        }
        let field = slice_subrange(self.data, self.pos, self.pos + 4);
        let v = read_u32(field);
        assert(self.data@.skip(self.pos as int).skip(4) =~= self.data@.skip(self.pos + 4));
        self.pos = self.pos + 4;
        Ok(v)
    }

    /// Takes 8 bytes as an unsigned little-endian number.
    pub fn read_u64(&mut self) -> (r: Result<u64, Error>)
        ensures
            match r {
                Ok(v) => old(self).scan().skip(8).ok() && v == old(self).scan().uint64()
                    && final(self)@ == old(self).scan().skip(8).rest,
                Err(e) => old(self).scan().skip(8).failure == Some(e) && final(self)@
                    == old(self)@,
            },
    {
        proof {
            use_type_invariant(&*self);
        }
        if self.data.len() - self.pos < 8 {
            return Err(Error::Truncated);
        }
        let field = slice_subrange(self.data, self.pos, self.pos + 8);
        let v = read_u64(field);
        assert(self.data@.skip(self.pos as int).skip(8) =~= self.data@.skip(self.pos + 8));
        self.pos = self.pos + 8;
        Ok(v)
    }

    /// Takes a text field: the bytes up to the next zero byte, which is taken too and
    /// not returned. Fails with `Truncated` where no zero byte is left, and with
    /// `InvalidEncoding` where the bytes before it are not valid UTF-8.
    pub fn read_cstring(&mut self) -> (r: Result<String, Error>)
        ensures
            match r {
                Ok(text) => old(self).scan().skip_text().ok() && text@ == old(self).scan().text()
                    && final(self)@ == old(self).scan().skip_text().rest,
                Err(e) => old(self).scan().skip_text().failure == Some(e) && final(self)@
                    == old(self)@,
            },
    {
        proof {
            use_type_invariant(&*self);
        }
        let ghost rest = self@;
        let mut end: usize = self.pos;
        while end < self.data.len() && self.data[end] != 0
            invariant
                self.pos <= end <= self.data@.len(),
                rest == self.data@.skip(self.pos as int),
                text_len(rest) == zero_from(rest, end - self.pos),
            decreases self.data@.len() - end,
        {
            end = end + 1;
        }
        if end >= self.data.len() {
            return Err(Error::Truncated);
        }
        let run = slice_subrange(self.data, self.pos, end);
        let mut bytes: Vec<u8> = Vec::new();
        bytes.extend_from_slice(run);
        assert(bytes@ =~= rest.take(text_len(rest)));
        match text_from_utf8(bytes) {
            None => Err(Error::InvalidEncoding),
            Some(text) => {
                assert(rest.skip(end - self.pos + 1) =~= self.data@.skip(end + 1));
                self.pos = end + 1;
                Ok(text)
            },
        }
    }
}

} // verus!
