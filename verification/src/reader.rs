//! A cursor over the bytes of a message.
use vstd::prelude::*;
use vstd::utf8::{decode_utf8, valid_utf8};

use crate::error::{outcome, AdsError, AdsErrorView};
use crate::text::{text_from_utf8, utf8_error_text};
use crate::time::{filetime, utc_from_timestamp, Timestamp, FILETIME_EPOCH_DIFF};
use crate::wire::{
    get_u16, get_u32, get_u64, signed16, signed32, to_signed16, to_signed32, u16_at, u32_at, u64_at,
};

verus! {

/// What a read gives, and where the cursor stands after it.
pub type Step<T> = (Result<T, AdsErrorView>, int);

/// The bytes from `pos` to the end.
pub open spec fn left(s: Seq<u8>, pos: int) -> int {
    if pos < s.len() { s.len() - pos } else { 0 }
}

/// A read of `n` bytes that gives `value`; it fails, and moves nothing, where fewer are left.
pub open spec fn fixed<T>(s: Seq<u8>, pos: int, n: int, value: T) -> Step<T> {
    if left(s, pos) < n {
        (Err(AdsErrorView::IncompleteMessage { expected: n, got: left(s, pos) }), pos)
    } else {
        (Ok(value), pos + n)
    }
}

pub open spec fn byte(s: Seq<u8>, pos: int) -> Step<u8> {
    fixed(s, pos, 1, s[pos])
}

pub open spec fn word(s: Seq<u8>, pos: int) -> Step<u16> {
    fixed(s, pos, 2, u16_at(s, pos))
}

pub open spec fn int16(s: Seq<u8>, pos: int) -> Step<i16> {
    fixed(s, pos, 2, signed16(u16_at(s, pos)))
}

pub open spec fn dword(s: Seq<u8>, pos: int) -> Step<u32> {
    fixed(s, pos, 4, u32_at(s, pos))
}

pub open spec fn int32(s: Seq<u8>, pos: int) -> Step<i32> {
    fixed(s, pos, 4, signed32(u32_at(s, pos)))
}

pub open spec fn qword(s: Seq<u8>, pos: int) -> Step<u64> {
    fixed(s, pos, 8, u64_at(s, pos))
}

pub open spec fn bytes(s: Seq<u8>, pos: int, n: int) -> Step<Seq<u8>> {
    fixed(s, pos, n, s.subrange(pos, pos + n))
}

/// A string: one byte for its length, then that many bytes of UTF-8.
pub open spec fn string(s: Seq<u8>, pos: int) -> Step<Seq<char>> {
    match byte(s, pos) {
        (Err(e), p) => (Err(e), p),
        (Ok(n), p) => match bytes(s, p, n as int) {
            (Err(e), q) => (Err(e), q),
            (Ok(b), q) => if valid_utf8(b) {
                (Ok(decode_utf8(b)), q)
            } else {
                (Err(AdsErrorView::InvalidStringEncoding(utf8_error_text(b))), q)
            },
        },
    }
}

/// A FILETIME; `now` stands for a time before 1970.
pub open spec fn time(s: Seq<u8>, pos: int, now: Timestamp) -> Step<Timestamp> {
    fixed(s, pos, 8, filetime(u64_at(s, pos), now))
}

/// A cursor over `data`. It may stand behind the end.
pub struct BytesReader<'a> {
    pub data: &'a [u8],
    pub pos: usize,
}

/// `r` and the cursor are what `step` says.
pub open spec fn took<T: View>(before: BytesReader, after: BytesReader, r: Result<T, AdsError>, step: Step<T::V>) -> bool {
    &&& outcome(r) == step.0
    &&& after.pos == step.1
    &&& after.data == before.data
}

impl<'a> BytesReader<'a> {
    pub fn new(data: &'a [u8]) -> (r: Self)
        ensures
            r.data == data,
            r.pos == 0,
    {
        BytesReader { data, pos: 0 }
    }

    pub fn remaining(&self) -> (r: usize)
        ensures
            r == left(self.data@, self.pos as int),
    {
        self.data.len().saturating_sub(self.pos)
    }

    pub fn peek(&self) -> (r: Option<u8>)
        ensures
            r == (if self.pos < self.data@.len() { Some(self.data@[self.pos as int]) } else { None }),
    {
        if self.pos < self.data.len() {
            Some(self.data[self.pos])
        } else {
            None
        }
    }

    /// The place of the next `n` bytes; the cursor moves behind them.
    fn advance(&mut self, n: usize) -> (r: Result<usize, AdsError>)
        ensures
            took(*old(self), *final(self), r, fixed(old(self).data@, old(self).pos as int, n as int, old(self).pos)),
            r is Ok && n > 0 ==> old(self).pos + n <= old(self).data@.len(),
    {
        let have: usize = self.remaining();
        if have < n {
            return Err(AdsError::IncompleteMessage { expected: n as u64, got: have as u64 });
        }
        let at: usize = self.pos;
        if n > 0 {
            assert(at + n <= self.data.len());
            self.pos = at + n;
        }
        Ok(at)
    }

    pub fn read_bytes(&mut self, n: usize) -> (r: Result<&'a [u8], AdsError>)
        requires
            n > 0 || old(self).pos <= old(self).data@.len(),
        ensures
            took(*old(self), *final(self), r, bytes(old(self).data@, old(self).pos as int, n as int)),
    {
        let at: usize = self.advance(n)?;
        Ok(vstd::slice::slice_subrange(self.data, at, at + n))
    }

    pub fn read_u8(&mut self) -> (r: Result<u8, AdsError>)
        ensures
            took(*old(self), *final(self), r, byte(old(self).data@, old(self).pos as int)),
    {
        let at: usize = self.advance(1)?;
        Ok(self.data[at])
    }

    pub fn read_u16(&mut self) -> (r: Result<u16, AdsError>)
        ensures
            took(*old(self), *final(self), r, word(old(self).data@, old(self).pos as int)),
    {
        let at: usize = self.advance(2)?;
        Ok(get_u16(self.data, at))
    }

    pub fn read_i16(&mut self) -> (r: Result<i16, AdsError>)
        ensures
            took(*old(self), *final(self), r, int16(old(self).data@, old(self).pos as int)),
    {
        let at: usize = self.advance(2)?;
        Ok(to_signed16(get_u16(self.data, at)))
    }

    pub fn read_u32(&mut self) -> (r: Result<u32, AdsError>)
        ensures
            took(*old(self), *final(self), r, dword(old(self).data@, old(self).pos as int)),
    {
        let at: usize = self.advance(4)?;
        Ok(get_u32(self.data, at))
    }

    pub fn read_i32(&mut self) -> (r: Result<i32, AdsError>)
        ensures
            took(*old(self), *final(self), r, int32(old(self).data@, old(self).pos as int)),
    {
        let at: usize = self.advance(4)?;
        Ok(to_signed32(get_u32(self.data, at)))
    }

    pub fn read_u64(&mut self) -> (r: Result<u64, AdsError>)
        ensures
            took(*old(self), *final(self), r, qword(old(self).data@, old(self).pos as int)),
    {
        let at: usize = self.advance(8)?;
        Ok(get_u64(self.data, at))
    }

    pub fn read_string(&mut self) -> (r: Result<String, AdsError>)
        ensures
            took(*old(self), *final(self), r, string(old(self).data@, old(self).pos as int)),
    {
        let n: u8 = self.read_u8()?;
        let raw = self.read_bytes(n as usize)?;
        match text_from_utf8(raw) {
            Ok(s) => Ok(s),
            Err(e) => Err(AdsError::InvalidStringEncoding(e)),
        }
    }

    /// Reads a FILETIME, with `now` for a time before 1970.
    pub fn read_filetime(&mut self, now: Timestamp) -> (r: Result<Timestamp, AdsError>)
        ensures
            took(*old(self), *final(self), r, time(old(self).data@, old(self).pos as int, now)),
    {
        let at: usize = self.advance(8)?;
        let ticks: u64 = get_u64(self.data, at);
        if ticks < FILETIME_EPOCH_DIFF {
            return Ok(now);
        }
        let unix: u64 = ticks - FILETIME_EPOCH_DIFF;
        match utc_from_timestamp((unix / 10_000_000) as i64, ((unix % 10_000_000) * 100) as u32) {
            Some(t) => Ok(t),
            None => Err(AdsError::InvalidTimestamp(String::from_str("Invalid timestamp"))),
        }
    }
}

} // verus!
