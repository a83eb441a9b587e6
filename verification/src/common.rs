//! A sequential reader over an in-memory byte buffer, with the little-endian
//! integer readers and the text readers that the container format needs.

use vstd::prelude::*;

verus! {

/// Error cases shared by every decoding step.
#[derive(Debug, PartialEq, Eq)]
pub enum ReadError {
    /// A read asked for bytes past the end of the buffer.
    UnexpectedEof,
    /// A null-terminated text value was not valid UTF-8.
    InvalidUtf8,
}

/// Little-endian unsigned value of the two bytes at `p`.
pub open spec fn le_u16(data: Seq<u8>, p: int) -> u16
    recommends
        0 <= p,
        p + 2 <= data.len(),
{
    (data[p] + data[p + 1] * 0x100) as u16
}

/// Little-endian unsigned value of the four bytes at `p`.
pub open spec fn le_u32(data: Seq<u8>, p: int) -> u32
    recommends
        0 <= p,
        p + 4 <= data.len(),
{
    (data[p] + data[p + 1] * 0x100 + data[p + 2] * 0x10000 + data[p + 3] * 0x1000000) as u32
}

/// Little-endian unsigned value of the eight bytes at `p`.
pub open spec fn le_u64(data: Seq<u8>, p: int) -> u64
    recommends
        0 <= p,
        p + 8 <= data.len(),
{
    (data[p] + data[p + 1] * 0x100 + data[p + 2] * 0x10000 + data[p + 3] * 0x1000000 + data[p + 4]
        * 0x100000000 + data[p + 5] * 0x10000000000 + data[p + 6] * 0x1000000000000 + data[p + 7]
        * 0x100000000000000) as u64
}

/// Two's-complement signed reading of the two bytes at `p`.
pub open spec fn le_i16(data: Seq<u8>, p: int) -> i16 {
    if le_u16(data, p) < 0x8000 {
        le_u16(data, p) as i16
    } else {
        (le_u16(data, p) - 0x10000) as i16
    }
}

/// Two's-complement signed reading of the four bytes at `p`.
pub open spec fn le_i32(data: Seq<u8>, p: int) -> i32 {
    if le_u32(data, p) < 0x80000000 {
        le_u32(data, p) as i32
    } else {
        (le_u32(data, p) - 0x100000000) as i32
    }
}

/// Two's-complement signed reading of the eight bytes at `p`.
pub open spec fn le_i64(data: Seq<u8>, p: int) -> i64 {
    if le_u64(data, p) < 0x8000000000000000 {
        le_u64(data, p) as i64
    } else {
        (le_u64(data, p) - 0x10000000000000000) as i64
    }
}

/// `s` with every trailing zero byte removed.
pub open spec fn trim_trailing_zeros(s: Seq<u8>) -> Seq<u8>
    decreases s.len(),
{
    if s.len() > 0 && s[s.len() - 1] == 0 {
        trim_trailing_zeros(s.drop_last())
    } else {
        s
    }
}

/// Index of the first zero byte at or after `start`, or the buffer's length
/// when there is none.
pub open spec fn cstr_end(data: Seq<u8>, start: int) -> int
    decreases data.len() - start,
{
    if start < 0 || start >= data.len() {
        data.len() as int
    } else if data[start] == 0 {
        start
    } else {
        cstr_end(data, start + 1)
    }
}

/// The bytes of the null-terminated value that begins at `start` (terminator
/// excluded); empty when `start` lies past the end.
pub open spec fn cstr_bytes(data: Seq<u8>, start: int) -> Seq<u8> {
    if start > data.len() {
        Seq::empty()
    } else {
        data.subrange(start, cstr_end(data, start))
    }
}

/// The cursor position after reading the null-terminated value at `start`:
/// just past the terminator, or the end of the buffer when none was found.
pub open spec fn cstr_after(data: Seq<u8>, start: int) -> int {
    if start > data.len() {
        start
    } else if cstr_end(data, start) < data.len() {
        cstr_end(data, start) + 1
    } else {
        data.len() as int
    }
}

pub proof fn lemma_cstr_end_at(data: Seq<u8>, start: int, e: int)
    requires
        0 <= start <= e <= data.len(),
        forall|k: int| start <= k < e ==> data[k] != 0,
        e == data.len() || data[e] == 0,
    ensures
        cstr_end(data, start) == e,
    decreases e - start,
{
    if start < e {
        lemma_cstr_end_at(data, start + 1, e);
    }
}

/// The character sequence that decoding `s` as UTF-8 yields, when `s` is
/// valid UTF-8; what `string_from_utf8` returns.
pub uninterp spec fn utf8_decoded(s: Seq<u8>) -> Option<Seq<char>>;

/// Relies on `String::from_utf8`: it succeeds exactly when the bytes are
/// valid UTF-8, and the result is a function of the bytes alone.
#[verifier::external_body]
pub(crate) fn string_from_utf8(v: Vec<u8>) -> (r: Option<String>)
    ensures
        r is Some <==> utf8_decoded(v@) is Some,
        r is Some ==> r->Some_0@ == utf8_decoded(v@)->Some_0,
{
    String::from_utf8(v).ok()
}

/// The character sequence of the lossy UTF-8 decoding of `s`; what
/// `string_from_utf8_lossy` returns.
pub uninterp spec fn utf8_lossy(s: Seq<u8>) -> Seq<char>;

/// Relies on `String::from_utf8_lossy`: the result is a function of the
/// bytes alone, and bytes that are already ASCII decode to the characters
/// with the same code points.
#[verifier::external_body]
pub(crate) fn string_from_utf8_lossy(v: &Vec<u8>) -> (r: String)
    ensures
        r@ == utf8_lossy(v@),
        (forall|i: int| 0 <= i < v@.len() ==> v@[i] < 0x80) ==> r@ == v@.map_values(
            |b: u8| b as char,
        ),
{
    String::from_utf8_lossy(v.as_slice()).into_owned()
}

/// The two text readers that the container format needs on top of the plain
/// integer readers.
pub trait BufReaderExt {
    spec fn stream(&self) -> Seq<u8>;

    spec fn cursor(&self) -> int;

    /// Reads bytes up to and including the next zero byte (or the end of the
    /// buffer) and decodes them, terminator excluded, as UTF-8.
    fn read_cstring(&mut self) -> (r: Result<String, ReadError>)
        ensures
            final(self).stream() == old(self).stream(),
            final(self).cursor() == cstr_after(old(self).stream(), old(self).cursor()),
            r is Ok <==> utf8_decoded(cstr_bytes(old(self).stream(), old(self).cursor())) is Some,
            r is Ok ==> r->Ok_0@ == utf8_decoded(
                cstr_bytes(old(self).stream(), old(self).cursor()),
            )->Some_0,
            r is Err ==> r->Err_0 == ReadError::InvalidUtf8,
    ;

    /// Reads exactly `length` bytes and decodes them, trailing zero bytes
    /// removed, as UTF-8 with lossy replacement.
    fn read_fixed_string(&mut self, length: usize) -> (r: Result<String, ReadError>)
        ensures
            final(self).stream() == old(self).stream(),
            r is Ok <==> old(self).cursor() + length <= old(self).stream().len(),
            r is Ok ==> r->Ok_0@ == utf8_lossy(
                trim_trailing_zeros(
                    old(self).stream().subrange(old(self).cursor(), old(self).cursor() + length),
                ),
            ) && final(self).cursor() == old(self).cursor() + length,
            r is Err ==> r->Err_0 == ReadError::UnexpectedEof && final(self).cursor() == old(
                self,
            ).cursor(),
    ;
}

/// A cursor over an owned byte buffer; every decoder reads through one.
pub struct ByteReader {
    pub data: Vec<u8>,
    pub pos: usize,
}

impl ByteReader {
    pub fn new(data: Vec<u8>) -> (r: ByteReader)
        ensures
            r.data == data,
            r.pos == 0,
    {
        ByteReader { data, pos: 0 }
    }

    /// Absolute position of the cursor, as a stream would report it.
    pub fn stream_position(&self) -> (r: usize)
        ensures
            r == self.pos,
    {
        self.pos
    }

    /// Moves the cursor to `p`, clamped to the end of the buffer. Reading at
    /// or past the end behaves exactly as reading at the end, so the clamp
    /// does not change what any later read returns.
    pub fn seek_to(&mut self, p: u64)
        ensures
            final(self).data@ == old(self).data@,
            final(self).pos == if p <= old(self).data.len() {
                p as int
            } else {
                old(self).data.len() as int
            },
    {
        if p <= self.data.len() as u64 {
            self.pos = p as usize;
        } else {
            self.pos = self.data.len();
        }
    }

    pub fn read_u8(&mut self) -> (r: Result<u8, ReadError>)
        ensures
            final(self).data@ == old(self).data@,
            r is Ok <==> old(self).pos + 1 <= old(self).data.len(),
            r is Ok ==> r->Ok_0 == old(self).data@[old(self).pos as int] && final(self).pos == old(
                self,
            ).pos + 1,
            r is Err ==> r->Err_0 == ReadError::UnexpectedEof && *final(self) == *old(self),
    {
        if self.pos < self.data.len() {
            let b = self.data[self.pos];
            self.pos = self.pos + 1;
            Ok(b)
        } else {
            Err(ReadError::UnexpectedEof)
        }
    }

    pub fn read_u16(&mut self) -> (r: Result<u16, ReadError>)
        ensures
            final(self).data@ == old(self).data@,
            r is Ok <==> old(self).pos + 2 <= old(self).data.len(),
            r is Ok ==> r->Ok_0 == le_u16(old(self).data@, old(self).pos as int) && final(self).pos
                == old(self).pos + 2,
            r is Err ==> r->Err_0 == ReadError::UnexpectedEof && *final(self) == *old(self),
    {
        if self.data.len() >= 2 && self.pos <= self.data.len() - 2 {
            let b0 = self.data[self.pos];
            let b1 = self.data[self.pos + 1];
            self.pos = self.pos + 2;
            Ok(b0 as u16 + b1 as u16 * 0x100)
        } else {
            Err(ReadError::UnexpectedEof)
        }
    }

    pub fn read_u32(&mut self) -> (r: Result<u32, ReadError>)
        ensures
            final(self).data@ == old(self).data@,
            r is Ok <==> old(self).pos + 4 <= old(self).data.len(),
            r is Ok ==> r->Ok_0 == le_u32(old(self).data@, old(self).pos as int) && final(self).pos
                == old(self).pos + 4,
            r is Err ==> r->Err_0 == ReadError::UnexpectedEof && *final(self) == *old(self),
    {
        if self.data.len() >= 4 && self.pos <= self.data.len() - 4 {
            let b0 = self.data[self.pos];
            let b1 = self.data[self.pos + 1];
            let b2 = self.data[self.pos + 2];
            let b3 = self.data[self.pos + 3];
            self.pos = self.pos + 4;
            Ok(b0 as u32 + b1 as u32 * 0x100 + b2 as u32 * 0x10000 + b3 as u32 * 0x1000000)
        } else {
            Err(ReadError::UnexpectedEof)
        }
    }

    pub fn read_u64(&mut self) -> (r: Result<u64, ReadError>)
        ensures
            final(self).data@ == old(self).data@,
            r is Ok <==> old(self).pos + 8 <= old(self).data.len(),
            r is Ok ==> r->Ok_0 == le_u64(old(self).data@, old(self).pos as int) && final(self).pos
                == old(self).pos + 8,
            r is Err ==> r->Err_0 == ReadError::UnexpectedEof && *final(self) == *old(self),
    {
        if self.data.len() >= 8 && self.pos <= self.data.len() - 8 {
            let b0 = self.data[self.pos];
            let b1 = self.data[self.pos + 1];
            let b2 = self.data[self.pos + 2];
            let b3 = self.data[self.pos + 3];
            let b4 = self.data[self.pos + 4];
            let b5 = self.data[self.pos + 5];
            let b6 = self.data[self.pos + 6];
            let b7 = self.data[self.pos + 7];
            self.pos = self.pos + 8;
            Ok(
                b0 as u64 + b1 as u64 * 0x100 + b2 as u64 * 0x10000 + b3 as u64 * 0x1000000
                    + b4 as u64 * 0x100000000 + b5 as u64 * 0x10000000000 + b6 as u64
                    * 0x1000000000000 + b7 as u64 * 0x100000000000000,
            )
        } else {
            Err(ReadError::UnexpectedEof)
        }
    }

    pub fn read_i16(&mut self) -> (r: Result<i16, ReadError>)
        ensures
            final(self).data@ == old(self).data@,
            r is Ok <==> old(self).pos + 2 <= old(self).data.len(),
            r is Ok ==> r->Ok_0 == le_i16(old(self).data@, old(self).pos as int) && final(self).pos
                == old(self).pos + 2,
            r is Err ==> r->Err_0 == ReadError::UnexpectedEof && *final(self) == *old(self),
    {
        match self.read_u16() {
            Ok(u) => if u < 0x8000 {
                Ok(u as i16)
            } else {
                Ok(-((0xffffu16 - u) as i16) - 1)
            },
            Err(e) => Err(e),
        }
    }

    pub fn read_i32(&mut self) -> (r: Result<i32, ReadError>)
        ensures
            final(self).data@ == old(self).data@,
            r is Ok <==> old(self).pos + 4 <= old(self).data.len(),
            r is Ok ==> r->Ok_0 == le_i32(old(self).data@, old(self).pos as int) && final(self).pos
                == old(self).pos + 4,
            r is Err ==> r->Err_0 == ReadError::UnexpectedEof && *final(self) == *old(self),
    {
        match self.read_u32() {
            Ok(u) => if u < 0x80000000 {
                Ok(u as i32)
            } else {
                Ok(-((0xffffffffu32 - u) as i32) - 1)
            },
            Err(e) => Err(e),
        }
    }

    pub fn read_i64(&mut self) -> (r: Result<i64, ReadError>)
        ensures
            final(self).data@ == old(self).data@,
            r is Ok <==> old(self).pos + 8 <= old(self).data.len(),
            r is Ok ==> r->Ok_0 == le_i64(old(self).data@, old(self).pos as int) && final(self).pos
                == old(self).pos + 8,
            r is Err ==> r->Err_0 == ReadError::UnexpectedEof && *final(self) == *old(self),
    {
        match self.read_u64() {
            Ok(u) => if u < 0x8000000000000000 {
                Ok(u as i64)
            } else {
                Ok(-((0xffffffffffffffffu64 - u) as i64) - 1)
            },
            Err(e) => Err(e),
        }
    }

    /// Reads exactly `n` bytes, or fails without moving when fewer remain.
    pub fn read_bytes(&mut self, n: usize) -> (r: Result<Vec<u8>, ReadError>)
        ensures
            final(self).data@ == old(self).data@,
            r is Ok <==> old(self).pos + n <= old(self).data.len(),
            r is Ok ==> r->Ok_0@ == old(self).data@.subrange(
                old(self).pos as int,
                old(self).pos + n,
            ) && final(self).pos == old(self).pos + n,
            r is Err ==> r->Err_0 == ReadError::UnexpectedEof && *final(self) == *old(self),
    {
        if self.pos <= self.data.len() && n <= self.data.len() - self.pos {
            let mut out: Vec<u8> = Vec::new();
            let mut k: usize = 0;
            while k < n
                invariant
                    self.pos + n <= self.data.len(),
                    k <= n,
                    out@ == self.data@.subrange(self.pos as int, self.pos + k),
                decreases n - k,
            {
                out.push(self.data[self.pos + k]);
                assert(out@ =~= self.data@.subrange(self.pos as int, self.pos + k + 1));
                k = k + 1;
            }
            self.pos = self.pos + n;
            Ok(out)
        } else {
            Err(ReadError::UnexpectedEof)
        }
    }
}

/// Removes every trailing zero byte from `buf`.
pub(crate) fn trim_zeros(buf: &mut Vec<u8>)
    ensures
        final(buf)@ == trim_trailing_zeros(old(buf)@),
{
    while buf.len() > 0 && buf[buf.len() - 1] == 0
        invariant
            trim_trailing_zeros(buf@) == trim_trailing_zeros(old(buf)@),
        decreases buf.len(),
    {
        buf.pop();
    }
}

impl BufReaderExt for ByteReader {
    open spec fn stream(&self) -> Seq<u8> {
        self.data@
    }

    open spec fn cursor(&self) -> int {
        self.pos as int
    }

    fn read_cstring(&mut self) -> (r: Result<String, ReadError>) {
        let ghost start = self.pos as int;
        let mut buf: Vec<u8> = Vec::new();
        if self.pos < self.data.len() {
            while self.pos < self.data.len() && self.data[self.pos] != 0
                invariant
                    self.data == old(self).data,
                    0 <= start <= self.pos <= self.data.len(),
                    buf@ == self.data@.subrange(start, self.pos as int),
                    forall|k: int| start <= k < self.pos ==> self.data@[k] != 0,
                decreases self.data.len() - self.pos,
            {
                let b = self.data[self.pos];
                buf.push(b);
                proof {
                    assert(buf@ =~= self.data@.subrange(start, self.pos + 1)) by {
                        assert(buf@.len() == self.pos + 1 - start);
                        assert forall|i: int| 0 <= i < buf@.len() implies buf@[i]
                            == self.data@[start + i] by {
                            if i < self.pos - start {
                                assert(buf@[i] == self.data@.subrange(start, self.pos as int)[i]);
                            }
                        }
                    }
                }
                self.pos = self.pos + 1;
            }
            proof {
                lemma_cstr_end_at(self.data@, start, self.pos as int);
            }
            if self.pos < self.data.len() {
                self.pos = self.pos + 1;
            }
        } else {
            assert(cstr_bytes(self.data@, start) =~= buf@);
        }
        match string_from_utf8(buf) {
            Some(s) => Ok(s),
            None => Err(ReadError::InvalidUtf8),
        }
    }

    fn read_fixed_string(&mut self, length: usize) -> (r: Result<String, ReadError>) {
        match self.read_bytes(length) {
            Ok(mut buf) => {
                trim_zeros(&mut buf);
                Ok(string_from_utf8_lossy(&buf))
            },
            Err(e) => Err(e),
        }
    }
}

} // verus!
