//! The primitive encodings of the log and of the snapshot: integers are
//! written big-endian, byte strings behind their length.

use byteorder::{BigEndian, ReadBytesExt, WriteBytesExt};
use vstd::prelude::*;
use vstd::slice::slice_subrange;

use crate::types::{Error, ErrorKind, Xid};

verus! {

/// A value with a binary encoding.
pub trait Serialize {
    /// The bytes that stand for the value.
    spec fn encoding(&self) -> Seq<u8>;

    /// Writes the value out.
    fn serialize(&self) -> (res: Vec<u8>)
        ensures
            res@ == self.encoding(),
    ;
}

/// A value that can be read from its binary encoding.
pub trait Deserialize: View {
    /// What reading a value of `s` at `pos` yields: the value and the
    /// position behind it.
    spec fn decoding(s: Seq<u8>, pos: int) -> Result<(Self::V, int), Error>;

    /// Replaces the value by the one that `rdr` holds next. On an error
    /// neither the value nor the reader changes.
    fn deserialize(&mut self, rdr: &mut Cursor) -> (r: Result<(), Error>)
        ensures
            final(rdr).bytes() == old(rdr).bytes(),
            match Self::decoding(old(rdr).bytes(), old(rdr).position()) {
                Ok((v, next)) => r is Ok && final(self)@ == v && final(rdr).position() == next,
                Err(e) => {
                    &&& r == Err::<(), Error>(e)
                    &&& final(self)@ == old(self)@
                    &&& final(rdr).position() == old(rdr).position()
                },
            },
    ;
}

/// The eight bytes of `n`, most significant first.
pub open spec fn be_bytes(n: u64) -> Seq<u8> {
    seq![
        ((n >> 56) & 0xff) as u8,
        ((n >> 48) & 0xff) as u8,
        ((n >> 40) & 0xff) as u8,
        ((n >> 32) & 0xff) as u8,
        ((n >> 24) & 0xff) as u8,
        ((n >> 16) & 0xff) as u8,
        ((n >> 8) & 0xff) as u8,
        (n & 0xff) as u8,
    ]
}

/// The number whose big-endian bytes are the first eight of `s`.
pub open spec fn be_value(s: Seq<u8>) -> u64
    recommends
        s.len() >= 8,
{
    (s[0] as u64) << 56 | (s[1] as u64) << 48 | (s[2] as u64) << 40 | (s[3] as u64) << 32 | (
    s[4] as u64) << 24 | (s[5] as u64) << 16 | (s[6] as u64) << 8 | (s[7] as u64)
}

/// Reading back the bytes of a number gives the number.
pub proof fn lemma_be_value_of_bytes(n: u64)
    ensures
        be_bytes(n).len() == 8,
        be_value(be_bytes(n)) == n,
{
    assert(((n >> 56) & 0xff) < 256 && ((n >> 48) & 0xff) < 256 && ((n >> 40) & 0xff) < 256 && ((n
        >> 32) & 0xff) < 256 && ((n >> 24) & 0xff) < 256 && ((n >> 16) & 0xff) < 256 && ((n >> 8)
        & 0xff) < 256 && (n & 0xff) < 256) by (bit_vector);
    assert(n == ((n >> 56) & 0xff) << 56 | ((n >> 48) & 0xff) << 48 | ((n >> 40) & 0xff) << 40 | ((n
        >> 32) & 0xff) << 32 | ((n >> 24) & 0xff) << 24 | ((n >> 16) & 0xff) << 16 | ((n >> 8)
        & 0xff) << 8 | (n & 0xff)) by (bit_vector);
}

/// Writing out the number that eight bytes stand for gives the bytes.
pub proof fn lemma_be_bytes_of_value(s: Seq<u8>)
    requires
        s.len() == 8,
    ensures
        be_bytes(be_value(s)) == s,
{
    let b0 = s[0] as u64;
    let b1 = s[1] as u64;
    let b2 = s[2] as u64;
    let b3 = s[3] as u64;
    let b4 = s[4] as u64;
    let b5 = s[5] as u64;
    let b6 = s[6] as u64;
    let b7 = s[7] as u64;
    let x = be_value(s);
    assert(x == b0 << 56 | b1 << 48 | b2 << 40 | b3 << 32 | b4 << 24 | b5 << 16 | b6 << 8 | b7);
    assert((x == b0 << 56 | b1 << 48 | b2 << 40 | b3 << 32 | b4 << 24 | b5 << 16 | b6 << 8 | b7)
        && b0 < 256 && b1 < 256 && b2 < 256 && b3 < 256 && b4 < 256 && b5 < 256 && b6 < 256 && b7
        < 256 ==> ((x >> 56) & 0xff) == b0 && ((x >> 48) & 0xff) == b1 && ((x >> 40) & 0xff) == b2
        && ((x >> 32) & 0xff) == b3 && ((x >> 24) & 0xff) == b4 && ((x >> 16) & 0xff) == b5 && ((x
        >> 8) & 0xff) == b6 && (x & 0xff) == b7) by (bit_vector);
    assert(be_bytes(x) =~= s);
}

/// What reading one byte of `s` at `pos` yields: the byte and the position
/// behind it.
pub open spec fn decoded_u8(s: Seq<u8>, pos: int) -> Result<(u8, int), Error> {
    if 0 <= pos < s.len() {
        Ok((s[pos], pos + 1))
    } else {
        Err(Error { kind: ErrorKind::UnexpectedEnd, detail: pos as u64 })
    }
}

/// What reading a big-endian `u64` of `s` at `pos` yields.
pub open spec fn decoded_u64(s: Seq<u8>, pos: int) -> Result<(u64, int), Error> {
    if 0 <= pos && pos + 8 <= s.len() {
        Ok((be_value(s.subrange(pos, pos + 8)), pos + 8))
    } else {
        Err(Error { kind: ErrorKind::UnexpectedEnd, detail: pos as u64 })
    }
}

/// What reading a length of `s` at `pos` yields: a `u64` that fits `usize`.
pub open spec fn decoded_usize(s: Seq<u8>, pos: int) -> Result<(usize, int), Error> {
    match decoded_u64(s, pos) {
        Ok((n, next)) => if n <= usize::MAX {
            Ok((n as usize, next))
        } else {
            Err(Error { kind: ErrorKind::LengthOverflow, detail: n })
        },
        Err(e) => Err(e),
    }
}

/// What reading a byte string of `s` at `pos` yields: its length, then that
/// many bytes.
pub open spec fn decoded_u8_vec(s: Seq<u8>, pos: int) -> Result<(Seq<u8>, int), Error> {
    match decoded_usize(s, pos) {
        Ok((n, next)) => if next + n <= s.len() {
            Ok((s.subrange(next, next + n), next + n))
        } else {
            Err(Error { kind: ErrorKind::UnexpectedEnd, detail: pos as u64 })
        },
        Err(e) => Err(e),
    }
}

/// The encoding of a byte string: its length as a big-endian `u64`, then
/// the bytes.
pub open spec fn u8_vec_bytes(data: Seq<u8>) -> Seq<u8> {
    be_bytes(data.len() as u64) + data
}

/// Whether `part` stands in `s` at `pos`.
pub open spec fn occurs_at(s: Seq<u8>, pos: int, part: Seq<u8>) -> bool {
    &&& 0 <= pos
    &&& pos + part.len() <= s.len()
    &&& s.subrange(pos, pos + part.len()) == part
}

/// Where two byte strings stand in `s` one behind the other, each of them
/// stands in `s`.
pub proof fn lemma_occurs_at_split(s: Seq<u8>, pos: int, first: Seq<u8>, second: Seq<u8>)
    requires
        occurs_at(s, pos, first + second),
    ensures
        occurs_at(s, pos, first),
        occurs_at(s, pos + first.len(), second),
{
    let both = first + second;
    let whole = s.subrange(pos, pos + both.len());
    assert forall|i: int| 0 <= i < first.len() implies s[pos + i] == first[i] by {
        assert(whole[i] == both[i]);
    }
    assert forall|i: int| 0 <= i < second.len() implies s[pos + first.len() + i] == second[i] by {
        assert(whole[first.len() + i] == both[first.len() + i]);
    }
    assert(s.subrange(pos, pos + first.len()) =~= first);
    assert(s.subrange(pos + first.len(), pos + first.len() + second.len()) =~= second);
}

/// A `u64` is read back where its bytes stand.
pub proof fn lemma_decoded_u64(s: Seq<u8>, pos: int, n: u64)
    requires
        occurs_at(s, pos, be_bytes(n)),
    ensures
        be_bytes(n).len() == 8,
        decoded_u64(s, pos) == Ok::<(u64, int), Error>((n, pos + 8)),
{
    lemma_be_value_of_bytes(n);
}

/// A byte string is read back where its encoding stands.
pub proof fn lemma_decoded_u8_vec(s: Seq<u8>, pos: int, data: Seq<u8>)
    requires
        occurs_at(s, pos, u8_vec_bytes(data)),
        data.len() <= usize::MAX,
    ensures
        u8_vec_bytes(data).len() == 8 + data.len(),
        decoded_u8_vec(s, pos) == Ok::<(Seq<u8>, int), Error>((data, pos + 8 + data.len())),
{
    let n = data.len() as u64;
    lemma_occurs_at_split(s, pos, be_bytes(n), data);
    lemma_decoded_u64(s, pos, n);
}

/// `byteorder::WriteBytesExt::write_u64::<BigEndian>` on a `Vec<u8>`: the
/// eight bytes of `n`, most significant first, are appended. Writing to a
/// `Vec<u8>` does not fail.
#[verifier::external_body]
fn write_u64_be(res: &mut Vec<u8>, n: u64)
    ensures
        final(res)@ == old(res)@ + be_bytes(n),
{
    let _ = res.write_u64::<BigEndian>(n);
}

/// `byteorder::WriteBytesExt::write_u8` on a `Vec<u8>`: the byte is
/// appended. Writing to a `Vec<u8>` does not fail.
#[verifier::external_body]
pub(crate) fn write_u8(res: &mut Vec<u8>, n: u8)
    ensures
        final(res)@ == old(res)@.push(n),
{
    let _ = res.write_u8(n);
}

/// `byteorder::ReadBytesExt::read_u64::<BigEndian>` on a byte slice: the
/// number that the first eight bytes stand for, most significant first; an
/// error, given as `None`, where the slice has fewer than eight.
#[verifier::external_body]
fn read_u64_be(buf: &[u8]) -> (r: Option<u64>)
    ensures
        r == (if buf@.len() >= 8 {
            Some(be_value(buf@.subrange(0, 8)))
        } else {
            None
        }),
{
    let mut rdr = buf;
    rdr.read_u64::<BigEndian>().ok()
}

/// `byteorder::ReadBytesExt::read_u8` on a byte slice: the first byte; an
/// error, given as `None`, where the slice is empty.
#[verifier::external_body]
fn read_u8(buf: &[u8]) -> (r: Option<u8>)
    ensures
        r == (if buf@.len() >= 1 {
            Some(buf@[0])
        } else {
            None
        }),
{
    let mut rdr = buf;
    rdr.read_u8().ok()
}

/// A reader over a byte string: it remembers how far it has read.
pub struct Cursor<'a> {
    buf: &'a [u8],
    pos: usize,
}

impl<'a> Cursor<'a> {
    #[verifier::type_invariant]
    spec fn in_bounds(self) -> bool {
        self.pos <= self.buf@.len()
    }

    /// The whole byte string, read and unread.
    pub closed spec fn bytes(self) -> Seq<u8> {
        self.buf@
    }

    /// The number of bytes read so far.
    pub closed spec fn position(self) -> int {
        self.pos as int
    }

    /// A reader at the start of `buf`.
    pub fn new(buf: &'a [u8]) -> (rdr: Self)
        ensures
            rdr.bytes() == buf@,
            rdr.position() == 0,
    {
        Cursor { buf, pos: 0 }
    }

    /// The number of bytes read so far.
    pub fn offset(&self) -> (pos: usize)
        ensures
            pos == self.position(),
            pos <= self.bytes().len(),
    {
        proof {
            use_type_invariant(self);
        }
        self.pos
    }

    /// Moves the reader to `pos`.
    pub fn set_position(&mut self, pos: usize)
        requires
            pos <= old(self).bytes().len(),
        ensures
            final(self).bytes() == old(self).bytes(),
            final(self).position() == pos,
    {
        self.pos = pos;
    }

    /// The bytes not read yet.
    fn rest(&self) -> (rest: &'a [u8])
        ensures
            rest@ == self.buf@.subrange(self.pos as int, self.buf@.len() as int),
            self.pos <= self.buf@.len() <= usize::MAX,
    {
        proof {
            use_type_invariant(self);
        }
        slice_subrange(self.buf, self.pos, self.buf.len())
    }

    /// Reads one byte.
    pub fn read_u8(&mut self) -> (r: Result<u8, Error>)
        ensures
            final(self).bytes() == old(self).bytes(),
            match decoded_u8(old(self).bytes(), old(self).position()) {
                Ok((b, next)) => r == Ok::<u8, Error>(b) && final(self).position() == next,
                Err(e) => {
                    &&& r == Err::<u8, Error>(e)
                    &&& final(self).position() == old(self).position()
                },
            },
    {
        let rest = self.rest();
        match read_u8(rest) {
            Some(b) => {
                self.pos = self.pos + 1;
                Ok(b)
            },
            None => Err(Error { kind: ErrorKind::UnexpectedEnd, detail: self.pos as u64 }),
        }
    }

    /// Reads a `u64`, most significant byte first.
    pub fn read_u64(&mut self) -> (r: Result<u64, Error>)
        ensures
            final(self).bytes() == old(self).bytes(),
            match decoded_u64(old(self).bytes(), old(self).position()) {
                Ok((n, next)) => r == Ok::<u64, Error>(n) && final(self).position() == next,
                Err(e) => {
                    &&& r == Err::<u64, Error>(e)
                    &&& final(self).position() == old(self).position()
                },
            },
    {
        let rest = self.rest();
        match read_u64_be(rest) {
            Some(n) => {
                assert(rest@.subrange(0, 8) == self.buf@.subrange(
                    self.pos as int,
                    self.pos + 8,
                ));
                self.pos = self.pos + 8;
                Ok(n)
            },
            None => Err(Error { kind: ErrorKind::UnexpectedEnd, detail: self.pos as u64 }),
        }
    }
}

/// Appends `size` as a big-endian `u64`.
pub fn serialize_usize(res: &mut Vec<u8>, size: usize)
    ensures
        final(res)@ == old(res)@ + be_bytes(size as u64),
{
    write_u64_be(res, size as u64);
}

/// Reads a length: a big-endian `u64` that fits `usize`.
pub fn deserialize_usize(rdr: &mut Cursor) -> (r: Result<usize, Error>)
    ensures
        final(rdr).bytes() == old(rdr).bytes(),
        match decoded_usize(old(rdr).bytes(), old(rdr).position()) {
            Ok((n, next)) => r == Ok::<usize, Error>(n) && final(rdr).position() == next,
            Err(e) => r == Err::<usize, Error>(e) && final(rdr).position() == old(rdr).position(),
        },
{
    let start = rdr.pos;
    match rdr.read_u64() {
        Ok(n) => {
            if n > usize::MAX as u64 {
                proof {
                    use_type_invariant(&*rdr);
                }
                rdr.pos = start;
                Err(Error { kind: ErrorKind::LengthOverflow, detail: n })
            } else {
                Ok(n as usize)
            }
        },
        Err(e) => Err(e),
    }
}

/// Appends `data` behind its length.
pub fn serialize_u8_vec(res: &mut Vec<u8>, data: &[u8])
    ensures
        final(res)@ == old(res)@ + u8_vec_bytes(data@),
{
    let content_size = data.len();
    serialize_usize(res, content_size);
    let mut i: usize = 0;
    while i < content_size
        invariant
            content_size == data@.len(),
            i <= content_size,
            res@ == old(res)@ + be_bytes(content_size as u64) + data@.subrange(0, i as int),
        decreases content_size - i,
    {
        write_u8(res, data[i]);
        assert(data@.subrange(0, i as int).push(data@[i as int]) == data@.subrange(
            0,
            i + 1,
        ));
        i = i + 1;
    }
    assert(data@.subrange(0, content_size as int) == data@);
}

/// Reads a byte string: its length, then that many bytes.
pub fn deserialize_u8_vec(rdr: &mut Cursor) -> (r: Result<Vec<u8>, Error>)
    ensures
        final(rdr).bytes() == old(rdr).bytes(),
        match decoded_u8_vec(old(rdr).bytes(), old(rdr).position()) {
            Ok((data, next)) => r is Ok && r.unwrap()@ == data && final(rdr).position() == next,
            Err(e) => r == Err::<Vec<u8>, Error>(e) && final(rdr).position() == old(rdr).position(),
        },
{
    let start = rdr.pos;
    let size = match deserialize_usize(rdr) {
        Ok(n) => n,
        Err(e) => {
            return Err(e);
        },
    };
    proof {
        use_type_invariant(&*rdr);
    }
    if rdr.buf.len() - rdr.pos < size {
        rdr.pos = start;
        return Err(Error { kind: ErrorKind::UnexpectedEnd, detail: start as u64 });
    }
    let ghost first = rdr.pos as int;
    let mut res: Vec<u8> = Vec::new();
    let mut i: usize = 0;
    while i < size
        invariant
            rdr.buf@ == old(rdr).buf@,
            0 <= first,
            first + size <= rdr.buf@.len(),
            i <= size,
            rdr.pos == first + i,
            res@ == rdr.buf@.subrange(first, first + i),
        decreases size - i,
    {
        let b = match rdr.read_u8() {
            Ok(b) => b,
            Err(e) => {
                return Err(e);
            },
        };
        res.push(b);
        assert(res@ == rdr.buf@.subrange(first, first + i + 1));
        i = i + 1;
    }
    Ok(res)
}

/// Appends a transaction id as a big-endian `u64`.
pub fn serialize_xid(res: &mut Vec<u8>, xid: &Xid)
    ensures
        final(res)@ == old(res)@ + be_bytes(*xid),
{
    write_u64_be(res, *xid);
}

/// Reads a transaction id: a big-endian `u64`.
pub fn deserialize_xid(rdr: &mut Cursor) -> (r: Result<Xid, Error>)
    ensures
        final(rdr).bytes() == old(rdr).bytes(),
        match decoded_u64(old(rdr).bytes(), old(rdr).position()) {
            Ok((xid, next)) => r == Ok::<Xid, Error>(xid) && final(rdr).position() == next,
            Err(e) => r == Err::<Xid, Error>(e) && final(rdr).position() == old(rdr).position(),
        },
{
    rdr.read_u64()
}

} // verus!
