//! The byte cursor: sequential, seekable read access over an in-memory byte
//! buffer, with the fixed-width and string-reading primitives that the
//! archive decoders need. Strings stored in archives are ISO-8859-1 encoded;
//! decoding maps each byte to the character with the same code point.

use vstd::prelude::*;

use crate::error::ErrorKind;
use crate::error::TESError;

verus! {

/// The ISO-8859-1 decoding of a byte sequence: each byte becomes the
/// character with the same code point.
pub open spec fn latin1(s: Seq<u8>) -> Seq<char> {
    s.map_values(|b: u8| b as char)
}

/// The 16-bit little-endian integer stored at `pos` in `data`.
pub open spec fn le16_at(data: Seq<u8>, pos: int) -> u16 {
    vstd::bytes::spec_u16_from_le_bytes(data.subrange(pos, pos + 2))
}

/// The 32-bit little-endian integer stored at `pos` in `data`.
pub open spec fn le32_at(data: Seq<u8>, pos: int) -> u32 {
    vstd::bytes::spec_u32_from_le_bytes(data.subrange(pos, pos + 4))
}

/// The 64-bit little-endian integer stored at `pos` in `data`.
pub open spec fn le64_at(data: Seq<u8>, pos: int) -> u64 {
    vstd::bytes::spec_u64_from_le_bytes(data.subrange(pos, pos + 8))
}

/// The index of the first NUL byte at or after `i`, or `-1` if there is none.
pub open spec fn find_nul(s: Seq<u8>, i: int) -> int
    decreases s.len() - i,
{
    if i < 0 || i >= s.len() {
        -1
    } else if s[i] == 0 {
        i
    } else {
        find_nul(s, i + 1)
    }
}

/// The pieces of `s` split on NUL terminators, scanning from `i` with the
/// current piece having started at `start`, each piece ISO-8859-1 decoded. A
/// trailing piece without a terminator still counts; a trailing terminator
/// adds no empty piece.
pub open spec fn split_nul_from(s: Seq<u8>, i: int, start: int) -> Seq<Seq<char>>
    decreases s.len() - i,
{
    if i < 0 || i >= s.len() {
        if start < s.len() {
            seq![latin1(s.subrange(start, s.len() as int))]
        } else {
            seq![]
        }
    } else if s[i] == 0 {
        seq![latin1(s.subrange(start, i))] + split_nul_from(s, i + 1, i + 1)
    } else {
        split_nul_from(s, i + 1, start)
    }
}

/// The ordered list of NUL-terminated strings stored in a name block.
pub open spec fn split_nul(s: Seq<u8>) -> Seq<Seq<char>> {
    split_nul_from(s, 0, 0)
}

/// Relies on `String::push`: appends one character to the string.
#[verifier::external_body]
fn push_char(s: &mut String, c: char)
    ensures
        final(s)@ == old(s)@.push(c),
{
    s.push(c);
}

/// Decodes an ISO-8859-1 byte buffer into a `String` by mapping each byte to
/// the character with the same code point. No decoding failure is possible.
pub fn latin1_to_string(buffer: &[u8]) -> (r: String)
    ensures
        r@ == latin1(buffer@),
{
    let mut out = String::new();
    let mut i: usize = 0;
    proof {
        assert(latin1(buffer@.subrange(0, 0)) =~= Seq::<char>::empty());
    }
    while i < buffer.len()
        invariant
            i <= buffer@.len(),
            out@ == latin1(buffer@.subrange(0, i as int)),
        decreases buffer@.len() - i,
    {
        let b = buffer[i];
        push_char(&mut out, b as char);
        proof {
            assert(buffer@.subrange(0, i + 1) =~= buffer@.subrange(0, i as int).push(
                buffer@[i as int],
            ));
            assert(latin1(buffer@.subrange(0, i + 1)) =~= latin1(
                buffer@.subrange(0, i as int),
            ).push(b as char));
        }
        i = i + 1;
    }
    proof {
        assert(buffer@.subrange(0, buffer@.len() as int) =~= buffer@);
    }
    out
}

/// The byte cursor over one archive's contents. A fresh cursor is made per
/// parse or extraction; the archive index itself never holds one.
pub struct TESReader {
    /// The archive's bytes.
    data: Vec<u8>,
    /// The read position. May point past the end of the data, in which case
    /// every read fails.
    pos: u64,
}

impl TESReader {
    /// The bytes this cursor reads from.
    pub closed spec fn bytes(&self) -> Seq<u8> {
        self.data@
    }

    /// The current read position.
    pub closed spec fn pos(&self) -> int {
        self.pos as int
    }

    /// A cursor's position is never negative.
    pub broadcast proof fn lemma_pos_nonneg(&self)
        ensures
            #[trigger] self.pos() >= 0,
    {
    }

    /// Whether `n` more bytes are available at the current position.
    pub open spec fn can_read(&self, n: int) -> bool {
        self.pos() + n <= self.bytes().len()
    }

    /// Whether `n` more bytes are available at the current position.
    pub fn has_bytes(&self, n: u64) -> (r: bool)
        ensures
            r == self.can_read(n as int),
    {
        self.pos <= self.data.len() as u64 && n <= self.data.len() as u64 - self.pos
    }

    /// Wraps a byte buffer in a cursor positioned at its start.
    pub fn from_reader(data: Vec<u8>) -> (r: Self)
        ensures
            r.bytes() == data@,
            r.pos() == 0,
    {
        TESReader { data, pos: 0 }
    }

    /// Moves the cursor to an absolute byte position.
    pub fn seek(&mut self, pos: u64)
        ensures
            final(self).bytes() == old(self).bytes(),
            final(self).pos() == pos as int,
    {
        self.pos = pos;
    }

    /// Moves the cursor forward by `n` bytes. A position past the end of the
    /// data is allowed; reads there fail.
    pub fn skip(&mut self, n: u64)
        ensures
            final(self).bytes() == old(self).bytes(),
            old(self).pos() + n <= u64::MAX ==> final(self).pos() == old(self).pos() + n,
            old(self).pos() + n > u64::MAX ==> final(self).pos() == u64::MAX,
    {
        self.pos = self.pos.saturating_add(n);
    }

    /// Reads exactly `n` bytes at the current position, advancing past them.
    /// Fails with `ShortRead`, leaving the cursor unmoved, when fewer are
    /// available.
    pub fn read_exact_vec(&mut self, n: usize) -> (r: Result<Vec<u8>, TESError>)
        ensures
            final(self).bytes() == old(self).bytes(),
            match r {
                Ok(v) => {
                    &&& old(self).can_read(n as int)
                    &&& v@ == old(self).bytes().subrange(old(self).pos(), old(self).pos() + n)
                    &&& final(self).pos() == old(self).pos() + n
                },
                Err(e) => {
                    &&& !old(self).can_read(n as int)
                    &&& e.kind() == ErrorKind::ShortRead
                    &&& final(self).pos() == old(self).pos()
                },
            },
    {
        if self.pos > self.data.len() as u64 || n as u64 > self.data.len() as u64 - self.pos {
            return Err(TESError::ShortRead(String::from_str("Unexpected end of archive data")));
        }
        let start = self.pos as usize;
        let piece = vstd::slice::slice_subrange(self.data.as_slice(), start, start + n);
        let out = vstd::slice::slice_to_vec(piece);
        self.pos = self.pos + n as u64;
        Ok(out)
    }

    /// Parses one byte from the underlying buffer.
    pub fn parse_byte(&mut self) -> (r: Result<u8, TESError>)
        ensures
            final(self).bytes() == old(self).bytes(),
            match r {
                Ok(b) => {
                    &&& old(self).can_read(1)
                    &&& b == old(self).bytes()[old(self).pos()]
                    &&& final(self).pos() == old(self).pos() + 1
                },
                Err(e) => {
                    &&& !old(self).can_read(1)
                    &&& e.kind() == ErrorKind::ShortRead
                    &&& final(self).pos() == old(self).pos()
                },
            },
    {
        let v = self.read_exact_vec(1)?;
        Ok(v[0])
    }

    /// Parses a little-endian 16-bit integer from the underlying buffer.
    pub fn parse_short(&mut self) -> (r: Result<u16, TESError>)
        ensures
            final(self).bytes() == old(self).bytes(),
            match r {
                Ok(x) => {
                    &&& old(self).can_read(2)
                    &&& x == le16_at(old(self).bytes(), old(self).pos())
                    &&& final(self).pos() == old(self).pos() + 2
                },
                Err(e) => {
                    &&& !old(self).can_read(2)
                    &&& e.kind() == ErrorKind::ShortRead
                    &&& final(self).pos() == old(self).pos()
                },
            },
    {
        let v = self.read_exact_vec(2)?;
        Ok(vstd::bytes::u16_from_le_bytes(v.as_slice()))
    }

    /// Parses a little-endian 32-bit integer from the underlying buffer.
    pub fn parse_u32(&mut self) -> (r: Result<u32, TESError>)
        ensures
            final(self).bytes() == old(self).bytes(),
            match r {
                Ok(x) => {
                    &&& old(self).can_read(4)
                    &&& x == le32_at(old(self).bytes(), old(self).pos())
                    &&& final(self).pos() == old(self).pos() + 4
                },
                Err(e) => {
                    &&& !old(self).can_read(4)
                    &&& e.kind() == ErrorKind::ShortRead
                    &&& final(self).pos() == old(self).pos()
                },
            },
    {
        let v = self.read_exact_vec(4)?;
        Ok(vstd::bytes::u32_from_le_bytes(v.as_slice()))
    }

    /// Parses a little-endian 64-bit integer from the underlying buffer.
    pub fn parse_u64(&mut self) -> (r: Result<u64, TESError>)
        ensures
            final(self).bytes() == old(self).bytes(),
            match r {
                Ok(x) => {
                    &&& old(self).can_read(8)
                    &&& x == le64_at(old(self).bytes(), old(self).pos())
                    &&& final(self).pos() == old(self).pos() + 8
                },
                Err(e) => {
                    &&& !old(self).can_read(8)
                    &&& e.kind() == ErrorKind::ShortRead
                    &&& final(self).pos() == old(self).pos()
                },
            },
    {
        let v = self.read_exact_vec(8)?;
        Ok(vstd::bytes::u64_from_le_bytes(v.as_slice()))
    }

    /// Reads bytes until a NUL is encountered, returning the decoded string
    /// without the terminator and leaving the cursor just past it. Fails with
    /// `ShortRead`, leaving the cursor unmoved, when no NUL follows.
    pub fn parse_zstring(&mut self) -> (r: Result<String, TESError>)
        ensures
            final(self).bytes() == old(self).bytes(),
            match r {
                Ok(s) => {
                    &&& find_nul(old(self).bytes(), old(self).pos()) >= 0
                    &&& s@ == latin1(
                        old(self).bytes().subrange(
                            old(self).pos(),
                            find_nul(old(self).bytes(), old(self).pos()),
                        ),
                    )
                    &&& final(self).pos() == find_nul(old(self).bytes(), old(self).pos()) + 1
                },
                Err(e) => {
                    &&& find_nul(old(self).bytes(), old(self).pos()) == -1
                    &&& e.kind() == ErrorKind::ShortRead
                    &&& final(self).pos() == old(self).pos()
                },
            },
    {
        if self.pos > self.data.len() as u64 {
            return Err(TESError::ShortRead(String::from_str("Unterminated string")));
        }
        let mut j = self.pos as usize;
        while j < self.data.len() && self.data[j] != 0
            invariant
                self.pos() <= j <= self.bytes().len(),
                find_nul(self.bytes(), self.pos()) == find_nul(self.bytes(), j as int),
            decreases self.bytes().len() - j,
        {
            j = j + 1;
        }
        if j == self.data.len() {
            return Err(TESError::ShortRead(String::from_str("Unterminated string")));
        }
        let count = j - self.pos as usize;
        let buf = match self.read_exact_vec(count) {
            Ok(b) => b,
            Err(e) => {
                return Err(e);
            },
        };
        let out = latin1_to_string(buf.as_slice());
        match self.parse_byte() {
            Ok(_) => Ok(out),
            Err(e) => Err(e),
        }
    }

    /// Reads a string prefixed with a one-byte length. Not NUL terminated.
    pub fn parse_bstring(&mut self) -> (r: Result<String, TESError>)
        ensures
            final(self).bytes() == old(self).bytes(),
            match r {
                Ok(s) => {
                    &&& old(self).can_read(1)
                    &&& old(self).can_read(1 + old(self).bytes()[old(self).pos()] as int)
                    &&& s@ == latin1(
                        old(self).bytes().subrange(
                            old(self).pos() + 1,
                            old(self).pos() + 1 + old(self).bytes()[old(self).pos()] as int,
                        ),
                    )
                    &&& final(self).pos() == old(self).pos() + 1 + old(self).bytes()[old(
                        self,
                    ).pos()] as int
                },
                Err(e) => {
                    &&& !(old(self).can_read(1) && old(self).can_read(
                        1 + old(self).bytes()[old(self).pos()] as int,
                    ))
                    &&& e.kind() == ErrorKind::ShortRead
                },
            },
    {
        let buf = self.read_string_with_len_prefix()?;
        Ok(latin1_to_string(buf.as_slice()))
    }

    /// Reads a string prefixed with a two-byte length. Not NUL terminated.
    pub fn parse_long_bstring(&mut self) -> (r: Result<String, TESError>)
        ensures
            final(self).bytes() == old(self).bytes(),
            match r {
                Ok(s) => {
                    &&& old(self).can_read(2)
                    &&& old(self).can_read(
                        2 + le16_at(old(self).bytes(), old(self).pos()) as int,
                    )
                    &&& s@ == latin1(
                        old(self).bytes().subrange(
                            old(self).pos() + 2,
                            old(self).pos() + 2 + le16_at(old(self).bytes(), old(self).pos()) as int,
                        ),
                    )
                    &&& final(self).pos() == old(self).pos() + 2 + le16_at(
                        old(self).bytes(),
                        old(self).pos(),
                    ) as int
                },
                Err(e) => {
                    &&& !(old(self).can_read(2) && old(self).can_read(
                        2 + le16_at(old(self).bytes(), old(self).pos()) as int,
                    ))
                    &&& e.kind() == ErrorKind::ShortRead
                },
            },
    {
        let buf = self.read_string_with_dlen_prefix()?;
        Ok(latin1_to_string(buf.as_slice()))
    }

    /// Reads a string prefixed with a one-byte length and terminated with a
    /// NUL, which is checked and stripped. A zero length or a missing
    /// terminator is a structural error.
    pub fn parse_bzstring(&mut self) -> (r: Result<String, TESError>)
        ensures
            final(self).bytes() == old(self).bytes(),
            match r {
                Ok(s) => {
                    &&& spec_bzstring_at(old(self).bytes(), old(self).pos()) == Ok::<
                        Seq<char>,
                        ErrorKind,
                    >(s@)
                    &&& final(self).pos() == old(self).pos() + 1 + old(self).bytes()[old(
                        self,
                    ).pos()] as int
                },
                Err(e) => spec_bzstring_at(old(self).bytes(), old(self).pos()) == Err::<
                    Seq<char>,
                    ErrorKind,
                >(e.kind()),
            },
    {
        let buf = self.read_string_with_len_prefix()?;
        if buf.len() == 0 {
            return Err(TESError::StructuralParseError(
                String::from_str("Length-prefixed string is missing its terminator"),
            ));
        }
        if buf[buf.len() - 1] != 0 {
            return Err(TESError::StructuralParseError(
                String::from_str("Length-prefixed string is missing its terminator"),
            ));
        }
        let body = vstd::slice::slice_subrange(buf.as_slice(), 0, buf.len() - 1);
        proof {
            assert(buf@.subrange(0, buf@.len() - 1) =~= old(self).bytes().subrange(
                old(self).pos() + 1,
                old(self).pos() + old(self).bytes()[old(self).pos()] as int,
            ));
        }
        Ok(latin1_to_string(body))
    }

    /// Reads a block of NUL-terminated ISO-8859-1 strings and splits it into
    /// an ordered list of decoded strings.
    pub fn parse_bstring_block(&mut self, total_length: usize) -> (r: Result<Vec<String>, TESError>)
        ensures
            final(self).bytes() == old(self).bytes(),
            match r {
                Ok(v) => {
                    &&& old(self).can_read(total_length as int)
                    &&& v.deep_view() == split_nul(
                        old(self).bytes().subrange(
                            old(self).pos(),
                            old(self).pos() + total_length,
                        ),
                    )
                    &&& final(self).pos() == old(self).pos() + total_length
                },
                Err(e) => {
                    &&& !old(self).can_read(total_length as int)
                    &&& e.kind() == ErrorKind::ShortRead
                    &&& final(self).pos() == old(self).pos()
                },
            },
    {
        let block = self.read_exact_vec(total_length)?;
        Ok(split_block(&block))
    }

    /// Reads a one-byte length, then that many raw bytes.
    fn read_string_with_len_prefix(&mut self) -> (r: Result<Vec<u8>, TESError>)
        ensures
            final(self).bytes() == old(self).bytes(),
            match r {
                Ok(v) => {
                    &&& old(self).can_read(1)
                    &&& old(self).can_read(1 + old(self).bytes()[old(self).pos()] as int)
                    &&& v@ == old(self).bytes().subrange(
                        old(self).pos() + 1,
                        old(self).pos() + 1 + old(self).bytes()[old(self).pos()] as int,
                    )
                    &&& final(self).pos() == old(self).pos() + 1 + old(self).bytes()[old(
                        self,
                    ).pos()] as int
                },
                Err(e) => {
                    &&& !(old(self).can_read(1) && old(self).can_read(
                        1 + old(self).bytes()[old(self).pos()] as int,
                    ))
                    &&& e.kind() == ErrorKind::ShortRead
                },
            },
    {
        let length = self.parse_byte()?;
        self.read_exact_vec(length as usize)
    }

    /// Reads a two-byte length, then that many raw bytes.
    fn read_string_with_dlen_prefix(&mut self) -> (r: Result<Vec<u8>, TESError>)
        ensures
            final(self).bytes() == old(self).bytes(),
            match r {
                Ok(v) => {
                    &&& old(self).can_read(2)
                    &&& old(self).can_read(
                        2 + le16_at(old(self).bytes(), old(self).pos()) as int,
                    )
                    &&& v@ == old(self).bytes().subrange(
                        old(self).pos() + 2,
                        old(self).pos() + 2 + le16_at(old(self).bytes(), old(self).pos()) as int,
                    )
                    &&& final(self).pos() == old(self).pos() + 2 + le16_at(
                        old(self).bytes(),
                        old(self).pos(),
                    ) as int
                },
                Err(e) => {
                    &&& !(old(self).can_read(2) && old(self).can_read(
                        2 + le16_at(old(self).bytes(), old(self).pos()) as int,
                    ))
                    &&& e.kind() == ErrorKind::ShortRead
                },
            },
    {
        let length = self.parse_short()?;
        self.read_exact_vec(length as usize)
    }
}

/// What a one-byte-length-prefixed, NUL-terminated string at `pos` decodes
/// to, or the error that reading it raises.
pub open spec fn spec_bzstring_at(data: Seq<u8>, pos: int) -> Result<Seq<char>, ErrorKind> {
    if pos + 1 > data.len() {
        Err(ErrorKind::ShortRead)
    } else {
        let len = data[pos] as int;
        if pos + 1 + len > data.len() {
            Err(ErrorKind::ShortRead)
        } else if len == 0 || data[pos + len] != 0 {
            Err(ErrorKind::StructuralParse)
        } else {
            Ok(latin1(data.subrange(pos + 1, pos + len)))
        }
    }
}

/// Splits a fully-read name block on NUL terminators.
fn split_block(block: &Vec<u8>) -> (r: Vec<String>)
    ensures
        r.deep_view() == split_nul(block@),
{
    let ghost s = block@;
    let n = block.len();
    let mut out: Vec<String> = Vec::new();
    let mut cur = String::new();
    let mut i: usize = 0;
    let mut start: usize = 0;
    proof {
        assert(latin1(s.subrange(0, 0)) =~= Seq::<char>::empty());
        assert(out.deep_view() + split_nul_from(s, 0, 0) =~= split_nul_from(s, 0, 0));
    }
    while i < n
        invariant
            n == s.len(),
            s == block@,
            start <= i <= n,
            cur@ == latin1(s.subrange(start as int, i as int)),
            split_nul(s) == out.deep_view() + split_nul_from(s, i as int, start as int),
        decreases n - i,
    {
        let b = block[i];
        if b == 0 {
            let ghost dv = out.deep_view();
            let ghost rest = split_nul_from(s, i + 1, i + 1);
            proof {
                assert(split_nul_from(s, i as int, start as int) == seq![
                    latin1(s.subrange(start as int, i as int)),
                ] + rest);
            }
            let finished = cur;
            cur = String::new();
            out.push(finished);
            proof {
                assert(out.deep_view() =~~= dv.push(finished@));
                assert(dv + (seq![finished@] + rest) =~= (dv.push(finished@)) + rest);
                assert(split_nul(s) == out.deep_view() + rest);
            }
            start = i + 1;
            proof {
                assert(cur@ =~= latin1(s.subrange(start as int, start as int)));
            }
        } else {
            push_char(&mut cur, b as char);
            proof {
                assert(s.subrange(start as int, i + 1) =~= s.subrange(start as int, i as int).push(
                    s[i as int],
                ));
                assert(latin1(s.subrange(start as int, i + 1)) =~= latin1(
                    s.subrange(start as int, i as int),
                ).push(b as char));
            }
        }
        i = i + 1;
    }
    if start < n {
        let ghost dv = out.deep_view();
        proof {
            assert(split_nul_from(s, n as int, start as int) == seq![
                latin1(s.subrange(start as int, n as int)),
            ]);
        }
        out.push(cur);
        proof {
            assert(out.deep_view() =~~= dv.push(latin1(s.subrange(start as int, n as int))));
            assert(dv + seq![latin1(s.subrange(start as int, n as int))] =~= dv.push(
                latin1(s.subrange(start as int, n as int)),
            ));
        }
    } else {
        proof {
            assert(split_nul_from(s, n as int, start as int) =~= Seq::<Seq<char>>::empty());
            assert(out.deep_view() + Seq::<Seq<char>>::empty() =~= out.deep_view());
        }
    }
    out
}

} // verus!
