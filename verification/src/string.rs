//! Fixed-width, NUL-terminated name fields, as used by the save-file
//! directory entries.

use vstd::prelude::*;
use vstd::string::StringSliceAdditionalSpecFns;
use vstd::string::StrSliceExecFns;

use crate::bytes::zeros;
use crate::error::BinError;

verus! {

/// An error returned from building a fixed string.
#[derive(Debug, Clone, Copy, PartialEq, Eq, Structural)]
pub enum ParseFixedStringError {
    /// The string does not leave room for the NUL terminator.
    BufferOverflow,
    /// The string holds a NUL byte of its own.
    InteriorNul,
}

/// Does `s` begin with `p`?
pub open spec fn starts_with(s: Seq<u8>, p: Seq<u8>) -> bool {
    p.len() <= s.len() && s.take(p.len() as int) == p
}

/// The offset of the first zero byte at or after offset `j`, scanning at
/// most `w` bytes from `pos`: `-1` if the window holds none, `-2` if the
/// buffer ends first.
pub open spec fn first_zero(buf: Seq<u8>, pos: int, w: int, j: int) -> int
    decreases w - j,
{
    if j >= w {
        -1
    } else if pos + j >= buf.len() {
        -2
    } else if buf[pos + j] == 0 {
        j
    } else {
        first_zero(buf, pos, w, j + 1)
    }
}

/// Decodes a `w`-byte name field at `pos`: the bytes before the first NUL
/// are the name, the rest of the field is ignored, and the cursor lands a
/// full `w` bytes further whether or not the buffer reaches that far.
pub open spec fn name_dec(buf: Seq<u8>, pos: int, w: int) -> Option<(Seq<u8>, int)> {
    let fz = first_zero(buf, pos, w, 0);
    if fz >= 0 {
        Some((buf.subrange(pos, pos + fz), pos + w))
    } else {
        None
    }
}

/// Encodes a name into a `w`-byte field: the name bytes then zero padding.
pub open spec fn name_enc(content: Seq<u8>, w: int) -> Seq<u8> {
    content + zeros(w - content.len())
}

/// A name of at most 11 bytes stored in a fixed 12-byte, NUL-padded field.
#[derive(Debug, Clone, PartialEq, Eq)]
pub struct FixedString12 {
    bytes: Vec<u8>,
}

impl FixedString12 {
    /// The name bytes, without padding, for use in contracts.
    pub closed spec fn content(self) -> Seq<u8> {
        self.bytes@
    }

    /// Structural validity: the name leaves room for its terminator in a
    /// 12-byte field and holds no NUL of its own.
    pub open spec fn wf(self) -> bool {
        self.content().len() < 12 && forall|i: int|
            0 <= i < self.content().len() ==> self.content()[i] != 0
    }

    /// Creates a new, empty `FixedString12`.
    pub fn new() -> (r: Self)
        ensures
            r.content() == Seq::<u8>::empty(),
            r.wf(),
    {
        let r = Self { bytes: Vec::new() };
        proof {
            assert(r.content() =~= Seq::<u8>::empty());
        }
        r
    }

    /// Builds a `FixedString12` from raw name bytes.
    pub fn from_bytes(name: &[u8]) -> (r: Result<Self, ParseFixedStringError>)
        ensures
            match r {
                Ok(f) => f.content() == name@ && f.wf(),
                Err(er) => (name@.len() >= 12 && er == ParseFixedStringError::BufferOverflow) || (
                name@.len() < 12 && er == ParseFixedStringError::InteriorNul && exists|i: int|
                    0 <= i < name@.len() && name@[i] == 0),
            },
    {
        if name.len() >= 12 {
            return Err(ParseFixedStringError::BufferOverflow);
        }
        let mut bytes: Vec<u8> = Vec::new();
        let mut i: usize = 0;
        while i < name.len()
            invariant
                name@.len() < 12,
                i <= name@.len(),
                bytes@ == name@.take(i as int),
                forall|k: int| 0 <= k < i ==> name@[k] != 0,
            decreases name@.len() - i,
        {
            let b = name[i];
            if b == 0 {
                return Err(ParseFixedStringError::InteriorNul);
            }
            bytes.push(b);
            proof {
                assert(bytes@ =~= name@.take(i + 1));
            }
            i += 1;
        }
        proof {
            assert(name@.take(name@.len() as int) =~= name@);
        }
        Ok(Self { bytes })
    }

    /// Builds a `FixedString12` from a string slice's UTF-8 bytes.
    pub fn from_str(s: &str) -> (r: Result<Self, ParseFixedStringError>)
        ensures
            match r {
                Ok(f) => f.content() == s.spec_bytes() && f.wf(),
                Err(er) => (s.spec_bytes().len() >= 12 && er
                    == ParseFixedStringError::BufferOverflow) || (s.spec_bytes().len() < 12 && er
                    == ParseFixedStringError::InteriorNul),
            },
    {
        let bytes = s.as_bytes_vec();
        Self::from_bytes(bytes.as_slice())
    }

    /// The name rendered as a string, where its bytes are valid UTF-8.
    pub fn to_string(&self) -> (r: Option<String>)
        ensures
            match r {
                Some(s) => vstd::utf8::encode_utf8(s@) == self.content(),
                None => true,
            },
    {
        string_from_bytes(&self.bytes)
    }

    /// Does the name begin with the given byte prefix?
    pub fn starts_with_bytes(&self, prefix: &[u8]) -> (r: bool)
        ensures
            r == starts_with(self.content(), prefix@),
    {
        if prefix.len() > self.bytes.len() {
            proof {
                assert(!starts_with(self.content(), prefix@));
            }
            return false;
        }
        let mut i: usize = 0;
        while i < prefix.len()
            invariant
                prefix@.len() <= self.bytes@.len(),
                i <= prefix@.len(),
                forall|k: int| 0 <= k < i ==> self.bytes@[k] == prefix@[k],
            decreases prefix@.len() - i,
        {
            if self.bytes[i] != prefix[i] {
                proof {
                    assert(self.content().take(prefix@.len() as int)[i as int] != prefix@[
                    i as int]);
                }
                return false;
            }
            i += 1;
        }
        proof {
            assert(self.content().take(prefix@.len() as int) =~= prefix@);
        }
        true
    }

    /// Is the name exactly the given bytes?
    pub fn equals_bytes(&self, other: &[u8]) -> (r: bool)
        ensures
            r == (self.content() == other@),
    {
        if self.bytes.len() != other.len() {
            proof {
                assert(self.content() != other@);
            }
            return false;
        }
        let mut i: usize = 0;
        while i < other.len()
            invariant
                self.bytes@.len() == other@.len(),
                i <= other@.len(),
                forall|k: int| 0 <= k < i ==> self.bytes@[k] == other@[k],
            decreases other@.len() - i,
        {
            if self.bytes[i] != other[i] {
                return false;
            }
            i += 1;
        }
        proof {
            assert(self.content() =~= other@);
        }
        true
    }

    /// Appends the `w`-byte field: the name bytes then zero padding.
    pub fn encode(&self, out: &mut Vec<u8>, w: usize)
        requires
            self.wf(),
            self.content().len() < w,
        ensures
            final(out)@ == old(out)@ + name_enc(self.content(), w as int),
    {
        let mut i: usize = 0;
        while i < self.bytes.len()
            invariant
                out@ == old(out)@ + self.bytes@.take(i as int),
                i <= self.bytes@.len(),
            decreases self.bytes@.len() - i,
        {
            out.push(self.bytes[i]);
            proof {
                assert(out@ =~= old(out)@ + self.bytes@.take(i + 1));
            }
            i += 1;
        }
        proof {
            assert(self.bytes@.take(self.bytes@.len() as int) =~= self.bytes@);
        }
        let mut j: usize = self.bytes.len();
        while j < w
            invariant
                self.bytes@.len() <= j <= w,
                out@ == old(out)@ + self.bytes@ + zeros(j - self.bytes@.len()),
            decreases w - j,
        {
            out.push(0u8);
            proof {
                assert(out@ =~= old(out)@ + self.bytes@ + zeros(j + 1 - self.bytes@.len()));
            }
            j += 1;
        }
    }

    /// Decodes a `w`-byte name field at `pos`: scans for the NUL terminator,
    /// takes the bytes before it, and steps the cursor a full `w` bytes,
    /// even past the end of the buffer.
    pub fn decode(buf: &[u8], pos: usize, w: usize) -> (r: Result<(Self, usize), BinError>)
        requires
            pos <= buf@.len(),
            buf@.len() <= 0x1000_0000,
            w <= 12,
        ensures
            match r {
                Ok(t) => name_dec(buf@, pos as int, w as int) == Some(
                    (t.0.content(), t.1 as int),
                ) && t.0.wf() && t.1 == pos + w,
                Err(_) => name_dec(buf@, pos as int, w as int) is None,
            },
    {
        let mut bytes: Vec<u8> = Vec::new();
        let mut j: usize = 0;
        while j < w
            invariant
                pos <= buf@.len(),
                buf@.len() <= 0x1000_0000,
                w <= 12,
                j <= w,
                bytes@ == buf@.subrange(pos as int, pos + j),
                pos + j <= buf@.len(),
                forall|k: int| 0 <= k < j ==> #[trigger] buf@[pos + k] != 0,
                first_zero(buf@, pos as int, w as int, 0) == first_zero(
                    buf@,
                    pos as int,
                    w as int,
                    j as int,
                ),
            decreases w - j,
        {
            if pos + j >= buf.len() {
                return Err(BinError::Eof { pos: pos + j });
            }
            let b = buf[pos + j];
            if b == 0 {
                let r = Self { bytes };
                proof {
                    assert(first_zero(buf@, pos as int, w as int, j as int) == j);
                    assert(r.content() =~= buf@.subrange(pos as int, pos + j));
                    assert forall|i: int| 0 <= i < r.content().len() implies r.content()[i]
                        != 0 by {
                        assert(r.content()[i] == buf@[pos + i]);
                        assert(buf@[pos + i] != 0);
                    }
                    assert(r.wf());
                    assert(name_dec(buf@, pos as int, w as int) == Some(
                        (r.content(), pos + w as int),
                    ));
                }
                return Ok((r, pos + w));
            }
            bytes.push(b);
            proof {
                assert(bytes@ =~= buf@.subrange(pos as int, pos + j + 1));
            }
            j += 1;
        }
        Err(BinError::InvalidName { pos })
    }
}

/// A name written into its field and decoded back is recovered exactly, and
/// the cursor lands at the end of the field.
pub proof fn lemma_name_round_trip(content: Seq<u8>, w: int, buf: Seq<u8>, pos: int)
    requires
        content.len() < w,
        forall|i: int| 0 <= i < content.len() ==> content[i] != 0,
        0 <= pos,
        pos + w <= buf.len(),
        buf.subrange(pos, pos + w) == name_enc(content, w),
    ensures
        name_dec(buf, pos, w) == Some((content, pos + w)),
{
    let whole = name_enc(content, w);
    assert(forall|i: int| 0 <= i < w ==> buf[pos + i] == #[trigger] whole[i]) by {
        assert(forall|i: int|
            0 <= i < w ==> buf.subrange(pos, pos + w)[i] == #[trigger] whole[i]);
    }
    assert forall|k: int| 0 <= k < content.len() implies #[trigger] buf[pos + k] != 0 by {
        assert(whole[k] == (content + zeros(w - content.len()))[k]);
        assert(whole[k] == content[k]);
        assert(buf[pos + k] == whole[k]);
    }
    assert(whole[content.len() as int] == 0);
    assert(buf[pos + content.len()] == 0);
    lemma_first_zero_finds(buf, pos, w, 0, content.len() as int);
    assert(buf.subrange(pos, pos + content.len() as int) =~= content);
}

/// If the bytes before offset `z` are nonzero and the byte at `z` is zero,
/// the scan starting at or before `z` stops exactly at `z`.
proof fn lemma_first_zero_finds(buf: Seq<u8>, pos: int, w: int, j: int, z: int)
    requires
        0 <= j <= z < w,
        0 <= pos,
        pos + w <= buf.len(),
        forall|k: int| j <= k < z ==> #[trigger] buf[pos + k] != 0,
        buf[pos + z] == 0,
    ensures
        first_zero(buf, pos, w, j) == z,
    decreases z - j,
{
    if j < z {
        lemma_first_zero_finds(buf, pos, w, j + 1, z);
    }
}

/// Builds a `String` from raw bytes where they are valid UTF-8. Relies on
/// `String::from_utf8`, which succeeds exactly on UTF-8 input and returns
/// the string those bytes spell.
#[verifier::external_body]
fn string_from_bytes(bytes: &Vec<u8>) -> (r: Option<String>)
    ensures
        match r {
            Some(s) => vstd::utf8::encode_utf8(s@) == bytes@,
            None => true,
        },
{
    String::from_utf8(bytes.clone()).ok()
}

} // verus!
