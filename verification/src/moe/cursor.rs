//! Reading GGUF values from bytes.
//!
//! Each reader is stated as a function of the bytes and an offset: it gives the
//! value and the offset behind it, or the error.

use vstd::prelude::*;
use vstd::slice::slice_subrange;
use vstd::string::StringExecFns;
use vstd::utf8::{decode_utf8, valid_utf8};
use crate::error::{CortexError, ErrorView};
use crate::moe::gguf::{
    GGUF_VALUE_TYPE_ARRAY, GGUF_VALUE_TYPE_BOOL, GGUF_VALUE_TYPE_FLOAT32, GGUF_VALUE_TYPE_FLOAT64,
    GGUF_VALUE_TYPE_INT16, GGUF_VALUE_TYPE_INT32, GGUF_VALUE_TYPE_INT64, GGUF_VALUE_TYPE_INT8,
    GGUF_VALUE_TYPE_STRING, GGUF_VALUE_TYPE_UINT16, GGUF_VALUE_TYPE_UINT32, GGUF_VALUE_TYPE_UINT64,
    GGUF_VALUE_TYPE_UINT8,
};
use crate::text::{decimal, decimal_text, signed_decimal, signed_text};

verus! {

/// The text `std::string::FromUtf8Error` displays for bytes that are not UTF-8.
pub uninterp spec fn utf8_error_text(bytes: Seq<u8>) -> Seq<char>;

/// `String::from_utf8` on a copy of `bytes`: accepts exactly the valid UTF-8
/// sequences and gives the characters they encode. The displayed text of its
/// error is named, not described.
#[verifier::external_body]
fn utf8_string(bytes: &[u8]) -> (r: Result<String, String>)
    ensures
        match r {
            Ok(s) => valid_utf8(bytes@) && s@ == decode_utf8(bytes@),
            Err(text) => !valid_utf8(bytes@) && text@ == utf8_error_text(bytes@),
        },
{
    match String::from_utf8(bytes.to_vec()) {
        Ok(s) => Ok(s),
        Err(e) => Err(format!("{e}")),
    }
}

/// A value and the offset behind it.
pub type Read<T> = Result<(T, nat), ErrorView>;

// ── Fixed-width values ───────────────────────────────────────────────

/// The little-endian value of `b`.
pub open spec fn little_endian(b: Seq<u8>) -> nat
    decreases b.len(),
{
    if b.len() == 0 { 0 } else { b[0] as nat + 256 * little_endian(b.drop_first()) }
}

/// `256` to the power `n`, for widths up to eight bytes.
pub open spec fn byte_range(n: nat) -> nat
    decreases n,
{
    if n == 0 { 1 } else { 256 * byte_range((n - 1) as nat) }
}

/// The two's complement value of a little-endian sequence.
pub open spec fn signed_little_endian(b: Seq<u8>) -> int {
    let v = little_endian(b) as int;
    let range = byte_range(b.len()) as int;
    if 2 * v >= range { v - range } else { v }
}

pub proof fn lemma_byte_range()
    ensures
        byte_range(0) == 1,
        byte_range(1) == 0x100,
        byte_range(2) == 0x1_0000,
        byte_range(4) == 0x1_0000_0000,
        byte_range(8) == 0x1_0000_0000_0000_0000,
{
    reveal_with_fuel(byte_range, 9);
}

pub proof fn lemma_little_endian_bound(b: Seq<u8>)
    ensures
        little_endian(b) < byte_range(b.len()),
    decreases b.len(),
{
    if b.len() > 0 {
        lemma_little_endian_bound(b.drop_first());
    }
}

proof fn lemma_byte_range_monotone(m: nat, n: nat)
    requires
        m <= n,
    ensures
        byte_range(m) <= byte_range(n),
    decreases n,
{
    if m < n {
        lemma_byte_range_monotone(m, (n - 1) as nat);
    }
}

/// The little-endian value of at most eight bytes.
pub fn little_endian_value(bytes: &[u8]) -> (r: u64)
    requires
        bytes@.len() <= 8,
    ensures
        r == little_endian(bytes@),
{
    let n: usize = bytes.len();
    let mut v: u64 = 0;
    let mut i: usize = n;
    assert(bytes@.subrange(n as int, n as int) =~= Seq::<u8>::empty());
    while i > 0
        invariant
            i <= n,
            n == bytes@.len(),
            n <= 8,
            v == little_endian(bytes@.subrange(i as int, n as int)),
        decreases i,
    {
        let ghost rest = bytes@.subrange(i as int, n as int);
        let ghost longer = bytes@.subrange(i - 1, n as int);
        proof {
            assert(longer.drop_first() =~= rest);
            lemma_little_endian_bound(longer);
            lemma_byte_range_monotone(longer.len(), 8);
            lemma_byte_range();
        }
        v = bytes[i - 1] as u64 + 256 * v;
        i -= 1;
    }
    assert(bytes@.subrange(0, n as int) =~= bytes@);
    v
}

/// The next `len` bytes.
pub open spec fn take(b: Seq<u8>, off: nat, len: nat, path: Seq<char>) -> Read<Seq<u8>> {
    if off + len > usize::MAX {
        Err(ErrorView::ModelLoad { path, reason: "cursor overflow"@ })
    } else if off + len > b.len() {
        Err(ErrorView::ModelLoad { path, reason: "unexpected EOF while parsing GGUF"@ })
    } else {
        Ok((b.subrange(off as int, (off + len) as int), off + len))
    }
}

/// An unsigned value of `width` bytes.
pub open spec fn unsigned(b: Seq<u8>, off: nat, width: nat, path: Seq<char>) -> Read<u64> {
    match take(b, off, width, path) {
        Ok((s, o)) => Ok((little_endian(s) as u64, o)),
        Err(e) => Err(e),
    }
}

/// A two's complement value of `width` bytes.
pub open spec fn signed(b: Seq<u8>, off: nat, width: nat, path: Seq<char>) -> Read<i64> {
    match take(b, off, width, path) {
        Ok((s, o)) => Ok((signed_little_endian(s) as i64, o)),
        Err(e) => Err(e),
    }
}

/// A four-byte unsigned value.
pub open spec fn word(b: Seq<u8>, off: nat, path: Seq<char>) -> Read<u32> {
    match unsigned(b, off, 4, path) {
        Ok((v, o)) => Ok((v as u32, o)),
        Err(e) => Err(e),
    }
}

/// A string: its length in eight bytes, then its UTF-8 bytes.
pub open spec fn string(b: Seq<u8>, off: nat, path: Seq<char>) -> Read<Seq<char>> {
    match unsigned(b, off, 8, path) {
        Err(e) => Err(e),
        Ok((len, o)) => match take(b, o, (len as usize) as nat, path) {
            Err(e) => Err(e),
            Ok((s, end)) => if valid_utf8(s) {
                Ok((decode_utf8(s), end))
            } else {
                Err(
                    ErrorView::ModelLoad {
                        path,
                        reason: "invalid UTF-8 in GGUF string: "@ + utf8_error_text(s),
                    },
                )
            },
        },
    }
}

// ── Typed values ─────────────────────────────────────────────────────

/// Bytes of an unsigned integer type, `0` for any other type.
pub open spec fn unsigned_width(ty: u32) -> nat {
    if ty == GGUF_VALUE_TYPE_UINT8 {
        1
    } else if ty == GGUF_VALUE_TYPE_UINT16 {
        2
    } else if ty == GGUF_VALUE_TYPE_UINT32 {
        4
    } else if ty == GGUF_VALUE_TYPE_UINT64 {
        8
    } else {
        0
    }
}

/// Bytes of a signed integer type, `0` for any other type.
pub open spec fn signed_width(ty: u32) -> nat {
    if ty == GGUF_VALUE_TYPE_INT8 {
        1
    } else if ty == GGUF_VALUE_TYPE_INT16 {
        2
    } else if ty == GGUF_VALUE_TYPE_INT32 {
        4
    } else if ty == GGUF_VALUE_TYPE_INT64 {
        8
    } else {
        0
    }
}

/// Bytes of a boolean or floating-point type, `0` for any other type.
pub open spec fn other_width(ty: u32) -> nat {
    if ty == GGUF_VALUE_TYPE_BOOL {
        1
    } else if ty == GGUF_VALUE_TYPE_FLOAT32 {
        4
    } else if ty == GGUF_VALUE_TYPE_FLOAT64 {
        8
    } else {
        0
    }
}

/// Bytes of a fixed-width type, `0` for any other type.
pub open spec fn fixed_width(ty: u32) -> nat {
    unsigned_width(ty) + signed_width(ty) + other_width(ty)
}

pub open spec fn unsupported_type(ty: u32) -> ErrorView {
    ErrorView::UnsupportedFormat("unsupported GGUF value type "@ + decimal(ty as nat))
}

/// An integer value that fits 32 unsigned bits.
pub open spec fn numeric_as_u32(b: Seq<u8>, off: nat, ty: u32, path: Seq<char>) -> Read<u32> {
    if unsigned_width(ty) > 0 {
        match unsigned(b, off, unsigned_width(ty), path) {
            Err(e) => Err(e),
            Ok((v, o)) => if v <= u32::MAX {
                Ok((v as u32, o))
            } else {
                Err(
                    ErrorView::UnsupportedFormat(
                        "GGUF unsigned value "@ + decimal(v as nat) + " out of range for u32"@,
                    ),
                )
            },
        }
    } else if signed_width(ty) > 0 {
        match signed(b, off, signed_width(ty), path) {
            Err(e) => Err(e),
            Ok((v, o)) => if 0 <= v <= u32::MAX {
                Ok((v as u32, o))
            } else {
                Err(
                    ErrorView::UnsupportedFormat(
                        "GGUF signed value "@ + signed_decimal(v as int) + " out of range for u32"@,
                    ),
                )
            },
        }
    } else {
        Err(
            ErrorView::UnsupportedFormat(
                "GGUF numeric conversion from type "@ + decimal(ty as nat) + " is not supported"@,
            ),
        )
    }
}

/// The value of a fixed-width type as 64 bits; none for strings and arrays,
/// which stay unread.
pub open spec fn numeric_value(b: Seq<u8>, off: nat, ty: u32, path: Seq<char>) -> Read<
    Option<u64>,
> {
    if ty == GGUF_VALUE_TYPE_STRING || ty == GGUF_VALUE_TYPE_ARRAY {
        Ok((None, off))
    } else if signed_width(ty) > 0 {
        match signed(b, off, signed_width(ty), path) {
            Err(e) => Err(e),
            Ok((v, o)) => if v >= 0 {
                Ok((Some(v as u64), o))
            } else {
                Err(
                    ErrorView::UnsupportedFormat(
                        "GGUF signed value "@ + signed_decimal(v as int)
                            + " cannot be represented as unsigned metadata"@,
                    ),
                )
            },
        }
    } else if fixed_width(ty) > 0 {
        match unsigned(b, off, fixed_width(ty), path) {
            Err(e) => Err(e),
            Ok((v, o)) => Ok((Some(v), o)),
        }
    } else {
        Err(unsupported_type(ty))
    }
}

/// The offset behind a value of a type.
pub open spec fn skip(b: Seq<u8>, off: nat, ty: u32, path: Seq<char>) -> Result<nat, ErrorView>
    decreases b.len() - off, 0nat,
{
    if ty == GGUF_VALUE_TYPE_STRING {
        match string(b, off, path) {
            Err(e) => Err(e),
            Ok((_, o)) => Ok(o),
        }
    } else if ty == GGUF_VALUE_TYPE_ARRAY {
        match word(b, off, path) {
            Err(e) => Err(e),
            Ok((nested, o)) => match unsigned(b, o, 8, path) {
                Err(e) => Err(e),
                Ok((len, start)) => skip_many(b, start, nested, (len as usize) as nat, path),
            },
        }
    } else if fixed_width(ty) > 0 {
        match take(b, off, fixed_width(ty), path) {
            Err(e) => Err(e),
            Ok((_, o)) => Ok(o),
        }
    } else {
        Err(unsupported_type(ty))
    }
}

/// The offset behind `n` values of a type.
pub open spec fn skip_many(b: Seq<u8>, off: nat, ty: u32, n: nat, path: Seq<char>) -> Result<
    nat,
    ErrorView,
>
    decreases b.len() - off, 1nat,
{
    if n == 0 {
        Ok(off)
    } else {
        match skip(b, off, ty, path) {
            Err(e) => Err(e),
            Ok(o) => if off < o <= b.len() {
                skip_many(b, o, ty, (n - 1) as nat, path)
            } else {
                Ok(o)
            },
        }
    }
}

// ── Where a failed read stops ────────────────────────────────────────

/// The offset after reading `width` bytes, or trying to.
pub open spec fn stop_behind(b: Seq<u8>, off: nat, width: nat, path: Seq<char>) -> nat {
    match take(b, off, width, path) {
        Err(_) => off,
        Ok((_, o)) => o,
    }
}

/// The offset after a string, or trying to read one: behind its length where
/// its bytes are missing, behind its bytes where they are not UTF-8.
pub open spec fn string_stop(b: Seq<u8>, off: nat, path: Seq<char>) -> nat {
    match unsigned(b, off, 8, path) {
        Err(_) => off,
        Ok((len, o)) => stop_behind(b, o, (len as usize) as nat, path),
    }
}

/// The offset after skipping a value, or trying to: at the first part that is
/// missing or of no known type.
pub open spec fn skip_stop(b: Seq<u8>, off: nat, ty: u32, path: Seq<char>) -> nat
    decreases b.len() - off, 0nat,
{
    if ty == GGUF_VALUE_TYPE_STRING {
        string_stop(b, off, path)
    } else if ty == GGUF_VALUE_TYPE_ARRAY {
        match word(b, off, path) {
            Err(_) => off,
            Ok((nested, o)) => match unsigned(b, o, 8, path) {
                Err(_) => o,
                Ok((len, start)) => skip_many_stop(b, start, nested, (len as usize) as nat, path),
            },
        }
    } else {
        stop_behind(b, off, fixed_width(ty), path)
    }
}

/// The offset after skipping `n` values, or trying to.
pub open spec fn skip_many_stop(b: Seq<u8>, off: nat, ty: u32, n: nat, path: Seq<char>) -> nat
    decreases b.len() - off, 1nat,
{
    if n == 0 {
        off
    } else {
        match skip(b, off, ty, path) {
            Err(_) => skip_stop(b, off, ty, path),
            Ok(o) => if off < o <= b.len() {
                skip_many_stop(b, o, ty, (n - 1) as nat, path)
            } else {
                o
            },
        }
    }
}

/// Every value takes at least one byte and ends inside the file.
pub proof fn lemma_skip_advances(b: Seq<u8>, off: nat, ty: u32, path: Seq<char>)
    requires
        off <= b.len(),
    ensures
        skip(b, off, ty, path) matches Ok(o) ==> off < o <= b.len(),
    decreases b.len() - off, 0nat,
{
    if ty == GGUF_VALUE_TYPE_ARRAY {
        if let Ok((nested, o)) = word(b, off, path) {
            if let Ok((len, start)) = unsigned(b, o, 8, path) {
                lemma_skip_many_advances(b, start, nested, (len as usize) as nat, path);
            }
        }
    }
}

pub proof fn lemma_skip_many_advances(b: Seq<u8>, off: nat, ty: u32, n: nat, path: Seq<char>)
    requires
        off <= b.len(),
    ensures
        skip_many(b, off, ty, n, path) matches Ok(o) ==> off <= o <= b.len(),
    decreases b.len() - off, 1nat,
{
    if n > 0 {
        lemma_skip_advances(b, off, ty, path);
        if let Ok(o) = skip(b, off, ty, path) {
            lemma_skip_many_advances(b, o, ty, (n - 1) as nat, path);
        }
    }
}

// ── The cursor ───────────────────────────────────────────────────────

/// A position in the bytes of a file.
pub struct GgufCursor<'a> {
    pub bytes: &'a [u8],
    pub offset: usize,
}

/// The exec result `r` is the stated one, and the cursor stands at `end` behind it.
pub open spec fn agrees<T, V>(
    r: Result<T, CortexError>,
    end: usize,
    view: spec_fn(T) -> V,
    stated: Read<V>,
) -> bool {
    match stated {
        Ok((v, o)) => r matches Ok(x) && view(x) == v && end == o,
        Err(e) => r matches Err(x) && x@ == e,
    }
}

impl<'a> GgufCursor<'a> {
    pub open spec fn wf(&self) -> bool {
        self.offset <= self.bytes@.len()
    }

    /// Starts at the first byte.
    pub fn new(bytes: &'a [u8]) -> (r: Self)
        ensures
            r.wf(),
            r.bytes == bytes,
            r.offset == 0,
    {
        GgufCursor { bytes, offset: 0 }
    }

    /// The next `len` bytes.
    pub fn read_exact(&mut self, len: usize, path: &str) -> (r: Result<&'a [u8], CortexError>)
        requires
            old(self).wf(),
        ensures
            final(self).wf(),
            final(self).bytes == old(self).bytes,
            agrees(
                r,
                final(self).offset,
                |x: &'a [u8]| x@,
                take(old(self).bytes@, old(self).offset as nat, len as nat, path@),
            ),
            r is Err ==> final(self).offset == old(self).offset,
    {
        let end: usize = match self.offset.checked_add(len) {
            Some(end) => end,
            None => {
                return Err(
                    CortexError::ModelLoad {
                        path: path.to_owned(),
                        reason: String::from_str("cursor overflow"),
                    },
                );
            },
        };
        if end > self.bytes.len() {
            return Err(
                CortexError::ModelLoad {
                    path: path.to_owned(),
                    reason: String::from_str("unexpected EOF while parsing GGUF"),
                },
            );
        }
        let slice: &'a [u8] = slice_subrange(self.bytes, self.offset, end);
        self.offset = end;
        Ok(slice)
    }

    fn read_unsigned(&mut self, width: usize, path: &str) -> (r: Result<u64, CortexError>)
        requires
            old(self).wf(),
            width <= 8,
        ensures
            final(self).wf(),
            final(self).bytes == old(self).bytes,
            agrees(
                r,
                final(self).offset,
                |x: u64| x,
                unsigned(old(self).bytes@, old(self).offset as nat, width as nat, path@),
            ),
            r matches Ok(v) ==> v < byte_range(width as nat),
            r is Err ==> final(self).offset == old(self).offset,
    {
        match self.read_exact(width, path) {
            Ok(s) => {
                proof {
                    lemma_little_endian_bound(s@);
                }
                Ok(little_endian_value(s))
            },
            Err(e) => Err(e),
        }
    }

    fn read_signed(&mut self, width: usize, path: &str) -> (r: Result<i64, CortexError>)
        requires
            old(self).wf(),
            width == 1 || width == 2 || width == 4 || width == 8,
        ensures
            final(self).wf(),
            final(self).bytes == old(self).bytes,
            agrees(
                r,
                final(self).offset,
                |x: i64| x,
                signed(old(self).bytes@, old(self).offset as nat, width as nat, path@),
            ),
            r is Err ==> final(self).offset == old(self).offset,
    {
        match self.read_exact(width, path) {
            Ok(s) => {
                let v: u64 = little_endian_value(s);
                proof {
                    lemma_byte_range();
                    lemma_little_endian_bound(s@);
                }
                let r: i64 = if width == 1 {
                    if v >= 0x80 {
                        v as i64 - 0x100
                    } else {
                        v as i64
                    }
                } else if width == 2 {
                    if v >= 0x8000 {
                        v as i64 - 0x1_0000
                    } else {
                        v as i64
                    }
                } else if width == 4 {
                    if v >= 0x8000_0000 {
                        v as i64 - 0x1_0000_0000
                    } else {
                        v as i64
                    }
                } else {
                    if v >= 0x8000_0000_0000_0000 {
                        (v - 0x8000_0000_0000_0000) as i64 - 0x7FFF_FFFF_FFFF_FFFF - 1
                    } else {
                        v as i64
                    }
                };
                Ok(r)
            },
            Err(e) => Err(e),
        }
    }

    /// A four-byte unsigned value.
    pub fn read_u32(&mut self, path: &str) -> (r: Result<u32, CortexError>)
        requires
            old(self).wf(),
        ensures
            final(self).wf(),
            final(self).bytes == old(self).bytes,
            agrees(
                r,
                final(self).offset,
                |x: u32| x,
                word(old(self).bytes@, old(self).offset as nat, path@),
            ),
            r is Err ==> final(self).offset == old(self).offset,
    {
        match self.read_unsigned(4, path) {
            Ok(v) => {
                proof {
                    lemma_byte_range();
                }
                Ok(v as u32)
            },
            Err(e) => Err(e),
        }
    }

    /// An eight-byte unsigned value.
    pub fn read_u64(&mut self, path: &str) -> (r: Result<u64, CortexError>)
        requires
            old(self).wf(),
        ensures
            final(self).wf(),
            final(self).bytes == old(self).bytes,
            agrees(
                r,
                final(self).offset,
                |x: u64| x,
                unsigned(old(self).bytes@, old(self).offset as nat, 8, path@),
            ),
            r is Err ==> final(self).offset == old(self).offset,
    {
        self.read_unsigned(8, path)
    }

    /// A length-prefixed string.
    pub fn read_string(&mut self, path: &str) -> (r: Result<String, CortexError>)
        requires
            old(self).wf(),
        ensures
            final(self).wf(),
            final(self).bytes == old(self).bytes,
            agrees(
                r,
                final(self).offset,
                |x: String| x@,
                string(old(self).bytes@, old(self).offset as nat, path@),
            ),
            r is Err ==> final(self).offset == string_stop(
                old(self).bytes@,
                old(self).offset as nat,
                path@,
            ),
    {
        let len: usize = match self.read_u64(path) {
            Ok(v) => v as usize,
            Err(e) => {
                return Err(e);
            },
        };
        let bytes: &'a [u8] = match self.read_exact(len, path) {
            Ok(s) => s,
            Err(e) => {
                return Err(e);
            },
        };
        match utf8_string(bytes) {
            Ok(s) => Ok(s),
            Err(text) => {
                let mut reason: String = String::from_str("invalid UTF-8 in GGUF string: ");
                reason.append(text.as_str());
                Err(CortexError::ModelLoad { path: path.to_owned(), reason })
            },
        }
    }

    /// An integer of the given type that fits 32 unsigned bits.
    pub fn read_numeric_as_u32(&mut self, value_type: u32, path: &str) -> (r: Result<
        u32,
        CortexError,
    >)
        requires
            old(self).wf(),
        ensures
            final(self).wf(),
            final(self).bytes == old(self).bytes,
            agrees(
                r,
                final(self).offset,
                |x: u32| x,
                numeric_as_u32(old(self).bytes@, old(self).offset as nat, value_type, path@),
            ),
            r is Err ==> final(self).offset == stop_behind(
                old(self).bytes@,
                old(self).offset as nat,
                unsigned_width(value_type) + signed_width(value_type),
                path@,
            ),
    {
        let uw: usize = unsigned_width_of(value_type);
        let sw: usize = signed_width_of(value_type);
        if uw > 0 {
            let v: u64 = match self.read_unsigned(uw, path) {
                Ok(v) => v,
                Err(e) => {
                    return Err(e);
                },
            };
            if v <= u32::MAX as u64 {
                return Ok(v as u32);
            }
            let mut msg: String = String::from_str("GGUF unsigned value ");
            msg.append(decimal_text(v).as_str());
            msg.append(" out of range for u32");
            Err(CortexError::UnsupportedFormat(msg))
        } else if sw > 0 {
            let v: i64 = match self.read_signed(sw, path) {
                Ok(v) => v,
                Err(e) => {
                    return Err(e);
                },
            };
            if v >= 0 && v <= u32::MAX as i64 {
                return Ok(v as u32);
            }
            let mut msg: String = String::from_str("GGUF signed value ");
            msg.append(signed_text(v).as_str());
            msg.append(" out of range for u32");
            Err(CortexError::UnsupportedFormat(msg))
        } else {
            let mut msg: String = String::from_str("GGUF numeric conversion from type ");
            msg.append(decimal_text(value_type as u64).as_str());
            msg.append(" is not supported");
            Err(CortexError::UnsupportedFormat(msg))
        }
    }

    /// A fixed-width value as 64 bits; strings and arrays are left unread.
    pub fn read_numeric_value(&mut self, value_type: u32, path: &str) -> (r: Result<
        Option<u64>,
        CortexError,
    >)
        requires
            old(self).wf(),
        ensures
            final(self).wf(),
            final(self).bytes == old(self).bytes,
            agrees(
                r,
                final(self).offset,
                |x: Option<u64>| x,
                numeric_value(old(self).bytes@, old(self).offset as nat, value_type, path@),
            ),
            r is Err ==> final(self).offset == stop_behind(
                old(self).bytes@,
                old(self).offset as nat,
                fixed_width(value_type),
                path@,
            ),
    {
        if value_type == GGUF_VALUE_TYPE_STRING || value_type == GGUF_VALUE_TYPE_ARRAY {
            return Ok(None);
        }
        let sw: usize = signed_width_of(value_type);
        if sw > 0 {
            let v: i64 = match self.read_signed(sw, path) {
                Ok(v) => v,
                Err(e) => {
                    return Err(e);
                },
            };
            if v >= 0 {
                return Ok(Some(v as u64));
            }
            let mut msg: String = String::from_str("GGUF signed value ");
            msg.append(signed_text(v).as_str());
            msg.append(" cannot be represented as unsigned metadata");
            return Err(CortexError::UnsupportedFormat(msg));
        }
        let w: usize = fixed_width_of(value_type);
        if w > 0 {
            return match self.read_unsigned(w, path) {
                Ok(v) => Ok(Some(v)),
                Err(e) => Err(e),
            };
        }
        Err(unsupported_type_error(value_type))
    }

    /// Moves behind a value of the given type.
    pub fn skip_value(&mut self, value_type: u32, path: &str) -> (r: Result<(), CortexError>)
        requires
            old(self).wf(),
        ensures
            final(self).wf(),
            final(self).bytes == old(self).bytes,
            match skip(old(self).bytes@, old(self).offset as nat, value_type, path@) {
                Ok(o) => r is Ok && final(self).offset == o,
                Err(e) => r matches Err(x) && x@ == e,
            },
            r is Err ==> final(self).offset == skip_stop(
                old(self).bytes@,
                old(self).offset as nat,
                value_type,
                path@,
            ),
        decreases old(self).bytes@.len() - old(self).offset, 1nat,
    {
        if value_type == GGUF_VALUE_TYPE_STRING {
            match self.read_string(path) {
                Ok(_) => Ok(()),
                Err(e) => Err(e),
            }
        } else if value_type == GGUF_VALUE_TYPE_ARRAY {
            self.skip_array(path)
        } else {
            let w: usize = fixed_width_of(value_type);
            if w > 0 {
                match self.read_exact(w, path) {
                    Ok(_) => Ok(()),
                    Err(e) => Err(e),
                }
            } else {
                Err(unsupported_type_error(value_type))
            }
        }
    }

    fn skip_array(&mut self, path: &str) -> (r: Result<(), CortexError>)
        requires
            old(self).wf(),
        ensures
            final(self).wf(),
            final(self).bytes == old(self).bytes,
            match skip(old(self).bytes@, old(self).offset as nat, GGUF_VALUE_TYPE_ARRAY, path@) {
                Ok(o) => r is Ok && final(self).offset == o,
                Err(e) => r matches Err(x) && x@ == e,
            },
            r is Err ==> final(self).offset == skip_stop(
                old(self).bytes@,
                old(self).offset as nat,
                GGUF_VALUE_TYPE_ARRAY,
                path@,
            ),
        decreases old(self).bytes@.len() - old(self).offset, 0nat,
    {
        let nested: u32 = match self.read_u32(path) {
            Ok(v) => v,
            Err(e) => {
                return Err(e);
            },
        };
        let len: usize = match self.read_u64(path) {
            Ok(v) => v as usize,
            Err(e) => {
                return Err(e);
            },
        };
        let ghost b = self.bytes@;
        let ghost begin = old(self).offset;
        let ghost start = self.offset as nat;
        let ghost whole = skip_many(b, start, nested, len as nat, path@);
        let mut i: usize = 0;
        while i < len
            invariant
                i <= len,
                self.wf(),
                self.bytes@ == b,
                self.bytes == old(self).bytes,
                begin == old(self).offset,
                begin < self.offset,
                whole == skip(b, begin as nat, GGUF_VALUE_TYPE_ARRAY, path@),
                whole == skip_many(b, self.offset as nat, nested, (len - i) as nat, path@),
                skip_stop(b, begin as nat, GGUF_VALUE_TYPE_ARRAY, path@) == skip_many_stop(
                    b,
                    self.offset as nat,
                    nested,
                    (len - i) as nat,
                    path@,
                ),
            decreases len - i,
        {
            proof {
                lemma_skip_advances(b, self.offset as nat, nested, path@);
            }
            match self.skip_value(nested, path) {
                Ok(_) => {},
                Err(e) => {
                    return Err(e);
                },
            }
            i += 1;
        }
        Ok(())
    }
}

fn unsupported_type_error(ty: u32) -> (e: CortexError)
    ensures
        e@ == unsupported_type(ty),
{
    let mut msg: String = String::from_str("unsupported GGUF value type ");
    msg.append(decimal_text(ty as u64).as_str());
    CortexError::UnsupportedFormat(msg)
}

fn unsigned_width_of(ty: u32) -> (r: usize)
    ensures
        r == unsigned_width(ty),
        r <= 8,
{
    if ty == GGUF_VALUE_TYPE_UINT8 {
        1
    } else if ty == GGUF_VALUE_TYPE_UINT16 {
        2
    } else if ty == GGUF_VALUE_TYPE_UINT32 {
        4
    } else if ty == GGUF_VALUE_TYPE_UINT64 {
        8
    } else {
        0
    }
}

fn signed_width_of(ty: u32) -> (r: usize)
    ensures
        r == signed_width(ty),
        r == 0 || r == 1 || r == 2 || r == 4 || r == 8,
{
    if ty == GGUF_VALUE_TYPE_INT8 {
        1
    } else if ty == GGUF_VALUE_TYPE_INT16 {
        2
    } else if ty == GGUF_VALUE_TYPE_INT32 {
        4
    } else if ty == GGUF_VALUE_TYPE_INT64 {
        8
    } else {
        0
    }
}

fn fixed_width_of(ty: u32) -> (r: usize)
    ensures
        r == fixed_width(ty),
        r <= 8,
{
    let s: usize = signed_width_of(ty);
    let u: usize = unsigned_width_of(ty);
    if s > 0 {
        s
    } else if u > 0 {
        u
    } else if ty == GGUF_VALUE_TYPE_BOOL {
        1
    } else if ty == GGUF_VALUE_TYPE_FLOAT32 {
        4
    } else if ty == GGUF_VALUE_TYPE_FLOAT64 {
        8
    } else {
        0
    }
}

} // verus!
