//! Reading a file gives back what was written to it.

use vstd::prelude::*;
use vstd::utf8::{encode_utf8, encode_utf8_decode_utf8, encode_utf8_valid_utf8};
use crate::error::ErrorView;
use crate::moe::checkpoint::{
    InfoView, KvState, LayoutView, dimensions, element_count, header, initial_kvs, kvs, layout,
    one_kv, tensor_entries, tensor_entry, tensor_table,
};
use crate::moe::cursor::{
    byte_range, lemma_byte_range, little_endian, numeric_value, signed, skip, skip_many, string,
    take, unsigned, word,
};
use crate::moe::dequant::{aligned, clamped};
use crate::moe::gguf::MAX_DIMS;

verus! {

// ── Values ───────────────────────────────────────────────────────────

/// The lowest `n` bytes of `v`, lowest first.
pub open spec fn bytes_of(v: nat, n: nat) -> Seq<u8>
    decreases n,
{
    if n == 0 {
        seq![]
    } else {
        seq![(v % 256) as u8] + bytes_of(v / 256, (n - 1) as nat)
    }
}

/// `s` lies in `b` at `off`.
pub open spec fn lies(b: Seq<u8>, off: nat, s: Seq<u8>) -> bool {
    off + s.len() <= b.len() && b.subrange(off as int, (off + s.len()) as int) == s
}

proof fn lemma_lies_parts(b: Seq<u8>, off: nat, x: Seq<u8>, y: Seq<u8>)
    requires
        lies(b, off, x + y),
    ensures
        lies(b, off, x),
        lies(b, off + x.len(), y),
{
    let s = b.subrange(off as int, (off + x.len() + y.len()) as int);
    assert(s == x + y);
    assert(b.subrange(off as int, (off + x.len()) as int) =~= x) by {
        assert forall|i: int| 0 <= i < x.len() implies b[off + i] == x[i] by {
            assert(s[i] == (x + y)[i]);
        }
    }
    assert(b.subrange((off + x.len()) as int, (off + x.len() + y.len()) as int) =~= y) by {
        assert forall|i: int| 0 <= i < y.len() implies b[off + x.len() + i] == y[i] by {
            assert(s[x.len() + i] == (x + y)[x.len() + i]);
        }
    }
}

/// The bytes of a number stand for it.
pub proof fn law_bytes_stand_for_value(v: nat, n: nat)
    requires
        v < byte_range(n),
    ensures
        bytes_of(v, n).len() == n,
        little_endian(bytes_of(v, n)) == v,
    decreases n,
{
    if n > 0 {
        let m = (n - 1) as nat;
        assert(v / 256 < byte_range(m)) by {
            assert(byte_range(n) == 256 * byte_range(m));
        }
        law_bytes_stand_for_value(v / 256, m);
        let s = bytes_of(v, n);
        assert(s.drop_first() =~= bytes_of(v / 256, m));
        assert(s[0] == v % 256);
    }
}

/// An unsigned number is read as it was written, up to the byte behind it.
pub proof fn law_unsigned_written(b: Seq<u8>, off: nat, v: nat, n: nat, path: Seq<char>)
    requires
        b.len() <= usize::MAX,
        n <= 8,
        v < byte_range(n),
        v <= u64::MAX,
        lies(b, off, bytes_of(v, n)),
    ensures
        unsigned(b, off, n, path) == Ok::<(u64, nat), ErrorView>((v as u64, off + n)),
{
    law_bytes_stand_for_value(v, n);
}

/// A four-byte number is read as it was written.
pub proof fn law_word_written(b: Seq<u8>, off: nat, v: u32, path: Seq<char>)
    requires
        b.len() <= usize::MAX,
        lies(b, off, bytes_of(v as nat, 4)),
    ensures
        word(b, off, path) == Ok::<(u32, nat), ErrorView>((v, off + 4)),
{
    lemma_byte_range();
    law_unsigned_written(b, off, v as nat, 4, path);
}

/// An eight-byte number is read as it was written.
pub proof fn law_long_written(b: Seq<u8>, off: nat, v: u64, path: Seq<char>)
    requires
        b.len() <= usize::MAX,
        lies(b, off, bytes_of(v as nat, 8)),
    ensures
        unsigned(b, off, 8, path) == Ok::<(u64, nat), ErrorView>((v, off + 8)),
{
    lemma_byte_range();
    law_unsigned_written(b, off, v as nat, 8, path);
}

/// A text as it is written: its length in eight bytes, then its bytes.
pub open spec fn string_bytes(s: Seq<char>) -> Seq<u8> {
    bytes_of(encode_utf8(s).len(), 8) + encode_utf8(s)
}

/// A text is read as it was written.
pub proof fn law_string_written(b: Seq<u8>, off: nat, s: Seq<char>, path: Seq<char>)
    requires
        b.len() <= usize::MAX,
        lies(b, off, string_bytes(s)),
    ensures
        string(b, off, path) == Ok::<(Seq<char>, nat), ErrorView>(
            (s, off + string_bytes(s).len()),
        ),
{
    let u = encode_utf8(s);
    lemma_lies_parts(b, off, bytes_of(u.len(), 8), u);
    lemma_byte_range();
    law_bytes_stand_for_value(u.len(), 8);
    law_long_written(b, off, u.len() as u64, path);
    encode_utf8_valid_utf8(s);
    encode_utf8_decode_utf8(s);
    assert(take(b, off + 8, u.len(), path) == Ok::<(Seq<u8>, nat), ErrorView>(
        (u, off + 8 + u.len()),
    ));
}

/// A two's complement number is read as it was written.
pub proof fn law_signed_written(b: Seq<u8>, off: nat, v: int, n: nat, path: Seq<char>)
    requires
        b.len() <= usize::MAX,
        n == 1 || n == 2 || n == 4 || n == 8,
        -(byte_range(n) as int) <= 2 * v < byte_range(n),
        lies(b, off, bytes_of((if v < 0 { v + byte_range(n) } else { v }) as nat, n)),
    ensures
        signed(b, off, n, path) == Ok::<(i64, nat), ErrorView>((v as i64, off + n)),
{
    lemma_byte_range();
    let u = (if v < 0 { v + byte_range(n) } else { v }) as nat;
    law_bytes_stand_for_value(u, n);
}

// ── Entries ──────────────────────────────────────────────────────────

/// A metadata entry: a number of four bytes or a text under a key.
pub enum Written {
    Number { key: Seq<char>, value: u32 },
    Text { key: Seq<char>, text: Seq<char> },
}

/// An entry as it is written: key, type, value.
pub open spec fn entry_bytes(w: Written) -> Seq<u8> {
    match w {
        Written::Number { key, value } => string_bytes(key) + (bytes_of(4, 4) + bytes_of(
            value as nat,
            4,
        )),
        Written::Text { key, text } => string_bytes(key) + (bytes_of(8, 4) + string_bytes(text)),
    }
}

/// What an entry is for: the alignment, the file type and the architecture have
/// a place of their own, other numbers are kept under their key, other texts
/// are passed over.
pub open spec fn entered(w: Written, st: KvState) -> KvState {
    match w {
        Written::Number { key, value } => if key == "general.alignment"@ {
            KvState { alignment: value as usize, ..st }
        } else if key == "general.file_type"@ {
            KvState {
                file_type: Some(value),
                numerics: st.numerics.insert(key, value as u64),
                ..st
            }
        } else {
            KvState { numerics: st.numerics.insert(key, value as u64), ..st }
        },
        Written::Text { key, text } => if key == "general.architecture"@ {
            KvState { architecture: text, ..st }
        } else {
            st
        },
    }
}

/// An entry without a contradiction between its key and its type.
pub open spec fn sensible(w: Written) -> bool {
    match w {
        Written::Number { key, .. } => key != "general.architecture"@,
        Written::Text { key, .. } => key != "general.alignment"@ && key != "general.file_type"@,
    }
}

/// An entry is read as it was written.
pub proof fn law_entry_written(b: Seq<u8>, off: nat, w: Written, st: KvState, path: Seq<char>)
    requires
        b.len() <= usize::MAX,
        sensible(w),
        lies(b, off, entry_bytes(w)),
    ensures
        one_kv(b, off, st, path) == Ok::<(KvState, nat), ErrorView>(
            (entered(w, st), off + entry_bytes(w).len()),
        ),
{
    lemma_byte_range();
    match w {
        Written::Number { key, value } => {
            let (k, t, v) = (string_bytes(key), bytes_of(4, 4), bytes_of(value as nat, 4));
            lemma_lies_parts(b, off, k, t + v);
            lemma_lies_parts(b, off + k.len(), t, v);
            law_bytes_stand_for_value(4, 4);
            law_bytes_stand_for_value(value as nat, 4);
            law_string_written(b, off, key, path);
            law_word_written(b, off + k.len(), 4, path);
            law_unsigned_written(b, off + k.len() + 4, value as nat, 4, path);
        },
        Written::Text { key, text } => {
            let (k, t, v) = (string_bytes(key), bytes_of(8, 4), string_bytes(text));
            lemma_lies_parts(b, off, k, t + v);
            lemma_lies_parts(b, off + k.len(), t, v);
            law_bytes_stand_for_value(8, 4);
            law_string_written(b, off, key, path);
            law_word_written(b, off + k.len(), 8, path);
            law_string_written(b, off + k.len() + 4, text, path);
        },
    }
}

/// Entries one behind the other.
pub open spec fn entries_bytes(ws: Seq<Written>) -> Seq<u8>
    decreases ws.len(),
{
    if ws.len() == 0 {
        seq![]
    } else {
        entry_bytes(ws[0]) + entries_bytes(ws.drop_first())
    }
}

/// What entries leave, in order.
pub open spec fn all_entered(ws: Seq<Written>, st: KvState) -> KvState
    decreases ws.len(),
{
    if ws.len() == 0 {
        st
    } else {
        all_entered(ws.drop_first(), entered(ws[0], st))
    }
}

/// Entries are read as they were written, each in its turn.
pub proof fn law_entries_written(
    b: Seq<u8>,
    off: nat,
    ws: Seq<Written>,
    st: KvState,
    path: Seq<char>,
)
    requires
        b.len() <= usize::MAX,
        forall|i: int| 0 <= i < ws.len() ==> sensible(#[trigger] ws[i]),
        lies(b, off, entries_bytes(ws)),
    ensures
        kvs(b, off, ws.len(), st, path) == Ok::<(KvState, nat), ErrorView>(
            (all_entered(ws, st), off + entries_bytes(ws).len()),
        ),
    decreases ws.len(),
{
    if ws.len() > 0 {
        let rest = ws.drop_first();
        lemma_lies_parts(b, off, entry_bytes(ws[0]), entries_bytes(rest));
        assert(sensible(ws[0]));
        law_entry_written(b, off, ws[0], st, path);
        assert forall|i: int| 0 <= i < rest.len() implies sensible(#[trigger] rest[i]) by {
            assert(rest[i] == ws[i + 1]);
        }
        law_entries_written(
            b,
            off + entry_bytes(ws[0]).len(),
            rest,
            entered(ws[0], st),
            path,
        );
    }
}

// ── Values that are passed over ──────────────────────────────────────

/// Bytes of a number or truth value, by its type: one for types 0, 1 and 7, two
/// for 2 and 3, four for 4, 5 and 6, eight for 10, 11 and 12.
pub open spec fn width_of(ty: u32) -> nat {
    if ty == 0 || ty == 1 || ty == 7 {
        1
    } else if ty == 2 || ty == 3 {
        2
    } else if ty == 4 || ty == 5 || ty == 6 {
        4
    } else if ty == 10 || ty == 11 || ty == 12 {
        8
    } else {
        0
    }
}

/// A number or truth value is passed over by its width.
pub proof fn law_number_passed_over(b: Seq<u8>, off: nat, ty: u32, path: Seq<char>)
    requires
        b.len() <= usize::MAX,
        width_of(ty) > 0,
        off + width_of(ty) <= b.len(),
    ensures
        skip(b, off, ty, path) == Ok::<nat, ErrorView>(off + width_of(ty)),
{
}

/// A text is passed over by its length and its bytes.
pub proof fn law_string_passed_over(b: Seq<u8>, off: nat, s: Seq<char>, path: Seq<char>)
    requires
        b.len() <= usize::MAX,
        lies(b, off, string_bytes(s)),
    ensures
        skip(b, off, 8, path) == Ok::<nat, ErrorView>(off + string_bytes(s).len()),
{
    law_string_written(b, off, s, path);
}

proof fn lemma_numbers_passed_over(b: Seq<u8>, off: nat, ty: u32, n: nat, path: Seq<char>)
    requires
        b.len() <= usize::MAX,
        width_of(ty) > 0,
        off + n * width_of(ty) <= b.len(),
    ensures
        skip_many(b, off, ty, n, path) == Ok::<nat, ErrorView>(off + n * width_of(ty)),
    decreases n,
{
    let w = width_of(ty);
    if n > 0 {
        assert(n * w == w + (n - 1) * w) by (nonlinear_arith);
        assert(0 <= (n - 1) * w) by (nonlinear_arith)
            requires
                n >= 1,
        ;
        law_number_passed_over(b, off, ty, path);
        lemma_numbers_passed_over(b, off + w, ty, (n - 1) as nat, path);
    } else {
        assert(0 * w == 0);
    }
}

/// An array of numbers is passed over whole: its type in four bytes, its length
/// in eight, and as many numbers.
pub proof fn law_array_passed_over(b: Seq<u8>, off: nat, ty: u32, n: usize, path: Seq<char>)
    requires
        b.len() <= usize::MAX,
        width_of(ty) > 0,
        lies(b, off, bytes_of(ty as nat, 4) + bytes_of(n as nat, 8)),
        off + 12 + n * width_of(ty) <= b.len(),
    ensures
        skip(b, off, 9, path) == Ok::<nat, ErrorView>(off + 12 + n as nat * width_of(ty)),
{
    lemma_byte_range();
    lemma_lies_parts(b, off, bytes_of(ty as nat, 4), bytes_of(n as nat, 8));
    law_bytes_stand_for_value(ty as nat, 4);
    law_word_written(b, off, ty, path);
    law_unsigned_written(b, off + 4, n as nat, 8, path);
    lemma_numbers_passed_over(b, off + 12, ty, n as nat, path);
}

/// An unsigned number is kept as it was written, whatever its width.
pub proof fn law_number_kept(b: Seq<u8>, off: nat, ty: u32, v: u64, path: Seq<char>)
    requires
        b.len() <= usize::MAX,
        ty == 0 || ty == 2 || ty == 4 || ty == 10,
        v < byte_range(width_of(ty)),
        lies(b, off, bytes_of(v as nat, width_of(ty))),
    ensures
        numeric_value(b, off, ty, path) == Ok::<(Option<u64>, nat), ErrorView>(
            (Some(v), off + width_of(ty)),
        ),
{
    law_unsigned_written(b, off, v as nat, width_of(ty), path);
}

// ── Tensors ──────────────────────────────────────────────────────────

/// A tensor in the table of a file.
pub struct WrittenTensor {
    pub name: Seq<char>,
    pub dims: Seq<usize>,
    pub ggml_type: u32,
    pub offset: usize,
}

/// Dimensions as they are written: eight bytes each.
pub open spec fn dims_bytes(dims: Seq<usize>) -> Seq<u8>
    decreases dims.len(),
{
    if dims.len() == 0 {
        seq![]
    } else {
        bytes_of(dims[0] as nat, 8) + dims_bytes(dims.drop_first())
    }
}

/// A tensor as it is written: name, number of dimensions, dimensions, type,
/// offset.
pub open spec fn tensor_bytes(t: WrittenTensor) -> Seq<u8> {
    string_bytes(t.name) + (bytes_of(t.dims.len(), 4) + (dims_bytes(t.dims) + (bytes_of(
        t.ggml_type as nat,
        4,
    ) + bytes_of(t.offset as nat, 8))))
}

proof fn lemma_dims_written(b: Seq<u8>, off: nat, dims: Seq<usize>, path: Seq<char>)
    requires
        b.len() <= usize::MAX,
        lies(b, off, dims_bytes(dims)),
    ensures
        dimensions(b, off, dims.len(), path) == Ok::<(Seq<usize>, nat), ErrorView>(
            (dims, off + dims_bytes(dims).len()),
        ),
    decreases dims.len(),
{
    if dims.len() > 0 {
        let rest = dims.drop_first();
        lemma_byte_range();
        lemma_lies_parts(b, off, bytes_of(dims[0] as nat, 8), dims_bytes(rest));
        law_bytes_stand_for_value(dims[0] as nat, 8);
        law_unsigned_written(b, off, dims[0] as nat, 8, path);
        lemma_dims_written(b, off + 8, rest, path);
        assert(seq![dims[0]] + rest =~= dims);
    } else {
        assert(dims =~= seq![]);
    }
}

/// A tensor is read as it was written, with the product of its dimensions.
pub proof fn law_tensor_written(
    b: Seq<u8>,
    off: nat,
    t: WrittenTensor,
    n: nat,
    path: Seq<char>,
)
    requires
        b.len() <= usize::MAX,
        t.dims.len() <= MAX_DIMS,
        element_count(t.dims) == Some(n),
        n <= usize::MAX,
        lies(b, off, tensor_bytes(t)),
    ensures
        tensor_entry(b, off, path) == Ok::<((Seq<char>, InfoView), nat), ErrorView>(
            (
                (
                    t.name,
                    InfoView {
                        dims: t.dims,
                        ggml_type: t.ggml_type,
                        relative_offset: t.offset,
                        absolute_offset: 0,
                        n_elements: n as usize,
                    },
                ),
                off + tensor_bytes(t).len(),
            ),
        ),
{
    lemma_byte_range();
    let d = t.dims.len();
    let (p0, p1, p2) = (string_bytes(t.name), bytes_of(d, 4), dims_bytes(t.dims));
    let (p3, p4) = (bytes_of(t.ggml_type as nat, 4), bytes_of(t.offset as nat, 8));
    lemma_lies_parts(b, off, p0, p1 + (p2 + (p3 + p4)));
    let o1 = off + p0.len();
    lemma_lies_parts(b, o1, p1, p2 + (p3 + p4));
    law_bytes_stand_for_value(d, 4);
    let o2 = o1 + 4;
    lemma_lies_parts(b, o2, p2, p3 + p4);
    let o3 = o2 + p2.len();
    lemma_lies_parts(b, o3, p3, p4);
    law_bytes_stand_for_value(t.ggml_type as nat, 4);
    law_bytes_stand_for_value(t.offset as nat, 8);
    law_string_written(b, off, t.name, path);
    law_word_written(b, o1, d as u32, path);
    lemma_dims_written(b, o2, t.dims, path);
    law_word_written(b, o3, t.ggml_type, path);
    law_unsigned_written(b, o3 + 4, t.offset as nat, 8, path);
}

/// Tensors one behind the other.
pub open spec fn tensors_bytes(ts: Seq<WrittenTensor>) -> Seq<u8>
    decreases ts.len(),
{
    if ts.len() == 0 {
        seq![]
    } else {
        tensor_bytes(ts[0]) + tensors_bytes(ts.drop_first())
    }
}

/// A tensor that a table can hold.
pub open spec fn storable(t: WrittenTensor) -> bool {
    t.dims.len() <= MAX_DIMS && element_count(t.dims) is Some
}

/// A tensor by name, before its data is located.
pub open spec fn unlocated(t: WrittenTensor) -> (Seq<char>, InfoView) {
    (
        t.name,
        InfoView {
            dims: t.dims,
            ggml_type: t.ggml_type,
            relative_offset: t.offset,
            absolute_offset: 0,
            n_elements: element_count(t.dims)->Some_0 as usize,
        },
    )
}

proof fn lemma_count_fits(dims: Seq<usize>)
    requires
        element_count(dims) is Some,
    ensures
        element_count(dims)->Some_0 <= usize::MAX,
{
}

proof fn lemma_tensors_written(b: Seq<u8>, off: nat, ts: Seq<WrittenTensor>, path: Seq<char>)
    requires
        b.len() <= usize::MAX,
        forall|i: int| 0 <= i < ts.len() ==> storable(#[trigger] ts[i]),
        lies(b, off, tensors_bytes(ts)),
    ensures
        tensor_entries(b, off, ts.len(), path) == Ok::<
            (Seq<(Seq<char>, InfoView)>, nat),
            ErrorView,
        >((ts.map_values(|t: WrittenTensor| unlocated(t)), off + tensors_bytes(ts).len())),
    decreases ts.len(),
{
    let f = |t: WrittenTensor| unlocated(t);
    if ts.len() > 0 {
        let rest = ts.drop_first();
        lemma_lies_parts(b, off, tensor_bytes(ts[0]), tensors_bytes(rest));
        assert(storable(ts[0]));
        lemma_count_fits(ts[0].dims);
        law_tensor_written(b, off, ts[0], element_count(ts[0].dims)->Some_0, path);
        assert forall|i: int| 0 <= i < rest.len() implies storable(#[trigger] rest[i]) by {
            assert(rest[i] == ts[i + 1]);
        }
        lemma_tensors_written(b, off + tensor_bytes(ts[0]).len(), rest, path);
        assert(seq![unlocated(ts[0])] + rest.map_values(f) =~= ts.map_values(f));
    } else {
        assert(ts.map_values(f) =~= seq![]);
    }
}

// ── Files ────────────────────────────────────────────────────────────

/// The tables of a file as they are written: the four letters, version three,
/// the number of tensors, the number of entries, the entries, the tensors.
pub open spec fn tables_bytes(ws: Seq<Written>, ts: Seq<WrittenTensor>) -> Seq<u8> {
    seq![0x47u8, 0x47u8, 0x55u8, 0x46u8] + (bytes_of(3, 4) + (bytes_of(ts.len(), 8) + (bytes_of(
        ws.len(),
        8,
    ) + (entries_bytes(ws) + tensors_bytes(ts)))))
}

proof fn lemma_located(ts: Seq<(Seq<char>, InfoView)>, base: usize, i: int)
    requires
        0 <= i < ts.len(),
        forall|j: int| i < j < ts.len() ==> (#[trigger] ts[j]).0 != ts[i].0,
    ensures
        tensor_table(ts, base).contains_key(ts[i].0),
        tensor_table(ts, base)[ts[i].0] == (InfoView {
            absolute_offset: clamped((base + ts[i].1.relative_offset) as nat),
            ..ts[i].1
        }),
    decreases ts.len(),
{
    let last = ts.len() - 1;
    if i < last {
        assert(ts[last].0 != ts[i].0);
        let rest = ts.drop_last();
        assert forall|j: int| i < j < rest.len() implies (#[trigger] rest[j]).0 != rest[i].0 by {
            assert(ts[j].0 != ts[i].0);
        }
        lemma_located(rest, base, i);
    }
}

/// A file is read as it was written: what its entries leave, and for every
/// tensor that no later one replaces its dimensions, type, element count, and
/// where its data lies: its offset behind the first aligned byte past the
/// tables.
pub proof fn law_file_written(
    b: Seq<u8>,
    ws: Seq<Written>,
    ts: Seq<WrittenTensor>,
    i: int,
    path: Seq<char>,
) -> (v: LayoutView)
    requires
        b.len() <= usize::MAX,
        ws.len() <= 100_000,
        ts.len() <= 100_000,
        forall|k: int| 0 <= k < ws.len() ==> sensible(#[trigger] ws[k]),
        forall|k: int| 0 <= k < ts.len() ==> storable(#[trigger] ts[k]),
        lies(b, 0, tables_bytes(ws, ts)),
        0 <= i < ts.len(),
        forall|j: int| i < j < ts.len() ==> (#[trigger] ts[j]).name != ts[i].name,
    ensures
        layout(b, path) == Ok::<LayoutView, ErrorView>(v),
        ({
            let st = all_entered(ws, initial_kvs());
            let base = aligned(tables_bytes(ws, ts).len(), st.alignment as nat);
            &&& v.metadata.numerics == st.numerics
            &&& st.architecture.len() > 0 ==> v.metadata.architecture == st.architecture
            &&& v.tensors.contains_key(ts[i].name)
            &&& v.tensors[ts[i].name].dims == ts[i].dims
            &&& v.tensors[ts[i].name].ggml_type == ts[i].ggml_type
            &&& v.tensors[ts[i].name].n_elements == element_count(ts[i].dims)->Some_0
            &&& base + ts[i].offset <= usize::MAX ==> v.tensors[ts[i].name].absolute_offset == base
                + ts[i].offset
        }),
{
    lemma_byte_range();
    let m = seq![0x47u8, 0x47u8, 0x55u8, 0x46u8];
    let (p1, p2, p3) = (bytes_of(3, 4), bytes_of(ts.len(), 8), bytes_of(ws.len(), 8));
    let (p4, p5) = (entries_bytes(ws), tensors_bytes(ts));
    lemma_lies_parts(b, 0, m, p1 + (p2 + (p3 + (p4 + p5))));
    lemma_lies_parts(b, 4, p1, p2 + (p3 + (p4 + p5)));
    law_bytes_stand_for_value(3, 4);
    lemma_lies_parts(b, 8, p2, p3 + (p4 + p5));
    law_bytes_stand_for_value(ts.len(), 8);
    lemma_lies_parts(b, 16, p3, p4 + p5);
    law_bytes_stand_for_value(ws.len(), 8);
    lemma_lies_parts(b, 24, p4, p5);
    law_word_written(b, 4, 3, path);
    law_unsigned_written(b, 8, ts.len(), 8, path);
    law_unsigned_written(b, 16, ws.len(), 8, path);
    let st = all_entered(ws, initial_kvs());
    law_entries_written(b, 24, ws, initial_kvs(), path);
    lemma_tensors_written(b, 24 + p4.len(), ts, path);
    let list = ts.map_values(|t: WrittenTensor| unlocated(t));
    let end = tables_bytes(ws, ts).len();
    assert(end == 24 + p4.len() + p5.len());
    assert(take(b, 0, 4, path) == Ok::<(Seq<u8>, nat), ErrorView>((m, 4)));
    assert(header(b, 0, path) == Ok::<((usize, usize), nat), ErrorView>(
        ((ts.len() as usize, ws.len() as usize), 24),
    ));
    let base = clamped(aligned(end, st.alignment as nat));
    assert forall|j: int| i < j < list.len() implies (#[trigger] list[j]).0 != list[i].0 by {
        assert(ts[j].name != ts[i].name);
    }
    lemma_located(list, base, i);
    assert(storable(ts[i]));
    lemma_count_fits(ts[i].dims);
    layout(b, path)->Ok_0
}

} // verus!
