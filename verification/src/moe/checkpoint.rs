//! GGUF checkpoints: the layout of a file and access to its tensors.

use vstd::prelude::*;
use vstd::hash_map::StringHashMap;
use vstd::slice::slice_to_vec;
use vstd::string::StringExecFns;
use crate::error::{CortexError, ErrorView};
use crate::moe::cursor::{
    GgufCursor, Read, agrees, numeric_as_u32, numeric_value, skip, string, take, unsigned, word,
};
use crate::moe::dequant::{align_up, aligned, clamped, quantization_label, quantization_text};
use crate::moe::gguf::{DEFAULT_ALIGNMENT, GGUF_VERSION, MAX_COUNT, MAX_DIMS, magic};
use crate::text::{bracketed, byte_values, bytes_text, decimal, decimal_text};

verus! {

// ── Layout of a file ─────────────────────────────────────────────────

/// Where a tensor lies and what it holds.
pub struct GgufTensorInfo {
    pub dims: Vec<usize>,
    pub ggml_type: u32,
    pub relative_offset: usize,
    pub absolute_offset: usize,
    pub n_elements: usize,
}

/// The mathematical content of a [`GgufTensorInfo`].
#[verifier::ext_equal]
pub struct InfoView {
    pub dims: Seq<usize>,
    pub ggml_type: u32,
    pub relative_offset: usize,
    pub absolute_offset: usize,
    pub n_elements: usize,
}

impl View for GgufTensorInfo {
    type V = InfoView;

    open spec fn view(&self) -> InfoView {
        InfoView {
            dims: self.dims@,
            ggml_type: self.ggml_type,
            relative_offset: self.relative_offset,
            absolute_offset: self.absolute_offset,
            n_elements: self.n_elements,
        }
    }
}

impl Clone for GgufTensorInfo {
    fn clone(&self) -> (r: Self)
        ensures
            r@ == self@,
    {
        GgufTensorInfo {
            dims: slice_to_vec(self.dims.as_slice()),
            ggml_type: self.ggml_type,
            relative_offset: self.relative_offset,
            absolute_offset: self.absolute_offset,
            n_elements: self.n_elements,
        }
    }
}

/// Key-value metadata of a file.
pub struct GgufMetadata {
    pub architecture: String,
    pub quantization: String,
    pub numerics: StringHashMap<u64>,
}

/// The mathematical content of a [`GgufMetadata`].
#[verifier::ext_equal]
pub struct MetadataView {
    pub architecture: Seq<char>,
    pub quantization: Seq<char>,
    pub numerics: Map<Seq<char>, u64>,
}

impl MetadataView {
    /// The numeric value stored under a key.
    pub open spec fn numeric(self, key: Seq<char>) -> Option<usize> {
        if self.numerics.contains_key(key) {
            Some(self.numerics[key] as usize)
        } else {
            None
        }
    }
}

impl View for GgufMetadata {
    type V = MetadataView;

    open spec fn view(&self) -> MetadataView {
        MetadataView {
            architecture: self.architecture@,
            quantization: self.quantization@,
            numerics: self.numerics@,
        }
    }
}

impl GgufMetadata {
    /// The numeric value stored under a key.
    pub fn numeric(&self, key: &str) -> (r: Option<usize>)
        ensures
            r == self@.numeric(key@),
    {
        match self.numerics.get(key) {
            Some(v) => Some(*v as usize),
            None => None,
        }
    }
}

/// Metadata and tensor table of a file.
pub struct ParsedCheckpointLayout {
    pub metadata: GgufMetadata,
    pub tensors: StringHashMap<GgufTensorInfo>,
    /// The keys of `tensors`.
    pub names: Vec<String>,
}

/// The mathematical content of a [`ParsedCheckpointLayout`].
#[verifier::ext_equal]
pub struct LayoutView {
    pub metadata: MetadataView,
    pub tensors: Map<Seq<char>, InfoView>,
}

/// A tensor table by content.
pub open spec fn table_view(tensors: Map<Seq<char>, GgufTensorInfo>) -> Map<Seq<char>, InfoView> {
    tensors.map_values(|i: GgufTensorInfo| i@)
}

/// `names` lists the keys of `tensors`.
pub open spec fn lists_keys<V>(names: Seq<String>, tensors: Map<Seq<char>, V>) -> bool {
    &&& forall|i: int| 0 <= i < names.len() ==> tensors.contains_key((#[trigger] names[i])@)
    &&& forall|k: Seq<char>| #[trigger]
        tensors.contains_key(k) ==> exists|i: int| 0 <= i < names.len() && (#[trigger] names[i])@
            == k
}

impl View for ParsedCheckpointLayout {
    type V = LayoutView;

    open spec fn view(&self) -> LayoutView {
        LayoutView { metadata: self.metadata@, tensors: table_view(self.tensors@) }
    }
}

// ── Header ───────────────────────────────────────────────────────────

/// A count of at most [`MAX_COUNT`].
pub open spec fn limited_count(
    b: Seq<u8>,
    off: nat,
    label: Seq<char>,
    path: Seq<char>,
) -> Read<usize> {
    match unsigned(b, off, 8, path) {
        Err(e) => Err(e),
        Ok((v, o)) => if v > MAX_COUNT {
            Err(
                ErrorView::UnsupportedFormat(
                    label + " "@ + decimal(v as nat) + " exceeds maximum allowed 100000"@,
                ),
            )
        } else {
            Ok((v as usize, o))
        },
    }
}

/// The header: magic bytes, version, tensor count and entry count.
pub open spec fn header(b: Seq<u8>, off: nat, path: Seq<char>) -> Read<(usize, usize)> {
    match take(b, off, 4, path) {
        Err(e) => Err(e),
        Ok((m, o1)) => if m != magic() {
            Err(
                ErrorView::UnsupportedFormat(
                    "unrecognised model magic bytes: "@ + bracketed(byte_values(m)),
                ),
            )
        } else {
            match word(b, o1, path) {
                Err(e) => Err(e),
                Ok((version, o2)) => if version != GGUF_VERSION {
                    Err(
                        ErrorView::UnsupportedFormat(
                            "unsupported GGUF version "@ + decimal(version as nat)
                                + "; expected 3"@,
                        ),
                    )
                } else {
                    match limited_count(b, o2, "tensor_count"@, path) {
                        Err(e) => Err(e),
                        Ok((tensors, o3)) => match limited_count(b, o3, "kv_count"@, path) {
                            Err(e) => Err(e),
                            Ok((kvs, o4)) => Ok(((tensors, kvs), o4)),
                        },
                    }
                },
            }
        },
    }
}

fn is_magic(m: &[u8]) -> (r: bool)
    requires
        m@.len() == 4,
    ensures
        r == (m@ == magic()),
{
    let r: bool = m[0] == 0x47 && m[1] == 0x47 && m[2] == 0x55 && m[3] == 0x46;
    if r {
        assert(m@ =~= magic());
    }
    r
}

fn read_limited_count(cursor: &mut GgufCursor<'_>, path: &str, label: &str) -> (r: Result<
    usize,
    CortexError,
>)
    requires
        old(cursor).wf(),
    ensures
        final(cursor).wf(),
        final(cursor).bytes == old(cursor).bytes,
        agrees(
            r,
            final(cursor).offset,
            |x: usize| x,
            limited_count(old(cursor).bytes@, old(cursor).offset as nat, label@, path@),
        ),
{
    let raw: u64 = match cursor.read_u64(path) {
        Ok(v) => v,
        Err(e) => {
            return Err(e);
        },
    };
    if raw > MAX_COUNT {
        let mut msg: String = String::from_str(label);
        msg.append(" ");
        msg.append(decimal_text(raw).as_str());
        msg.append(" exceeds maximum allowed 100000");
        return Err(CortexError::UnsupportedFormat(msg));
    }
    Ok(raw as usize)
}

fn parse_header(cursor: &mut GgufCursor<'_>, path: &str) -> (r: Result<
    (usize, usize),
    CortexError,
>)
    requires
        old(cursor).wf(),
    ensures
        final(cursor).wf(),
        final(cursor).bytes == old(cursor).bytes,
        agrees(
            r,
            final(cursor).offset,
            |x: (usize, usize)| x,
            header(old(cursor).bytes@, old(cursor).offset as nat, path@),
        ),
{
    let m: &[u8] = match cursor.read_exact(4, path) {
        Ok(m) => m,
        Err(e) => {
            return Err(e);
        },
    };
    if !is_magic(m) {
        let mut msg: String = String::from_str("unrecognised model magic bytes: ");
        msg.append(bytes_text(m).as_str());
        return Err(CortexError::UnsupportedFormat(msg));
    }
    let version: u32 = match cursor.read_u32(path) {
        Ok(v) => v,
        Err(e) => {
            return Err(e);
        },
    };
    if version != GGUF_VERSION {
        let mut msg: String = String::from_str("unsupported GGUF version ");
        msg.append(decimal_text(version as u64).as_str());
        msg.append("; expected 3");
        return Err(CortexError::UnsupportedFormat(msg));
    }
    let tensors: usize = match read_limited_count(cursor, path, "tensor_count") {
        Ok(v) => v,
        Err(e) => {
            return Err(e);
        },
    };
    match read_limited_count(cursor, path, "kv_count") {
        Ok(kvs) => Ok((tensors, kvs)),
        Err(e) => Err(e),
    }
}

// ── Metadata ─────────────────────────────────────────────────────────

/// What the entries read so far have set.
#[verifier::ext_equal]
pub struct KvState {
    pub alignment: usize,
    pub file_type: Option<u32>,
    pub architecture: Seq<char>,
    pub numerics: Map<Seq<char>, u64>,
}

pub open spec fn initial_kvs() -> KvState {
    KvState {
        alignment: DEFAULT_ALIGNMENT,
        file_type: None,
        architecture: seq![],
        numerics: Map::empty(),
    }
}

/// One entry: a key, a type and a value.
pub open spec fn one_kv(b: Seq<u8>, off: nat, st: KvState, path: Seq<char>) -> Read<KvState> {
    match string(b, off, path) {
        Err(e) => Err(e),
        Ok((key, o1)) => match word(b, o1, path) {
            Err(e) => Err(e),
            Ok((ty, o2)) => if key == "general.alignment"@ {
                match numeric_as_u32(b, o2, ty, path) {
                    Err(e) => Err(e),
                    Ok((v, o)) => Ok((KvState { alignment: v as usize, ..st }, o)),
                }
            } else if key == "general.file_type"@ {
                match numeric_as_u32(b, o2, ty, path) {
                    Err(e) => Err(e),
                    Ok((v, o)) => Ok(
                        (
                            KvState {
                                file_type: Some(v),
                                numerics: st.numerics.insert("general.file_type"@, v as u64),
                                ..st
                            },
                            o,
                        ),
                    ),
                }
            } else if key == "general.architecture"@ {
                match string(b, o2, path) {
                    Err(e) => Err(e),
                    Ok((s, o)) => Ok((KvState { architecture: s, ..st }, o)),
                }
            } else {
                other_kv(b, o2, key, ty, st, path)
            },
        },
    }
}

/// The value of an entry without a meaning of its own: numbers are kept,
/// strings and arrays skipped.
pub open spec fn other_kv(
    b: Seq<u8>,
    off: nat,
    key: Seq<char>,
    ty: u32,
    st: KvState,
    path: Seq<char>,
) -> Read<KvState> {
    match numeric_value(b, off, ty, path) {
        Err(e) => Err(e),
        Ok((Some(v), o)) => Ok((KvState { numerics: st.numerics.insert(key, v), ..st }, o)),
        Ok((None, o)) => match skip(b, o, ty, path) {
            Err(e) => Err(e),
            Ok(end) => Ok((st, end)),
        },
    }
}

/// `n` entries in order.
pub open spec fn kvs(b: Seq<u8>, off: nat, n: nat, st: KvState, path: Seq<char>) -> Read<KvState>
    decreases n,
{
    if n == 0 {
        Ok((st, off))
    } else {
        match one_kv(b, off, st, path) {
            Err(e) => Err(e),
            Ok((next, o)) => kvs(b, o, (n - 1) as nat, next, path),
        }
    }
}

/// Metadata under construction.
struct KvBuilder {
    alignment: usize,
    file_type: Option<u32>,
    architecture: String,
    numerics: StringHashMap<u64>,
}

impl View for KvBuilder {
    type V = KvState;

    closed spec fn view(&self) -> KvState {
        KvState {
            alignment: self.alignment,
            file_type: self.file_type,
            architecture: self.architecture@,
            numerics: self.numerics@,
        }
    }
}

fn read_unknown(
    cursor: &mut GgufCursor<'_>,
    path: &str,
    key: String,
    value_type: u32,
    st: &mut KvBuilder,
) -> (r: Result<(), CortexError>)
    requires
        old(cursor).wf(),
    ensures
        final(cursor).wf(),
        final(cursor).bytes == old(cursor).bytes,
        match other_kv(
            old(cursor).bytes@,
            old(cursor).offset as nat,
            key@,
            value_type,
            old(st)@,
            path@,
        ) {
            Ok((s, o)) => r is Ok && final(st)@ == s && final(cursor).offset == o,
            Err(e) => r matches Err(x) && x@ == e,
        },
{
    match cursor.read_numeric_value(value_type, path) {
        Err(e) => {
            return Err(e);
        },
        Ok(Some(value)) => {
            st.numerics.insert(key, value);
        },
        Ok(None) => {
            match cursor.skip_value(value_type, path) {
                Ok(_) => {},
                Err(e) => {
                    return Err(e);
                },
            }
        },
    }
    Ok(())
}

fn read_one_kv(cursor: &mut GgufCursor<'_>, path: &str, st: &mut KvBuilder) -> (r: Result<
    (),
    CortexError,
>)
    requires
        old(cursor).wf(),
    ensures
        final(cursor).wf(),
        final(cursor).bytes == old(cursor).bytes,
        match one_kv(old(cursor).bytes@, old(cursor).offset as nat, old(st)@, path@) {
            Ok((s, o)) => r is Ok && final(st)@ == s && final(cursor).offset == o,
            Err(e) => r matches Err(x) && x@ == e,
        },
{
    let key: String = match cursor.read_string(path) {
        Ok(k) => k,
        Err(e) => {
            return Err(e);
        },
    };
    let value_type: u32 = match cursor.read_u32(path) {
        Ok(v) => v,
        Err(e) => {
            return Err(e);
        },
    };
    if key == String::from_str("general.alignment") {
        match cursor.read_numeric_as_u32(value_type, path) {
            Ok(v) => {
                st.alignment = v as usize;
                Ok(())
            },
            Err(e) => Err(e),
        }
    } else if key == String::from_str("general.file_type") {
        match cursor.read_numeric_as_u32(value_type, path) {
            Ok(v) => {
                st.file_type = Some(v);
                st.numerics.insert(key, v as u64);
                Ok(())
            },
            Err(e) => Err(e),
        }
    } else if key == String::from_str("general.architecture") {
        match cursor.read_string(path) {
            Ok(s) => {
                st.architecture = s;
                Ok(())
            },
            Err(e) => Err(e),
        }
    } else {
        read_unknown(cursor, path, key, value_type, st)
    }
}

fn read_metadata_kv(cursor: &mut GgufCursor<'_>, kv_count: usize, path: &str) -> (r: Result<
    KvBuilder,
    CortexError,
>)
    requires
        old(cursor).wf(),
    ensures
        final(cursor).wf(),
        final(cursor).bytes == old(cursor).bytes,
        agrees(
            r,
            final(cursor).offset,
            |x: KvBuilder| x@,
            kvs(
                old(cursor).bytes@,
                old(cursor).offset as nat,
                kv_count as nat,
                initial_kvs(),
                path@,
            ),
        ),
{
    let mut st: KvBuilder = KvBuilder {
        alignment: DEFAULT_ALIGNMENT,
        file_type: None,
        architecture: String::new(),
        numerics: StringHashMap::new(),
    };
    let ghost whole = kvs(
        cursor.bytes@,
        cursor.offset as nat,
        kv_count as nat,
        initial_kvs(),
        path@,
    );
    assert(st@ =~= initial_kvs());
    let mut i: usize = 0;
    while i < kv_count
        invariant
            i <= kv_count,
            cursor.wf(),
            cursor.bytes == old(cursor).bytes,
            whole == kvs(
                cursor.bytes@,
                cursor.offset as nat,
                (kv_count - i) as nat,
                st@,
                path@,
            ),
            whole == kvs(
                old(cursor).bytes@,
                old(cursor).offset as nat,
                kv_count as nat,
                initial_kvs(),
                path@,
            ),
        decreases kv_count - i,
    {
        match read_one_kv(cursor, path, &mut st) {
            Ok(_) => {},
            Err(e) => {
                return Err(e);
            },
        }
        i += 1;
    }
    Ok(st)
}

// ── Tensor table ─────────────────────────────────────────────────────

/// `n` dimensions of eight bytes each.
pub open spec fn dimensions(b: Seq<u8>, off: nat, n: nat, path: Seq<char>) -> Read<Seq<usize>>
    decreases n,
{
    if n == 0 {
        Ok((seq![], off))
    } else {
        match unsigned(b, off, 8, path) {
            Err(e) => Err(e),
            Ok((d, o)) => match dimensions(b, o, (n - 1) as nat, path) {
                Err(e) => Err(e),
                Ok((rest, end)) => Ok((seq![d as usize] + rest, end)),
            },
        }
    }
}

/// The product of the dimensions in order, unless a step overflows `usize`.
pub open spec fn element_count(dims: Seq<usize>) -> Option<nat>
    decreases dims.len(),
{
    if dims.len() == 0 {
        Some(1)
    } else {
        match element_count(dims.drop_last()) {
            Some(p) if p * dims.last() <= usize::MAX => Some((p * dims.last()) as nat),
            _ => None,
        }
    }
}

/// The dimensions of a tensor and its element count.
pub open spec fn tensor_dimensions(
    b: Seq<u8>,
    off: nat,
    name: Seq<char>,
    path: Seq<char>,
) -> Read<(Seq<usize>, usize)> {
    match word(b, off, path) {
        Err(e) => Err(e),
        Ok((n, o)) => if n > MAX_DIMS {
            Err(
                ErrorView::UnsupportedFormat(
                    "tensor '"@ + name + "' has "@ + decimal(n as nat)
                        + " dims, which exceeds maximum allowed 8"@,
                ),
            )
        } else {
            match dimensions(b, o, n as nat, path) {
                Err(e) => Err(e),
                Ok((dims, end)) => match element_count(dims) {
                    Some(p) => Ok(((dims, p as usize), end)),
                    None => Err(
                        ErrorView::ModelLoad {
                            path,
                            reason: "tensor '"@ + name + "' element count overflow"@,
                        },
                    ),
                },
            }
        },
    }
}

/// A tensor by name, before its data is located.
pub open spec fn tensor_entry(b: Seq<u8>, off: nat, path: Seq<char>) -> Read<
    (Seq<char>, InfoView),
> {
    match string(b, off, path) {
        Err(e) => Err(e),
        Ok((name, o1)) => match tensor_dimensions(b, o1, name, path) {
            Err(e) => Err(e),
            Ok(((dims, n), o2)) => match word(b, o2, path) {
                Err(e) => Err(e),
                Ok((ty, o3)) => match unsigned(b, o3, 8, path) {
                    Err(e) => Err(e),
                    Ok((rel, end)) => Ok(
                        (
                            (
                                name,
                                InfoView {
                                    dims,
                                    ggml_type: ty,
                                    relative_offset: rel as usize,
                                    absolute_offset: 0,
                                    n_elements: n,
                                },
                            ),
                            end,
                        ),
                    ),
                },
            },
        },
    }
}

/// `n` tensors in order.
pub open spec fn tensor_entries(b: Seq<u8>, off: nat, n: nat, path: Seq<char>) -> Read<
    Seq<(Seq<char>, InfoView)>,
>
    decreases n,
{
    if n == 0 {
        Ok((seq![], off))
    } else {
        match tensor_entry(b, off, path) {
            Err(e) => Err(e),
            Ok((entry, o)) => match tensor_entries(b, o, (n - 1) as nat, path) {
                Err(e) => Err(e),
                Ok((rest, end)) => Ok((seq![entry] + rest, end)),
            },
        }
    }
}

/// A tensor whose data starts `relative_offset` behind `base`.
pub open spec fn located(i: InfoView, base: usize) -> InfoView {
    InfoView { absolute_offset: clamped((base + i.relative_offset) as nat), ..i }
}

/// The tensor table: a later tensor replaces an earlier one of the same name.
pub open spec fn tensor_table(entries: Seq<(Seq<char>, InfoView)>, base: usize) -> Map<
    Seq<char>,
    InfoView,
>
    decreases entries.len(),
{
    if entries.len() == 0 {
        Map::empty()
    } else {
        tensor_table(entries.drop_last(), base).insert(
            entries.last().0,
            located(entries.last().1, base),
        )
    }
}

/// The layout of a file.
pub open spec fn layout(b: Seq<u8>, path: Seq<char>) -> Result<LayoutView, ErrorView> {
    match header(b, 0, path) {
        Err(e) => Err(e),
        Ok(((tensors, entries), o1)) => match kvs(b, o1, entries as nat, initial_kvs(), path) {
            Err(e) => Err(e),
            Ok((st, o2)) => match tensor_entries(b, o2, tensors as nat, path) {
                Err(e) => Err(e),
                Ok((list, o3)) => Ok(
                    LayoutView {
                        metadata: MetadataView {
                            architecture: if st.architecture.len() == 0 {
                                "unknown"@
                            } else {
                                st.architecture
                            },
                            quantization: quantization_text(st.file_type),
                            numerics: st.numerics,
                        },
                        tensors: tensor_table(list, clamped(aligned(o3, st.alignment as nat))),
                    },
                ),
            },
        },
    }
}

fn read_dimensions(cursor: &mut GgufCursor<'_>, n: usize, path: &str) -> (r: Result<
    Vec<usize>,
    CortexError,
>)
    requires
        old(cursor).wf(),
    ensures
        final(cursor).wf(),
        final(cursor).bytes == old(cursor).bytes,
        agrees(
            r,
            final(cursor).offset,
            |x: Vec<usize>| x@,
            dimensions(old(cursor).bytes@, old(cursor).offset as nat, n as nat, path@),
        ),
{
    let mut dims: Vec<usize> = Vec::new();
    let ghost whole = dimensions(cursor.bytes@, cursor.offset as nat, n as nat, path@);
    let mut i: usize = 0;
    proof {
        if let Ok((rest, _)) = whole {
            assert(dims@ + rest =~= rest);
        }
    }
    while i < n
        invariant
            i <= n,
            cursor.wf(),
            cursor.bytes == old(cursor).bytes,
            whole == dimensions(
                old(cursor).bytes@,
                old(cursor).offset as nat,
                n as nat,
                path@,
            ),
            match dimensions(cursor.bytes@, cursor.offset as nat, (n - i) as nat, path@) {
                Ok((rest, end)) => whole == Ok::<(Seq<usize>, nat), ErrorView>(
                    (dims@ + rest, end),
                ),
                Err(e) => whole == Err::<(Seq<usize>, nat), ErrorView>(e),
            },
        decreases n - i,
    {
        let ghost before = dims@;
        let ghost o = cursor.offset as nat;
        match cursor.read_u64(path) {
            Ok(d) => {
                dims.push(d as usize);
                proof {
                    if let Ok((rest, _)) = dimensions(
                        cursor.bytes@,
                        cursor.offset as nat,
                        (n - i - 1) as nat,
                        path@,
                    ) {
                        assert(before + (seq![d as usize] + rest) =~= dims@ + rest);
                    }
                }
            },
            Err(e) => {
                return Err(e);
            },
        }
        i += 1;
    }
    assert(dims@ + Seq::<usize>::empty() =~= dims@);
    Ok(dims)
}

fn count_elements(dims: &[usize]) -> (r: Option<usize>)
    ensures
        match element_count(dims@) {
            Some(p) => r == Some(p as usize) && p <= usize::MAX,
            None => r is None,
        },
{
    let mut acc: usize = 1;
    let mut i: usize = 0;
    assert(dims@.take(0) =~= Seq::<usize>::empty());
    while i < dims.len()
        invariant
            i <= dims@.len(),
            element_count(dims@.take(i as int)) == Some(acc as nat),
        decreases dims@.len() - i,
    {
        proof {
            assert(dims@.take(i + 1).drop_last() =~= dims@.take(i as int));
        }
        match acc.checked_mul(dims[i]) {
            Some(p) => {
                acc = p;
            },
            None => {
                proof {
                    assert(element_count(dims@.take(i + 1)) is None);
                    lemma_element_count_fails(dims@, i + 1);
                }
                return None;
            },
        }
        i += 1;
    }
    assert(dims@.take(dims@.len() as int) =~= dims@);
    Some(acc)
}

/// A product that overflows on the way stays without a value.
proof fn lemma_element_count_fails(dims: Seq<usize>, i: int)
    requires
        0 <= i <= dims.len(),
        element_count(dims.take(i)) is None,
    ensures
        element_count(dims) is None,
    decreases dims.len() - i,
{
    if i < dims.len() {
        assert(dims.take(i + 1).drop_last() =~= dims.take(i));
        lemma_element_count_fails(dims, i + 1);
    } else {
        assert(dims.take(i) =~= dims);
    }
}

fn quoted(before: &str, name: &str, after: &str) -> (r: String)
    ensures
        r@ == before@ + name@ + after@,
{
    let mut s: String = String::from_str(before);
    s.append(name);
    s.append(after);
    s
}

fn read_tensor_dimensions(cursor: &mut GgufCursor<'_>, path: &str, name: &str) -> (r: Result<
    (Vec<usize>, usize),
    CortexError,
>)
    requires
        old(cursor).wf(),
    ensures
        final(cursor).wf(),
        final(cursor).bytes == old(cursor).bytes,
        agrees(
            r,
            final(cursor).offset,
            |x: (Vec<usize>, usize)| (x.0@, x.1),
            tensor_dimensions(old(cursor).bytes@, old(cursor).offset as nat, name@, path@),
        ),
{
    let n: u32 = match cursor.read_u32(path) {
        Ok(v) => v,
        Err(e) => {
            return Err(e);
        },
    };
    if n as usize > MAX_DIMS {
        let mut msg: String = quoted("tensor '", name, "' has ");
        msg.append(decimal_text(n as u64).as_str());
        msg.append(" dims, which exceeds maximum allowed 8");
        return Err(CortexError::UnsupportedFormat(msg));
    }
    let dims: Vec<usize> = match read_dimensions(cursor, n as usize, path) {
        Ok(d) => d,
        Err(e) => {
            return Err(e);
        },
    };
    match count_elements(dims.as_slice()) {
        Some(p) => Ok((dims, p)),
        None => Err(
            CortexError::ModelLoad {
                path: path.to_owned(),
                reason: quoted("tensor '", name, "' element count overflow"),
            },
        ),
    }
}

fn read_tensor_info(cursor: &mut GgufCursor<'_>, path: &str) -> (r: Result<
    (String, GgufTensorInfo),
    CortexError,
>)
    requires
        old(cursor).wf(),
    ensures
        final(cursor).wf(),
        final(cursor).bytes == old(cursor).bytes,
        agrees(
            r,
            final(cursor).offset,
            |x: (String, GgufTensorInfo)| (x.0@, x.1@),
            tensor_entry(old(cursor).bytes@, old(cursor).offset as nat, path@),
        ),
{
    let name: String = match cursor.read_string(path) {
        Ok(s) => s,
        Err(e) => {
            return Err(e);
        },
    };
    let (dims, n_elements): (Vec<usize>, usize) = match read_tensor_dimensions(
        cursor,
        path,
        name.as_str(),
    ) {
        Ok(d) => d,
        Err(e) => {
            return Err(e);
        },
    };
    let ggml_type: u32 = match cursor.read_u32(path) {
        Ok(v) => v,
        Err(e) => {
            return Err(e);
        },
    };
    match cursor.read_u64(path) {
        Ok(v) => Ok(
            (
                name,
                GgufTensorInfo {
                    dims,
                    ggml_type,
                    relative_offset: v as usize,
                    absolute_offset: 0,
                    n_elements,
                },
            ),
        ),
        Err(e) => Err(e),
    }
}

/// Tensors by content.
pub open spec fn entries_view(s: Seq<(String, GgufTensorInfo)>) -> Seq<(Seq<char>, InfoView)> {
    s.map_values(|x: (String, GgufTensorInfo)| (x.0@, x.1@))
}

fn read_tensor_entries(cursor: &mut GgufCursor<'_>, n: usize, path: &str) -> (r: Result<
    Vec<(String, GgufTensorInfo)>,
    CortexError,
>)
    requires
        old(cursor).wf(),
    ensures
        final(cursor).wf(),
        final(cursor).bytes == old(cursor).bytes,
        agrees(
            r,
            final(cursor).offset,
            |x: Vec<(String, GgufTensorInfo)>| entries_view(x@),
            tensor_entries(old(cursor).bytes@, old(cursor).offset as nat, n as nat, path@),
        ),
{
    let mut list: Vec<(String, GgufTensorInfo)> = Vec::new();
    let ghost whole = tensor_entries(cursor.bytes@, cursor.offset as nat, n as nat, path@);
    let mut i: usize = 0;
    proof {
        if let Ok((rest, _)) = whole {
            assert(entries_view(list@) + rest =~= rest);
        }
    }
    while i < n
        invariant
            i <= n,
            cursor.wf(),
            cursor.bytes == old(cursor).bytes,
            whole == tensor_entries(
                old(cursor).bytes@,
                old(cursor).offset as nat,
                n as nat,
                path@,
            ),
            match tensor_entries(cursor.bytes@, cursor.offset as nat, (n - i) as nat, path@) {
                Ok((rest, end)) => whole == Ok::<(Seq<(Seq<char>, InfoView)>, nat), ErrorView>(
                    (entries_view(list@) + rest, end),
                ),
                Err(e) => whole == Err::<(Seq<(Seq<char>, InfoView)>, nat), ErrorView>(e),
            },
        decreases n - i,
    {
        let ghost before = list@;
        match read_tensor_info(cursor, path) {
            Ok(entry) => {
                let ghost ev = (entry.0@, entry.1@);
                list.push(entry);
                proof {
                    assert(entries_view(list@) =~= entries_view(before).push(ev));
                    if let Ok((rest, _)) = tensor_entries(
                        cursor.bytes@,
                        cursor.offset as nat,
                        (n - i - 1) as nat,
                        path@,
                    ) {
                        assert(entries_view(before) + (seq![ev] + rest) =~= entries_view(list@)
                            + rest);
                    }
                }
            },
            Err(e) => {
                return Err(e);
            },
        }
        i += 1;
    }
    assert(entries_view(list@) + Seq::<(Seq<char>, InfoView)>::empty() =~= entries_view(list@));
    Ok(list)
}

/// Builds the tensor table and the list of its keys.
fn build_table(entries: Vec<(String, GgufTensorInfo)>, base: usize) -> (r: (
    StringHashMap<GgufTensorInfo>,
    Vec<String>,
))
    ensures
        table_view(r.0@) == tensor_table(entries_view(entries@), base),
        lists_keys(r.1@, r.0@),
{
    let mut tensors: StringHashMap<GgufTensorInfo> = StringHashMap::new();
    let mut names: Vec<String> = Vec::new();
    let ghost all = entries_view(entries@);
    let mut i: usize = 0;
    proof {
        assert(all.take(0) =~= seq![]);
        assert(table_view(tensors@) =~= Map::empty());
    }
    while i < entries.len()
        invariant
            i <= entries@.len(),
            all == entries_view(entries@),
            table_view(tensors@) == tensor_table(all.take(i as int), base),
            lists_keys(names@, tensors@),
        decreases entries@.len() - i,
    {
        let entry: &(String, GgufTensorInfo) = &entries[i];
        let info: GgufTensorInfo = GgufTensorInfo {
            dims: slice_to_vec(entry.1.dims.as_slice()),
            ggml_type: entry.1.ggml_type,
            relative_offset: entry.1.relative_offset,
            absolute_offset: base.saturating_add(entry.1.relative_offset),
            n_elements: entry.1.n_elements,
        };
        let ghost before = tensors@;
        let ghost named = names@;
        let name: String = entry.0.clone();
        let key: String = entry.0.clone();
        proof {
            assert(all.take(i + 1).drop_last() =~= all.take(i as int));
            assert(all.take(i + 1).last() == (entry.0@, entry.1@));
            assert(info@ == located(entry.1@, base));
        }
        tensors.insert(key, info);
        names.push(name);
        proof {
            assert(table_view(tensors@) =~= table_view(before).insert(entry.0@, info@));
            assert forall|k: Seq<char>| #[trigger] tensors@.contains_key(k) implies exists|j: int|
                0 <= j < names@.len() && (#[trigger] names@[j])@ == k by {
                if k == entry.0@ {
                    assert(names@[named.len() as int]@ == k);
                } else {
                    assert(before.contains_key(k));
                    let j = choose|j: int| 0 <= j < named.len() && (#[trigger] named[j])@ == k;
                    assert(names@[j]@ == k);
                }
            }
            assert forall|j: int| 0 <= j < names@.len() implies tensors@.contains_key(
                (#[trigger] names@[j])@,
            ) by {
                if j < named.len() {
                    assert(before.contains_key(named[j]@));
                }
            }
        }
        i += 1;
    }
    assert(all.take(all.len() as int) =~= all);
    (tensors, names)
}

/// Parses the layout of a file.
pub fn parse_checkpoint_layout(bytes: &[u8], path: &str) -> (r: Result<
    ParsedCheckpointLayout,
    CortexError,
>)
    ensures
        match layout(bytes@, path@) {
            Ok(v) => r matches Ok(l) && l@ == v && lists_keys(l.names@, l.tensors@),
            Err(e) => r matches Err(x) && x@ == e,
        },
{
    let mut cursor: GgufCursor<'_> = GgufCursor::new(bytes);
    let (tensor_count, kv_count): (usize, usize) = match parse_header(&mut cursor, path) {
        Ok(c) => c,
        Err(e) => {
            return Err(e);
        },
    };
    let st: KvBuilder = match read_metadata_kv(&mut cursor, kv_count, path) {
        Ok(s) => s,
        Err(e) => {
            return Err(e);
        },
    };
    let entries: Vec<(String, GgufTensorInfo)> = match read_tensor_entries(
        &mut cursor,
        tensor_count,
        path,
    ) {
        Ok(l) => l,
        Err(e) => {
            return Err(e);
        },
    };
    let base: usize = align_up(cursor.offset, st.alignment);
    let (tensors, names): (StringHashMap<GgufTensorInfo>, Vec<String>) = build_table(entries, base);
    let architecture: String = if st.architecture.as_str().is_empty() {
        String::from_str("unknown")
    } else {
        st.architecture
    };
    let l: ParsedCheckpointLayout = ParsedCheckpointLayout {
        metadata: GgufMetadata {
            architecture,
            quantization: quantization_label(st.file_type),
            numerics: st.numerics,
        },
        tensors,
        names,
    };
    Ok(l)
}

} // verus!
