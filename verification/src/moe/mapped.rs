//! Tensor access in the bytes of a mapped checkpoint.

use vstd::prelude::*;
use vstd::hash_map::StringHashMap;
use vstd::slice::{slice_subrange, slice_to_vec};
use vstd::string::StringExecFns;
use vstd::utf8::{encode_utf8, encode_utf8_decode_utf8};
use crate::error::{CortexError, ErrorView};
use crate::float::FloatUnit;
use crate::ieee::{half_to_single, widens_half};
use crate::moe::checkpoint::{
    GgufMetadata, GgufTensorInfo, InfoView, LayoutView, layout, lists_keys, parse_checkpoint_layout,
    table_view,
};
use crate::moe::cursor::{
    lemma_byte_range, lemma_little_endian_bound, little_endian, little_endian_value,
};
use crate::moe::dequant::{
    dequantize_row_q5_k, dequantize_row_q8_0, is_names_ordered, law_names_antisymmetric,
    law_names_total, law_names_transitive, names_ordered, q5_value, q8_value, row_size,
    tensor_row_size,
};
use crate::moe::gguf::{
    GGML_TYPE_F16, GGML_TYPE_F32, GGML_TYPE_IQ3_S, GGML_TYPE_Q5_K, GGML_TYPE_Q8_0,
};
use crate::text::{decimal, decimal_text};

verus! {

/// A checkpoint in memory: its bytes and what they hold.
pub struct MappedGgufCheckpoint<'a> {
    pub bytes: &'a [u8],
    pub tensors: StringHashMap<GgufTensorInfo>,
    /// The keys of `tensors`.
    pub names: Vec<String>,
    pub metadata: GgufMetadata,
}

/// The mathematical content of a [`MappedGgufCheckpoint`].
#[verifier::ext_equal]
pub struct CheckpointView {
    pub bytes: Seq<u8>,
    pub layout: LayoutView,
}

// ── Tensor contents ──────────────────────────────────────────────────

/// The `i`-th value of `width` bytes behind `at`.
pub open spec fn value_at(b: Seq<u8>, at: int, width: int, i: int) -> nat {
    little_endian(b.subrange(at + i * width, at + i * width + width))
}

/// `n` binary32 patterns behind `at`.
pub open spec fn words_at(b: Seq<u8>, at: int, n: nat) -> Seq<u32> {
    Seq::new(n, |i: int| value_at(b, at, 4, i) as u32)
}

/// `n` binary16 patterns behind `at`.
pub open spec fn halves_at(b: Seq<u8>, at: int, n: nat) -> Seq<u16> {
    Seq::new(n, |i: int| value_at(b, at, 2, i) as u16)
}

pub open spec fn missing(name: Seq<char>, path: Seq<char>) -> ErrorView {
    ErrorView::MissingTensor { name, path }
}

pub open spec fn tensor_fault(name: Seq<char>, what: Seq<char>, path: Seq<char>) -> ErrorView {
    ErrorView::ModelLoad { path, reason: "tensor '"@ + name + what }
}

/// The binary32 patterns of a located tensor.
pub open spec fn single_values(b: Seq<u8>, name: Seq<char>, i: InfoView, path: Seq<char>) -> Result<
    Seq<u32>,
    ErrorView,
> {
    if i.ggml_type != GGML_TYPE_F32 {
        Err(
            ErrorView::UnsupportedFormat(
                "tensor '"@ + name + "' must be F32, got ggml_type="@ + decimal(i.ggml_type as nat),
            ),
        )
    } else if i.absolute_offset + i.n_elements * 4 > b.len() {
        Err(tensor_fault(name, "' extends beyond mapped file"@, path))
    } else {
        Ok(words_at(b, i.absolute_offset as int, i.n_elements as nat))
    }
}

/// The binary16 patterns of a located tensor.
pub open spec fn half_values(b: Seq<u8>, name: Seq<char>, i: InfoView, path: Seq<char>) -> Result<
    Seq<u16>,
    ErrorView,
> {
    if i.absolute_offset + i.n_elements * 2 > b.len() {
        Err(tensor_fault(name, "' extends beyond mapped file"@, path))
    } else {
        Ok(halves_at(b, i.absolute_offset as int, i.n_elements as nat))
    }
}

/// The second dimension, `0` if there is none.
pub open spec fn second_dim(dims: Seq<usize>) -> usize {
    if dims.len() > 1 { dims[1] } else { 0 }
}

/// The bytes of one row of a quantized tensor.
pub open spec fn quantized_row(
    b: Seq<u8>,
    name: Seq<char>,
    i: InfoView,
    row: usize,
    path: Seq<char>,
) -> Result<Seq<u8>, ErrorView> {
    let rows = second_dim(i.dims);
    if row >= rows {
        Err(ErrorView::InputLengthMismatch { expected: rows, got: row })
    } else {
        match row_size(i.ggml_type, i.dims[0]) {
            Err(e) => Err(e),
            Ok(size) => {
                let start = i.absolute_offset + row * size;
                if start + size > usize::MAX {
                    Err(tensor_fault(name, "' row offset overflow"@, path))
                } else if start + size > b.len() {
                    Err(tensor_fault(name, "' row extends beyond mapped file"@, path))
                } else {
                    Ok(b.subrange(start, start + size))
                }
            },
        }
    }
}

impl CheckpointView {
    pub open spec fn has(self, name: Seq<char>) -> bool {
        self.layout.tensors.contains_key(name)
    }

    pub open spec fn info(self, name: Seq<char>) -> InfoView {
        self.layout.tensors[name]
    }

    /// The binary32 patterns of a tensor by name.
    pub open spec fn singles(self, name: Seq<char>, path: Seq<char>) -> Result<
        Seq<u32>,
        ErrorView,
    > {
        if self.has(name) {
            single_values(self.bytes, name, self.info(name), path)
        } else {
            Err(missing(name, path))
        }
    }

    /// Why the row of a token cannot be extracted.
    pub open spec fn token_error(self, name: Seq<char>, path: Seq<char>, token: usize) -> Option<
        ErrorView,
    > {
        let i = self.info(name);
        let rows = second_dim(i.dims);
        let ty = i.ggml_type;
        if !self.has(name) {
            Some(missing(name, path))
        } else if token >= rows {
            Some(ErrorView::InputLengthMismatch { expected: rows, got: token })
        } else if ty == GGML_TYPE_F32 {
            match single_values(self.bytes, name, i, path) {
                Err(e) => Some(e),
                Ok(_) => None,
            }
        } else if ty == GGML_TYPE_F16 {
            match half_values(self.bytes, name, i, path) {
                Err(e) => Some(e),
                Ok(_) => None,
            }
        } else if ty == GGML_TYPE_Q8_0 || ty == GGML_TYPE_Q5_K {
            match quantized_row(self.bytes, name, i, token, path) {
                Err(e) => Some(e),
                Ok(_) => None,
            }
        } else if ty == GGML_TYPE_IQ3_S {
            Some(
                ErrorView::UnsupportedFormat(
                    "tensor '"@ + name
                        + "' uses IQ3_S token embeddings; use llama.cpp prompt embeddings for this checkpoint"@,
                ),
            )
        } else {
            Some(
                ErrorView::UnsupportedFormat(
                    "tensor '"@ + name + "' has unsupported ggml_type="@ + decimal(ty as nat),
                ),
            )
        }
    }

    /// `r` is the row of a token: its `dims[0]` patterns, widened or
    /// dequantized.
    pub open spec fn token_row<F: FloatUnit>(
        self,
        name: Seq<char>,
        token: usize,
        r: Seq<u32>,
    ) -> bool {
        let i = self.info(name);
        let width = i.dims[0] as int;
        let at = i.absolute_offset as int;
        if i.ggml_type == GGML_TYPE_F32 {
            r == words_at(self.bytes, at, i.n_elements as nat).subrange(
                token * width,
                token * width + width,
            )
        } else if i.ggml_type == GGML_TYPE_F16 {
            &&& r.len() == width
            &&& forall|x: int|
                0 <= x < width ==> widens_half(
                    halves_at(self.bytes, at, i.n_elements as nat)[token * width + x],
                    #[trigger] r[x],
                )
        } else {
            let size = row_size(i.ggml_type, i.dims[0])->Ok_0;
            let row = self.bytes.subrange(at + token * size, at + token * size + size);
            if i.ggml_type == GGML_TYPE_Q8_0 {
                &&& r.len() == width
                &&& forall|x: int| 0 <= x < width ==> q8_value::<F>(row, x, #[trigger] r[x])
            } else {
                &&& r.len() == width
                &&& forall|x: int| 0 <= x < width ==> q5_value::<F>(row, x, #[trigger] r[x])
            }
        }
    }

    /// The row of a token of plain numbers lies inside its tensor.
    pub open spec fn row_inside(self, name: Seq<char>, token: usize) -> bool {
        let i = self.info(name);
        i.ggml_type == GGML_TYPE_F32 || i.ggml_type == GGML_TYPE_F16 ==> token * i.dims[0]
            + i.dims[0] <= i.n_elements
    }

    /// Every token row lies inside its tensor.
    pub open spec fn rows_fit(self, name: Seq<char>) -> bool {
        let i = self.info(name);
        &&& i.dims.len() >= 1
        &&& i.dims.len() >= 2 ==> i.dims[0] * i.dims[1] <= i.n_elements
    }
}

/// Where every row lies inside its tensor, so does that of any token that can
/// be extracted.
pub proof fn lemma_row_inside(c: CheckpointView, name: Seq<char>, path: Seq<char>, token: usize)
    requires
        c.rows_fit(name),
        c.token_error(name, path, token) is None,
    ensures
        c.row_inside(name, token),
{
    let i = c.info(name);
    let (t, w, h) = (token as int, i.dims[0] as int, second_dim(i.dims) as int);
    assert(t * w + w <= w * h) by (nonlinear_arith)
        requires
            0 <= t,
            t + 1 <= h,
            0 <= w,
    ;
}

// ── Names by suffix ──────────────────────────────────────────────────

/// `name` ends in `suffix`, byte by byte.
pub open spec fn has_suffix(name: Seq<char>, suffix: Seq<char>) -> bool {
    let n = encode_utf8(name);
    let s = encode_utf8(suffix);
    s.len() <= n.len() && n.subrange(n.len() - s.len(), n.len() as int) == s
}

/// `name` is the first tensor name that ends in `suffix`, by block and then
/// byte by byte.
pub open spec fn first_with_suffix(
    tensors: Map<Seq<char>, InfoView>,
    suffix: Seq<char>,
    name: Seq<char>,
) -> bool {
    &&& tensors.contains_key(name)
    &&& has_suffix(name, suffix)
    &&& forall|k: Seq<char>| #[trigger]
        tensors.contains_key(k) && has_suffix(k, suffix) ==> names_ordered(
            encode_utf8(name),
            encode_utf8(k),
        )
}

pub open spec fn none_with_suffix(tensors: Map<Seq<char>, InfoView>, suffix: Seq<char>) -> bool {
    forall|k: Seq<char>| #[trigger] tensors.contains_key(k) ==> !has_suffix(k, suffix)
}

/// At most one name is the first with a suffix.
pub proof fn law_first_with_suffix_unique(
    tensors: Map<Seq<char>, InfoView>,
    suffix: Seq<char>,
    a: Seq<char>,
    b: Seq<char>,
)
    requires
        first_with_suffix(tensors, suffix, a),
        first_with_suffix(tensors, suffix, b),
    ensures
        a == b,
{
    law_names_antisymmetric(encode_utf8(a), encode_utf8(b));
    encode_utf8_decode_utf8(a);
    encode_utf8_decode_utf8(b);
}

fn ends_with(name: &str, suffix: &str) -> (r: bool)
    ensures
        r == has_suffix(name@, suffix@),
{
    let n: &[u8] = name.as_bytes();
    let s: &[u8] = suffix.as_bytes();
    if s.len() > n.len() {
        return false;
    }
    let len: usize = n.len();
    let start: usize = len - s.len();
    let mut i: usize = 0;
    while i < s.len()
        invariant
            i <= s@.len(),
            len == n@.len(),
            start + s@.len() == len,
            n@ == encode_utf8(name@),
            s@ == encode_utf8(suffix@),
            forall|j: int| 0 <= j < i ==> n@[start + j] == s@[j],
        decreases s@.len() - i,
    {
        if n[start + i] != s[i] {
            proof {
                let tail = n@.subrange(start as int, n@.len() as int);
                assert(tail[i as int] == n@[start + i]);
            }
            return false;
        }
        i += 1;
    }
    assert(n@.subrange(start as int, n@.len() as int) =~= s@);
    true
}

fn tensor_fault_error(name: &str, what: &str, path: &str) -> (e: CortexError)
    ensures
        e@ == tensor_fault(name@, what@, path@),
{
    let mut reason: String = String::from_str("tensor '");
    reason.append(name);
    reason.append(what);
    CortexError::ModelLoad { path: path.to_owned(), reason }
}

impl<'a> View for MappedGgufCheckpoint<'a> {
    type V = CheckpointView;

    open spec fn view(&self) -> CheckpointView {
        CheckpointView {
            bytes: self.bytes@,
            layout: LayoutView { metadata: self.metadata@, tensors: table_view(self.tensors@) },
        }
    }
}

/// Parses `bytes` as a checkpoint.
pub fn map_checkpoint<'a>(bytes: &'a [u8], path: &str) -> (r: Result<
    MappedGgufCheckpoint<'a>,
    CortexError,
>)
    ensures
        match layout(bytes@, path@) {
            Ok(v) => r matches Ok(c) && c.wf() && c@ == (CheckpointView {
                bytes: bytes@,
                layout: v,
            }),
            Err(e) => r matches Err(x) && x@ == e,
        },
{
    match parse_checkpoint_layout(bytes, path) {
        Ok(l) => Ok(
            MappedGgufCheckpoint { bytes, tensors: l.tensors, names: l.names, metadata: l.metadata },
        ),
        Err(e) => Err(e),
    }
}

impl<'a> MappedGgufCheckpoint<'a> {
    /// `names` lists the tensors.
    pub open spec fn wf(&self) -> bool {
        lists_keys(self.names@, self.tensors@)
    }

    pub fn metadata(&self) -> (r: &GgufMetadata)
        ensures
            r@ == self@.layout.metadata,
    {
        &self.metadata
    }

    pub fn has_tensor(&self, name: &str) -> (r: bool)
        ensures
            r == self@.has(name@),
    {
        self.tensors.contains_key(name)
    }

    /// The first tensor name that ends in `suffix`, by block and then by name.
    pub fn find_first_tensor_with_suffix(&self, suffix: &str) -> (r: Option<&str>)
        requires
            self.wf(),
        ensures
            match r {
                Some(s) => first_with_suffix(self@.layout.tensors, suffix@, s@),
                None => none_with_suffix(self@.layout.tensors, suffix@),
            },
    {
        let mut best: Option<usize> = None;
        let mut i: usize = 0;
        while i < self.names.len()
            invariant
                i <= self.names@.len(),
                self.wf(),
                match best {
                    None => forall|j: int|
                        0 <= j < i ==> !has_suffix((#[trigger] self.names@[j])@, suffix@),
                    Some(m) => m < i && has_suffix(self.names@[m as int]@, suffix@) && forall|
                        j: int,
                    |
                        0 <= j < i && has_suffix((#[trigger] self.names@[j])@, suffix@)
                            ==> names_ordered(
                            encode_utf8(self.names@[m as int]@),
                            encode_utf8(self.names@[j]@),
                        ),
                },
            decreases self.names@.len() - i,
        {
            if ends_with(self.names[i].as_str(), suffix) {
                match best {
                    None => {
                        proof {
                            law_names_total(
                                encode_utf8(self.names@[i as int]@),
                                encode_utf8(self.names@[i as int]@),
                            );
                        }
                        best = Some(i);
                    },
                    Some(m) => {
                        let keep: bool = is_names_ordered(
                            self.names[m].as_str().as_bytes(),
                            self.names[i].as_str().as_bytes(),
                        );
                        proof {
                            let x = encode_utf8(self.names@[m as int]@);
                            let y = encode_utf8(self.names@[i as int]@);
                            law_names_total(x, y);
                            law_names_total(y, y);
                            if !keep {
                                assert forall|j: int|
                                    0 <= j < i && has_suffix(
                                        (#[trigger] self.names@[j])@,
                                        suffix@,
                                    ) implies names_ordered(
                                    y,
                                    encode_utf8(self.names@[j]@),
                                ) by {
                                    law_names_transitive(y, x, encode_utf8(self.names@[j]@));
                                }
                            }
                        }
                        if !keep {
                            best = Some(i);
                        }
                    },
                }
            }
            i += 1;
        }
        proof {
            let t = self@.layout.tensors;
            assert forall|k: Seq<char>| #[trigger] t.contains_key(k) implies exists|j: int|
                0 <= j < self.names@.len() && (#[trigger] self.names@[j])@ == k by {
                assert(self.tensors@.contains_key(k));
            }
            if let Some(m) = best {
                assert(self.tensors@.contains_key(self.names@[m as int]@));
                assert(t.contains_key(self.names@[m as int]@));
            }
        }
        match best {
            Some(m) => Some(self.names[m].as_str()),
            None => None,
        }
    }

    /// Where a tensor lies.
    pub fn tensor_info(&self, name: &str, path: &str) -> (r: Result<&GgufTensorInfo, CortexError>)
        ensures
            if self@.has(name@) {
                r matches Ok(i) && i@ == self@.info(name@)
            } else {
                r matches Err(e) && e@ == missing(name@, path@)
            },
    {
        match self.tensors.get(name) {
            Some(i) => Ok(i),
            None => Err(
                CortexError::MissingTensor { name: name.to_owned(), path: path.to_owned() },
            ),
        }
    }

    /// The binary32 patterns of a tensor.
    pub fn f32_tensor(&self, name: &str, path: &str) -> (r: Result<Vec<u32>, CortexError>)
        ensures
            match self@.singles(name@, path@) {
                Ok(s) => r matches Ok(v) && v@ == s,
                Err(e) => r matches Err(x) && x@ == e,
            },
    {
        let info: &GgufTensorInfo = match self.tensor_info(name, path) {
            Ok(i) => i,
            Err(e) => {
                return Err(e);
            },
        };
        if info.ggml_type != GGML_TYPE_F32 {
            let mut msg: String = String::from_str("tensor '");
            msg.append(name);
            msg.append("' must be F32, got ggml_type=");
            msg.append(decimal_text(info.ggml_type as u64).as_str());
            return Err(CortexError::UnsupportedFormat(msg));
        }
        let start: usize = info.absolute_offset;
        let n: usize = info.n_elements;
        let len: usize = self.bytes.len();
        if start > len || n > (len - start) / 4 {
            return Err(tensor_fault_error(name, "' extends beyond mapped file", path));
        }
        let mut out: Vec<u32> = Vec::new();
        let mut i: usize = 0;
        while i < n
            invariant
                i <= n,
                len == self.bytes@.len(),
                start + n * 4 <= len,
                out@.len() == i,
                forall|j: int|
                    0 <= j < i ==> out@[j] == #[trigger] words_at(
                        self.bytes@,
                        start as int,
                        n as nat,
                    )[j],
            decreases n - i,
        {
            let part: &[u8] = slice_subrange(self.bytes, start + i * 4, start + i * 4 + 4);
            proof {
                lemma_little_endian_bound(part@);
                lemma_byte_range();
            }
            out.push(little_endian_value(part) as u32);
            i += 1;
        }
        assert(out@ =~= words_at(self.bytes@, start as int, n as nat));
        Ok(out)
    }

    /// The binary16 patterns of a tensor.
    pub fn u16_tensor_values(&self, info: &GgufTensorInfo, path: &str, tensor_name: &str) -> (r:
        Result<Vec<u16>, CortexError>)
        ensures
            match half_values(self@.bytes, tensor_name@, info@, path@) {
                Ok(s) => r matches Ok(v) && v@ == s,
                Err(e) => r matches Err(x) && x@ == e,
            },
    {
        let start: usize = info.absolute_offset;
        let n: usize = info.n_elements;
        let len: usize = self.bytes.len();
        if start > len || n > (len - start) / 2 {
            return Err(tensor_fault_error(tensor_name, "' extends beyond mapped file", path));
        }
        let mut out: Vec<u16> = Vec::new();
        let mut i: usize = 0;
        while i < n
            invariant
                i <= n,
                len == self.bytes@.len(),
                start + n * 2 <= len,
                out@.len() == i,
                forall|j: int|
                    0 <= j < i ==> out@[j] == #[trigger] halves_at(
                        self.bytes@,
                        start as int,
                        n as nat,
                    )[j],
            decreases n - i,
        {
            let part: &[u8] = slice_subrange(self.bytes, start + i * 2, start + i * 2 + 2);
            proof {
                lemma_little_endian_bound(part@);
                lemma_byte_range();
            }
            out.push(little_endian_value(part) as u16);
            i += 1;
        }
        assert(out@ =~= halves_at(self.bytes@, start as int, n as nat));
        Ok(out)
    }

    /// The bytes of one row of a quantized tensor.
    pub fn row_bytes(&self, info: &GgufTensorInfo, row_idx: usize, path: &str, tensor_name: &str) -> (r:
        Result<&'a [u8], CortexError>)
        ensures
            match quantized_row(self@.bytes, tensor_name@, info@, row_idx, path@) {
                Ok(s) => r matches Ok(v) && v@ == s,
                Err(e) => r matches Err(x) && x@ == e,
            },
    {
        let n_rows: usize = if info.dims.len() > 1 {
            info.dims[1]
        } else {
            0
        };
        if row_idx >= n_rows {
            return Err(CortexError::InputLengthMismatch { expected: n_rows, got: row_idx });
        }
        let size: Option<usize> = match tensor_row_size(info.ggml_type, info.dims[0]) {
            Ok(s) => s,
            Err(e) => {
                return Err(e);
            },
        };
        let ghost true_size = row_size(info.ggml_type, info@.dims[0])->Ok_0 as int;
        proof {
            assert(0 <= row_idx * true_size) by (nonlinear_arith)
                requires
                    0 <= row_idx,
                    0 <= true_size,
            ;
        }
        let row_size: usize = match size {
            Some(s) => s,
            None => {
                return Err(tensor_fault_error(tensor_name, "' row offset overflow", path));
            },
        };
        let skipped: usize = match row_idx.checked_mul(row_size) {
            Some(s) => s,
            None => {
                return Err(tensor_fault_error(tensor_name, "' row offset overflow", path));
            },
        };
        let start: usize = match info.absolute_offset.checked_add(skipped) {
            Some(s) => s,
            None => {
                return Err(tensor_fault_error(tensor_name, "' row offset overflow", path));
            },
        };
        let end: usize = match start.checked_add(row_size) {
            Some(s) => s,
            None => {
                return Err(tensor_fault_error(tensor_name, "' row offset overflow", path));
            },
        };
        if end > self.bytes.len() {
            return Err(tensor_fault_error(tensor_name, "' row extends beyond mapped file", path));
        }
        Ok(slice_subrange(self.bytes, start, end))
    }

    /// The embedding row of a token.
    pub fn extract_token_embedding<F: FloatUnit>(
        &self,
        tensor_name: &str,
        path: &str,
        token_id: usize,
    ) -> (r: Result<Vec<u32>, CortexError>)
        requires
            self@.has(tensor_name@) ==> self@.info(tensor_name@).dims.len() >= 1,
            self@.token_error(tensor_name@, path@, token_id) is None ==> self@.row_inside(
                tensor_name@,
                token_id,
            ),
        ensures
            match self@.token_error(tensor_name@, path@, token_id) {
                Some(e) => r matches Err(x) && x@ == e,
                None => r matches Ok(v) && self@.token_row::<F>(tensor_name@, token_id, v@)
                    && v@.len() == self@.info(tensor_name@).dims[0],
            },
    {
        let info: &GgufTensorInfo = match self.tensor_info(tensor_name, path) {
            Ok(i) => i,
            Err(e) => {
                return Err(e);
            },
        };
        let d0: usize = info.dims[0];
        let d1: usize = if info.dims.len() > 1 {
            info.dims[1]
        } else {
            0
        };
        if token_id >= d1 {
            return Err(CortexError::InputLengthMismatch { expected: d1, got: token_id });
        }
        assert(0 <= token_id * d0) by (nonlinear_arith)
            requires
                0 <= token_id,
                0 <= d0,
        ;
        if info.ggml_type == GGML_TYPE_F32 {
            match self.f32_tensor(tensor_name, path) {
                Ok(w) => Ok(
                    slice_to_vec(
                        slice_subrange(w.as_slice(), token_id * d0, token_id * d0 + d0),
                    ),
                ),
                Err(e) => Err(e),
            }
        } else if info.ggml_type == GGML_TYPE_F16 {
            let values: Vec<u16> = match self.u16_tensor_values(info, path, tensor_name) {
                Ok(v) => v,
                Err(e) => {
                    return Err(e);
                },
            };
            let ghost all = halves_at(
                self.bytes@,
                info.absolute_offset as int,
                info.n_elements as nat,
            );
            let count: usize = values.len();
            let start: usize = token_id * d0;
            let mut out: Vec<u32> = Vec::new();
            let mut i: usize = 0;
            while i < d0
                invariant
                    i <= d0,
                    values@ == all,
                    count == values@.len(),
                    start + d0 <= count,
                    out@.len() == i,
                    forall|j: int|
                        0 <= j < i ==> widens_half(all[start + j], #[trigger] out@[j]),
                decreases d0 - i,
            {
                out.push(half_to_single(values[start + i]));
                i += 1;
            }
            Ok(out)
        } else if info.ggml_type == GGML_TYPE_Q8_0 {
            match self.row_bytes(info, token_id, path, tensor_name) {
                Ok(row) => dequantize_row_q8_0::<F>(row, d0),
                Err(e) => Err(e),
            }
        } else if info.ggml_type == GGML_TYPE_Q5_K {
            match self.row_bytes(info, token_id, path, tensor_name) {
                Ok(row) => dequantize_row_q5_k::<F>(row, d0),
                Err(e) => Err(e),
            }
        } else if info.ggml_type == GGML_TYPE_IQ3_S {
            let mut msg: String = String::from_str("tensor '");
            msg.append(tensor_name);
            msg.append(
                "' uses IQ3_S token embeddings; use llama.cpp prompt embeddings for this checkpoint",
            );
            Err(CortexError::UnsupportedFormat(msg))
        } else {
            let mut msg: String = String::from_str("tensor '");
            msg.append(tensor_name);
            msg.append("' has unsupported ggml_type=");
            msg.append(decimal_text(info.ggml_type as u64).as_str());
            Err(CortexError::UnsupportedFormat(msg))
        }
    }
}

} // verus!
