//! Which tensors and dimensions of a checkpoint the router uses.

use vstd::prelude::*;
use vstd::string::StringExecFns;
use crate::error::{CortexError, ErrorView};
use crate::moe::checkpoint::{
    GgufMetadata, GgufTensorInfo, InfoView, MetadataView, element_count, header, initial_kvs, kvs,
    layout, tensor_entries, tensor_entry, tensor_table,
};
use crate::moe::dequant::{aligned, clamped};
use crate::moe::gguf::{GGML_TYPE_F16, GGML_TYPE_F32, GGML_TYPE_Q5_K, GGML_TYPE_Q8_0};
use crate::moe::mapped::{
    CheckpointView, MappedGgufCheckpoint, first_with_suffix, law_first_with_suffix_unique, missing,
    none_with_suffix,
};
use crate::moe::routing::oriented;
use crate::text::{bracketed, decimal, decimal_text, size_text, sizes, sizes_text};

verus! {

/// The dimensions and tensors of a checkpoint that routing needs.
pub struct ModelAdapter {
    pub architecture: String,
    pub hidden_size: usize,
    pub num_layers: usize,
    pub num_experts: usize,
    pub expert_used_count: usize,
    pub token_embedding_tensor: String,
    pub routing_tensor: String,
    pub quantization: String,
}

/// The mathematical content of a [`ModelAdapter`].
#[verifier::ext_equal]
pub struct AdapterView {
    pub architecture: Seq<char>,
    pub hidden_size: usize,
    pub num_layers: usize,
    pub num_experts: usize,
    pub expert_used_count: usize,
    pub token_embedding_tensor: Seq<char>,
    pub routing_tensor: Seq<char>,
    pub quantization: Seq<char>,
}

impl View for ModelAdapter {
    type V = AdapterView;

    open spec fn view(&self) -> AdapterView {
        AdapterView {
            architecture: self.architecture@,
            hidden_size: self.hidden_size,
            num_layers: self.num_layers,
            num_experts: self.num_experts,
            expert_used_count: self.expert_used_count,
            token_embedding_tensor: self.token_embedding_tensor@,
            routing_tensor: self.routing_tensor@,
            quantization: self.quantization@,
        }
    }
}

// ── Metadata ─────────────────────────────────────────────────────────

/// A numeric value every checkpoint must have.
pub open spec fn required_numeric(m: MetadataView, suffix: Seq<char>, path: Seq<char>) -> Result<
    usize,
    ErrorView,
> {
    let key = m.architecture + suffix;
    match m.numeric(key) {
        Some(n) => Ok(n),
        None => Err(
            ErrorView::UnsupportedFormat("missing '"@ + key + "' in '"@ + path + "'"@),
        ),
    }
}

fn require_numeric(metadata: &GgufMetadata, suffix: &str, path: &str) -> (r: Result<
    usize,
    CortexError,
>)
    ensures
        match required_numeric(metadata@, suffix@, path@) {
            Ok(n) => r matches Ok(v) && v == n,
            Err(e) => r matches Err(x) && x@ == e,
        },
{
    let mut key: String = metadata.architecture.clone();
    key.append(suffix);
    match metadata.numeric(key.as_str()) {
        Some(n) => Ok(n),
        None => {
            let mut msg: String = String::from_str("missing '");
            msg.append(key.as_str());
            msg.append("' in '");
            msg.append(path);
            msg.append("'");
            Err(CortexError::UnsupportedFormat(msg))
        },
    }
}

// ── Token embedding ──────────────────────────────────────────────────

/// A `[hidden, vocab]` tensor of a type whose rows can be extracted.
pub open spec fn token_supported(i: InfoView, hidden: usize) -> bool {
    &&& i.dims.len() == 2
    &&& i.dims[0] == hidden
    &&& i.dims[1] > 0
    &&& {
        ||| i.ggml_type == GGML_TYPE_F32
        ||| i.ggml_type == GGML_TYPE_F16
        ||| i.ggml_type == GGML_TYPE_Q8_0 && hidden % 32 == 0
        ||| i.ggml_type == GGML_TYPE_Q5_K && hidden % 256 == 0
    }
}

pub open spec fn token_unsupported(
    name: Seq<char>,
    i: InfoView,
    hidden: usize,
    path: Seq<char>,
) -> ErrorView {
    ErrorView::UnsupportedFormat(
        "token embedding tensor '"@ + name + "' in '"@ + path
            + "' has unsupported shape/type: ggml_type="@ + decimal(i.ggml_type as nat)
            + " dims="@ + bracketed(sizes(i.dims)) + " (expected [hidden_size="@ + decimal(
            hidden as nat,
        ) + ", vocab_size>0])"@,
    )
}

/// The token embedding tensor.
pub open spec fn token_tensor(c: CheckpointView, hidden: usize, path: Seq<char>) -> Result<
    Seq<char>,
    ErrorView,
> {
    if c.has("token_embd.weight"@) {
        if token_supported(c.info("token_embd.weight"@), hidden) {
            Ok("token_embd.weight"@)
        } else {
            Err(
                token_unsupported(
                    "token_embd.weight"@,
                    c.info("token_embd.weight"@),
                    hidden,
                    path,
                ),
            )
        }
    } else if c.has("tok_embeddings.weight"@) {
        if token_supported(c.info("tok_embeddings.weight"@), hidden) {
            Ok("tok_embeddings.weight"@)
        } else {
            Err(
                token_unsupported(
                    "tok_embeddings.weight"@,
                    c.info("tok_embeddings.weight"@),
                    hidden,
                    path,
                ),
            )
        }
    } else {
        Err(missing("token_embd.weight"@, path))
    }
}

fn is_token_embedding_supported(info: &GgufTensorInfo, hidden_size: usize) -> (r: bool)
    ensures
        r == token_supported(info@, hidden_size),
{
    info.dims.len() == 2 && info.dims[0] == hidden_size && info.dims[1] > 0 && (info.ggml_type
        == GGML_TYPE_F32 || info.ggml_type == GGML_TYPE_F16 || (info.ggml_type == GGML_TYPE_Q8_0
        && hidden_size % 32 == 0) || (info.ggml_type == GGML_TYPE_Q5_K && hidden_size % 256 == 0))
}

fn check_token_tensor(
    checkpoint: &MappedGgufCheckpoint<'_>,
    name: &str,
    hidden_size: usize,
    path: &str,
) -> (r: Result<String, CortexError>)
    requires
        checkpoint@.has(name@),
    ensures
        if token_supported(checkpoint@.info(name@), hidden_size) {
            r matches Ok(s) && s@ == name@
        } else {
            r matches Err(e) && e@ == token_unsupported(
                name@,
                checkpoint@.info(name@),
                hidden_size,
                path@,
            )
        },
{
    let info: &GgufTensorInfo = match checkpoint.tensor_info(name, path) {
        Ok(i) => i,
        Err(e) => {
            return Err(e);
        },
    };
    if is_token_embedding_supported(info, hidden_size) {
        return Ok(name.to_owned());
    }
    let mut msg: String = String::from_str("token embedding tensor '");
    msg.append(name);
    msg.append("' in '");
    msg.append(path);
    msg.append("' has unsupported shape/type: ggml_type=");
    msg.append(decimal_text(info.ggml_type as u64).as_str());
    msg.append(" dims=");
    msg.append(sizes_text(info.dims.as_slice()).as_str());
    msg.append(" (expected [hidden_size=");
    msg.append(size_text(hidden_size).as_str());
    msg.append(", vocab_size>0])");
    Err(CortexError::UnsupportedFormat(msg))
}

fn resolve_token_embedding_tensor(
    checkpoint: &MappedGgufCheckpoint<'_>,
    hidden_size: usize,
    path: &str,
) -> (r: Result<String, CortexError>)
    ensures
        match token_tensor(checkpoint@, hidden_size, path@) {
            Ok(n) => r matches Ok(s) && s@ == n,
            Err(e) => r matches Err(x) && x@ == e,
        },
{
    if checkpoint.has_tensor("token_embd.weight") {
        return check_token_tensor(checkpoint, "token_embd.weight", hidden_size, path);
    }
    if checkpoint.has_tensor("tok_embeddings.weight") {
        return check_token_tensor(checkpoint, "tok_embeddings.weight", hidden_size, path);
    }
    Err(
        CortexError::MissingTensor {
            name: String::from_str("token_embd.weight"),
            path: path.to_owned(),
        },
    )
}

// ── Routing tensor ───────────────────────────────────────────────────

/// The first tensor name with a suffix.
pub open spec fn first_name(c: CheckpointView, suffix: Seq<char>) -> Option<Seq<char>> {
    if none_with_suffix(c.layout.tensors, suffix) {
        None
    } else {
        Some(choose|n: Seq<char>| first_with_suffix(c.layout.tensors, suffix, n))
    }
}

/// The name of the routing tensor.
pub open spec fn gate_name(c: CheckpointView) -> Option<Seq<char>> {
    match first_name(c, "ffn_gate_inp.weight"@) {
        Some(n) => Some(n),
        None => first_name(c, "ffn_gate.weight"@),
    }
}

/// Why a routing tensor cannot be indexed.
pub open spec fn gate_tensor_error(
    name: Seq<char>,
    i: InfoView,
    hidden: usize,
    experts: usize,
    path: Seq<char>,
) -> Option<ErrorView> {
    let (d0, d1) = (i.dims[0], i.dims[1]);
    let exposed = if d0 == hidden { d1 } else { d0 };
    if i.ggml_type != GGML_TYPE_F32 || i.dims.len() != 2 {
        Some(
            ErrorView::UnsupportedFormat(
                "routing tensor '"@ + name + "' must be rank-2 F32 in '"@ + path + "', got dims="@
                    + bracketed(sizes(i.dims)) + " ggml_type="@ + decimal(i.ggml_type as nat),
            ),
        )
    } else if d0 != hidden && d1 != hidden {
        Some(
            ErrorView::UnsupportedFormat(
                "routing tensor '"@ + name + "' in '"@ + path
                    + "' has unsupported orientation dims="@ + decimal(d0 as nat) + "x"@ + decimal(
                    d1 as nat,
                ) + "; expected one dimension to equal hidden_size="@ + decimal(hidden as nat)
                    + " and the other to be at least "@ + decimal(experts as nat),
            ),
        )
    } else if exposed < experts {
        Some(
            ErrorView::UnsupportedFormat(
                "routing tensor '"@ + name + "' in '"@ + path + "' only exposes "@ + decimal(
                    exposed as nat,
                ) + " experts, expected at least "@ + decimal(experts as nat),
            ),
        )
    } else {
        None
    }
}

/// The routing tensor.
pub open spec fn gate_tensor(
    c: CheckpointView,
    hidden: usize,
    experts: usize,
    path: Seq<char>,
) -> Result<Seq<char>, ErrorView> {
    match gate_name(c) {
        None => Err(missing("ffn_gate_inp.weight"@, path)),
        Some(n) => match gate_tensor_error(n, c.info(n), hidden, experts, path) {
            Some(e) => Err(e),
            None => Ok(n),
        },
    }
}

fn find_first<'b>(checkpoint: &'b MappedGgufCheckpoint<'_>, suffix: &str) -> (r: Option<&'b str>)
    requires
        checkpoint.wf(),
    ensures
        match first_name(checkpoint@, suffix@) {
            Some(n) => r matches Some(s) && s@ == n && checkpoint@.has(n),
            None => r is None,
        },
{
    let r: Option<&'b str> = checkpoint.find_first_tensor_with_suffix(suffix);
    proof {
        let t = checkpoint@.layout.tensors;
        if let Some(s) = r {
            assert(first_with_suffix(t, suffix@, s@));
            assert(!none_with_suffix(t, suffix@));
            let n = choose|n: Seq<char>| first_with_suffix(t, suffix@, n);
            law_first_with_suffix_unique(t, suffix@, s@, n);
        }
    }
    r
}

fn resolve_routing_tensor(
    checkpoint: &MappedGgufCheckpoint<'_>,
    hidden_size: usize,
    num_experts: usize,
    path: &str,
) -> (r: Result<String, CortexError>)
    requires
        checkpoint.wf(),
    ensures
        match gate_tensor(checkpoint@, hidden_size, num_experts, path@) {
            Ok(n) => r matches Ok(s) && s@ == n && checkpoint@.has(n),
            Err(e) => r matches Err(x) && x@ == e,
        },
{
    let found: Option<&str> = match find_first(checkpoint, "ffn_gate_inp.weight") {
        Some(s) => Some(s),
        None => find_first(checkpoint, "ffn_gate.weight"),
    };
    let name: &str = match found {
        Some(s) => s,
        None => {
            return Err(
                CortexError::MissingTensor {
                    name: String::from_str("ffn_gate_inp.weight"),
                    path: path.to_owned(),
                },
            );
        },
    };
    let info: &GgufTensorInfo = match checkpoint.tensor_info(name, path) {
        Ok(i) => i,
        Err(e) => {
            return Err(e);
        },
    };
    if info.ggml_type != GGML_TYPE_F32 || info.dims.len() != 2 {
        let mut msg: String = String::from_str("routing tensor '");
        msg.append(name);
        msg.append("' must be rank-2 F32 in '");
        msg.append(path);
        msg.append("', got dims=");
        msg.append(sizes_text(info.dims.as_slice()).as_str());
        msg.append(" ggml_type=");
        msg.append(decimal_text(info.ggml_type as u64).as_str());
        return Err(CortexError::UnsupportedFormat(msg));
    }
    let d0: usize = info.dims[0];
    let d1: usize = info.dims[1];
    if d0 != hidden_size && d1 != hidden_size {
        let mut msg: String = String::from_str("routing tensor '");
        msg.append(name);
        msg.append("' in '");
        msg.append(path);
        msg.append("' has unsupported orientation dims=");
        msg.append(size_text(d0).as_str());
        msg.append("x");
        msg.append(size_text(d1).as_str());
        msg.append("; expected one dimension to equal hidden_size=");
        msg.append(size_text(hidden_size).as_str());
        msg.append(" and the other to be at least ");
        msg.append(size_text(num_experts).as_str());
        return Err(CortexError::UnsupportedFormat(msg));
    }
    let exposed: usize = if d0 == hidden_size {
        d1
    } else {
        d0
    };
    if exposed < num_experts {
        let mut msg: String = String::from_str("routing tensor '");
        msg.append(name);
        msg.append("' in '");
        msg.append(path);
        msg.append("' only exposes ");
        msg.append(size_text(exposed).as_str());
        msg.append(" experts, expected at least ");
        msg.append(size_text(num_experts).as_str());
        return Err(CortexError::UnsupportedFormat(msg));
    }
    Ok(name.to_owned())
}

// ── Resolution ───────────────────────────────────────────────────────

/// The adapter of a checkpoint.
pub open spec fn resolved(m: MetadataView, c: CheckpointView, path: Seq<char>) -> Result<
    AdapterView,
    ErrorView,
> {
    match required_numeric(m, ".embedding_length"@, path) {
        Err(e) => Err(e),
        Ok(hidden) => match required_numeric(m, ".block_count"@, path) {
            Err(e) => Err(e),
            Ok(layers) => match required_numeric(m, ".expert_count"@, path) {
                Err(e) => Err(e),
                Ok(experts) => match token_tensor(c, hidden, path) {
                    Err(e) => Err(e),
                    Ok(token) => match gate_tensor(c, hidden, experts, path) {
                        Err(e) => Err(e),
                        Ok(gate) => Ok(
                            AdapterView {
                                architecture: m.architecture,
                                hidden_size: hidden,
                                num_layers: layers,
                                num_experts: experts,
                                expert_used_count: match m.numeric(
                                    m.architecture + ".expert_used_count"@,
                                ) {
                                    Some(n) => n,
                                    None => 1,
                                },
                                token_embedding_tensor: token,
                                routing_tensor: gate,
                                quantization: m.quantization,
                            },
                        ),
                    },
                },
            },
        },
    }
}

/// Resolves dimensions and tensors from a checkpoint.
pub fn resolve_adapter(
    metadata: &GgufMetadata,
    checkpoint: &MappedGgufCheckpoint<'_>,
    path: &str,
) -> (r: Result<ModelAdapter, CortexError>)
    requires
        checkpoint.wf(),
    ensures
        match resolved(metadata@, checkpoint@, path@) {
            Ok(v) => r matches Ok(a) && a@ == v && checkpoint@.has(v.routing_tensor),
            Err(e) => r matches Err(x) && x@ == e,
        },
{
    let hidden_size: usize = match require_numeric(metadata, ".embedding_length", path) {
        Ok(n) => n,
        Err(e) => {
            return Err(e);
        },
    };
    let num_layers: usize = match require_numeric(metadata, ".block_count", path) {
        Ok(n) => n,
        Err(e) => {
            return Err(e);
        },
    };
    let num_experts: usize = match require_numeric(metadata, ".expert_count", path) {
        Ok(n) => n,
        Err(e) => {
            return Err(e);
        },
    };
    let mut used_key: String = metadata.architecture.clone();
    used_key.append(".expert_used_count");
    let expert_used_count: usize = match metadata.numeric(used_key.as_str()) {
        Some(n) => n,
        None => 1,
    };
    let token_embedding_tensor: String = match resolve_token_embedding_tensor(
        checkpoint,
        hidden_size,
        path,
    ) {
        Ok(s) => s,
        Err(e) => {
            return Err(e);
        },
    };
    let routing_tensor: String = match resolve_routing_tensor(
        checkpoint,
        hidden_size,
        num_experts,
        path,
    ) {
        Ok(s) => s,
        Err(e) => {
            return Err(e);
        },
    };
    Ok(
        ModelAdapter {
            architecture: metadata.architecture.clone(),
            hidden_size,
            num_layers,
            num_experts,
            expert_used_count,
            token_embedding_tensor,
            routing_tensor,
            quantization: metadata.quantization.clone(),
        },
    )
}

// ── What resolution guarantees ───────────────────────────────────────

/// Every tensor knows its element count.
pub open spec fn counted(tensors: Map<Seq<char>, InfoView>) -> bool {
    forall|k: Seq<char>| #[trigger]
        tensors.contains_key(k) ==> element_count(tensors[k].dims) == Some(
            tensors[k].n_elements as nat,
        )
}

/// Every entry knows its element count.
pub open spec fn counted_entries(entries: Seq<(Seq<char>, InfoView)>) -> bool {
    forall|i: int|
        0 <= i < entries.len() ==> element_count((#[trigger] entries[i]).1.dims) == Some(
            entries[i].1.n_elements as nat,
        )
}

proof fn lemma_entry_counted(b: Seq<u8>, off: nat, path: Seq<char>)
    ensures
        tensor_entry(b, off, path) matches Ok((e, _)) ==> element_count(e.1.dims) == Some(
            e.1.n_elements as nat,
        ),
{
}

proof fn lemma_entries_counted(b: Seq<u8>, off: nat, n: nat, path: Seq<char>)
    ensures
        tensor_entries(b, off, n, path) matches Ok((list, _)) ==> counted_entries(list),
    decreases n,
{
    if n > 0 {
        lemma_entry_counted(b, off, path);
        if let Ok((entry, o)) = tensor_entry(b, off, path) {
            lemma_entries_counted(b, o, (n - 1) as nat, path);
            if let Ok((rest, _)) = tensor_entries(b, o, (n - 1) as nat, path) {
                let list = seq![entry] + rest;
                assert forall|i: int| 0 <= i < list.len() implies element_count(
                    (#[trigger] list[i]).1.dims,
                ) == Some(list[i].1.n_elements as nat) by {
                    if i > 0 {
                        assert(list[i] == rest[i - 1]);
                    }
                }
            }
        }
    }
}

proof fn lemma_table_counted(entries: Seq<(Seq<char>, InfoView)>, base: usize)
    requires
        counted_entries(entries),
    ensures
        counted(tensor_table(entries, base)),
    decreases entries.len(),
{
    if entries.len() > 0 {
        let rest = entries.drop_last();
        assert forall|i: int| 0 <= i < rest.len() implies element_count(
            (#[trigger] rest[i]).1.dims,
        ) == Some(rest[i].1.n_elements as nat) by {
            assert(rest[i] == entries[i]);
        }
        lemma_table_counted(rest, base);
        let last = entries[entries.len() - 1];
        assert(element_count(last.1.dims) == Some(last.1.n_elements as nat));
    }
}

/// In a parsed file every tensor's element count is the product of its
/// dimensions.
pub proof fn law_layout_counted(b: Seq<u8>, path: Seq<char>)
    ensures
        layout(b, path) matches Ok(v) ==> counted(v.tensors),
{
    if let Ok(((tensors, entries), o1)) = header(b, 0, path) {
        if let Ok((st, o2)) = kvs(b, o1, entries as nat, initial_kvs(), path) {
            lemma_entries_counted(b, o2, tensors as nat, path);
            if let Ok((list, o3)) = tensor_entries(b, o2, tensors as nat, path) {
                lemma_table_counted(list, clamped(aligned(o3, st.alignment as nat)));
            }
        }
    }
}

pub proof fn lemma_matrix_count(dims: Seq<usize>, n: nat)
    requires
        dims.len() == 2,
        element_count(dims) == Some(n),
    ensures
        n == dims[0] * dims[1],
        n <= usize::MAX,
{
    let one = dims.drop_last();
    assert(one.len() == 1);
    assert(one.drop_last().len() == 0);
    assert(element_count(one.drop_last()) == Some(1nat));
    assert(1 * one.last() == dims[0]);
    assert(element_count(one) == Some(dims[0] as nat));
}

/// A routing tensor that resolution accepts can be indexed for every expert.
pub proof fn law_resolved_gate_oriented(
    c: CheckpointView,
    hidden: usize,
    experts: usize,
    path: Seq<char>,
    used: usize,
)
    requires
        used <= experts,
    ensures
        gate_tensor(c, hidden, experts, path) matches Ok(n) ==> oriented(
            c.info(n).dims,
            used,
            hidden as nat,
        ) && c.info(n).dims.len() == 2 && c.info(n).ggml_type == GGML_TYPE_F32,
{
}

} // verus!
