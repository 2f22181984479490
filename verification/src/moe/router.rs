//! The router over a checkpoint, or over a synthetic gate without one.

use vstd::prelude::*;
use vstd::string::StringExecFns;
use crate::error::{CortexError, ErrorView};
use crate::float::{FloatUnit, counts, divs, muls, sum_from, sums};
use crate::ieee::{NEG_ZERO, ONE, ZERO};
use crate::moe::adapter::{
    AdapterView, ModelAdapter, counted, law_layout_counted, law_resolved_gate_oriented,
    lemma_matrix_count, resolve_adapter, resolved,
};
use crate::moe::checkpoint::layout;
use crate::moe::mapped::{CheckpointView, MappedGgufCheckpoint, lemma_row_inside, map_checkpoint};
use crate::moe::routing::{
    applies_options, apply_extract_token_options, checkpoint_gate_scores, chunk_gates, content,
    gate_error, gates, nan_error, oriented, resample_unit, resamples_unit, route_top_k, selects,
    synthetic_gate_scores,
};
use crate::tensor::finite::{constant, shares, softmaxes};
use crate::text::{decimal, size_text};
use crate::types::{EMBEDDING_DIM, ExtractTokenOptions, RoutingMode};

verus! {

/// What a checkpoint says of itself.
#[derive(Debug)]
pub struct RouterMetadata {
    pub architecture: String,
    pub hidden_size: usize,
    pub num_layers: usize,
    pub num_experts: usize,
    pub expert_used_count: usize,
    pub quantization: String,
    pub routing_tensor_name: String,
}

/// The mathematical content of a [`RouterMetadata`].
#[verifier::ext_equal]
pub struct RouterMetadataView {
    pub architecture: Seq<char>,
    pub hidden_size: usize,
    pub num_layers: usize,
    pub num_experts: usize,
    pub expert_used_count: usize,
    pub quantization: Seq<char>,
    pub routing_tensor_name: Seq<char>,
}

impl View for RouterMetadata {
    type V = RouterMetadataView;

    open spec fn view(&self) -> RouterMetadataView {
        RouterMetadataView {
            architecture: self.architecture@,
            hidden_size: self.hidden_size,
            num_layers: self.num_layers,
            num_experts: self.num_experts,
            expert_used_count: self.expert_used_count,
            quantization: self.quantization@,
            routing_tensor_name: self.routing_tensor_name@,
        }
    }
}

impl Default for RouterMetadata {
    fn default() -> (r: Self)
        ensures
            r@ == (RouterMetadataView {
                architecture: seq![],
                hidden_size: 0,
                num_layers: 0,
                num_experts: 0,
                expert_used_count: 0,
                quantization: seq![],
                routing_tensor_name: seq![],
            }),
    {
        let r: RouterMetadata = RouterMetadata {
            architecture: String::new(),
            hidden_size: 0,
            num_layers: 0,
            num_experts: 0,
            expert_used_count: 0,
            quantization: String::new(),
            routing_tensor_name: String::new(),
        };
        assert(r@ =~= (RouterMetadataView {
            architecture: seq![],
            hidden_size: 0,
            num_layers: 0,
            num_experts: 0,
            expert_used_count: 0,
            quantization: seq![],
            routing_tensor_name: seq![],
        }));
        r
    }
}

impl Clone for RouterMetadata {
    fn clone(&self) -> (r: Self)
        ensures
            r@ == self@,
    {
        RouterMetadata {
            architecture: self.architecture.clone(),
            hidden_size: self.hidden_size,
            num_layers: self.num_layers,
            num_experts: self.num_experts,
            expert_used_count: self.expert_used_count,
            quantization: self.quantization.clone(),
            routing_tensor_name: self.routing_tensor_name.clone(),
        }
    }
}

/// What routing an embedding gives.
#[derive(Debug, Clone)]
pub struct MoeOutput {
    pub expert_weights: Vec<u32>,
    pub selected_experts: Vec<usize>,
    pub hidden: Vec<u32>,
}

/// The mathematical content of a [`MoeOutput`].
#[verifier::ext_equal]
pub struct OutputView {
    pub expert_weights: Seq<u32>,
    pub selected_experts: Seq<usize>,
    pub hidden: Seq<u32>,
}

impl View for MoeOutput {
    type V = OutputView;

    open spec fn view(&self) -> OutputView {
        OutputView {
            expert_weights: self.expert_weights@,
            selected_experts: self.selected_experts@,
            hidden: self.hidden@,
        }
    }
}

/// A mixture-of-experts router.
pub struct MoeRouter<'a> {
    model_path: String,
    num_experts: usize,
    top_k: usize,
    loaded: bool,
    metadata: RouterMetadata,
    adapter: Option<ModelAdapter>,
    routing_mode: RoutingMode,
    checkpoint: Option<MappedGgufCheckpoint<'a>>,
}

/// The mathematical content of a [`MoeRouter`].
#[verifier::ext_equal]
pub struct RouterView {
    pub model_path: Seq<char>,
    pub num_experts: usize,
    pub top_k: usize,
    pub loaded: bool,
    pub metadata: RouterMetadataView,
    pub adapter: Option<AdapterView>,
    pub routing_mode: RoutingMode,
    pub checkpoint: Option<CheckpointView>,
}

// ── Loading ──────────────────────────────────────────────────────────

/// The metadata an adapter implies.
pub open spec fn adapter_metadata(a: AdapterView) -> RouterMetadataView {
    RouterMetadataView {
        architecture: a.architecture,
        hidden_size: a.hidden_size,
        num_layers: a.num_layers,
        num_experts: a.num_experts,
        expert_used_count: a.expert_used_count,
        quantization: a.quantization,
        routing_tensor_name: a.routing_tensor,
    }
}

/// The checkpoint and adapter in the bytes of a file.
pub open spec fn probed(path: Seq<char>, b: Seq<u8>) -> Result<
    (CheckpointView, AdapterView),
    ErrorView,
> {
    match layout(b, path) {
        Err(e) => Err(e),
        Ok(l) => {
            let c = CheckpointView { bytes: b, layout: l };
            match resolved(l.metadata, c, path) {
                Err(e) => Err(e),
                Ok(a) => Ok((c, a)),
            }
        },
    }
}

pub open spec fn at_least_one(n: usize) -> usize {
    if n == 0 { 1 } else { n }
}

pub open spec fn least(a: usize, b: usize) -> usize {
    if a < b { a } else { b }
}

/// A router without a checkpoint.
pub open spec fn stub_router(num_experts: usize, top_k: usize, mode: RoutingMode) -> RouterView {
    let experts = at_least_one(num_experts);
    let k = least(at_least_one(top_k), experts);
    RouterView {
        model_path: seq![],
        num_experts: experts,
        top_k: k,
        loaded: false,
        metadata: RouterMetadataView {
            architecture: "stub"@,
            hidden_size: EMBEDDING_DIM,
            num_layers: 0,
            num_experts: experts,
            expert_used_count: k,
            quantization: "stub"@,
            routing_tensor_name: "synthetic"@,
        },
        adapter: None,
        routing_mode: mode,
        checkpoint: None,
    }
}

/// The router of a checkpoint: counts of zero take the checkpoint's own.
pub open spec fn loaded_router(
    path: Seq<char>,
    c: CheckpointView,
    a: AdapterView,
    num_experts: usize,
    top_k: usize,
    mode: RoutingMode,
) -> Result<RouterView, ErrorView> {
    let experts = if num_experts == 0 { a.num_experts } else { num_experts };
    let wanted = if top_k == 0 { a.expert_used_count } else { top_k };
    if experts > a.num_experts {
        Err(
            ErrorView::InvalidConfig(
                "num_experts ("@ + decimal(experts as nat) + ") exceeds checkpoint expert_count ("@
                    + decimal(a.num_experts as nat) + ")"@,
            ),
        )
    } else {
        Ok(
            RouterView {
                model_path: path,
                num_experts: experts,
                top_k: least(at_least_one(wanted), experts),
                loaded: true,
                metadata: adapter_metadata(a),
                adapter: Some(a),
                routing_mode: mode,
                checkpoint: Some(c),
            },
        )
    }
}

/// The router for a path and the bytes behind it; no path gives a stub.
pub open spec fn router(
    path: Seq<char>,
    b: Seq<u8>,
    num_experts: usize,
    top_k: usize,
    mode: RoutingMode,
) -> Result<RouterView, ErrorView> {
    if path.len() == 0 {
        Ok(stub_router(num_experts, top_k, mode))
    } else {
        match probed(path, b) {
            Err(e) => Err(e),
            Ok((c, a)) => loaded_router(path, c, a, num_experts, top_k, mode),
        }
    }
}

/// A loaded router never has more experts than its checkpoint, nor selects
/// more than it has.
pub proof fn law_router_bounds(
    path: Seq<char>,
    b: Seq<u8>,
    num_experts: usize,
    top_k: usize,
    mode: RoutingMode,
)
    ensures
        router(path, b, num_experts, top_k, mode) matches Ok(v) ==> v.num_experts
            <= v.metadata.num_experts && v.top_k <= v.num_experts && (v.num_experts > 0 ==> v.top_k
            > 0) && v.loaded == (path.len() > 0),
{
}

/// The routing tensor of a loaded router can be indexed for every expert: its
/// gate scores never fail on the tensor's orientation.
pub proof fn law_loaded_gate_oriented(
    path: Seq<char>,
    b: Seq<u8>,
    num_experts: usize,
    top_k: usize,
    mode: RoutingMode,
)
    requires
        path.len() > 0,
    ensures
        router(path, b, num_experts, top_k, mode) matches Ok(v) ==> {
            let c = v.checkpoint->Some_0;
            let a = v.adapter->Some_0;
            &&& v.checkpoint is Some
            &&& v.adapter is Some
            &&& c.info(a.routing_tensor).dims.len() == 2
            &&& oriented(c.info(a.routing_tensor).dims, v.num_experts, a.hidden_size as nat)
        },
{
    if let Ok(v) = router(path, b, num_experts, top_k, mode) {
        let a = v.adapter->Some_0;
        law_resolved_gate_oriented(
            v.checkpoint->Some_0,
            a.hidden_size,
            a.num_experts,
            path,
            v.num_experts,
        );
    }
}

// ── Routing ──────────────────────────────────────────────────────────

pub open spec fn resample_fault() -> ErrorView {
    ErrorView::Msg("embedding resampling left the input"@)
}

/// `g` is what gating gives for an embedding: scores or an error.
pub open spec fn gate_outcome<F: FloatUnit>(
    v: RouterView,
    embedding: Seq<u32>,
    g: Result<Seq<u32>, ErrorView>,
) -> bool {
    match (v.checkpoint, v.adapter) {
        (Some(c), Some(a)) => exists|u: Option<Seq<u32>>| #[trigger]
            resamples_unit::<F>(embedding, a.hidden_size, u) && checkpoint_outcome::<F>(v, c, a, u, g),
        _ => g matches Ok(s) && chunk_gates::<F>(v.num_experts, embedding, s),
    }
}

/// `g` is what gating by a checkpoint gives for a resampled embedding.
pub open spec fn checkpoint_outcome<F: FloatUnit>(
    v: RouterView,
    c: CheckpointView,
    a: AdapterView,
    u: Option<Seq<u32>>,
    g: Result<Seq<u32>, ErrorView>,
) -> bool {
    match u {
        None => g == Err::<Seq<u32>, ErrorView>(resample_fault()),
        Some(e) => match gate_error(c, v.model_path, a.routing_tensor, v.num_experts, e.len()) {
            Some(x) => g == Err::<Seq<u32>, ErrorView>(x),
            None => g matches Ok(s) && gates::<F>(
                c.singles(a.routing_tensor, v.model_path)->Ok_0,
                c.info(a.routing_tensor).dims,
                v.num_experts,
                e,
                s,
            ),
        },
    }
}

/// The weights of the selected experts, in order of selection.
pub open spec fn picked(weights: Seq<u32>, selected: Seq<usize>) -> Seq<u32> {
    Seq::new(selected.len(), |i: int| weights[selected[i] as int])
}

/// Every entry times `mass`.
pub open spec fn scaled_by<F: FloatUnit>(embedding: Seq<u32>, mass: u32, hidden: Seq<u32>) -> bool {
    &&& hidden.len() == embedding.len()
    &&& forall|i: int|
        0 <= i < hidden.len() ==> muls::<F>(embedding[i], mass, #[trigger] hidden[i])
}

/// `o` routes an embedding by gate scores without NaN: softmax weights, the
/// `top_k` best experts, and the embedding times the selected mass.
pub open spec fn mixes<F: FloatUnit>(
    scores: Seq<u32>,
    top_k: usize,
    embedding: Seq<u32>,
    o: OutputView,
) -> bool {
    &&& softmaxes::<F>(scores, o.expert_weights)
    &&& selects(scores, top_k, o.selected_experts)
    &&& exists|mass: u32| #[trigger]
        sums::<F>(NEG_ZERO, picked(o.expert_weights, o.selected_experts), mass) && scaled_by::<F>(
            embedding,
            mass,
            o.hidden,
        )
}

/// `r` is what routing by gate scores gives: an error on a NaN score.
pub open spec fn mix_outcome<F: FloatUnit>(
    scores: Seq<u32>,
    top_k: usize,
    embedding: Seq<u32>,
    r: Result<OutputView, ErrorView>,
) -> bool {
    match nan_error(scores) {
        Some(e) => r == Err::<OutputView, ErrorView>(e),
        None => r matches Ok(o) && mixes::<F>(scores, top_k, embedding, o),
    }
}

/// `o` is the uniform output: equal weights, the first experts, zeros.
pub open spec fn uniform_output<F: FloatUnit>(v: RouterView, o: OutputView) -> bool {
    let n = at_least_one(v.num_experts);
    &&& exists|p: u32| #[trigger]
        shares::<F>(n, p) && o.expert_weights == constant(n as nat, p)
    &&& o.selected_experts == Seq::new(least(v.top_k, n) as nat, |i: int| i as usize)
    &&& o.hidden == constant(EMBEDDING_DIM as nat, ZERO)
}

/// `r` is what the router gives for an embedding.
pub open spec fn routes<F: FloatUnit>(
    v: RouterView,
    embedding: Seq<u32>,
    r: Result<OutputView, ErrorView>,
) -> bool {
    if embedding.len() != EMBEDDING_DIM {
        r == Err::<OutputView, ErrorView>(
            ErrorView::InputLengthMismatch {
                expected: EMBEDDING_DIM,
                got: embedding.len() as usize,
            },
        )
    } else if v.routing_mode == RoutingMode::StubUniform {
        r matches Ok(o) && uniform_output::<F>(v, o)
    } else {
        exists|g: Result<Seq<u32>, ErrorView>| #[trigger]
            gate_outcome::<F>(v, embedding, g) && match g {
                Err(e) => r == Err::<OutputView, ErrorView>(e),
                Ok(s) => mix_outcome::<F>(s, v.top_k, embedding, r),
            }
    }
}

/// A result by content.
pub open spec fn output_view(r: Result<MoeOutput, CortexError>) -> Result<OutputView, ErrorView> {
    match r {
        Ok(o) => Ok(o@),
        Err(e) => Err(e@),
    }
}

/// Routes an embedding by given gate scores.
pub fn mix_experts<F: FloatUnit>(gate_scores: &[u32], top_k: usize, embedding: &[u32]) -> (r:
    Result<MoeOutput, CortexError>)
    ensures
        mix_outcome::<F>(gate_scores@, top_k, embedding@, output_view(r)),
{
    let (expert_weights, selected_experts): (Vec<u32>, Vec<usize>) = match route_top_k::<F>(
        gate_scores,
        top_k,
    ) {
        Ok(p) => p,
        Err(e) => {
            return Err(e);
        },
    };
    let mut chosen: Vec<u32> = Vec::new();
    let mut i: usize = 0;
    while i < selected_experts.len()
        invariant
            i <= selected_experts@.len(),
            expert_weights@.len() == gate_scores@.len(),
            selects(gate_scores@, top_k, selected_experts@),
            chosen@.len() == i,
            forall|j: int|
                0 <= j < i ==> chosen@[j] == #[trigger] picked(
                    expert_weights@,
                    selected_experts@,
                )[j],
        decreases selected_experts@.len() - i,
    {
        chosen.push(expert_weights[selected_experts[i]]);
        i += 1;
    }
    assert(chosen@ =~= picked(expert_weights@, selected_experts@));
    let mass: u32 = sum_from::<F>(NEG_ZERO, chosen.as_slice());
    let mut hidden: Vec<u32> = Vec::new();
    let mut k: usize = 0;
    while k < embedding.len()
        invariant
            k <= embedding@.len(),
            hidden@.len() == k,
            forall|j: int| 0 <= j < k ==> muls::<F>(embedding@[j], mass, #[trigger] hidden@[j]),
        decreases embedding@.len() - k,
    {
        hidden.push(F::mul32(embedding[k], mass));
        k += 1;
    }
    proof {
        assert(sums::<F>(NEG_ZERO, picked(expert_weights@, selected_experts@), mass)
            && scaled_by::<F>(embedding@, mass, hidden@));
    }
    Ok(MoeOutput { expert_weights, selected_experts, hidden })
}

impl<'a> View for MoeRouter<'a> {
    type V = RouterView;

    closed spec fn view(&self) -> RouterView {
        RouterView {
            model_path: self.model_path@,
            num_experts: self.num_experts,
            top_k: self.top_k,
            loaded: self.loaded,
            metadata: self.metadata@,
            adapter: match self.adapter {
                Some(a) => Some(a@),
                None => None,
            },
            routing_mode: self.routing_mode,
            checkpoint: match self.checkpoint {
                Some(c) => Some(c@),
                None => None,
            },
        }
    }
}

impl RouterView {
    /// A checkpoint comes with an adapter whose tensors can be indexed.
    pub open spec fn wf(self) -> bool {
        match (self.checkpoint, self.adapter) {
            (Some(c), Some(a)) => {
                let g = c.info(a.routing_tensor);
                &&& c.has(a.token_embedding_tensor)
                &&& c.rows_fit(a.token_embedding_tensor)
                &&& c.has(a.routing_tensor)
                &&& g.dims.len() == 2
                &&& g.dims[0] * g.dims[1] <= g.n_elements
            },
            (None, None) => true,
            _ => false,
        }
    }

    /// Why a token row cannot be extracted.
    pub open spec fn token_error(self, token: usize) -> Option<ErrorView> {
        match (self.checkpoint, self.adapter) {
            (Some(c), Some(a)) => c.token_error(
                a.token_embedding_tensor,
                self.model_path,
                token,
            ),
            _ => Some(
                ErrorView::ModelLoad { path: self.model_path, reason: "checkpoint not loaded"@ },
            ),
        }
    }

    /// `r` is the token row after its options.
    pub open spec fn token_outcome<F: FloatUnit>(
        self,
        token: usize,
        options: ExtractTokenOptions,
        r: Result<Seq<u32>, ErrorView>,
    ) -> bool {
        match self.token_error(token) {
            Some(e) => r == Err::<Seq<u32>, ErrorView>(e),
            None => exists|row: Seq<u32>| #[trigger]
                self.checkpoint->Some_0.token_row::<F>(
                    self.adapter->Some_0.token_embedding_tensor,
                    token,
                    row,
                ) && option_outcome::<F>(row, options, r),
        }
    }
}

/// `r` is a token row after its options.
pub open spec fn option_outcome<F: FloatUnit>(
    row: Seq<u32>,
    options: ExtractTokenOptions,
    r: Result<Seq<u32>, ErrorView>,
) -> bool {
    match r {
        Ok(v) => applies_options::<F>(row, options, Some(v)),
        Err(e) => e == resample_fault() && applies_options::<F>(row, options, None),
    }
}

/// A vector result by content.
pub open spec fn vec_view(r: Result<Vec<u32>, CortexError>) -> Result<Seq<u32>, ErrorView> {
    match r {
        Ok(v) => Ok(v@),
        Err(e) => Err(e@),
    }
}

fn resample_fault_error() -> (e: CortexError)
    ensures
        e@ == resample_fault(),
{
    CortexError::Msg(String::from_str("embedding resampling left the input"))
}

impl<'a> MoeRouter<'a> {
    /// The router's tensors can be indexed, and its tables are complete.
    pub closed spec fn wf(&self) -> bool {
        &&& self@.wf()
        &&& self.checkpoint matches Some(c) ==> c.wf()
    }

    /// [`MoeRouter::load_with_mode`] in the uniform mode.
    pub fn load(model_path: &str, bytes: &'a [u8], num_experts: usize, top_k: usize) -> (r: Result<
        Self,
        CortexError,
    >)
        ensures
            match router(model_path@, bytes@, num_experts, top_k, RoutingMode::StubUniform) {
                Ok(v) => r matches Ok(x) && x.wf() && x@ == v,
                Err(e) => r matches Err(x) && x@ == e,
            },
    {
        Self::load_with_mode(model_path, bytes, num_experts, top_k, RoutingMode::StubUniform)
    }

    /// Loads a router from the bytes of the file at `model_path`. An empty path
    /// gives a router without a checkpoint.
    pub fn load_with_mode(
        model_path: &str,
        bytes: &'a [u8],
        num_experts: usize,
        top_k: usize,
        routing_mode: RoutingMode,
    ) -> (r: Result<Self, CortexError>)
        ensures
            match router(model_path@, bytes@, num_experts, top_k, routing_mode) {
                Ok(v) => r matches Ok(x) && x.wf() && x@ == v,
                Err(e) => r matches Err(x) && x@ == e,
            },
    {
        if model_path.is_empty() {
            return Ok(Self::build_stub_router(num_experts, top_k, routing_mode));
        }
        let (metadata, checkpoint, adapter): (
            RouterMetadata,
            MappedGgufCheckpoint<'a>,
            ModelAdapter,
        ) = match Self::probe_and_map(model_path, bytes) {
            Ok(p) => p,
            Err(e) => {
                return Err(e);
            },
        };
        let experts: usize = if num_experts == 0 {
            metadata.num_experts
        } else {
            num_experts
        };
        if experts > metadata.num_experts {
            let mut msg: String = String::from_str("num_experts (");
            msg.append(size_text(experts).as_str());
            msg.append(") exceeds checkpoint expert_count (");
            msg.append(size_text(metadata.num_experts).as_str());
            msg.append(")");
            return Err(CortexError::InvalidConfig(msg));
        }
        let wanted: usize = if top_k == 0 {
            metadata.expert_used_count
        } else {
            top_k
        };
        let positive: usize = if wanted == 0 {
            1
        } else {
            wanted
        };
        let k: usize = if positive < experts {
            positive
        } else {
            experts
        };
        Ok(
            MoeRouter {
                model_path: model_path.to_owned(),
                num_experts: experts,
                top_k: k,
                loaded: true,
                metadata,
                adapter: Some(adapter),
                routing_mode,
                checkpoint: Some(checkpoint),
            },
        )
    }

    fn build_stub_router(num_experts: usize, top_k: usize, routing_mode: RoutingMode) -> (r: Self)
        ensures
            r.wf(),
            r@ == stub_router(num_experts, top_k, routing_mode),
    {
        let experts: usize = if num_experts == 0 {
            1
        } else {
            num_experts
        };
        let wanted: usize = if top_k == 0 {
            1
        } else {
            top_k
        };
        let k: usize = if wanted < experts {
            wanted
        } else {
            experts
        };
        let r: MoeRouter<'a> = MoeRouter {
            model_path: String::new(),
            num_experts: experts,
            top_k: k,
            loaded: false,
            metadata: RouterMetadata {
                architecture: String::from_str("stub"),
                hidden_size: EMBEDDING_DIM,
                num_layers: 0,
                num_experts: experts,
                expert_used_count: k,
                quantization: String::from_str("stub"),
                routing_tensor_name: String::from_str("synthetic"),
            },
            adapter: None,
            routing_mode,
            checkpoint: None,
        };
        assert(r@ =~= stub_router(num_experts, top_k, routing_mode));
        r
    }

    /// What the bytes of a checkpoint say of it.
    pub fn probe_model(path: &str, bytes: &'a [u8]) -> (r: Result<RouterMetadata, CortexError>)
        ensures
            match probed(path@, bytes@) {
                Ok(p) => r matches Ok(m) && m@ == adapter_metadata(p.1),
                Err(e) => r matches Err(x) && x@ == e,
            },
    {
        match Self::probe_and_map(path, bytes) {
            Ok(p) => Ok(p.0),
            Err(e) => Err(e),
        }
    }

    fn probe_and_map(path: &str, bytes: &'a [u8]) -> (r: Result<
        (RouterMetadata, MappedGgufCheckpoint<'a>, ModelAdapter),
        CortexError,
    >)
        ensures
            match probed(path@, bytes@) {
                Ok(p) => r matches Ok(x) && x.0@ == adapter_metadata(p.1) && x.1@ == p.0 && x.1.wf()
                    && x.2@ == p.1 && (RouterView {
                    checkpoint: Some(p.0),
                    adapter: Some(p.1),
                    ..stub_router(0, 0, RoutingMode::StubUniform)
                }).wf(),
                Err(e) => r matches Err(x) && x@ == e,
            },
    {
        let checkpoint: MappedGgufCheckpoint<'a> = match map_checkpoint(bytes, path) {
            Ok(c) => c,
            Err(e) => {
                return Err(e);
            },
        };
        let adapter: ModelAdapter = match resolve_adapter(
            checkpoint.metadata(),
            &checkpoint,
            path,
        ) {
            Ok(a) => a,
            Err(e) => {
                return Err(e);
            },
        };
        proof {
            let c = checkpoint@;
            let a = adapter@;
            law_layout_counted(bytes@, path@);
            law_resolved_gate_oriented(c, a.hidden_size, a.num_experts, path@, 0);
            assert(counted(c.layout.tensors));
            assert(c.has(a.token_embedding_tensor));
            let t = c.info(a.token_embedding_tensor);
            lemma_matrix_count(t.dims, t.n_elements as nat);
            let g = c.info(a.routing_tensor);
            lemma_matrix_count(g.dims, g.n_elements as nat);
        }
        let metadata: RouterMetadata = RouterMetadata {
            architecture: adapter.architecture.clone(),
            hidden_size: adapter.hidden_size,
            num_layers: adapter.num_layers,
            num_experts: adapter.num_experts,
            expert_used_count: adapter.expert_used_count,
            quantization: adapter.quantization.clone(),
            routing_tensor_name: adapter.routing_tensor.clone(),
        };
        Ok((metadata, checkpoint, adapter))
    }

    /// Routes an embedding of [`EMBEDDING_DIM`] entries.
    pub fn forward<F: FloatUnit>(&mut self, embedding: &[u32]) -> (r: Result<
        MoeOutput,
        CortexError,
    >)
        requires
            old(self).wf(),
        ensures
            final(self).wf(),
            final(self)@ == old(self)@,
            routes::<F>(old(self)@, embedding@, output_view(r)),
    {
        if embedding.len() != EMBEDDING_DIM {
            return Err(
                CortexError::InputLengthMismatch {
                    expected: EMBEDDING_DIM,
                    got: embedding.len(),
                },
            );
        }
        match self.routing_mode {
            RoutingMode::StubUniform => Ok(self.stub_output::<F>()),
            RoutingMode::DenseSim => self.simulate_moe_routing::<F>(embedding),
        }
    }

    fn simulate_moe_routing<F: FloatUnit>(&self, embedding: &[u32]) -> (r: Result<
        MoeOutput,
        CortexError,
    >)
        requires
            self.wf(),
            embedding@.len() == EMBEDDING_DIM,
            self@.routing_mode == RoutingMode::DenseSim,
        ensures
            routes::<F>(self@, embedding@, output_view(r)),
    {
        let g: Result<Vec<u32>, CortexError> = self.gate_scores::<F>(embedding);
        let ghost gv = vec_view(g);
        match g {
            Err(e) => {
                assert(gate_outcome::<F>(self@, embedding@, gv));
                Err(e)
            },
            Ok(s) => {
                assert(gate_outcome::<F>(self@, embedding@, gv));
                mix_experts::<F>(s.as_slice(), self.top_k, embedding)
            },
        }
    }

    /// Gate scores of an embedding.
    pub fn gate_scores<F: FloatUnit>(&self, embedding: &[u32]) -> (r: Result<Vec<u32>, CortexError>)
        requires
            self.wf(),
            self@.checkpoint is None && self@.num_experts > 0 ==> embedding@.len() > 0,
        ensures
            gate_outcome::<F>(self@, embedding@, vec_view(r)),
    {
        match (&self.checkpoint, &self.adapter) {
            (Some(checkpoint), Some(adapter)) => {
                let u: Option<Vec<u32>> = resample_unit::<F>(embedding, adapter.hidden_size);
                let ghost uv = content(u);
                assert(resamples_unit::<F>(embedding@, adapter@.hidden_size, uv));
                match u {
                    None => {
                        let r: Result<Vec<u32>, CortexError> = Err(resample_fault_error());
                        assert(checkpoint_outcome::<F>(
                            self@,
                            checkpoint@,
                            adapter@,
                            uv,
                            vec_view(r),
                        ));
                        r
                    },
                    Some(e) => {
                        let r: Result<Vec<u32>, CortexError> = checkpoint_gate_scores::<F>(
                            checkpoint,
                            self.model_path.as_str(),
                            adapter.routing_tensor.as_str(),
                            self.num_experts,
                            e.as_slice(),
                        );
                        assert(checkpoint_outcome::<F>(
                            self@,
                            checkpoint@,
                            adapter@,
                            uv,
                            vec_view(r),
                        ));
                        r
                    },
                }
            },
            _ => Ok(synthetic_gate_scores::<F>(self.num_experts, embedding)),
        }
    }

    fn stub_output<F: FloatUnit>(&self) -> (o: MoeOutput)
        ensures
            uniform_output::<F>(self@, o@),
    {
        let n: usize = if self.num_experts == 0 {
            1
        } else {
            self.num_experts
        };
        let c: u32 = F::count32(n);
        let p: u32 = F::div32(ONE, c);
        assert(counts::<F>(n, c) && divs::<F>(ONE, c, p));
        let expert_weights: Vec<u32> = vec![p; n];
        let k: usize = if self.top_k < n {
            self.top_k
        } else {
            n
        };
        let mut selected_experts: Vec<usize> = Vec::new();
        let mut i: usize = 0;
        while i < k
            invariant
                i <= k,
                selected_experts@.len() == i,
                forall|j: int| 0 <= j < i ==> selected_experts@[j] == j,
            decreases k - i,
        {
            selected_experts.push(i);
            i += 1;
        }
        let hidden: Vec<u32> = vec![ZERO; EMBEDDING_DIM];
        proof {
            assert(shares::<F>(n, p));
            assert(expert_weights@ =~= constant(n as nat, p));
            assert(selected_experts@ =~= Seq::new(k as nat, |i: int| i as usize));
            assert(hidden@ =~= constant(EMBEDDING_DIM as nat, ZERO));
            assert(k == least(self@.top_k, at_least_one(self@.num_experts)));
        }
        MoeOutput { expert_weights, selected_experts, hidden }
    }

    /// The checkpoint's row of a token, as it is.
    pub fn extract_token_embedding<F: FloatUnit>(&mut self, token_id: usize) -> (r: Result<
        Vec<u32>,
        CortexError,
    >)
        requires
            old(self).wf(),
        ensures
            final(self).wf(),
            final(self)@ == old(self)@,
            old(self)@.token_outcome::<F>(
                token_id,
                (ExtractTokenOptions { target_dim: None, l2_normalize: false }),
                vec_view(r),
            ),
    {
        self.extract_token_embedding_with_options::<F>(token_id, ExtractTokenOptions::default())
    }

    /// The checkpoint's row of a token, resampled and normalized as asked.
    pub fn extract_token_embedding_with_options<F: FloatUnit>(
        &mut self,
        token_id: usize,
        options: ExtractTokenOptions,
    ) -> (r: Result<Vec<u32>, CortexError>)
        requires
            old(self).wf(),
        ensures
            final(self).wf(),
            final(self)@ == old(self)@,
            old(self)@.token_outcome::<F>(token_id, options, vec_view(r)),
    {
        match (&self.checkpoint, &self.adapter) {
            (Some(checkpoint), Some(adapter)) => {
                proof {
                    let name = adapter@.token_embedding_tensor;
                    if checkpoint@.token_error(name, self.model_path@, token_id) is None {
                        lemma_row_inside(checkpoint@, name, self.model_path@, token_id);
                    }
                }
                let row: Vec<u32> = match checkpoint.extract_token_embedding::<F>(
                    adapter.token_embedding_tensor.as_str(),
                    self.model_path.as_str(),
                    token_id,
                ) {
                    Ok(v) => v,
                    Err(e) => {
                        return Err(e);
                    },
                };
                assert(checkpoint@.token_row::<F>(
                    adapter@.token_embedding_tensor,
                    token_id,
                    row@,
                ));
                match apply_extract_token_options::<F>(row.as_slice(), options) {
                    Some(v) => Ok(v),
                    None => Err(resample_fault_error()),
                }
            },
            _ => Err(
                CortexError::ModelLoad {
                    path: self.model_path.clone(),
                    reason: String::from_str("checkpoint not loaded"),
                },
            ),
        }
    }

    pub fn is_loaded(&self) -> (r: bool)
        ensures
            r == self@.loaded,
    {
        self.loaded
    }

    pub fn model_path(&self) -> (r: &str)
        ensures
            r@ == self@.model_path,
    {
        self.model_path.as_str()
    }

    pub fn architecture(&self) -> (r: &str)
        ensures
            r@ == self@.metadata.architecture,
    {
        self.metadata.architecture.as_str()
    }

    pub fn quantization(&self) -> (r: &str)
        ensures
            r@ == self@.metadata.quantization,
    {
        self.metadata.quantization.as_str()
    }

    pub fn hidden_size(&self) -> (r: usize)
        ensures
            r == self@.metadata.hidden_size,
    {
        self.metadata.hidden_size
    }

    pub fn num_layers(&self) -> (r: usize)
        ensures
            r == self@.metadata.num_layers,
    {
        self.metadata.num_layers
    }

    /// Experts of the checkpoint.
    pub fn checkpoint_num_experts(&self) -> (r: usize)
        ensures
            r == self@.metadata.num_experts,
    {
        self.metadata.num_experts
    }

    /// Experts the checkpoint uses per token.
    pub fn checkpoint_expert_used_count(&self) -> (r: usize)
        ensures
            r == self@.metadata.expert_used_count,
    {
        self.metadata.expert_used_count
    }

    pub fn routing_tensor_name(&self) -> (r: &str)
        ensures
            r@ == self@.metadata.routing_tensor_name,
    {
        self.metadata.routing_tensor_name.as_str()
    }

    /// Experts this router scores.
    pub fn num_experts(&self) -> (r: usize)
        ensures
            r == self@.num_experts,
    {
        self.num_experts
    }

    /// Experts this router selects.
    pub fn top_k(&self) -> (r: usize)
        ensures
            r == self@.top_k,
    {
        self.top_k
    }

    pub fn routing_mode(&self) -> (r: RoutingMode)
        ensures
            r == self@.routing_mode,
    {
        self.routing_mode
    }
}

} // verus!
