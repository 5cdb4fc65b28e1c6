//! The work of a GPU for one token: which kernels run, in which order, on which parts of which
//! buffers.
//!
//! The hidden state stays on the device. What needs the host between kernels, choosing experts and
//! the last product where it does not fit on the device, ends one list of kernels and starts the
//! next.

use vstd::prelude::*;
use crate::gguf;
use crate::gguf::ggml_type_size;
use crate::llm_config::Config;
use crate::llm_model;
use crate::llm_model::{Feed, Model};

verus! {

/// The least context that is planned for.
pub const LEAST_CONTEXT: usize = 4096;

/// The most positions that the caches hold.
pub const MOST_POSITIONS: usize = 2048;

/// A buffer on the device.
#[derive(Clone, Copy, Debug, PartialEq, Eq, Structural)]
pub enum Buffer {
    Hidden,
    NormOut,
    Q,
    K,
    V,
    AttnOut,
    Scores,
    Gate,
    Up,
    ExpertOut,
    ExpertAcc,
    GateAll,
    UpAll,
    ExpertOutAll,
    DownAll,
    RouterLogits,
    Logits,
    Keys(usize),
    Values(usize),
    AttnNorm(usize),
    FfnNorm(usize),
    QNorm(usize),
    KNorm(usize),
    FinalNorm,
    QBias(usize),
    KBias(usize),
    VBias(usize),
    OutBias(usize),
    MoeGateBias(usize),
    MoeUpBias(usize),
    MoeDownBias(usize),
    Sinks(usize),
    Router(usize),
    QProj(usize),
    KProj(usize),
    VProj(usize),
    OutProj(usize),
    GateProj(usize),
    UpProj(usize),
    DownProj(usize),
    MoeGate(usize),
    MoeUp(usize),
    MoeDown(usize),
    LmHead,
}

/// A place in a buffer: an element of a buffer of numbers, or a byte of a buffer of weights.
#[derive(Clone, Copy, Debug, PartialEq, Eq, Structural)]
pub struct Place {
    pub buffer: Buffer,
    pub offset: usize,
}

/// Weights on the device, from a byte on.
#[derive(Clone, Copy, Debug, PartialEq, Eq, Structural)]
pub struct GpuSlice {
    pub place: Place,
    pub ggml_type: u32,
}

/// The weights of one expert within a buffer that holds them one after another.
pub open spec fn expert_slice(
    buffer: Buffer,
    ggml_type: u32,
    expert: nat,
    elements: nat,
) -> GpuSlice {
    GpuSlice {
        place: Place {
            buffer,
            offset: (expert * gguf::type_size(ggml_type, elements)) as usize,
        },
        ggml_type,
    }
}

/// The weights of one expert within a buffer that holds them one after another.
pub fn gpu_expert_slice(
    buffer: Buffer,
    ggml_type: u32,
    expert: usize,
    n_elems_per_expert: usize,
) -> (slice: GpuSlice)
    requires
        gguf::block_of(ggml_type) is Some,
        gguf::type_size(ggml_type, n_elems_per_expert as nat) <= usize::MAX,
        expert * gguf::type_size(ggml_type, n_elems_per_expert as nat) <= usize::MAX,
    ensures
        slice == expert_slice(buffer, ggml_type, expert as nat, n_elems_per_expert as nat),
        slice.place.offset == expert * gguf::type_size(ggml_type, n_elems_per_expert as nat),
{
    let bytes: usize = ggml_type_size(ggml_type, n_elems_per_expert);
    GpuSlice { place: Place { buffer, offset: expert * bytes }, ggml_type }
}

/// What scores are multiplied with: the inverse of the square root of the width of a head and,
/// where there is the bit pattern of a scaling factor `s`, the square of `1 + 0.1 * ln(s)`.
#[derive(Clone, Copy, Debug, PartialEq, Eq)]
pub struct ScoreScale {
    pub width: usize,
    pub yarn: Option<u32>,
}

/// What the scores of a model are multiplied with.
pub open spec fn scale_of(cfg: Config) -> ScoreScale {
    ScoreScale {
        width: cfg.head_dim,
        yarn: if cfg.scaled() {
            Some(cfg.yarn_scale)
        } else {
            None
        },
    }
}

/// What the scores of a model are multiplied with.
pub fn score_scale(cfg: &Config) -> (scale: ScoreScale)
    ensures
        scale == scale_of(*cfg),
{
    ScoreScale {
        width: cfg.head_dim,
        yarn: if cfg.use_yarn() {
            Some(cfg.yarn_scale)
        } else {
            None
        },
    }
}

/// A kernel and its arguments.
#[derive(Clone, Copy, Debug, PartialEq, Eq)]
#[allow(inconsistent_fields)]
pub enum Kernel {
    /// Root-mean-square normalization of `n` elements.
    RmsNorm { out: Place, x: Place, weight: Buffer, n: usize },
    /// The product of a matrix with a vector.
    Gemv { matrix: GpuSlice, x: Place, y: Place, columns: usize, rows: usize },
    /// Four products of matrices with vectors.
    Gemv4 {
        matrices: (GpuSlice, GpuSlice, GpuSlice, GpuSlice),
        x: (Place, Place, Place, Place),
        y: (Place, Place, Place, Place),
        columns: usize,
        rows: usize,
    },
    /// Adds `n` elements.
    Add { dst: Place, src: Place, n: usize },
    /// Adds `n` elements with the weight of the expert of the given rank.
    AddWeighted { dst: Place, src: Place, rank: usize, n: usize },
    /// Sets `n` elements to zero.
    Zero { dst: Place, n: usize },
    /// Turns heads for a position, with the bit patterns of the base of the frequencies and of
    /// their scaling factor.
    Rope {
        x: Buffer,
        heads: usize,
        width: usize,
        pos: usize,
        theta: u32,
        yarn_scale: u32,
        yarn_orig_ctx: usize,
    },
    /// Writes the key and the value of a position into the caches.
    Append { layer: usize, pos: usize, width: usize },
    /// Scores `seq` cached keys of `kv_heads` heads against the queries of `heads` heads. The
    /// scores of a head start `stride` elements after those of the head before it.
    Score {
        keys: Place,
        heads: usize,
        kv_heads: usize,
        seq: usize,
        width: usize,
        kv_width: usize,
        stride: usize,
        scale: ScoreScale,
    },
    /// Turns the scores of every head into weights.
    Softmax { sinks: Buffer, heads: usize, seq: usize, stride: usize },
    /// Sums `seq` cached values of `kv_heads` heads with the weights of every head.
    Mix {
        values: Place,
        heads: usize,
        kv_heads: usize,
        seq: usize,
        width: usize,
        kv_width: usize,
        stride: usize,
    },
    /// Values times the activations of their gates.
    Swiglu { out: Place, gate: Place, up: Place, n: usize, clamped: bool },
}

/// What the device holds for a model.
pub struct GpuForwardState {
    pub cfg: Config,
    pub max_seq: usize,
    /// How many keys the layers with even numbers see, or zero for all.
    pub swa_window: usize,
    /// The elements of the query norm of each layer, zero for none.
    pub q_norm: Vec<usize>,
    /// The elements of the key norm of each layer, zero for none.
    pub k_norm: Vec<usize>,
    /// Which layers have an output bias.
    pub out_bias: Vec<bool>,
    /// Which layers have biases of their experts.
    pub gate_bias: Vec<bool>,
    pub up_bias: Vec<bool>,
    pub down_bias: Vec<bool>,
    /// The weight types of each layer.
    pub types: Vec<LayerTypes>,
    /// The weight type of the last product, where it is on the device.
    pub lm_head: Option<u32>,
}

/// The weight types of a layer. Of the feed-forward network, the dense matrices or the experts
/// count.
#[derive(Clone, Copy, Debug, PartialEq, Eq)]
pub struct LayerTypes {
    pub q: u32,
    pub k: u32,
    pub v: u32,
    pub out: u32,
    pub gate: u32,
    pub up: u32,
    pub down: u32,
}

/// The start of a buffer.
pub open spec fn start(buffer: Buffer) -> Place {
    Place { buffer, offset: 0 }
}

/// An element of a buffer.
pub open spec fn at(buffer: Buffer, offset: int) -> Place {
    Place { buffer, offset: offset as usize }
}

/// A whole matrix.
pub open spec fn whole(buffer: Buffer, ggml_type: u32) -> GpuSlice {
    GpuSlice { place: start(buffer), ggml_type }
}

/// How many positions the caches hold.
pub open spec fn positions(cfg: Config) -> usize {
    if cfg.yarn_orig_ctx > LEAST_CONTEXT {
        if cfg.yarn_orig_ctx < MOST_POSITIONS {
            cfg.yarn_orig_ctx
        } else {
            MOST_POSITIONS
        }
    } else {
        MOST_POSITIONS
    }
}

/// The weight types of a layer of a model.
pub open spec fn types_of<T>(model: &Model<T>, l: int) -> LayerTypes {
    let tensors = model.file.tensors@;
    let layer = model.weights.layers@[l];
    let (gate, up, down) = match layer.feed {
        Feed::Dense { gate, up, down } => (gate, up, down),
        Feed::Routed(experts) => (experts.gate, experts.up, experts.down),
    };
    LayerTypes {
        q: tensors[layer.q as int].ggml_type,
        k: tensors[layer.k as int].ggml_type,
        v: tensors[layer.v as int].ggml_type,
        out: tensors[layer.out as int].ggml_type,
        gate: tensors[gate as int].ggml_type,
        up: tensors[up as int].ggml_type,
        down: tensors[down as int].ggml_type,
    }
}

/// The experts of a layer have a bias, by the elements of the biases.
pub open spec fn biased<T>(feed: Feed<T>) -> (bool, bool, bool) {
    match feed {
        Feed::Dense { .. } => (false, false, false),
        Feed::Routed(experts) => (
            experts.gate_bias@.len() > 0,
            experts.up_bias@.len() > 0,
            experts.down_bias@.len() > 0,
        ),
    }
}

impl GpuForwardState {
    /// The state belongs to a model: its layers have the weights, and the biases, that it says.
    pub open spec fn belongs<T>(&self, model: &Model<T>) -> bool {
        &&& self.cfg == model.cfg
        &&& forall|l: int|
            0 <= l < self.types@.len() ==> #[trigger] self.types@[l] == types_of(model, l)
        &&& forall|l: int|
            0 <= l < self.out_bias@.len() ==> #[trigger] self.out_bias@[l] == (
            model.weights.layers@[l].out_bias@.len() > 0)
        &&& forall|l: int|
            0 <= l < self.gate_bias@.len() ==> #[trigger] self.gate_bias@[l] == biased(
                model.weights.layers@[l].feed,
            ).0
        &&& forall|l: int|
            0 <= l < self.up_bias@.len() ==> #[trigger] self.up_bias@[l] == biased(
                model.weights.layers@[l].feed,
            ).1
        &&& forall|l: int|
            0 <= l < self.down_bias@.len() ==> #[trigger] self.down_bias@[l] == biased(
                model.weights.layers@[l].feed,
            ).2
    }

    /// Sets up the state of a model. The elements of the query and key norms of each layer, zero
    /// for none, and the window of the layers with even numbers, zero for none, are given.
    pub fn new<T>(
        model: &Model<T>,
        q_norm: Vec<usize>,
        k_norm: Vec<usize>,
        swa_window: usize,
    ) -> (state: Self)
        requires
            model.fits(),
            q_norm@.len() == model.cfg.n_layers,
            k_norm@.len() == model.cfg.n_layers,
            model.cfg.kv_total() * positions(model.cfg) <= usize::MAX,
            model.cfg.n_heads * positions(model.cfg) <= usize::MAX,
            4 * model.cfg.ffn_dim <= usize::MAX,
            4 * model.cfg.embed_dim <= usize::MAX,
            model.cfg.embed_dim * model.cfg.ffn_dim <= usize::MAX,
        ensures
            state.wf(),
            state.belongs(model),
            state.q_norm@ == q_norm@,
            state.k_norm@ == k_norm@,
            state.swa_window == swa_window,
            state.lm_head is None,
    {
        let cfg = model.cfg;
        let wished: usize = if cfg.yarn_orig_ctx > LEAST_CONTEXT {
            cfg.yarn_orig_ctx
        } else {
            LEAST_CONTEXT
        };
        let max_seq: usize = if wished < MOST_POSITIONS {
            wished
        } else {
            MOST_POSITIONS
        };
        let mut out_bias: Vec<bool> = Vec::new();
        let mut gate_bias: Vec<bool> = Vec::new();
        let mut up_bias: Vec<bool> = Vec::new();
        let mut down_bias: Vec<bool> = Vec::new();
        let mut types: Vec<LayerTypes> = Vec::new();
        let mut l: usize = 0;
        while l < cfg.n_layers
            invariant
                model.fits(),
                cfg == model.cfg,
                l <= cfg.n_layers,
                out_bias@.len() == l,
                gate_bias@.len() == l,
                up_bias@.len() == l,
                down_bias@.len() == l,
                types@.len() == l,
                forall|m: int| 0 <= m < l ==> #[trigger] types@[m] == types_of(model, m),
                forall|m: int|
                    0 <= m < l ==> #[trigger] out_bias@[m] == (
                    model.weights.layers@[m].out_bias@.len() > 0),
                forall|m: int|
                    0 <= m < l ==> #[trigger] gate_bias@[m] == biased(
                        model.weights.layers@[m].feed,
                    ).0,
                forall|m: int|
                    0 <= m < l ==> #[trigger] up_bias@[m] == biased(
                        model.weights.layers@[m].feed,
                    ).1,
                forall|m: int|
                    0 <= m < l ==> #[trigger] down_bias@[m] == biased(
                        model.weights.layers@[m].feed,
                    ).2,
            decreases cfg.n_layers - l,
        {
            proof {
                assert(llm_model::layer_fits(
                    model.cfg,
                    model.file,
                    model.weights.layers@[l as int],
                ));
            }
            let layer = &model.weights.layers[l];
            let tensors = &model.file.tensors;
            let (gate, up, down): (usize, usize, usize) = match &layer.feed {
                Feed::Dense { gate, up, down } => (*gate, *up, *down),
                Feed::Routed(experts) => (experts.gate, experts.up, experts.down),
            };
            types.push(
                LayerTypes {
                    q: tensors[layer.q].ggml_type,
                    k: tensors[layer.k].ggml_type,
                    v: tensors[layer.v].ggml_type,
                    out: tensors[layer.out].ggml_type,
                    gate: tensors[gate].ggml_type,
                    up: tensors[up].ggml_type,
                    down: tensors[down].ggml_type,
                },
            );
            out_bias.push(layer.out_bias.len() > 0);
            match &layer.feed {
                Feed::Dense { .. } => {
                    gate_bias.push(false);
                    up_bias.push(false);
                    down_bias.push(false);
                },
                Feed::Routed(experts) => {
                    gate_bias.push(experts.gate_bias.len() > 0);
                    up_bias.push(experts.up_bias.len() > 0);
                    down_bias.push(experts.down_bias.len() > 0);
                },
            }
            l = l + 1;
        }
        GpuForwardState {
            cfg,
            max_seq,
            swa_window,
            q_norm,
            k_norm,
            out_bias,
            gate_bias,
            up_bias,
            down_bias,
            types,
            lm_head: None,
        }
    }

    /// Each layer has its entries, and the sizes are those of a machine.
    pub open spec fn wf(&self) -> bool {
        let n = self.cfg.n_layers;
        &&& self.max_seq == positions(self.cfg)
        &&& self.q_norm@.len() == n
        &&& self.k_norm@.len() == n
        &&& self.out_bias@.len() == n
        &&& self.gate_bias@.len() == n
        &&& self.up_bias@.len() == n
        &&& self.down_bias@.len() == n
        &&& self.types@.len() == n
        &&& self.cfg.q_total() <= usize::MAX
        &&& self.cfg.kv_total() * self.max_seq <= usize::MAX
        &&& self.cfg.n_heads * self.max_seq <= usize::MAX
        &&& 4 * self.cfg.ffn_dim <= usize::MAX
        &&& 4 * self.cfg.embed_dim <= usize::MAX
        &&& self.cfg.embed_dim * self.cfg.ffn_dim <= usize::MAX
    }

    /// The buffers of numbers that are set up before any token, with their elements, in order.
    pub open spec fn scratch(cfg: Config, max_seq: usize) -> Seq<(Buffer, usize)> {
        seq![
            (Buffer::Hidden, cfg.embed_dim),
            (Buffer::NormOut, cfg.embed_dim),
            (Buffer::Q, cfg.q_total() as usize),
            (Buffer::K, cfg.kv_total() as usize),
            (Buffer::V, cfg.kv_total() as usize),
            (Buffer::AttnOut, cfg.q_total() as usize),
            (Buffer::Scores, (cfg.n_heads * max_seq) as usize),
            (Buffer::Gate, cfg.ffn_dim),
            (Buffer::Up, cfg.ffn_dim),
            (Buffer::ExpertOut, cfg.ffn_dim),
            (Buffer::ExpertAcc, cfg.embed_dim),
            (Buffer::GateAll, (4 * cfg.ffn_dim) as usize),
            (Buffer::UpAll, (4 * cfg.ffn_dim) as usize),
            (Buffer::ExpertOutAll, (4 * cfg.ffn_dim) as usize),
            (Buffer::DownAll, (4 * cfg.embed_dim) as usize),
            (Buffer::Logits, cfg.vocab_size),
        ]
    }

    /// The caches of the first `n` layers, with their elements, in order.
    pub open spec fn cache_buffers(cfg: Config, max_seq: usize, n: nat) -> Seq<(Buffer, usize)>
        decreases n,
    {
        if n == 0 {
            Seq::empty()
        } else {
            let l = (n - 1) as usize;
            let size = (max_seq * cfg.kv_total()) as usize;
            Self::cache_buffers(cfg, max_seq, (n - 1) as nat) + seq![
                (Buffer::Keys(l), size),
                (Buffer::Values(l), size),
            ]
        }
    }

    /// The buffers that are allocated for a model, with their elements, in order.
    pub open spec fn allocations(&self) -> Seq<(Buffer, usize)> {
        Self::scratch(self.cfg, self.max_seq) + Self::cache_buffers(
            self.cfg,
            self.max_seq,
            self.cfg.n_layers as nat,
        ) + seq![
            (
                Buffer::RouterLogits,
                if self.cfg.n_experts > 0 {
                    self.cfg.n_experts
                } else {
                    1
                },
            ),
        ]
    }

    /// The buffers to allocate, with their elements.
    pub fn buffers(&self) -> (list: Vec<(Buffer, usize)>)
        requires
            self.wf(),
        ensures
            list@ == self.allocations(),
    {
        let cfg = &self.cfg;
        let d: usize = cfg.embed_dim;
        let f: usize = cfg.ffn_dim;
        proof {
            let kv = cfg.kv_total() as int;
            let m = self.max_seq as int;
            assert(kv <= kv * m) by (nonlinear_arith)
                requires
                    0 <= kv,
                    1 <= m,
            ;
            assert(m * kv == kv * m) by (nonlinear_arith);
        }
        let q_d: usize = cfg.q_total_dim();
        let kv_d: usize = cfg.kv_total_dim();
        let mut list: Vec<(Buffer, usize)> = Vec::new();
        list.push((Buffer::Hidden, d));
        list.push((Buffer::NormOut, d));
        list.push((Buffer::Q, q_d));
        list.push((Buffer::K, kv_d));
        list.push((Buffer::V, kv_d));
        list.push((Buffer::AttnOut, q_d));
        list.push((Buffer::Scores, cfg.n_heads * self.max_seq));
        list.push((Buffer::Gate, f));
        list.push((Buffer::Up, f));
        list.push((Buffer::ExpertOut, f));
        list.push((Buffer::ExpertAcc, d));
        list.push((Buffer::GateAll, 4 * f));
        list.push((Buffer::UpAll, 4 * f));
        list.push((Buffer::ExpertOutAll, 4 * f));
        list.push((Buffer::DownAll, 4 * d));
        list.push((Buffer::Logits, cfg.vocab_size));
        let ghost first = Self::scratch(self.cfg, self.max_seq);
        proof {
            assert(list@ =~= first);
            assert(list@ =~= first + Self::cache_buffers(self.cfg, self.max_seq, 0));
        }
        let size: usize = self.max_seq * kv_d;
        let mut l: usize = 0;
        while l < cfg.n_layers
            invariant
                *cfg == self.cfg,
                size == self.max_seq * cfg.kv_total(),
                l <= cfg.n_layers,
                list@ == first + Self::cache_buffers(self.cfg, self.max_seq, l as nat),
            decreases cfg.n_layers - l,
        {
            list.push((Buffer::Keys(l), size));
            list.push((Buffer::Values(l), size));
            proof {
                assert(list@ =~= first + Self::cache_buffers(
                    self.cfg,
                    self.max_seq,
                    (l + 1) as nat,
                ));
            }
            l = l + 1;
        }
        let ghost before = list@;
        let experts: usize = if cfg.n_experts > 0 {
            cfg.n_experts
        } else {
            1
        };
        list.push((Buffer::RouterLogits, experts));
        proof {
            assert(list@ =~= before + seq![(Buffer::RouterLogits, experts)]);
        }
        list
    }

    /// The position that a token is written to: the last one, where the caches are full.
    pub open spec fn slot(&self, pos: usize) -> usize {
        if pos < self.max_seq {
            pos
        } else {
            (self.max_seq - 1) as usize
        }
    }

    /// The position that a token is written to.
    pub fn clamp(&self, pos: usize) -> (slot: usize)
        requires
            self.wf(),
        ensures
            slot == self.slot(pos),
            slot < self.max_seq,
    {
        if pos < self.max_seq {
            pos
        } else {
            self.max_seq - 1
        }
    }

    /// The first position that a layer sees.
    pub open spec fn first_seen(&self, l: usize, pos: usize) -> usize {
        if self.swa_window > 0 && l % 2 == 0 && pos + 1 > self.swa_window {
            (pos + 1 - self.swa_window) as usize
        } else {
            0
        }
    }

    /// The first position that a layer sees: layers with even numbers slide a window over the most
    /// recent keys.
    pub fn attn_start(&self, l: usize, pos: usize) -> (first: usize)
        requires
            pos < usize::MAX,
        ensures
            first == self.first_seen(l, pos),
            first <= pos,
    {
        if self.swa_window > 0 && l % 2 == 0 && pos + 1 > self.swa_window {
            pos + 1 - self.swa_window
        } else {
            0
        }
    }
}

} // verus!
