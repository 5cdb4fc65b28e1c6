//! A language model: its shape, its file and its weights.

use vstd::prelude::*;
use crate::arithmetic;
use crate::gguf;
use crate::gguf::{GgufFile, TensorInfo};
use crate::gguf_tensors::{block_shape, readable};
use crate::llm_config::Config;
use crate::llm_experts;
use crate::llm_experts::Experts;
use crate::quant::Grids;

verus! {

/// The feed-forward network of a layer.
pub enum Feed<T> {
    /// The tensors of a dense network.
    Dense { gate: usize, up: usize, down: usize },
    Routed(Experts<T>),
}

/// The weights of a layer. Large matrices stay in the file and are named by their tensors.
pub struct Layer<T> {
    pub attn_norm: Vec<T>,
    pub q: usize,
    pub k: usize,
    pub v: usize,
    pub out: usize,
    pub q_bias: Vec<T>,
    pub k_bias: Vec<T>,
    pub v_bias: Vec<T>,
    /// Without elements where there is none.
    pub out_bias: Vec<T>,
    /// One score for each head, or none.
    pub sinks: Vec<T>,
    pub ffn_norm: Vec<T>,
    pub feed: Feed<T>,
}

/// The weights of a model.
pub struct Weights<T> {
    pub layers: Vec<Layer<T>>,
    pub embed: usize,
    pub lm_head: usize,
    pub final_norm: Vec<T>,
}

/// A model.
pub struct Model<'a, T> {
    pub cfg: Config,
    pub grids: Grids<'a>,
    pub file: &'a GgufFile<'a>,
    pub weights: Weights<T>,
}

/// Keys and values of the positions so far, for one layer.
pub struct Cache<T> {
    pub keys: Vec<T>,
    pub values: Vec<T>,
}

/// The experts have what they need.
pub open spec fn experts_fit<T>(cfg: Config, file: &GgufFile, layer: Experts<T>) -> bool {
    let d = cfg.embed_dim as nat;
    let f = cfg.ffn_dim as nat;
    let n = cfg.n_experts as nat;
    &&& cfg.n_experts_used <= n
    &&& n * d <= layer.router_w@.len()
    &&& llm_experts::holds_experts(file, layer.gate as int, d, f, n)
    &&& llm_experts::holds_experts(file, layer.up as int, d, f, n)
    &&& llm_experts::holds_experts(file, layer.down as int, f, d, n)
    &&& layer.gate_bias@.len() == 0 || n * f <= layer.gate_bias@.len()
    &&& layer.up_bias@.len() == 0 || n * f <= layer.up_bias@.len()
    &&& layer.down_bias@.len() == 0 || n * d <= layer.down_bias@.len()
}

/// The feed-forward network has what it needs.
pub open spec fn feed_fits<T>(cfg: Config, file: &GgufFile, feed: Feed<T>) -> bool {
    let d = cfg.embed_dim as nat;
    let f = cfg.ffn_dim as nat;
    match feed {
        Feed::Dense { gate, up, down } => {
            &&& cfg.n_experts == 0
            &&& arithmetic::holds_matrix(file, gate as int, d, f)
            &&& arithmetic::holds_matrix(file, up as int, d, f)
            &&& arithmetic::holds_matrix(file, down as int, f, d)
        },
        Feed::Routed(layer) => cfg.n_experts > 0 && experts_fit(cfg, file, layer),
    }
}

/// A layer has what it needs.
pub open spec fn layer_fits<T>(cfg: Config, file: &GgufFile, layer: Layer<T>) -> bool {
    let d = cfg.embed_dim as nat;
    &&& d <= layer.attn_norm@.len()
    &&& d <= layer.ffn_norm@.len()
    &&& arithmetic::holds_matrix(file, layer.q as int, d, cfg.q_total())
    &&& arithmetic::holds_matrix(file, layer.k as int, d, cfg.kv_total())
    &&& arithmetic::holds_matrix(file, layer.v as int, d, cfg.kv_total())
    &&& arithmetic::holds_matrix(file, layer.out as int, cfg.q_total(), d)
    &&& cfg.q_total() <= layer.q_bias@.len()
    &&& cfg.kv_total() <= layer.k_bias@.len()
    &&& cfg.kv_total() <= layer.v_bias@.len()
    &&& feed_fits(cfg, file, layer.feed)
}

/// Whether `n` times `size` is at most `limit`.
pub(crate) fn at_most(n: usize, size: u128, limit: usize) -> (r: bool)
    ensures
        r == (n * size <= limit),
{
    if n == 0 {
        proof {
            assert(0 * size == 0) by (nonlinear_arith);
        }
        return true;
    }
    if size > limit as u128 {
        proof {
            assert(n * size > limit) by (nonlinear_arith)
                requires
                    n >= 1,
                    size > limit,
            ;
        }
        return false;
    }
    proof {
        assert(n * size <= 0xffff_ffff_ffff_ffff * 0xffff_ffff_ffff_ffff) by (nonlinear_arith)
            requires
                0 <= n <= 0xffff_ffff_ffff_ffff,
                0 <= size <= 0xffff_ffff_ffff_ffff,
        ;
    }
    n as u128 * size <= limit as u128
}

/// The bytes that whole blocks of elements take.
fn byte_size(ggml_type: u32, n: u128) -> (size: u128)
    requires
        gguf::block_of(ggml_type) is Some,
        n <= 0xffff_ffff_ffff_ffff,
    ensures
        size == gguf::type_size(ggml_type, n as nat),
{
    match block_shape(ggml_type) {
        Some((elements, bytes)) => {
            proof {
                assert(n / elements <= n) by (nonlinear_arith)
                    requires
                        elements >= 1,
                ;
                assert((n / elements) * bytes <= n * 256) by (nonlinear_arith)
                    requires
                        0 <= n / elements <= n,
                        0 <= bytes <= 256,
                ;
            }
            (n / elements) * bytes
        },
        None => 0,
    }
}

/// Whether a tensor of a file holds a matrix.
pub fn fits_matrix(file: &GgufFile, index: usize, columns: usize, rows: usize) -> (fits: bool)
    ensures
        fits == arithmetic::holds_matrix(file, index as int, columns as nat, rows as nat),
{
    if index >= file.tensors.len() {
        return false;
    }
    let info: &TensorInfo = &file.tensors[index];
    if !readable(file, info) {
        return false;
    }
    let data = file.tensor_data(info);
    proof {
        assert(data@.len() == data.len());
        assert(data@ == arithmetic::matrix_of(file, index as int).data);
    }
    match block_shape(info.ggml_type) {
        Some((elements, _)) => {
            if columns as u128 % elements != 0 {
                return false;
            }
        },
        None => {
            return false;
        },
    }
    at_most(rows, byte_size(info.ggml_type, columns as u128), data.len())
}

/// Whether a tensor of a file holds a matrix for each expert.
fn fits_experts(
    file: &GgufFile,
    index: usize,
    columns: usize,
    rows: usize,
    n: usize,
) -> (fits: bool)
    ensures
        fits == llm_experts::holds_experts(
            file,
            index as int,
            columns as nat,
            rows as nat,
            n as nat,
        ),
{
    if index >= file.tensors.len() {
        return false;
    }
    let info: &TensorInfo = &file.tensors[index];
    if !readable(file, info) {
        return false;
    }
    let data = file.tensor_data(info);
    proof {
        assert(data@.len() == data.len());
        assert(data@ == arithmetic::matrix_of(file, index as int).data);
    }
    match block_shape(info.ggml_type) {
        Some((elements, _)) => {
            if columns as u128 % elements != 0 {
                return false;
            }
        },
        None => {
            return false;
        },
    }
    if !at_most(columns, rows as u128, usize::MAX) {
        return false;
    }
    let elements: usize = columns * rows;
    at_most(n, byte_size(info.ggml_type, elements as u128), data.len())
}

/// Whether a bias is not there, or has a row for each expert.
fn fits_bias<T>(bias: &Vec<T>, n: usize, width: usize) -> (fits: bool)
    ensures
        fits == (bias@.len() == 0 || n * width <= bias@.len()),
{
    bias.len() == 0 || at_most(n, width as u128, bias.len())
}

/// Whether experts have what they need.
fn check_experts<T>(cfg: &Config, file: &GgufFile, layer: &Experts<T>) -> (fits: bool)
    ensures
        fits == experts_fit(*cfg, file, *layer),
{
    let d: usize = cfg.embed_dim;
    let f: usize = cfg.ffn_dim;
    let n: usize = cfg.n_experts;
    cfg.n_experts_used <= n && at_most(n, d as u128, layer.router_w.len()) && fits_experts(
        file,
        layer.gate,
        d,
        f,
        n,
    ) && fits_experts(file, layer.up, d, f, n) && fits_experts(file, layer.down, f, d, n)
        && fits_bias(&layer.gate_bias, n, f) && fits_bias(&layer.up_bias, n, f) && fits_bias(
        &layer.down_bias,
        n,
        d,
    )
}

/// Whether a layer has what it needs.
fn check_layer<T>(cfg: &Config, file: &GgufFile, layer: &Layer<T>) -> (fits: bool)
    requires
        cfg.q_total() <= usize::MAX,
        cfg.kv_total() <= usize::MAX,
    ensures
        fits == layer_fits(*cfg, file, *layer),
{
    let d: usize = cfg.embed_dim;
    let f: usize = cfg.ffn_dim;
    let q_d: usize = cfg.q_total_dim();
    let kv_d: usize = cfg.kv_total_dim();
    if d > layer.attn_norm.len() || d > layer.ffn_norm.len() || q_d > layer.q_bias.len() || kv_d
        > layer.k_bias.len() || kv_d > layer.v_bias.len() {
        return false;
    }
    if !fits_matrix(file, layer.q, d, q_d) || !fits_matrix(file, layer.k, d, kv_d)
        || !fits_matrix(file, layer.v, d, kv_d) || !fits_matrix(file, layer.out, q_d, d) {
        return false;
    }
    match &layer.feed {
        Feed::Dense { gate, up, down } => cfg.n_experts == 0 && fits_matrix(file, *gate, d, f)
            && fits_matrix(file, *up, d, f) && fits_matrix(file, *down, f, d),
        Feed::Routed(experts) => cfg.n_experts > 0 && check_experts(cfg, file, experts),
    }
}

impl<'a, T> Model<'a, T> {
    /// Whether the model has what each of its layers needs.
    pub fn check(&self) -> (fits: bool)
        requires
            self.grids.wf(),
        ensures
            fits == self.fits(),
    {
        let cfg = &self.cfg;
        if cfg.n_kv_heads == 0 || !at_most(cfg.n_heads, cfg.n_kv_heads as u128, usize::MAX)
            || !at_most(cfg.n_heads, cfg.head_dim as u128, usize::MAX) || !at_most(
            cfg.n_kv_heads,
            cfg.head_dim as u128,
            usize::MAX,
        ) || self.weights.layers.len() != cfg.n_layers || cfg.embed_dim
            > self.weights.final_norm.len() || !fits_matrix(
            self.file,
            self.weights.lm_head,
            cfg.embed_dim,
            cfg.vocab_size,
        ) {
            return false;
        }
        let mut l: usize = 0;
        while l < cfg.n_layers
            invariant
                *cfg == self.cfg,
                l <= cfg.n_layers == self.weights.layers@.len(),
                cfg.q_total() <= usize::MAX,
                cfg.kv_total() <= usize::MAX,
                forall|m: int|
                    0 <= m < l ==> layer_fits(
                        self.cfg,
                        self.file,
                        #[trigger] self.weights.layers@[m],
                    ),
            decreases cfg.n_layers - l,
        {
            if !check_layer(cfg, self.file, &self.weights.layers[l]) {
                proof {
                    assert(!layer_fits(self.cfg, self.file, self.weights.layers@[l as int]));
                }
                return false;
            }
            l = l + 1;
        }
        true
    }

    /// Whether the model has an embedding for a token.
    pub fn has(&self, token: usize) -> (known: bool)
        ensures
            known == self.knows(token as int),
    {
        token < self.cfg.vocab_size && fits_matrix(
            self.file,
            self.weights.embed,
            self.cfg.embed_dim,
            token + 1,
        )
    }

    /// The model has what each of its layers needs, and its sizes are those of a machine.
    pub open spec fn fits(&self) -> bool {
        &&& self.grids.wf()
        &&& 0 < self.cfg.n_kv_heads
        &&& self.cfg.n_heads * self.cfg.n_kv_heads <= usize::MAX
        &&& self.cfg.q_total() <= usize::MAX
        &&& self.cfg.kv_total() <= usize::MAX
        &&& self.weights.layers@.len() == self.cfg.n_layers
        &&& forall|l: int|
            0 <= l < self.cfg.n_layers ==> layer_fits(
                self.cfg,
                self.file,
                #[trigger] self.weights.layers@[l],
            )
        &&& self.cfg.embed_dim <= self.weights.final_norm@.len()
        &&& arithmetic::holds_matrix(
            self.file,
            self.weights.lm_head as int,
            self.cfg.embed_dim as nat,
            self.cfg.vocab_size as nat,
        )
    }

    /// The model has an embedding for a token.
    pub open spec fn knows(&self, token: int) -> bool {
        &&& 0 <= token < self.cfg.vocab_size
        &&& arithmetic::holds_matrix(
            self.file,
            self.weights.embed as int,
            self.cfg.embed_dim as nat,
            (token + 1) as nat,
        )
    }
}

} // verus!
