//! The UMT5 text encoder.
//!
//! Every block has its own table of relative-position biases, attention scores are not scaled, and
//! the feed-forward network is gated. Embeddings are decoded one row at a time.

use vstd::prelude::*;
use crate::arithmetic;
use crate::arithmetic::Arithmetic;
use crate::gguf;
use crate::gguf::{GgufFile, GgufValue};
use crate::gguf_tensors;
use crate::gguf_tensors::TensorIndex;
use crate::llm_config;
use crate::llm_load;
use crate::llm_load::{check_needs, found, LoadError, Need};
use crate::llm_model::{at_most, fits_matrix};
use crate::quant::{Grids, Weight};
use crate::text;
use crate::text::push_usize;

verus! {

broadcast use vstd::string::group_string_axioms;

/// The bit pattern of 1e-6.
pub const DEFAULT_EPSILON: u32 = 0x3586_37bd;

/// The distance from which on all positions share a bucket.
pub const MAX_DISTANCE: usize = 128;

/// The shape of the encoder.
#[derive(Clone, Copy, Debug, PartialEq, Eq)]
pub struct Umt5Config {
    pub n_layers: usize,
    pub d_model: usize,
    pub d_ff: usize,
    pub n_heads: usize,
    pub head_dim: usize,
    /// A bit pattern.
    pub eps: u32,
    pub n_buckets: usize,
    pub max_distance: usize,
    pub context: usize,
}

/// A number of the file, or its default.
pub open spec fn number_at(contents: gguf::GgufContents, key: Seq<char>, default: u32) -> usize {
    llm_config::or_else(contents.u32_at(key), default) as usize
}

/// The shape that a file gives.
pub open spec fn config_of(contents: gguf::GgufContents) -> Umt5Config {
    Umt5Config {
        n_layers: number_at(contents, "t5encoder.block_count"@, 24),
        d_model: number_at(contents, "t5encoder.embedding_length"@, 4096),
        d_ff: number_at(contents, "t5encoder.feed_forward_length"@, 10240),
        n_heads: number_at(contents, "t5encoder.attention.head_count"@, 64),
        head_dim: number_at(contents, "t5encoder.attention.key_length"@, 64),
        eps: match contents.at("t5encoder.attention.layer_norm_rms_epsilon"@) {
            Some(gguf::GgufData::Float32(bits)) => bits,
            _ => DEFAULT_EPSILON,
        },
        n_buckets: number_at(contents, "t5encoder.attention.relative_buckets_count"@, 32),
        max_distance: MAX_DISTANCE,
        context: number_at(contents, "t5encoder.context_length"@, 512),
    }
}

/// A number of the file, or its default.
fn number(file: &GgufFile, key: &str, default: u32) -> (n: usize)
    ensures
        n == number_at(file@, key@, default),
{
    match file.meta_u32(key) {
        Some(n) => n as usize,
        None => default as usize,
    }
}

impl Umt5Config {
    /// Reads the shape of the encoder from its file.
    pub fn from_gguf(file: &GgufFile) -> (cfg: Self)
        ensures
            cfg == config_of(file@),
    {
        let eps: u32 = match file.metadata.get("t5encoder.attention.layer_norm_rms_epsilon") {
            Some(GgufValue::Float32(bits)) => *bits,
            _ => DEFAULT_EPSILON,
        };
        Umt5Config {
            n_layers: number(file, "t5encoder.block_count", 24),
            d_model: number(file, "t5encoder.embedding_length", 4096),
            d_ff: number(file, "t5encoder.feed_forward_length", 10240),
            n_heads: number(file, "t5encoder.attention.head_count", 64),
            head_dim: number(file, "t5encoder.attention.key_length", 64),
            eps,
            n_buckets: number(file, "t5encoder.attention.relative_buckets_count", 32),
            max_distance: MAX_DISTANCE,
            context: number(file, "t5encoder.context_length", 512),
        }
    }
}

/// The weights of a block. Large matrices stay in the file and are named by their tensors.
pub struct Block<T> {
    pub attn_norm: Vec<T>,
    pub q: usize,
    pub k: usize,
    pub v: usize,
    pub o: usize,
    /// One row for each bucket, with a bias for each head.
    pub rel_b: Vec<T>,
    pub ffn_norm: Vec<T>,
    pub gate: usize,
    pub up: usize,
    pub down: usize,
}

/// The encoder.
pub struct Umt5Encoder<'a, T> {
    pub file: &'a GgufFile<'a>,
    pub grids: Grids<'a>,
    pub cfg: Umt5Config,
    pub embd: usize,
    pub blocks: Vec<Block<T>>,
    pub out_norm: Vec<T>,
}

/// The name of a tensor of block `i`.
pub open spec fn block_tensor(i: nat, suffix: Seq<char>) -> Seq<char> {
    "enc.blk."@ + text::decimal(i) + "."@ + suffix
}

/// The name of a tensor of a block.
fn tensor_name(i: usize, suffix: &str) -> (name: String)
    ensures
        name@ == block_tensor(i as nat, suffix@),
{
    let mut name = String::new();
    name.append("enc.blk.");
    push_usize(&mut name, i);
    name.append(".");
    name.append(suffix);
    proof {
        assert(name@ =~= block_tensor(i as nat, suffix@));
    }
    name
}

/// What a block needs, in the order in which it is looked for.
pub open spec fn block_demands(i: nat) -> Seq<llm_load::Demand> {
    seq![
        llm_load::Demand::Decode(block_tensor(i, "attn_norm.weight"@)),
        llm_load::Demand::Find(block_tensor(i, "attn_q.weight"@)),
        llm_load::Demand::Find(block_tensor(i, "attn_k.weight"@)),
        llm_load::Demand::Find(block_tensor(i, "attn_v.weight"@)),
        llm_load::Demand::Find(block_tensor(i, "attn_o.weight"@)),
        llm_load::Demand::Decode(block_tensor(i, "attn_rel_b.weight"@)),
        llm_load::Demand::Decode(block_tensor(i, "ffn_norm.weight"@)),
        llm_load::Demand::Find(block_tensor(i, "ffn_gate.weight"@)),
        llm_load::Demand::Find(block_tensor(i, "ffn_up.weight"@)),
        llm_load::Demand::Find(block_tensor(i, "ffn_down.weight"@)),
    ]
}

/// What the first `n` blocks need.
pub open spec fn blocks_demands(n: nat) -> Seq<llm_load::Demand>
    decreases n,
{
    if n == 0 {
        Seq::empty()
    } else {
        blocks_demands((n - 1) as nat) + block_demands((n - 1) as nat)
    }
}

/// What is needed besides the blocks.
pub open spec fn outer_demands() -> Seq<llm_load::Demand> {
    seq![
        llm_load::Demand::Find("token_embd.weight"@),
        llm_load::Demand::Decode("enc.output_norm.weight"@),
    ]
}

/// What the encoder needs, in the order in which it is looked for.
pub open spec fn demands(cfg: Umt5Config) -> Seq<llm_load::Demand> {
    blocks_demands(cfg.n_layers as nat) + outer_demands()
}

/// What the message of a fault says.
pub open spec fn fault_text(fault: llm_load::LoadFault) -> Seq<char> {
    match fault {
        llm_load::LoadFault::Missing(name) => "missing tensor "@ + name,
        llm_load::LoadFault::Unreadable(name) => "unreadable tensor "@ + name,
    }
}

/// A message for the user.
pub fn load_message(error: &LoadError) -> (message: String)
    ensures
        message@ == fault_text(error@),
{
    let mut message = String::new();
    match error {
        LoadError::Missing(name) => {
            message.append("missing tensor ");
            message.append(name.as_str());
        },
        LoadError::Unreadable(name) => {
            message.append("unreadable tensor ");
            message.append(name.as_str());
        },
    }
    message
}

/// What the encoder needs.
fn list_needs(cfg: &Umt5Config) -> (needs: Vec<Need>)
    ensures
        llm_load::demanded(needs@) == demands(*cfg),
{
    let mut needs: Vec<Need> = Vec::new();
    let mut i: usize = 0;
    proof {
        assert(llm_load::demanded(needs@) =~= Seq::empty());
    }
    while i < cfg.n_layers
        invariant
            i <= cfg.n_layers,
            llm_load::demanded(needs@) == blocks_demands(i as nat),
        decreases cfg.n_layers - i,
    {
        let ghost before = llm_load::demanded(needs@);
        needs.push(Need::Decode(tensor_name(i, "attn_norm.weight")));
        needs.push(Need::Find(tensor_name(i, "attn_q.weight")));
        needs.push(Need::Find(tensor_name(i, "attn_k.weight")));
        needs.push(Need::Find(tensor_name(i, "attn_v.weight")));
        needs.push(Need::Find(tensor_name(i, "attn_o.weight")));
        needs.push(Need::Decode(tensor_name(i, "attn_rel_b.weight")));
        needs.push(Need::Decode(tensor_name(i, "ffn_norm.weight")));
        needs.push(Need::Find(tensor_name(i, "ffn_gate.weight")));
        needs.push(Need::Find(tensor_name(i, "ffn_up.weight")));
        needs.push(Need::Find(tensor_name(i, "ffn_down.weight")));
        proof {
            assert(llm_load::demanded(needs@) =~= before + block_demands(i as nat));
        }
        i = i + 1;
    }
    let ghost before = llm_load::demanded(needs@);
    needs.push(Need::Find("token_embd.weight".to_owned()));
    needs.push(Need::Decode("enc.output_norm.weight".to_owned()));
    proof {
        assert(llm_load::demanded(needs@) =~= before + outer_demands());
    }
    needs
}

/// The needs of a block are among those of all blocks.
proof fn lemma_block_demands(file: &GgufFile, n: nat, i: nat)
    requires
        i < n,
        llm_load::first_fault(file, blocks_demands(n)) is None,
    ensures
        llm_load::first_fault(file, block_demands(i)) is None,
    decreases n,
{
    let m = (n - 1) as nat;
    llm_load::lemma_fault_join(file, blocks_demands(m), block_demands(m));
    if i < m {
        lemma_block_demands(file, m, i);
    }
}

impl<
    T: Copy,
    Z: Copy,
    N: Fn(Weight) -> T + Copy,
    M: Fn(T, T, T) -> T + Copy,
    L: Fn(T, T, T) -> T + Copy,
    P: Fn(T, T) -> T + Copy,
    A: Fn(&[T]) -> Z + Copy,
    B: Fn(T, Z, T) -> T + Copy,
    R: Fn(T, T, usize, usize) -> (T, T) + Copy,
    C: Fn(T) -> T + Copy,
    H: Fn(Vec<T>, Option<T>) -> Vec<T> + Copy,
    G: Fn(T, T) -> T + Copy,
    K: Fn(T, T) -> T + Copy,
    D: Fn(T) -> u32 + Copy,
> Arithmetic<T, N, M, L, P, A, B, R, C, H, G, K, D> {
    /// `block` holds the weights of block `i`.
    pub open spec fn loads_block(
        self,
        grids: Grids,
        file: &GgufFile,
        i: nat,
        block: Block<T>,
    ) -> bool {
        let tensors = file.tensors@;
        &&& self.loads(grids, file, block_tensor(i, "attn_norm.weight"@), block.attn_norm@)
        &&& gguf_tensors::last_named(tensors, block_tensor(i, "attn_q.weight"@)) == Some(
            block.q as int,
        )
        &&& gguf_tensors::last_named(tensors, block_tensor(i, "attn_k.weight"@)) == Some(
            block.k as int,
        )
        &&& gguf_tensors::last_named(tensors, block_tensor(i, "attn_v.weight"@)) == Some(
            block.v as int,
        )
        &&& gguf_tensors::last_named(tensors, block_tensor(i, "attn_o.weight"@)) == Some(
            block.o as int,
        )
        &&& self.loads(grids, file, block_tensor(i, "attn_rel_b.weight"@), block.rel_b@)
        &&& self.loads(grids, file, block_tensor(i, "ffn_norm.weight"@), block.ffn_norm@)
        &&& gguf_tensors::last_named(tensors, block_tensor(i, "ffn_gate.weight"@)) == Some(
            block.gate as int,
        )
        &&& gguf_tensors::last_named(tensors, block_tensor(i, "ffn_up.weight"@)) == Some(
            block.up as int,
        )
        &&& gguf_tensors::last_named(tensors, block_tensor(i, "ffn_down.weight"@)) == Some(
            block.down as int,
        )
    }

    /// `encoder` is the encoder that a file holds.
    pub open spec fn loads_encoder(
        self,
        grids: Grids,
        file: &GgufFile,
        encoder: Umt5Encoder<T>,
    ) -> bool {
        &&& encoder.file == file
        &&& encoder.grids == grids
        &&& encoder.cfg == config_of(file@)
        &&& encoder.blocks@.len() == encoder.cfg.n_layers
        &&& forall|i: int|
            0 <= i < encoder.blocks@.len() ==> self.loads_block(
                grids,
                file,
                i as nat,
                #[trigger] encoder.blocks@[i],
            )
        &&& gguf_tensors::last_named(file.tensors@, "token_embd.weight"@) == Some(
            encoder.embd as int,
        )
        &&& self.loads(grids, file, "enc.output_norm.weight"@, encoder.out_norm@)
    }

    /// The weights of a block.
    fn load_block(&self, grids: &Grids, index: &TensorIndex, i: usize) -> (block: Block<T>)
        requires
            self.usable(),
            grids.wf(),
            index.wf(),
            llm_load::first_fault(index.file, block_demands(i as nat)) is None,
        ensures
            self.loads_block(*grids, index.file, i as nat, block),
    {
        proof {
            let d = block_demands(i as nat);
            llm_load::lemma_no_fault(index.file, d);
            assert(llm_load::demand_fault(index.file, d[0]) is None);
            assert(llm_load::demand_fault(index.file, d[1]) is None);
            assert(llm_load::demand_fault(index.file, d[2]) is None);
            assert(llm_load::demand_fault(index.file, d[3]) is None);
            assert(llm_load::demand_fault(index.file, d[4]) is None);
            assert(llm_load::demand_fault(index.file, d[5]) is None);
            assert(llm_load::demand_fault(index.file, d[6]) is None);
            assert(llm_load::demand_fault(index.file, d[7]) is None);
            assert(llm_load::demand_fault(index.file, d[8]) is None);
            assert(llm_load::demand_fault(index.file, d[9]) is None);
        }
        Block {
            attn_norm: self.decoded(grids, index, tensor_name(i, "attn_norm.weight")),
            q: found(index, tensor_name(i, "attn_q.weight")),
            k: found(index, tensor_name(i, "attn_k.weight")),
            v: found(index, tensor_name(i, "attn_v.weight")),
            o: found(index, tensor_name(i, "attn_o.weight")),
            rel_b: self.decoded(grids, index, tensor_name(i, "attn_rel_b.weight")),
            ffn_norm: self.decoded(grids, index, tensor_name(i, "ffn_norm.weight")),
            gate: found(index, tensor_name(i, "ffn_gate.weight")),
            up: found(index, tensor_name(i, "ffn_up.weight")),
            down: found(index, tensor_name(i, "ffn_down.weight")),
        }
    }

    /// Loads the encoder from a file.
    fn load_encoder<'a>(&self, grids: Grids<'a>, file: &'a GgufFile<'a>) -> (result: Result<
        Umt5Encoder<'a, T>,
        LoadError,
    >)
        requires
            self.usable(),
            grids.wf(),
        ensures
            match llm_load::first_fault(file, demands(config_of(file@))) {
                Some(fault) => result is Err && result->Err_0@ == fault,
                None => result is Ok && self.loads_encoder(grids, file, result->Ok_0),
            },
    {
        let cfg = Umt5Config::from_gguf(file);
        let index = TensorIndex::new(file);
        let needs = list_needs(&cfg);
        match check_needs(&index, &needs) {
            Ok(()) => {},
            Err(error) => {
                return Err(error);
            },
        }
        proof {
            llm_load::lemma_fault_join(
                file,
                blocks_demands(cfg.n_layers as nat),
                outer_demands(),
            );
        }
        let mut blocks: Vec<Block<T>> = Vec::with_capacity(cfg.n_layers);
        let mut i: usize = 0;
        while i < cfg.n_layers
            invariant
                self.usable(),
                grids.wf(),
                index.wf(),
                index.file == file,
                llm_load::first_fault(file, blocks_demands(cfg.n_layers as nat)) is None,
                i == blocks@.len() <= cfg.n_layers,
                forall|j: int|
                    0 <= j < i ==> self.loads_block(grids, file, j as nat, #[trigger] blocks@[j]),
            decreases cfg.n_layers - i,
        {
            proof {
                lemma_block_demands(file, cfg.n_layers as nat, i as nat);
            }
            let block = self.load_block(&grids, &index, i);
            blocks.push(block);
            i = i + 1;
        }
        proof {
            let d = outer_demands();
            llm_load::lemma_no_fault(file, d);
            assert(llm_load::demand_fault(file, d[0]) is None);
            assert(llm_load::demand_fault(file, d[1]) is None);
        }
        let embd: usize = found(&index, "token_embd.weight".to_owned());
        let out_norm = self.decoded(&grids, &index, "enc.output_norm.weight".to_owned());
        Ok(Umt5Encoder { file, grids, cfg, embd, blocks, out_norm })
    }
}

impl<'a, T: Copy> Umt5Encoder<'a, T> {
    /// Loads the encoder from a file.
    pub fn load<
        Z: Copy,
        N: Fn(Weight) -> T + Copy,
        M: Fn(T, T, T) -> T + Copy,
        L: Fn(T, T, T) -> T + Copy,
        P: Fn(T, T) -> T + Copy,
        A: Fn(&[T]) -> Z + Copy,
        B: Fn(T, Z, T) -> T + Copy,
        R: Fn(T, T, usize, usize) -> (T, T) + Copy,
        C: Fn(T) -> T + Copy,
        H: Fn(Vec<T>, Option<T>) -> Vec<T> + Copy,
        G: Fn(T, T) -> T + Copy,
        K: Fn(T, T) -> T + Copy,
        D: Fn(T) -> u32 + Copy,
    >(arithmetic: &Arithmetic<T, N, M, L, P, A, B, R, C, H, G, K, D>, grids: Grids<'a>, file: &'a GgufFile<'a>) -> (result: Result<
        Self,
        LoadError,
    >)
        requires
            arithmetic.usable(),
            grids.wf(),
        ensures
            match llm_load::first_fault(file, demands(config_of(file@))) {
                Some(fault) => result is Err && result->Err_0@ == fault,
                None => result is Ok && arithmetic.loads_encoder(grids, file, result->Ok_0),
            },
    {
        arithmetic.load_encoder(grids, file)
    }

    /// The encoder has what each of its blocks needs for `n` tokens, and its sizes are those of a
    /// machine.
    pub open spec fn fits(&self, n: nat) -> bool {
        let d = self.cfg.d_model as nat;
        let f = self.cfg.d_ff as nat;
        &&& self.grids.wf()
        &&& self.cfg.n_heads * self.cfg.head_dim <= d
        &&& 2 <= self.cfg.n_buckets
        &&& n <= i32::MAX
        &&& n * n <= usize::MAX
        &&& n * d <= usize::MAX
        &&& n * f <= usize::MAX
        &&& d <= self.out_norm@.len()
        &&& forall|i: int|
            0 <= i < self.blocks@.len() ==> block_fits(
                self.cfg,
                self.file,
                #[trigger] self.blocks@[i],
            )
    }

    /// The encoder has an embedding for a token.
    pub open spec fn knows(&self, id: int) -> bool {
        arithmetic::holds_matrix(
            self.file,
            self.embd as int,
            self.cfg.d_model as nat,
            (id + 1) as nat,
        )
    }

    /// Whether the encoder has what each of its blocks needs for `n` tokens.
    pub fn check(&self, n: usize) -> (fits: bool)
        requires
            self.grids.wf(),
        ensures
            fits == self.fits(n as nat),
    {
        let cfg = &self.cfg;
        if !at_most(cfg.n_heads, cfg.head_dim as u128, cfg.d_model) || cfg.n_buckets < 2 || n
            > i32::MAX as usize || !at_most(n, n as u128, usize::MAX)
            || !at_most(n, cfg.d_model as u128, usize::MAX) || !at_most(
            n,
            cfg.d_ff as u128,
            usize::MAX,
        ) || cfg.d_model > self.out_norm.len() {
            return false;
        }
        let mut i: usize = 0;
        while i < self.blocks.len()
            invariant
                *cfg == self.cfg,
                i <= self.blocks@.len(),
                forall|j: int|
                    0 <= j < i ==> block_fits(self.cfg, self.file, #[trigger] self.blocks@[j]),
            decreases self.blocks.len() - i,
        {
            if !check_block(cfg, self.file, &self.blocks[i]) {
                proof {
                    assert(!block_fits(self.cfg, self.file, self.blocks@[i as int]));
                }
                return false;
            }
            i = i + 1;
        }
        true
    }

    /// Whether the encoder has an embedding for a token.
    pub fn has(&self, id: u32) -> (known: bool)
        requires
            id < usize::MAX,
        ensures
            known == self.knows(id as int),
    {
        fits_matrix(self.file, self.embd, self.cfg.d_model, id as usize + 1)
    }
}

/// Whether a block has what it needs.
fn check_block<T>(cfg: &Umt5Config, file: &GgufFile, block: &Block<T>) -> (fits: bool)
    ensures
        fits == block_fits(*cfg, file, *block),
{
    let d: usize = cfg.d_model;
    let f: usize = cfg.d_ff;
    d <= block.attn_norm.len() && d <= block.ffn_norm.len() && at_most(
        cfg.n_buckets,
        cfg.n_heads as u128,
        block.rel_b.len(),
    ) && fits_matrix(file, block.q, d, d) && fits_matrix(file, block.k, d, d) && fits_matrix(
        file,
        block.v,
        d,
        d,
    ) && fits_matrix(file, block.o, d, d) && fits_matrix(file, block.gate, d, f) && fits_matrix(
        file,
        block.up,
        d,
        f,
    ) && fits_matrix(file, block.down, f, d)
}

/// A block has what it needs.
pub open spec fn block_fits<T>(cfg: Umt5Config, file: &GgufFile, block: Block<T>) -> bool {
    let d = cfg.d_model as nat;
    let f = cfg.d_ff as nat;
    &&& d <= block.attn_norm@.len()
    &&& d <= block.ffn_norm@.len()
    &&& cfg.n_buckets * cfg.n_heads <= block.rel_b@.len()
    &&& arithmetic::holds_matrix(file, block.q as int, d, d)
    &&& arithmetic::holds_matrix(file, block.k as int, d, d)
    &&& arithmetic::holds_matrix(file, block.v as int, d, d)
    &&& arithmetic::holds_matrix(file, block.o as int, d, d)
    &&& arithmetic::holds_matrix(file, block.gate as int, d, f)
    &&& arithmetic::holds_matrix(file, block.up as int, d, f)
    &&& arithmetic::holds_matrix(file, block.down as int, f, d)
}

} // verus!
