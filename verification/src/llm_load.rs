//! Loading the weights of a language model.

use vstd::prelude::*;
use crate::arithmetic::Arithmetic;
use crate::gguf::GgufFile;
use crate::gguf_tensors;
use crate::gguf_tensors::{readable, TensorIndex};
use crate::llm_config::Config;
use crate::llm_experts::Experts;
use crate::llm_model::{Feed, Layer, Weights};
use crate::quant::{Grids, Weight};
use crate::text;
use crate::text::push_usize;

verus! {

broadcast use vstd::string::group_string_axioms;

/// Why weights cannot be loaded.
#[derive(Clone, Debug, PartialEq, Eq)]
pub enum LoadError {
    /// No tensor has the name.
    Missing(String),
    /// The tensor with the name has a type that cannot be read, or reaches beyond the file.
    Unreadable(String),
}

/// Why weights cannot be loaded.
pub enum LoadFault {
    Missing(Seq<char>),
    Unreadable(Seq<char>),
}

impl View for LoadError {
    type V = LoadFault;

    open spec fn view(&self) -> LoadFault {
        match self {
            LoadError::Missing(name) => LoadFault::Missing(name@),
            LoadError::Unreadable(name) => LoadFault::Unreadable(name@),
        }
    }
}

impl LoadFault {
    /// What the message says.
    pub open spec fn text(self) -> Seq<char> {
        match self {
            LoadFault::Missing(name) => "tensor not found: "@ + name,
            LoadFault::Unreadable(name) => "tensor cannot be read: "@ + name,
        }
    }
}

impl LoadError {
    /// A message for the user.
    pub fn message(&self) -> (message: String)
        ensures
            message@ == self@.text(),
    {
        let mut message = String::new();
        match self {
            LoadError::Missing(name) => {
                message.append("tensor not found: ");
                message.append(name.as_str());
            },
            LoadError::Unreadable(name) => {
                message.append("tensor cannot be read: ");
                message.append(name.as_str());
            },
        }
        message
    }
}

/// What loading needs of a tensor.
pub enum Need {
    /// The tensor is there.
    Find(String),
    /// The tensor is there and can be read.
    Decode(String),
    /// The tensor can be read, if it is there.
    Optional(String),
}

/// What loading needs of a tensor.
pub enum Demand {
    Find(Seq<char>),
    Decode(Seq<char>),
    Optional(Seq<char>),
}

impl View for Need {
    type V = Demand;

    open spec fn view(&self) -> Demand {
        match self {
            Need::Find(name) => Demand::Find(name@),
            Need::Decode(name) => Demand::Decode(name@),
            Need::Optional(name) => Demand::Optional(name@),
        }
    }
}

/// What is wrong with the tensor that loading needs, if anything is.
pub open spec fn demand_fault(file: &GgufFile, demand: Demand) -> Option<LoadFault> {
    match demand {
        Demand::Find(name) => match gguf_tensors::last_named(file.tensors@, name) {
            Some(_) => None,
            None => Some(LoadFault::Missing(name)),
        },
        Demand::Decode(name) => match gguf_tensors::last_named(file.tensors@, name) {
            Some(i) => if file.holds(&file.tensors@[i]) {
                None
            } else {
                Some(LoadFault::Unreadable(name))
            },
            None => Some(LoadFault::Missing(name)),
        },
        Demand::Optional(name) => match gguf_tensors::last_named(file.tensors@, name) {
            Some(i) => if file.holds(&file.tensors@[i]) {
                None
            } else {
                Some(LoadFault::Unreadable(name))
            },
            None => None,
        },
    }
}

/// The first thing that is wrong with the tensors that loading needs.
pub open spec fn first_fault(file: &GgufFile, demands: Seq<Demand>) -> Option<LoadFault>
    decreases demands.len(),
{
    if demands.len() == 0 {
        None
    } else if first_fault(file, demands.drop_last()) is Some {
        first_fault(file, demands.drop_last())
    } else {
        demand_fault(file, demands.last())
    }
}

/// Where nothing is wrong, nothing is wrong with any of the tensors.
pub proof fn lemma_no_fault(file: &GgufFile, demands: Seq<Demand>)
    requires
        first_fault(file, demands) is None,
    ensures
        forall|i: int|
            0 <= i < demands.len() ==> demand_fault(file, #[trigger] demands[i]) is None,
    decreases demands.len(),
{
    if demands.len() > 0 {
        let init = demands.drop_last();
        lemma_no_fault(file, init);
        assert forall|i: int| 0 <= i < demands.len() implies demand_fault(
            file,
            #[trigger] demands[i],
        ) is None by {
            if i < init.len() {
                assert(init[i] == demands[i]);
            }
        }
    }
}

/// The name of a tensor of layer `l`.
pub open spec fn layer_tensor(l: nat, suffix: Seq<char>) -> Seq<char> {
    "blk."@ + text::decimal(l) + "."@ + suffix
}

/// The name of the normalization before the feed-forward network.
pub open spec fn ffn_norm_name(file: &GgufFile, l: nat) -> Seq<char> {
    if gguf_tensors::last_named(
        file.tensors@,
        layer_tensor(l, "post_attention_norm.weight"@),
    ) is Some {
        layer_tensor(l, "post_attention_norm.weight"@)
    } else {
        layer_tensor(l, "ffn_norm.weight"@)
    }
}

/// What the attention of a layer needs.
pub open spec fn attention_demands(file: &GgufFile, l: nat) -> Seq<Demand> {
    seq![
        Demand::Decode(layer_tensor(l, "attn_norm.weight"@)),
        Demand::Find(layer_tensor(l, "attn_q.weight"@)),
        Demand::Find(layer_tensor(l, "attn_k.weight"@)),
        Demand::Find(layer_tensor(l, "attn_v.weight"@)),
        Demand::Find(layer_tensor(l, "attn_output.weight"@)),
        Demand::Optional(layer_tensor(l, "attn_q.bias"@)),
        Demand::Optional(layer_tensor(l, "attn_k.bias"@)),
        Demand::Optional(layer_tensor(l, "attn_v.bias"@)),
        Demand::Optional(layer_tensor(l, "attn_output.bias"@)),
        Demand::Optional(layer_tensor(l, "attn_sinks.weight"@)),
        Demand::Decode(ffn_norm_name(file, l)),
    ]
}

/// What the feed-forward network of a layer needs.
pub open spec fn feed_demands(routed: bool, l: nat) -> Seq<Demand> {
    if routed {
        seq![
            Demand::Decode(layer_tensor(l, "ffn_gate_inp.weight"@)),
            Demand::Optional(layer_tensor(l, "ffn_gate_inp.bias"@)),
            Demand::Find(layer_tensor(l, "ffn_gate_exps.weight"@)),
            Demand::Find(layer_tensor(l, "ffn_up_exps.weight"@)),
            Demand::Find(layer_tensor(l, "ffn_down_exps.weight"@)),
            Demand::Optional(layer_tensor(l, "ffn_gate_exps.bias"@)),
            Demand::Optional(layer_tensor(l, "ffn_up_exps.bias"@)),
            Demand::Optional(layer_tensor(l, "ffn_down_exps.bias"@)),
        ]
    } else {
        seq![
            Demand::Find(layer_tensor(l, "ffn_gate.weight"@)),
            Demand::Find(layer_tensor(l, "ffn_up.weight"@)),
            Demand::Find(layer_tensor(l, "ffn_down.weight"@)),
        ]
    }
}

/// What the first `n` layers need.
pub open spec fn layer_demands(file: &GgufFile, routed: bool, n: nat) -> Seq<Demand>
    decreases n,
{
    if n == 0 {
        Seq::empty()
    } else {
        layer_demands(file, routed, (n - 1) as nat) + attention_demands(file, (n - 1) as nat)
            + feed_demands(routed, (n - 1) as nat)
    }
}

/// What is needed besides the layers.
pub open spec fn outer_demands() -> Seq<Demand> {
    seq![
        Demand::Find("token_embd.weight"@),
        Demand::Find("output.weight"@),
        Demand::Decode("output_norm.weight"@),
    ]
}

/// What a model needs, in the order in which it is looked for.
pub open spec fn demands(file: &GgufFile, cfg: Config) -> Seq<Demand> {
    layer_demands(file, cfg.n_experts > 0, cfg.n_layers as nat) + outer_demands()
}

/// The views of needs.
pub open spec fn demanded(needs: Seq<Need>) -> Seq<Demand> {
    Seq::new(needs.len(), |i: int| needs[i]@)
}

/// The needs of a layer are among those of all layers.
proof fn lemma_layer_demands(file: &GgufFile, routed: bool, n: nat, l: nat)
    requires
        l < n,
        first_fault(file, layer_demands(file, routed, n)) is None,
    ensures
        first_fault(file, attention_demands(file, l)) is None,
        first_fault(file, feed_demands(routed, l)) is None,
    decreases n,
{
    let m = (n - 1) as nat;
    let rest = layer_demands(file, routed, m);
    lemma_fault_join(file, rest + attention_demands(file, m), feed_demands(routed, m));
    lemma_fault_join(file, rest, attention_demands(file, m));
    if l < m {
        lemma_layer_demands(file, routed, m, l);
    }
}

/// What is wrong with needs and further needs.
pub proof fn lemma_fault_join(file: &GgufFile, left: Seq<Demand>, right: Seq<Demand>)
    ensures
        first_fault(file, left + right) == (if first_fault(file, left) is Some {
            first_fault(file, left)
        } else {
            first_fault(file, right)
        }),
    decreases right.len(),
{
    if right.len() == 0 {
        assert(left + right =~= left);
    } else {
        assert((left + right).drop_last() =~= left + right.drop_last());
        assert((left + right).last() == right.last());
        lemma_fault_join(file, left, right.drop_last());
    }
}

/// The name of a tensor of a layer.
fn tensor_name(l: usize, suffix: &str) -> (name: String)
    ensures
        name@ == layer_tensor(l as nat, suffix@),
{
    let mut name = String::new();
    name.append("blk.");
    push_usize(&mut name, l);
    name.append(".");
    name.append(suffix);
    proof {
        assert(name@ =~= layer_tensor(l as nat, suffix@));
    }
    name
}

/// The name of the normalization before the feed-forward network.
fn norm_name(index: &TensorIndex, l: usize) -> (name: String)
    requires
        index.wf(),
    ensures
        name@ == ffn_norm_name(index.file, l as nat),
{
    let post = tensor_name(l, "post_attention_norm.weight");
    if index.find(post.as_str()).is_some() {
        post
    } else {
        tensor_name(l, "ffn_norm.weight")
    }
}

/// Adds what a layer needs.
fn push_layer(index: &TensorIndex, routed: bool, l: usize, needs: &mut Vec<Need>)
    requires
        index.wf(),
    ensures
        demanded(final(needs)@) == demanded(old(needs)@) + attention_demands(index.file, l as nat)
            + feed_demands(routed, l as nat),
{
    let ghost before = demanded(needs@);
    needs.push(Need::Decode(tensor_name(l, "attn_norm.weight")));
    needs.push(Need::Find(tensor_name(l, "attn_q.weight")));
    needs.push(Need::Find(tensor_name(l, "attn_k.weight")));
    needs.push(Need::Find(tensor_name(l, "attn_v.weight")));
    needs.push(Need::Find(tensor_name(l, "attn_output.weight")));
    needs.push(Need::Optional(tensor_name(l, "attn_q.bias")));
    needs.push(Need::Optional(tensor_name(l, "attn_k.bias")));
    needs.push(Need::Optional(tensor_name(l, "attn_v.bias")));
    needs.push(Need::Optional(tensor_name(l, "attn_output.bias")));
    needs.push(Need::Optional(tensor_name(l, "attn_sinks.weight")));
    needs.push(Need::Decode(norm_name(index, l)));
    let ghost middle = before + attention_demands(index.file, l as nat);
    proof {
        assert(demanded(needs@) =~= middle);
    }
    if routed {
        needs.push(Need::Decode(tensor_name(l, "ffn_gate_inp.weight")));
        needs.push(Need::Optional(tensor_name(l, "ffn_gate_inp.bias")));
        needs.push(Need::Find(tensor_name(l, "ffn_gate_exps.weight")));
        needs.push(Need::Find(tensor_name(l, "ffn_up_exps.weight")));
        needs.push(Need::Find(tensor_name(l, "ffn_down_exps.weight")));
        needs.push(Need::Optional(tensor_name(l, "ffn_gate_exps.bias")));
        needs.push(Need::Optional(tensor_name(l, "ffn_up_exps.bias")));
        needs.push(Need::Optional(tensor_name(l, "ffn_down_exps.bias")));
    } else {
        needs.push(Need::Find(tensor_name(l, "ffn_gate.weight")));
        needs.push(Need::Find(tensor_name(l, "ffn_up.weight")));
        needs.push(Need::Find(tensor_name(l, "ffn_down.weight")));
    }
    proof {
        assert(demanded(needs@) =~= middle + feed_demands(routed, l as nat));
    }
}

/// What a model needs.
fn list_needs(index: &TensorIndex, cfg: &Config) -> (needs: Vec<Need>)
    requires
        index.wf(),
    ensures
        demanded(needs@) == demands(index.file, *cfg),
{
    let mut needs: Vec<Need> = Vec::new();
    let mut l: usize = 0;
    proof {
        assert(demanded(needs@) =~= Seq::empty());
    }
    while l < cfg.n_layers
        invariant
            index.wf(),
            l <= cfg.n_layers,
            demanded(needs@) == layer_demands(index.file, cfg.n_experts > 0, l as nat),
        decreases cfg.n_layers - l,
    {
        push_layer(index, cfg.n_experts > 0, l, &mut needs);
        l = l + 1;
    }
    let ghost before = demanded(needs@);
    needs.push(Need::Find("token_embd.weight".to_owned()));
    needs.push(Need::Find("output.weight".to_owned()));
    needs.push(Need::Decode("output_norm.weight".to_owned()));
    proof {
        assert(demanded(needs@) =~= before + outer_demands());
    }
    needs
}

/// What is wrong with one of the tensors that loading needs.
fn need_error(index: &TensorIndex, need: &Need) -> (error: Option<LoadError>)
    requires
        index.wf(),
    ensures
        match demand_fault(index.file, need@) {
            Some(fault) => error is Some && error->0@ == fault,
            None => error is None,
        },
{
    match need {
        Need::Find(name) => match index.find(name.as_str()) {
            Some(_) => None,
            None => Some(LoadError::Missing(name.clone())),
        },
        Need::Decode(name) => match index.find(name.as_str()) {
            Some(i) => if readable(index.file, &index.file.tensors[i]) {
                None
            } else {
                Some(LoadError::Unreadable(name.clone()))
            },
            None => Some(LoadError::Missing(name.clone())),
        },
        Need::Optional(name) => match index.find(name.as_str()) {
            Some(i) => if readable(index.file, &index.file.tensors[i]) {
                None
            } else {
                Some(LoadError::Unreadable(name.clone()))
            },
            None => None,
        },
    }
}

/// Looks for everything that loading needs.
pub fn check_needs(index: &TensorIndex, needs: &Vec<Need>) -> (result: Result<(), LoadError>)
    requires
        index.wf(),
    ensures
        match first_fault(index.file, demanded(needs@)) {
            Some(fault) => result is Err && result->Err_0@ == fault,
            None => result is Ok,
        },
{
    let ghost all = demanded(needs@);
    let mut i: usize = 0;
    proof {
        assert(all.take(0) =~= Seq::empty());
    }
    while i < needs.len()
        invariant
            index.wf(),
            i <= needs@.len(),
            all == demanded(needs@),
            first_fault(index.file, all.take(i as int)) is None,
        decreases needs.len() - i,
    {
        proof {
            assert(all.take(i + 1).drop_last() =~= all.take(i as int));
            lemma_fault_join(index.file, all.take(i + 1), all.skip(i + 1));
            assert(all.take(i + 1) + all.skip(i + 1) =~= all);
        }
        match need_error(index, &needs[i]) {
            Some(error) => {
                return Err(error);
            },
            None => {},
        }
        i = i + 1;
    }
    proof {
        assert(all.take(i as int) =~= all);
    }
    Ok(())
}

/// A tensor that is there.
pub fn found(index: &TensorIndex, name: String) -> (i: usize)
    requires
        index.wf(),
        gguf_tensors::last_named(index.file.tensors@, name@) is Some,
    ensures
        gguf_tensors::last_named(index.file.tensors@, name@) == Some(i as int),
        i < index.file.tensors@.len(),
{
    match index.find(name.as_str()) {
        Some(i) => i,
        None => 0,
    }
}

impl<
    T: Copy,
    Z: Copy,
    N: Fn(Weight) -> T + Copy,
    M: Fn(T, T, T) -> T + Copy,
    L: Fn(T, T, T) -> T + Copy,
    P: Fn(T, T) -> T + Copy,
    A: Fn(&[T]) -> Z + Copy,
    B: Fn(T, Z, T) -> T + Copy,
    R: Fn(T, T, usize, usize) -> (T, T) + Copy,
    C: Fn(T) -> T + Copy,
    H: Fn(Vec<T>, Option<T>) -> Vec<T> + Copy,
    G: Fn(T, T) -> T + Copy,
    K: Fn(T, T) -> T + Copy,
    D: Fn(T) -> u32 + Copy,
> Arithmetic<T, N, M, L, P, A, B, R, C, H, G, K, D> {
    /// `values` are the elements of a tensor that is there.
    pub open spec fn loads(
        self,
        grids: Grids,
        file: &GgufFile,
        name: Seq<char>,
        values: Seq<T>,
    ) -> bool {
        match gguf_tensors::last_named(file.tensors@, name) {
            Some(i) => self.decodes_tensor(grids, file, i, values),
            None => false,
        }
    }

    /// `values` are the elements of a tensor, or `n` zeros where it is not there.
    pub open spec fn loads_or_zeros(
        self,
        grids: Grids,
        file: &GgufFile,
        name: Seq<char>,
        n: nat,
        values: Seq<T>,
    ) -> bool {
        match gguf_tensors::last_named(file.tensors@, name) {
            Some(i) => self.decodes_tensor(grids, file, i, values),
            None => values == Seq::new(n, |k: int| self.zero),
        }
    }

    /// `feed` is the feed-forward network of layer `l`.
    pub open spec fn loads_feed(
        self,
        grids: Grids,
        file: &GgufFile,
        routed: bool,
        l: nat,
        feed: Feed<T>,
    ) -> bool {
        let tensors = file.tensors@;
        match feed {
            Feed::Dense { gate, up, down } => {
                &&& !routed
                &&& gguf_tensors::last_named(tensors, layer_tensor(l, "ffn_gate.weight"@)) == Some(
                    gate as int,
                )
                &&& gguf_tensors::last_named(tensors, layer_tensor(l, "ffn_up.weight"@)) == Some(
                    up as int,
                )
                &&& gguf_tensors::last_named(tensors, layer_tensor(l, "ffn_down.weight"@)) == Some(
                    down as int,
                )
            },
            Feed::Routed(e) => {
                &&& routed
                &&& self.loads(
                    grids,
                    file,
                    layer_tensor(l, "ffn_gate_inp.weight"@),
                    e.router_w@,
                )
                &&& self.loads_or_zeros(
                    grids,
                    file,
                    layer_tensor(l, "ffn_gate_inp.bias"@),
                    0,
                    e.router_b@,
                )
                &&& gguf_tensors::last_named(tensors, layer_tensor(l, "ffn_gate_exps.weight"@))
                    == Some(e.gate as int)
                &&& gguf_tensors::last_named(tensors, layer_tensor(l, "ffn_up_exps.weight"@))
                    == Some(e.up as int)
                &&& gguf_tensors::last_named(tensors, layer_tensor(l, "ffn_down_exps.weight"@))
                    == Some(e.down as int)
                &&& self.loads_or_zeros(
                    grids,
                    file,
                    layer_tensor(l, "ffn_gate_exps.bias"@),
                    0,
                    e.gate_bias@,
                )
                &&& self.loads_or_zeros(
                    grids,
                    file,
                    layer_tensor(l, "ffn_up_exps.bias"@),
                    0,
                    e.up_bias@,
                )
                &&& self.loads_or_zeros(
                    grids,
                    file,
                    layer_tensor(l, "ffn_down_exps.bias"@),
                    0,
                    e.down_bias@,
                )
            },
        }
    }

    /// `layer` holds the weights of layer `l`.
    pub open spec fn loads_layer(
        self,
        grids: Grids,
        file: &GgufFile,
        cfg: Config,
        l: nat,
        layer: Layer<T>,
    ) -> bool {
        let tensors = file.tensors@;
        &&& self.loads(grids, file, layer_tensor(l, "attn_norm.weight"@), layer.attn_norm@)
        &&& gguf_tensors::last_named(tensors, layer_tensor(l, "attn_q.weight"@)) == Some(
            layer.q as int,
        )
        &&& gguf_tensors::last_named(tensors, layer_tensor(l, "attn_k.weight"@)) == Some(
            layer.k as int,
        )
        &&& gguf_tensors::last_named(tensors, layer_tensor(l, "attn_v.weight"@)) == Some(
            layer.v as int,
        )
        &&& gguf_tensors::last_named(tensors, layer_tensor(l, "attn_output.weight"@)) == Some(
            layer.out as int,
        )
        &&& self.loads_or_zeros(
            grids,
            file,
            layer_tensor(l, "attn_q.bias"@),
            cfg.q_total(),
            layer.q_bias@,
        )
        &&& self.loads_or_zeros(
            grids,
            file,
            layer_tensor(l, "attn_k.bias"@),
            cfg.kv_total(),
            layer.k_bias@,
        )
        &&& self.loads_or_zeros(
            grids,
            file,
            layer_tensor(l, "attn_v.bias"@),
            cfg.kv_total(),
            layer.v_bias@,
        )
        &&& self.loads_or_zeros(
            grids,
            file,
            layer_tensor(l, "attn_output.bias"@),
            0,
            layer.out_bias@,
        )
        &&& self.loads_or_zeros(
            grids,
            file,
            layer_tensor(l, "attn_sinks.weight"@),
            0,
            layer.sinks@,
        )
        &&& self.loads(grids, file, ffn_norm_name(file, l), layer.ffn_norm@)
        &&& self.loads_feed(grids, file, cfg.n_experts > 0, l, layer.feed)
    }

    /// `weights` are the weights that a file holds for a model.
    pub open spec fn loads_weights(
        self,
        grids: Grids,
        file: &GgufFile,
        cfg: Config,
        weights: Weights<T>,
    ) -> bool {
        &&& weights.layers@.len() == cfg.n_layers
        &&& forall|l: int|
            0 <= l < cfg.n_layers ==> self.loads_layer(
                grids,
                file,
                cfg,
                l as nat,
                #[trigger] weights.layers@[l],
            )
        &&& gguf_tensors::last_named(file.tensors@, "token_embd.weight"@) == Some(
            weights.embed as int,
        )
        &&& gguf_tensors::last_named(file.tensors@, "output.weight"@) == Some(
            weights.lm_head as int,
        )
        &&& self.loads(grids, file, "output_norm.weight"@, weights.final_norm@)
    }

    /// The elements of a tensor that is there and can be read.
    pub fn decoded(&self, grids: &Grids, index: &TensorIndex, name: String) -> (values: Vec<T>)
        requires
            self.usable(),
            grids.wf(),
            index.wf(),
            demand_fault(index.file, Demand::Decode(name@)) is None,
        ensures
            self.loads(*grids, index.file, name@, values@),
    {
        let i: usize = found(index, name);
        self.decode_tensor(grids, index.file, i)
    }

    /// The elements of a tensor that can be read if it is there, or zeros.
    fn decoded_or_zeros(
        &self,
        grids: &Grids,
        index: &TensorIndex,
        name: String,
        n: usize,
    ) -> (values: Vec<T>)
        requires
            self.usable(),
            grids.wf(),
            index.wf(),
            demand_fault(index.file, Demand::Optional(name@)) is None,
        ensures
            self.loads_or_zeros(*grids, index.file, name@, n as nat, values@),
    {
        match index.find(name.as_str()) {
            Some(i) => self.decode_tensor(grids, index.file, i),
            None => {
                let mut values: Vec<T> = Vec::with_capacity(n);
                while values.len() < n
                    invariant
                        values@.len() <= n,
                        forall|k: int| 0 <= k < values@.len() ==> #[trigger] values@[k] == self.zero,
                    decreases n - values.len(),
                {
                    values.push(self.zero);
                }
                proof {
                    assert(values@ =~= Seq::new(n as nat, |k: int| self.zero));
                }
                values
            },
        }
    }

    /// The feed-forward network of a layer.
    fn load_feed(
        &self,
        grids: &Grids,
        index: &TensorIndex,
        routed: bool,
        l: usize,
    ) -> (feed: Feed<T>)
        requires
            self.usable(),
            grids.wf(),
            index.wf(),
            first_fault(index.file, feed_demands(routed, l as nat)) is None,
        ensures
            self.loads_feed(*grids, index.file, routed, l as nat, feed),
    {
        proof {
            let d = feed_demands(routed, l as nat);
            lemma_no_fault(index.file, d);
            assert(demand_fault(index.file, d[0]) is None);
            assert(demand_fault(index.file, d[1]) is None);
            assert(demand_fault(index.file, d[2]) is None);
            if routed {
                assert(demand_fault(index.file, d[3]) is None);
                assert(demand_fault(index.file, d[4]) is None);
                assert(demand_fault(index.file, d[5]) is None);
                assert(demand_fault(index.file, d[6]) is None);
                assert(demand_fault(index.file, d[7]) is None);
            }
        }
        if routed {
            let router_w = self.decoded(grids, index, tensor_name(l, "ffn_gate_inp.weight"));
            let router_b = self.decoded_or_zeros(
                grids,
                index,
                tensor_name(l, "ffn_gate_inp.bias"),
                0,
            );
            let gate: usize = found(index, tensor_name(l, "ffn_gate_exps.weight"));
            let up: usize = found(index, tensor_name(l, "ffn_up_exps.weight"));
            let down: usize = found(index, tensor_name(l, "ffn_down_exps.weight"));
            let gate_bias = self.decoded_or_zeros(
                grids,
                index,
                tensor_name(l, "ffn_gate_exps.bias"),
                0,
            );
            let up_bias = self.decoded_or_zeros(
                grids,
                index,
                tensor_name(l, "ffn_up_exps.bias"),
                0,
            );
            let down_bias = self.decoded_or_zeros(
                grids,
                index,
                tensor_name(l, "ffn_down_exps.bias"),
                0,
            );
            Feed::Routed(
                Experts { router_w, router_b, gate, up, down, gate_bias, up_bias, down_bias },
            )
        } else {
            let gate: usize = found(index, tensor_name(l, "ffn_gate.weight"));
            let up: usize = found(index, tensor_name(l, "ffn_up.weight"));
            let down: usize = found(index, tensor_name(l, "ffn_down.weight"));
            Feed::Dense { gate, up, down }
        }
    }

    /// The weights of a layer.
    fn load_layer(&self, grids: &Grids, index: &TensorIndex, cfg: &Config, l: usize) -> (layer: Layer<
        T,
    >)
        requires
            self.usable(),
            grids.wf(),
            index.wf(),
            cfg.q_total() <= usize::MAX,
            cfg.kv_total() <= usize::MAX,
            first_fault(index.file, attention_demands(index.file, l as nat)) is None,
            first_fault(index.file, feed_demands(cfg.n_experts > 0, l as nat)) is None,
        ensures
            self.loads_layer(*grids, index.file, *cfg, l as nat, layer),
    {
        proof {
            let d = attention_demands(index.file, l as nat);
            lemma_no_fault(index.file, d);
            assert(demand_fault(index.file, d[0]) is None);
            assert(demand_fault(index.file, d[1]) is None);
            assert(demand_fault(index.file, d[2]) is None);
            assert(demand_fault(index.file, d[3]) is None);
            assert(demand_fault(index.file, d[4]) is None);
            assert(demand_fault(index.file, d[5]) is None);
            assert(demand_fault(index.file, d[6]) is None);
            assert(demand_fault(index.file, d[7]) is None);
            assert(demand_fault(index.file, d[8]) is None);
            assert(demand_fault(index.file, d[9]) is None);
            assert(demand_fault(index.file, d[10]) is None);
        }
        let q_d: usize = cfg.q_total_dim();
        let kv_d: usize = cfg.kv_total_dim();
        let attn_norm = self.decoded(grids, index, tensor_name(l, "attn_norm.weight"));
        let q: usize = found(index, tensor_name(l, "attn_q.weight"));
        let k: usize = found(index, tensor_name(l, "attn_k.weight"));
        let v: usize = found(index, tensor_name(l, "attn_v.weight"));
        let out: usize = found(index, tensor_name(l, "attn_output.weight"));
        let q_bias = self.decoded_or_zeros(grids, index, tensor_name(l, "attn_q.bias"), q_d);
        let k_bias = self.decoded_or_zeros(grids, index, tensor_name(l, "attn_k.bias"), kv_d);
        let v_bias = self.decoded_or_zeros(grids, index, tensor_name(l, "attn_v.bias"), kv_d);
        let out_bias = self.decoded_or_zeros(grids, index, tensor_name(l, "attn_output.bias"), 0);
        let sinks = self.decoded_or_zeros(grids, index, tensor_name(l, "attn_sinks.weight"), 0);
        let ffn_norm = self.decoded(grids, index, norm_name(index, l));
        let feed = self.load_feed(grids, index, cfg.n_experts > 0, l);
        Layer {
            attn_norm,
            q,
            k,
            v,
            out,
            q_bias,
            k_bias,
            v_bias,
            out_bias,
            sinks,
            ffn_norm,
            feed,
        }
    }

    /// Loads the weights of a model. Norms, biases and routers are decoded; the large matrices are
    /// looked up and stay in the file.
    pub fn load_gguf(&self, grids: &Grids, file: &GgufFile, cfg: &Config) -> (result: Result<
        Weights<T>,
        LoadError,
    >)
        requires
            self.usable(),
            grids.wf(),
            cfg.q_total() <= usize::MAX,
            cfg.kv_total() <= usize::MAX,
        ensures
            match first_fault(file, demands(file, *cfg)) {
                Some(fault) => result is Err && result->Err_0@ == fault,
                None => result is Ok && self.loads_weights(*grids, file, *cfg, result->Ok_0),
            },
    {
        let index = TensorIndex::new(file);
        let needs = list_needs(&index, cfg);
        match check_needs(&index, &needs) {
            Ok(()) => {},
            Err(error) => {
                return Err(error);
            },
        }
        let ghost routed = cfg.n_experts > 0;
        proof {
            lemma_fault_join(
                file,
                layer_demands(file, routed, cfg.n_layers as nat),
                outer_demands(),
            );
        }
        let mut layers: Vec<Layer<T>> = Vec::with_capacity(cfg.n_layers);
        let mut l: usize = 0;
        while l < cfg.n_layers
            invariant
                self.usable(),
                grids.wf(),
                index.wf(),
                index.file == file,
                routed == (cfg.n_experts > 0),
                cfg.q_total() <= usize::MAX,
                cfg.kv_total() <= usize::MAX,
                first_fault(file, layer_demands(file, routed, cfg.n_layers as nat)) is None,
                l == layers@.len() <= cfg.n_layers,
                forall|m: int|
                    0 <= m < l ==> self.loads_layer(
                        *grids,
                        file,
                        *cfg,
                        m as nat,
                        #[trigger] layers@[m],
                    ),
            decreases cfg.n_layers - l,
        {
            proof {
                lemma_layer_demands(file, routed, cfg.n_layers as nat, l as nat);
            }
            let layer = self.load_layer(grids, &index, cfg, l);
            layers.push(layer);
            l = l + 1;
        }
        proof {
            let d = outer_demands();
            lemma_no_fault(file, d);
            assert(demand_fault(file, d[0]) is None);
            assert(demand_fault(file, d[1]) is None);
            assert(demand_fault(file, d[2]) is None);
        }
        let embed: usize = found(&index, "token_embd.weight".to_owned());
        let lm_head: usize = found(&index, "output.weight".to_owned());
        let final_norm = self.decoded(grids, &index, "output_norm.weight".to_owned());
        Ok(Weights { layers, embed, lm_head, final_norm })
    }
}

} // verus!
