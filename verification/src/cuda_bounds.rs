//! No kernel of a GPU works outside its buffers.

use vstd::prelude::*;
use crate::arithmetic;
use crate::cuda;
use crate::cuda::{Buffer, GpuForwardState, GpuSlice, Kernel, Place};
use crate::cuda_kernels;
use crate::cuda_step::{GpuStep, Stage};
use crate::gguf;
use crate::llm_experts;
use crate::llm_model;
use crate::llm_model::{Feed, Model};

verus! {

/// The elements of a buffer of numbers.
pub open spec fn room<T>(state: &GpuForwardState, model: &Model<T>, buffer: Buffer) -> nat {
    let cfg = state.cfg;
    let layers = model.weights.layers@;
    match buffer {
        Buffer::Hidden | Buffer::NormOut | Buffer::ExpertAcc => cfg.embed_dim as nat,
        Buffer::Q | Buffer::AttnOut => cfg.q_total(),
        Buffer::K | Buffer::V => cfg.kv_total(),
        Buffer::Scores => (cfg.n_heads * state.max_seq) as nat,
        Buffer::Gate | Buffer::Up | Buffer::ExpertOut => cfg.ffn_dim as nat,
        Buffer::GateAll | Buffer::UpAll | Buffer::ExpertOutAll => (4 * cfg.ffn_dim) as nat,
        Buffer::DownAll => (4 * cfg.embed_dim) as nat,
        Buffer::RouterLogits => if cfg.n_experts > 0 {
            cfg.n_experts as nat
        } else {
            1
        },
        Buffer::Logits => cfg.vocab_size as nat,
        Buffer::Keys(_) | Buffer::Values(_) => (state.max_seq * cfg.kv_total()) as nat,
        Buffer::AttnNorm(l) => layers[l as int].attn_norm@.len(),
        Buffer::FfnNorm(l) => layers[l as int].ffn_norm@.len(),
        Buffer::QNorm(l) => state.q_norm@[l as int] as nat,
        Buffer::KNorm(l) => state.k_norm@[l as int] as nat,
        Buffer::FinalNorm => model.weights.final_norm@.len(),
        Buffer::QBias(l) => layers[l as int].q_bias@.len(),
        Buffer::KBias(l) => layers[l as int].k_bias@.len(),
        Buffer::VBias(l) => layers[l as int].v_bias@.len(),
        Buffer::OutBias(l) => layers[l as int].out_bias@.len(),
        Buffer::MoeGateBias(l) => match layers[l as int].feed {
            Feed::Routed(experts) => experts.gate_bias@.len(),
            Feed::Dense { .. } => 0,
        },
        Buffer::MoeUpBias(l) => match layers[l as int].feed {
            Feed::Routed(experts) => experts.up_bias@.len(),
            Feed::Dense { .. } => 0,
        },
        Buffer::MoeDownBias(l) => match layers[l as int].feed {
            Feed::Routed(experts) => experts.down_bias@.len(),
            Feed::Dense { .. } => 0,
        },
        Buffer::Sinks(l) => if layers[l as int].sinks@.len() == 0 {
            cfg.n_heads as nat
        } else {
            layers[l as int].sinks@.len()
        },
        _ => 0,
    }
}

/// The bytes of the tensor that a buffer of weights holds.
pub open spec fn tensor_room<T>(model: &Model<T>, index: usize) -> nat {
    arithmetic::matrix_of(model.file, index as int).data.len()
}

/// The bytes of a buffer of weights.
pub open spec fn byte_room<T>(model: &Model<T>, buffer: Buffer) -> nat {
    let layers = model.weights.layers@;
    match buffer {
        Buffer::QProj(l) => tensor_room(model, layers[l as int].q),
        Buffer::KProj(l) => tensor_room(model, layers[l as int].k),
        Buffer::VProj(l) => tensor_room(model, layers[l as int].v),
        Buffer::OutProj(l) => tensor_room(model, layers[l as int].out),
        Buffer::GateProj(l) => match layers[l as int].feed {
            Feed::Dense { gate, .. } => tensor_room(model, gate),
            Feed::Routed(_) => 0,
        },
        Buffer::UpProj(l) => match layers[l as int].feed {
            Feed::Dense { up, .. } => tensor_room(model, up),
            Feed::Routed(_) => 0,
        },
        Buffer::DownProj(l) => match layers[l as int].feed {
            Feed::Dense { down, .. } => tensor_room(model, down),
            Feed::Routed(_) => 0,
        },
        Buffer::MoeGate(l) => match layers[l as int].feed {
            Feed::Routed(experts) => tensor_room(model, experts.gate),
            Feed::Dense { .. } => 0,
        },
        Buffer::MoeUp(l) => match layers[l as int].feed {
            Feed::Routed(experts) => tensor_room(model, experts.up),
            Feed::Dense { .. } => 0,
        },
        Buffer::MoeDown(l) => match layers[l as int].feed {
            Feed::Routed(experts) => tensor_room(model, experts.down),
            Feed::Dense { .. } => 0,
        },
        Buffer::Router(l) => match layers[l as int].feed {
            Feed::Routed(experts) => 4 * experts.router_w@.len(),
            Feed::Dense { .. } => 0,
        },
        Buffer::LmHead => tensor_room(model, model.weights.lm_head),
        _ => 0,
    }
}

/// `n` elements from a place on lie within the buffer.
pub open spec fn holds<T>(state: &GpuForwardState, model: &Model<T>, place: Place, n: int) -> bool {
    place.offset + n <= room(state, model, place.buffer)
}

/// The rows of a matrix lie within the buffer.
pub open spec fn holds_rows<T>(
    model: &Model<T>,
    matrix: GpuSlice,
    columns: nat,
    rows: nat,
) -> bool {
    matrix.place.offset + rows * gguf::type_size(matrix.ggml_type, columns) <= byte_room(
        model,
        matrix.place.buffer,
    )
}

/// One product stays within the buffers.
pub open spec fn product_inside<T>(
    state: &GpuForwardState,
    model: &Model<T>,
    matrix: GpuSlice,
    x: Place,
    y: Place,
    columns: usize,
    rows: usize,
) -> bool {
    &&& holds_rows(model, matrix, columns as nat, rows as nat)
    &&& holds(state, model, x, columns as int)
    &&& holds(state, model, y, rows as int)
}

/// A kernel stays within its buffers.
pub open spec fn inside<T>(state: &GpuForwardState, model: &Model<T>, kernel: Kernel) -> bool {
    match kernel {
        Kernel::RmsNorm { out, x, weight, n } => {
            &&& holds(state, model, out, n as int)
            &&& holds(state, model, x, n as int)
            &&& n <= room(state, model, weight)
        },
        Kernel::Gemv { matrix, x, y, columns, rows } => product_inside(
            state,
            model,
            matrix,
            x,
            y,
            columns,
            rows,
        ),
        Kernel::Gemv4 { matrices, x, y, columns, rows } => {
            &&& product_inside(state, model, matrices.0, x.0, y.0, columns, rows)
            &&& product_inside(state, model, matrices.1, x.1, y.1, columns, rows)
            &&& product_inside(state, model, matrices.2, x.2, y.2, columns, rows)
            &&& product_inside(state, model, matrices.3, x.3, y.3, columns, rows)
        },
        Kernel::Add { dst, src, n } => holds(state, model, dst, n as int) && holds(
            state,
            model,
            src,
            n as int,
        ),
        Kernel::AddWeighted { dst, src, n, .. } => holds(state, model, dst, n as int) && holds(
            state,
            model,
            src,
            n as int,
        ),
        Kernel::Zero { dst, n } => holds(state, model, dst, n as int),
        Kernel::Rope { x, heads, width, .. } => heads * width <= room(state, model, x),
        Kernel::Append { layer, pos, width } => {
            &&& (pos + 1) * width <= room(state, model, Buffer::Keys(layer))
            &&& (pos + 1) * width <= room(state, model, Buffer::Values(layer))
            &&& width <= room(state, model, Buffer::K)
            &&& width <= room(state, model, Buffer::V)
        },
        Kernel::Score { keys, heads, kv_heads, seq, width, kv_width, stride, .. } => {
            &&& holds(state, model, keys, seq * kv_width)
            &&& heads * width <= room(state, model, Buffer::Q)
            &&& kv_heads * width <= kv_width
            &&& heads * stride <= room(state, model, Buffer::Scores)
            &&& seq <= stride
        },
        Kernel::Softmax { sinks, heads, seq, stride } => {
            &&& heads <= room(state, model, sinks)
            &&& heads * stride <= room(state, model, Buffer::Scores)
            &&& seq <= stride
        },
        Kernel::Mix { values, heads, kv_heads, seq, width, kv_width, stride } => {
            &&& holds(state, model, values, seq * kv_width)
            &&& heads * width <= room(state, model, Buffer::AttnOut)
            &&& kv_heads * width <= kv_width
            &&& heads * stride <= room(state, model, Buffer::Scores)
            &&& seq <= stride
        },
        Kernel::Swiglu { out, gate, up, n, .. } => {
            &&& holds(state, model, out, n as int)
            &&& holds(state, model, gate, n as int)
            &&& holds(state, model, up, n as int)
        },
    }
}

/// All kernels stay within their buffers.
pub open spec fn all_inside<T>(
    state: &GpuForwardState,
    model: &Model<T>,
    kernels: Seq<Kernel>,
) -> bool {
    forall|i: int| 0 <= i < kernels.len() ==> inside(state, model, #[trigger] kernels[i])
}

/// The norms of queries and keys, and the sinks, have the elements that their kernels read.
pub open spec fn extras_fit<T>(state: &GpuForwardState, model: &Model<T>) -> bool {
    let cfg = state.cfg;
    &&& forall|l: int|
        0 <= l < cfg.n_layers ==> {
            let len = #[trigger] state.q_norm@[l];
            len == 0 || len == cfg.head_dim || cfg.q_total() <= len
        }
    &&& forall|l: int|
        0 <= l < cfg.n_layers ==> {
            let len = #[trigger] state.k_norm@[l];
            len == 0 || len == cfg.head_dim || cfg.kv_total() <= len
        }
    &&& forall|l: int|
        0 <= l < cfg.n_layers ==> {
            let len = (#[trigger] model.weights.layers@[l]).sinks@.len();
            len == 0 || cfg.n_heads <= len
        }
    &&& forall|l: int|
        0 <= l < cfg.n_layers ==> {
            let len = (#[trigger] model.weights.layers@[l]).out_bias@.len();
            len == 0 || cfg.embed_dim <= len
        }
    &&& state.lm_head matches Some(ggml_type) ==> {
        let info = model.file.tensors@[model.weights.lm_head as int];
        ggml_type == info.ggml_type
    }
}

/// Kernels that stay inside, joined.
proof fn lemma_join<T>(
    state: &GpuForwardState,
    model: &Model<T>,
    left: Seq<Kernel>,
    right: Seq<Kernel>,
)
    requires
        all_inside(state, model, left),
        all_inside(state, model, right),
    ensures
        all_inside(state, model, left + right),
{
    let all = left + right;
    assert forall|i: int| 0 <= i < all.len() implies inside(state, model, #[trigger] all[i]) by {
        if i < left.len() {
            assert(all[i] == left[i]);
        } else {
            assert(all[i] == right[i - left.len()]);
        }
    }
}

/// The kernels that normalize heads stay inside.
proof fn lemma_norm_heads<T>(
    state: &GpuForwardState,
    model: &Model<T>,
    buffer: Buffer,
    weight: Buffer,
    len: usize,
    heads: nat,
    width: usize,
    total: usize,
)
    requires
        total == heads * width,
        room(state, model, buffer) == total,
        room(state, model, weight) == len,
        len == 0 || len == width || total <= len,
    ensures
        all_inside(
            state,
            model,
            cuda_kernels::norm_heads(buffer, weight, len, heads, width, total),
        ),
{
    let all = cuda_kernels::norm_heads(buffer, weight, len, heads, width, total);
    assert forall|i: int| 0 <= i < all.len() implies inside(state, model, #[trigger] all[i]) by {
        if len == width {
            assert(0 <= i * width && i * width + width <= heads * width) by (nonlinear_arith)
                requires
                    0 <= i < heads,
                    0 <= width,
            ;
        }
    }
}

/// The kernels that project a state into queries, keys and values stay inside.
#[verifier::spinoff_prover]
#[verifier::rlimit(40)]
proof fn lemma_project<T>(state: &GpuForwardState, model: &Model<T>, l: usize)
    requires
        state.wf(),
        state.belongs(model),
        model.fits(),
        extras_fit(state, model),
        l < state.cfg.n_layers,
    ensures
        all_inside(state, model, state.project_kernels(l)),
{
    assert(llm_model::layer_fits(model.cfg, model.file, model.weights.layers@[l as int]));
    assert(state.types@[l as int] == cuda::types_of(model, l as int));
}

/// The kernels that read the caches stay inside.
#[verifier::spinoff_prover]
#[verifier::rlimit(40)]
proof fn lemma_attend<T>(state: &GpuForwardState, model: &Model<T>, l: usize, pos: usize)
    requires
        state.wf(),
        state.belongs(model),
        model.fits(),
        extras_fit(state, model),
        l < state.cfg.n_layers,
        pos < state.max_seq,
    ensures
        all_inside(state, model, state.attend_kernels(l, pos)),
{
    assert(llm_model::layer_fits(model.cfg, model.file, model.weights.layers@[l as int]));
    let kv = state.cfg.kv_total() as int;
    let m = state.max_seq as int;
    assert(kv <= kv * m && m * kv == kv * m) by (nonlinear_arith)
        requires
            0 <= kv,
            1 <= m,
    ;
    let first = state.first_seen(l, pos) as int;
    let seq = pos + 1 - first;
    assert(0 <= first * kv && first * kv + seq * kv <= m * kv && (pos + 1) * kv <= m * kv)
        by (nonlinear_arith)
        requires
            0 <= first,
            0 <= seq,
            first + seq == pos + 1,
            pos + 1 <= m,
            0 <= kv,
    ;
}

/// The kernels that add what attention gives stay inside.
#[verifier::spinoff_prover]
#[verifier::rlimit(40)]
proof fn lemma_add<T>(state: &GpuForwardState, model: &Model<T>, l: usize)
    requires
        state.wf(),
        state.belongs(model),
        model.fits(),
        extras_fit(state, model),
        l < state.cfg.n_layers,
    ensures
        all_inside(state, model, state.join_kernels(l)),
{
    let layer = model.weights.layers@[l as int];
    assert(llm_model::layer_fits(model.cfg, model.file, layer));
    assert(state.types@[l as int] == cuda::types_of(model, l as int));
    assert(state.out_bias@[l as int] == (layer.out_bias@.len() > 0));
}

/// The kernels of attention stay inside.
#[verifier::spinoff_prover]
#[verifier::rlimit(40)]
proof fn lemma_attention<T>(state: &GpuForwardState, model: &Model<T>, l: usize, pos: usize)
    requires
        state.wf(),
        state.belongs(model),
        model.fits(),
        extras_fit(state, model),
        l < state.cfg.n_layers,
        pos < state.max_seq,
    ensures
        all_inside(state, model, state.attention_kernels(l, pos)),
{
    let cfg = state.cfg;
    let a = state.project_kernels(l);
    let b = cuda_kernels::norm_heads(
        Buffer::Q,
        Buffer::QNorm(l),
        state.q_norm@[l as int],
        cfg.n_heads as nat,
        cfg.head_dim,
        cfg.q_total() as usize,
    );
    let c = cuda_kernels::norm_heads(
        Buffer::K,
        Buffer::KNorm(l),
        state.k_norm@[l as int],
        cfg.n_kv_heads as nat,
        cfg.head_dim,
        cfg.kv_total() as usize,
    );
    let d = state.attend_kernels(l, pos);
    let e = state.join_kernels(l);
    lemma_project(state, model, l);
    lemma_norm_heads(
        state,
        model,
        Buffer::Q,
        Buffer::QNorm(l),
        state.q_norm@[l as int],
        cfg.n_heads as nat,
        cfg.head_dim,
        cfg.q_total() as usize,
    );
    lemma_norm_heads(
        state,
        model,
        Buffer::K,
        Buffer::KNorm(l),
        state.k_norm@[l as int],
        cfg.n_kv_heads as nat,
        cfg.head_dim,
        cfg.kv_total() as usize,
    );
    lemma_attend(state, model, l, pos);
    lemma_add(state, model, l);
    lemma_join(state, model, a, b);
    lemma_join(state, model, a + b, c);
    lemma_join(state, model, a + b + c, d);
    lemma_join(state, model, a + b + c + d, e);
}

/// The weights of an expert lie within those of all.
proof fn lemma_expert<T>(
    model: &Model<T>,
    index: usize,
    buffer: Buffer,
    id: usize,
    columns: nat,
    rows: nat,
)
    requires
        llm_experts::holds_experts(
            model.file,
            index as int,
            columns,
            rows,
            model.cfg.n_experts as nat,
        ),
        id < model.cfg.n_experts,
        byte_room(model, buffer) == tensor_room(model, index),
    ensures
        holds_rows(
            model,
            cuda::expert_slice(
                buffer,
                model.file.tensors@[index as int].ggml_type,
                id as nat,
                columns * rows,
            ),
            columns,
            rows,
        ),
{
    llm_experts::lemma_expert(
        model.file,
        index as int,
        columns,
        rows,
        model.cfg.n_experts as nat,
        id as int,
    );
    let info = model.file.tensors@[index as int];
    let bytes = gguf::type_size(info.ggml_type, columns * rows);
    assert(model.file.data@.len() == model.file.data.len());
    assert(tensor_room(model, index) <= usize::MAX);
}

/// A row of four lies within four rows.
proof fn lemma_row_of_four(rank: usize, width: usize)
    requires
        rank < 4,
        4 * width <= usize::MAX,
    ensures
        0 <= rank * width,
        rank * width + width <= 4 * width,
{
    assert(0 <= rank * width && rank * width + width <= 4 * width) by (nonlinear_arith)
        requires
            0 <= rank < 4,
            0 <= width,
    ;
}

/// A row of a bias lies within the bias.
proof fn lemma_bias_row(id: usize, n: usize, width: usize, len: nat)
    requires
        id < n,
        n * width <= len <= usize::MAX,
    ensures
        0 <= id * width,
        id * width + width <= len,
{
    assert(0 <= id * width && id * width + width <= n * width) by (nonlinear_arith)
        requires
            0 <= id < n,
            0 <= width,
    ;
}

/// What is known of one chosen expert.
proof fn lemma_one_expert<T>(state: &GpuForwardState, model: &Model<T>, l: usize, id: usize)
    requires
        state.wf(),
        state.belongs(model),
        model.fits(),
        l < state.cfg.n_layers,
        state.cfg.n_experts > 0,
        id < state.cfg.n_experts,
    ensures
        ({
            let d = state.cfg.embed_dim;
            let f = state.cfg.ffn_dim;
            &&& holds_rows(model, state.gate_slice(l, id), d as nat, f as nat)
            &&& holds_rows(model, state.up_slice(l, id), d as nat, f as nat)
            &&& holds_rows(model, state.down_slice(l, id), f as nat, d as nat)
            &&& state.gate_bias@[l as int] ==> holds(
                state,
                model,
                cuda::at(Buffer::MoeGateBias(l), id * f),
                f as int,
            )
            &&& state.up_bias@[l as int] ==> holds(
                state,
                model,
                cuda::at(Buffer::MoeUpBias(l), id * f),
                f as int,
            )
            &&& state.down_bias@[l as int] ==> holds(
                state,
                model,
                cuda::at(Buffer::MoeDownBias(l), id * d),
                d as int,
            )
        }),
{
    let d = state.cfg.embed_dim;
    let f = state.cfg.ffn_dim;
    let n = state.cfg.n_experts;
    let layer = model.weights.layers@[l as int];
    assert(llm_model::layer_fits(model.cfg, model.file, layer));
    assert(state.types@[l as int] == cuda::types_of(model, l as int));
    assert(state.gate_bias@[l as int] == cuda::biased(layer.feed).0);
    assert(state.up_bias@[l as int] == cuda::biased(layer.feed).1);
    assert(state.down_bias@[l as int] == cuda::biased(layer.feed).2);
    match layer.feed {
        Feed::Dense { .. } => {
            assert(false);
        },
        Feed::Routed(experts) => {
            assert(d as nat * f as nat == (d * f) as nat);
            lemma_expert(model, experts.gate, Buffer::MoeGate(l), id, d as nat, f as nat);
            lemma_expert(model, experts.up, Buffer::MoeUp(l), id, d as nat, f as nat);
            lemma_expert(model, experts.down, Buffer::MoeDown(l), id, f as nat, d as nat);
            if experts.gate_bias@.len() > 0 {
                lemma_vec_len(experts.gate_bias);
                lemma_bias_row(id, n, f, experts.gate_bias@.len());
            }
            if experts.up_bias@.len() > 0 {
                lemma_vec_len(experts.up_bias);
                lemma_bias_row(id, n, f, experts.up_bias@.len());
            }
            if experts.down_bias@.len() > 0 {
                lemma_vec_len(experts.down_bias);
                lemma_bias_row(id, n, d, experts.down_bias@.len());
            }
        },
    }
}

/// A vector has as many elements as a machine can count.
proof fn lemma_vec_len<T>(items: Vec<T>)
    ensures
        items@.len() <= usize::MAX,
{
    assert(items@.len() == items.len());
}

/// The kernels of activation stay inside.
proof fn lemma_activate<T>(
    state: &GpuForwardState,
    model: &Model<T>,
    l: usize,
    chosen: Seq<usize>,
    n: nat,
)
    requires
        state.wf(),
        state.belongs(model),
        model.fits(),
        l < state.cfg.n_layers,
        state.cfg.n_experts > 0,
        n <= 4,
        n <= chosen.len(),
        forall|i: int| 0 <= i < chosen.len() ==> (#[trigger] chosen[i]) < state.cfg.n_experts,
    ensures
        all_inside(state, model, state.all_activate(l, chosen, n)),
        all_inside(state, model, state.all_collect(l, chosen, n)),
    decreases n,
{
    if n > 0 {
        let m = (n - 1) as nat;
        let id = chosen[n - 1];
        lemma_activate(state, model, l, chosen, m);
        lemma_one_expert(state, model, l, id);
        lemma_row_of_four(m as usize, state.cfg.ffn_dim);
        lemma_row_of_four(m as usize, state.cfg.embed_dim);
        let next = state.activate_kernels(l, m as usize, id);
        assert(all_inside(state, model, next));
        lemma_join(state, model, state.all_activate(l, chosen, m), next);
        let more = state.collect_kernels(l, m as usize, id);
        assert(all_inside(state, model, more));
        lemma_join(state, model, state.all_collect(l, chosen, m), more);
    }
}

/// The kernels of single experts stay inside.
proof fn lemma_single<T>(
    state: &GpuForwardState,
    model: &Model<T>,
    l: usize,
    chosen: Seq<usize>,
    n: nat,
)
    requires
        state.wf(),
        state.belongs(model),
        model.fits(),
        l < state.cfg.n_layers,
        state.cfg.n_experts > 0,
        n <= chosen.len(),
        forall|i: int| 0 <= i < chosen.len() ==> (#[trigger] chosen[i]) < state.cfg.n_experts,
    ensures
        all_inside(state, model, state.all_single(l, chosen, n)),
    decreases n,
{
    if n > 0 {
        let m = (n - 1) as nat;
        let id = chosen[n - 1];
        lemma_single(state, model, l, chosen, m);
        lemma_one_expert(state, model, l, id);
        let next = state.single_kernels(l, m as usize, id);
        assert(all_inside(state, model, next));
        lemma_join(state, model, state.all_single(l, chosen, m), next);
    }
}

/// The kernels of the chosen experts stay inside.
proof fn lemma_experts<T>(
    state: &GpuForwardState,
    model: &Model<T>,
    l: usize,
    chosen: Seq<usize>,
)
    requires
        state.wf(),
        state.belongs(model),
        model.fits(),
        l < state.cfg.n_layers,
        state.cfg.n_experts > 0,
        forall|i: int| 0 <= i < chosen.len() ==> (#[trigger] chosen[i]) < state.cfg.n_experts,
    ensures
        all_inside(state, model, state.expert_kernels(l, chosen)),
{
    let d = state.cfg.embed_dim;
    let zero = Kernel::Zero { dst: cuda::start(Buffer::ExpertAcc), n: d };
    let residual = Kernel::Add {
        dst: cuda::start(Buffer::Hidden),
        src: cuda::start(Buffer::ExpertAcc),
        n: d,
    };
    assert(all_inside(state, model, seq![residual]));
    if chosen.len() == 4 {
        lemma_one_expert(state, model, l, chosen[0]);
        lemma_one_expert(state, model, l, chosen[1]);
        lemma_one_expert(state, model, l, chosen[2]);
        lemma_one_expert(state, model, l, chosen[3]);
        lemma_activate(state, model, l, chosen, 4);
        let a = seq![zero, state.gates_kernel(l, chosen), state.ups_kernel(l, chosen)];
        let b = state.all_activate(l, chosen, 4);
        let c = seq![state.downs_kernel(l, chosen)];
        let e = state.all_collect(l, chosen, 4);
        assert(all_inside(state, model, a));
        assert(all_inside(state, model, c));
        lemma_join(state, model, a, b);
        lemma_join(state, model, a + b, c);
        lemma_join(state, model, a + b + c, e);
        lemma_join(state, model, a + b + c + e, seq![residual]);
    } else {
        lemma_single(state, model, l, chosen, chosen.len());
        let a = seq![zero];
        let b = state.all_single(l, chosen, chosen.len());
        assert(all_inside(state, model, a));
        lemma_join(state, model, a, b);
        lemma_join(state, model, a + b, seq![residual]);
    }
}

/// Whatever the token, its position and the experts that are chosen for it, no kernel reads or
/// writes outside a buffer.
pub proof fn kernels_stay_inside<T>(state: &GpuForwardState, model: &Model<T>, step: &GpuStep)
    requires
        state.wf(),
        state.belongs(model),
        model.fits(),
        extras_fit(state, model),
        step.wf(state),
        step.stage matches Stage::Dense(l) ==> state.cfg.n_experts == 0,
    ensures
        all_inside(state, model, step.kernels_of(state)),
{
    match step.stage {
        Stage::Attend(l) => {
            lemma_attention(state, model, l, step.pos);
        },
        Stage::Dense(l) => {
            let layer = model.weights.layers@[l as int];
            assert(llm_model::layer_fits(model.cfg, model.file, layer));
            assert(state.types@[l as int] == cuda::types_of(model, l as int));
        },
        Stage::Residual(l) => {},
        Stage::Route(l) => {
            let layer = model.weights.layers@[l as int];
            assert(llm_model::layer_fits(model.cfg, model.file, layer));
            let d = state.cfg.embed_dim as nat;
            let n = state.cfg.n_experts as nat;
            assert(d / 1 == d);
            assert(n * (d * 4) == 4 * (n * d)) by (nonlinear_arith);
        },
        Stage::Experts(l) => {
            lemma_experts(state, model, l, step.chosen@);
        },
        Stage::Last => {},
        _ => {},
    }
}

} // verus!
