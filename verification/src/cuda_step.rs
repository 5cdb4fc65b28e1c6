//! One token on a GPU: what the device does, what the host does, and when.

use vstd::prelude::*;
use crate::cuda;
use crate::cuda::{gpu_expert_slice, Buffer, GpuForwardState, GpuSlice, Kernel, Place};
use crate::cuda_kernels;
use crate::gguf;

verus! {

/// The start of a buffer.
fn start(buffer: Buffer) -> (place: Place)
    ensures
        place == cuda::start(buffer),
{
    Place { buffer, offset: 0 }
}

/// A whole matrix.
fn whole(buffer: Buffer, ggml_type: u32) -> (slice: GpuSlice)
    ensures
        slice == cuda::whole(buffer, ggml_type),
{
    GpuSlice { place: start(buffer), ggml_type }
}

/// Adds the kernels that normalize heads.
fn push_norm_heads(
    kernels: &mut Vec<Kernel>,
    buffer: Buffer,
    weight: Buffer,
    len: usize,
    heads: usize,
    width: usize,
    total: usize,
)
    requires
        total == heads * width,
    ensures
        final(kernels)@ == old(kernels)@ + cuda_kernels::norm_heads(
            buffer,
            weight,
            len,
            heads as nat,
            width,
            total,
        ),
{
    let ghost before = kernels@;
    let ghost all = cuda_kernels::norm_heads(buffer, weight, len, heads as nat, width, total);
    if len == 0 {
        proof {
            assert(kernels@ =~= before + all);
        }
    } else if len == width {
        let mut h: usize = 0;
        proof {
            assert(kernels@ =~= before + all.take(0));
        }
        while h < heads
            invariant
                h <= heads,
                total == heads * width,
                len != 0,
                len == width,
                all == cuda_kernels::norm_heads(buffer, weight, len, heads as nat, width, total),
                kernels@ == before + all.take(h as int),
            decreases heads - h,
        {
            proof {
                assert(0 <= h * width <= heads * width) by (nonlinear_arith)
                    requires
                        0 <= h < heads,
                        0 <= width,
                ;
            }
            let place = Place { buffer, offset: h * width };
            kernels.push(Kernel::RmsNorm { out: place, x: place, weight, n: width });
            proof {
                assert(kernels@ =~= before + all.take(h + 1));
            }
            h = h + 1;
        }
        proof {
            assert(all.take(h as int) =~= all);
        }
    } else {
        kernels.push(
            Kernel::RmsNorm { out: start(buffer), x: start(buffer), weight, n: total },
        );
        proof {
            assert(kernels@ =~= before + all);
        }
    }
}

/// Adds a kernel where it runs.
fn push_if(kernels: &mut Vec<Kernel>, condition: bool, kernel: Kernel)
    ensures
        final(kernels)@ == old(kernels)@ + cuda_kernels::only_if(condition, kernel),
{
    let ghost before = kernels@;
    if condition {
        kernels.push(kernel);
    }
    proof {
        assert(kernels@ =~= before + cuda_kernels::only_if(condition, kernel));
    }
}

impl GpuForwardState {
    /// The kernels of the attention of a layer.
    pub fn attention(&self, l: usize, pos: usize) -> (kernels: Vec<Kernel>)
        requires
            self.wf(),
            l < self.cfg.n_layers,
            pos < self.max_seq,
        ensures
            kernels@ == self.attention_kernels(l, pos),
    {
        let cfg = &self.cfg;
        let d: usize = cfg.embed_dim;
        proof {
            let kv = cfg.kv_total() as int;
            let m = self.max_seq as int;
            assert(kv <= kv * m) by (nonlinear_arith)
                requires
                    0 <= kv,
                    1 <= m,
            ;
        }
        let q_d: usize = cfg.q_total_dim();
        let kv_d: usize = cfg.kv_total_dim();
        let types = self.types[l];
        let x = start(Buffer::NormOut);
        let mut kernels: Vec<Kernel> = Vec::new();
        kernels.push(
            Kernel::RmsNorm {
                out: x,
                x: start(Buffer::Hidden),
                weight: Buffer::AttnNorm(l),
                n: d,
            },
        );
        kernels.push(
            Kernel::Gemv {
                matrix: whole(Buffer::QProj(l), types.q),
                x,
                y: start(Buffer::Q),
                columns: d,
                rows: q_d,
            },
        );
        kernels.push(
            Kernel::Gemv {
                matrix: whole(Buffer::KProj(l), types.k),
                x,
                y: start(Buffer::K),
                columns: d,
                rows: kv_d,
            },
        );
        kernels.push(
            Kernel::Gemv {
                matrix: whole(Buffer::VProj(l), types.v),
                x,
                y: start(Buffer::V),
                columns: d,
                rows: kv_d,
            },
        );
        kernels.push(
            Kernel::Add { dst: start(Buffer::Q), src: start(Buffer::QBias(l)), n: q_d },
        );
        kernels.push(
            Kernel::Add { dst: start(Buffer::K), src: start(Buffer::KBias(l)), n: kv_d },
        );
        kernels.push(
            Kernel::Add { dst: start(Buffer::V), src: start(Buffer::VBias(l)), n: kv_d },
        );
        proof {
            assert(kernels@ =~= self.project_kernels(l));
        }
        push_norm_heads(
            &mut kernels,
            Buffer::Q,
            Buffer::QNorm(l),
            self.q_norm[l],
            cfg.n_heads,
            cfg.head_dim,
            q_d,
        );
        push_norm_heads(
            &mut kernels,
            Buffer::K,
            Buffer::KNorm(l),
            self.k_norm[l],
            cfg.n_kv_heads,
            cfg.head_dim,
            kv_d,
        );
        let ghost before = kernels@;
        let first: usize = self.attn_start(l, pos);
        let seq: usize = pos + 1 - first;
        proof {
            let kv = cfg.kv_total() as int;
            let m = self.max_seq as int;
            assert(0 <= first * kv <= kv * m) by (nonlinear_arith)
                requires
                    0 <= first <= m,
                    0 <= kv,
            ;
        }
        let offset: usize = first * kv_d;
        kernels.push(
            Kernel::Rope {
                x: Buffer::Q,
                heads: cfg.n_heads,
                width: cfg.head_dim,
                pos,
                theta: cfg.rope_theta,
                yarn_scale: cfg.yarn_scale,
                yarn_orig_ctx: cfg.yarn_orig_ctx,
            },
        );
        kernels.push(
            Kernel::Rope {
                x: Buffer::K,
                heads: cfg.n_kv_heads,
                width: cfg.head_dim,
                pos,
                theta: cfg.rope_theta,
                yarn_scale: cfg.yarn_scale,
                yarn_orig_ctx: cfg.yarn_orig_ctx,
            },
        );
        kernels.push(Kernel::Append { layer: l, pos, width: kv_d });
        kernels.push(
            Kernel::Score {
                keys: Place { buffer: Buffer::Keys(l), offset },
                heads: cfg.n_heads,
                kv_heads: cfg.n_kv_heads,
                seq,
                width: cfg.head_dim,
                kv_width: kv_d,
                stride: self.max_seq,
                scale: cuda::score_scale(cfg),
            },
        );
        kernels.push(
            Kernel::Softmax {
                sinks: Buffer::Sinks(l),
                heads: cfg.n_heads,
                seq,
                stride: self.max_seq,
            },
        );
        kernels.push(
            Kernel::Mix {
                values: Place { buffer: Buffer::Values(l), offset },
                heads: cfg.n_heads,
                kv_heads: cfg.n_kv_heads,
                seq,
                width: cfg.head_dim,
                kv_width: kv_d,
                stride: self.max_seq,
            },
        );
        kernels.push(
            Kernel::Gemv {
                matrix: whole(Buffer::OutProj(l), types.out),
                x: start(Buffer::AttnOut),
                y: start(Buffer::NormOut),
                columns: q_d,
                rows: d,
            },
        );
        proof {
            assert(kernels@ =~= before + self.attend_kernels(l, pos));
        }
        let ghost middle = kernels@;
        push_if(
            &mut kernels,
            self.out_bias[l],
            Kernel::Add { dst: start(Buffer::NormOut), src: start(Buffer::OutBias(l)), n: d },
        );
        kernels.push(
            Kernel::Add { dst: start(Buffer::Hidden), src: start(Buffer::NormOut), n: d },
        );
        kernels.push(
            Kernel::RmsNorm {
                out: start(Buffer::NormOut),
                x: start(Buffer::Hidden),
                weight: Buffer::FfnNorm(l),
                n: d,
            },
        );
        proof {
            assert(kernels@ =~= middle + self.join_kernels(l));
        }
        kernels
    }

    /// The kernels of a dense feed-forward network.
    pub fn dense(&self, l: usize, on_host: bool) -> (kernels: Vec<Kernel>)
        requires
            self.wf(),
            l < self.cfg.n_layers,
        ensures
            kernels@ == self.dense_kernels(l, on_host),
    {
        let d: usize = self.cfg.embed_dim;
        let f: usize = self.cfg.ffn_dim;
        let types = self.types[l];
        let mut kernels: Vec<Kernel> = Vec::new();
        if !on_host {
            kernels.push(
                Kernel::Gemv {
                    matrix: whole(Buffer::GateProj(l), types.gate),
                    x: start(Buffer::NormOut),
                    y: start(Buffer::Gate),
                    columns: d,
                    rows: f,
                },
            );
            kernels.push(
                Kernel::Gemv {
                    matrix: whole(Buffer::UpProj(l), types.up),
                    x: start(Buffer::NormOut),
                    y: start(Buffer::Up),
                    columns: d,
                    rows: f,
                },
            );
            kernels.push(
                Kernel::Swiglu {
                    out: start(Buffer::ExpertOut),
                    gate: start(Buffer::Gate),
                    up: start(Buffer::Up),
                    n: f,
                    clamped: false,
                },
            );
            kernels.push(
                Kernel::Gemv {
                    matrix: whole(Buffer::DownProj(l), types.down),
                    x: start(Buffer::ExpertOut),
                    y: start(Buffer::NormOut),
                    columns: f,
                    rows: d,
                },
            );
        }
        kernels.push(
            Kernel::Add { dst: start(Buffer::Hidden), src: start(Buffer::NormOut), n: d },
        );
        proof {
            assert(kernels@ =~= self.dense_kernels(l, on_host));
        }
        kernels
    }

    /// The kernel that scores the experts of a layer.
    pub fn router(&self, l: usize) -> (kernel: Kernel)
        ensures
            kernel == self.router_kernel(l),
    {
        Kernel::Gemv {
            matrix: whole(Buffer::Router(l), 0),
            x: start(Buffer::NormOut),
            y: start(Buffer::RouterLogits),
            columns: self.cfg.embed_dim,
            rows: self.cfg.n_experts,
        }
    }

    /// The experts of a layer lie where a machine can reach them.
    pub open spec fn reachable(&self, l: usize) -> bool {
        let n = self.cfg.n_experts;
        let e = (self.cfg.embed_dim * self.cfg.ffn_dim) as nat;
        let types = self.types@[l as int];
        &&& gguf::block_of(types.gate) is Some
        &&& gguf::block_of(types.up) is Some
        &&& gguf::block_of(types.down) is Some
        &&& n * gguf::type_size(types.gate, e) <= usize::MAX
        &&& n * gguf::type_size(types.up, e) <= usize::MAX
        &&& n * gguf::type_size(types.down, e) <= usize::MAX
        &&& n * self.cfg.ffn_dim <= usize::MAX
        &&& n * self.cfg.embed_dim <= usize::MAX
    }

    /// An offset of an expert is within the offsets of all.
    proof fn lemma_offset(&self, id: usize, size: nat)
        requires
            id < self.cfg.n_experts,
            self.cfg.n_experts * size <= usize::MAX,
        ensures
            0 <= id * size,
            id * size + size <= self.cfg.n_experts * size,
            size <= usize::MAX,
    {
        let n = self.cfg.n_experts as int;
        assert(0 <= id * size && id * size + size <= n * size) by (nonlinear_arith)
            requires
                0 <= id < n,
                0 <= size,
        ;
    }

    /// The weights of one expert.
    fn expert(&self, buffer: Buffer, ggml_type: u32, id: usize) -> (slice: GpuSlice)
        requires
            self.wf(),
            gguf::block_of(ggml_type) is Some,
            self.cfg.n_experts * gguf::type_size(
                ggml_type,
                (self.cfg.embed_dim * self.cfg.ffn_dim) as nat,
            ) <= usize::MAX,
            id < self.cfg.n_experts,
        ensures
            slice == cuda::expert_slice(
                buffer,
                ggml_type,
                id as nat,
                (self.cfg.embed_dim * self.cfg.ffn_dim) as nat,
            ),
    {
        let elements: usize = self.cfg.embed_dim * self.cfg.ffn_dim;
        proof {
            self.lemma_offset(id, gguf::type_size(ggml_type, elements as nat));
        }
        gpu_expert_slice(buffer, ggml_type, id, elements)
    }

    /// Adds the kernels of activation for one of four experts.
    fn push_activate(&self, kernels: &mut Vec<Kernel>, l: usize, rank: usize, id: usize)
        requires
            self.wf(),
            l < self.cfg.n_layers,
            self.reachable(l),
            rank < 4,
            id < self.cfg.n_experts,
        ensures
            final(kernels)@ == old(kernels)@ + self.activate_kernels(l, rank, id),
    {
        let f: usize = self.cfg.ffn_dim;
        proof {
            self.lemma_offset(id, f as nat);
            assert(0 <= rank * f <= 4 * f) by (nonlinear_arith)
                requires
                    0 <= rank < 4,
                    0 <= f,
            ;
        }
        let own: usize = rank * f;
        let bias: usize = id * f;
        let ghost before = kernels@;
        push_if(
            kernels,
            self.gate_bias[l],
            Kernel::Add {
                dst: Place { buffer: Buffer::GateAll, offset: own },
                src: Place { buffer: Buffer::MoeGateBias(l), offset: bias },
                n: f,
            },
        );
        push_if(
            kernels,
            self.up_bias[l],
            Kernel::Add {
                dst: Place { buffer: Buffer::UpAll, offset: own },
                src: Place { buffer: Buffer::MoeUpBias(l), offset: bias },
                n: f,
            },
        );
        kernels.push(
            Kernel::Swiglu {
                out: Place { buffer: Buffer::ExpertOutAll, offset: own },
                gate: Place { buffer: Buffer::GateAll, offset: own },
                up: Place { buffer: Buffer::UpAll, offset: own },
                n: f,
                clamped: self.cfg.clamped_swiglu,
            },
        );
        proof {
            assert(kernels@ =~= before + self.activate_kernels(l, rank, id));
        }
    }

    /// Adds the kernels that collect one of four experts.
    fn push_collect(&self, kernels: &mut Vec<Kernel>, l: usize, rank: usize, id: usize)
        requires
            self.wf(),
            l < self.cfg.n_layers,
            self.reachable(l),
            rank < 4,
            id < self.cfg.n_experts,
        ensures
            final(kernels)@ == old(kernels)@ + self.collect_kernels(l, rank, id),
    {
        let d: usize = self.cfg.embed_dim;
        proof {
            self.lemma_offset(id, d as nat);
            assert(0 <= rank * d <= 4 * d) by (nonlinear_arith)
                requires
                    0 <= rank < 4,
                    0 <= d,
            ;
        }
        let own: usize = rank * d;
        let bias: usize = id * d;
        let ghost before = kernels@;
        push_if(
            kernels,
            self.down_bias[l],
            Kernel::Add {
                dst: Place { buffer: Buffer::DownAll, offset: own },
                src: Place { buffer: Buffer::MoeDownBias(l), offset: bias },
                n: d,
            },
        );
        kernels.push(
            Kernel::AddWeighted {
                dst: start(Buffer::ExpertAcc),
                src: Place { buffer: Buffer::DownAll, offset: own },
                rank,
                n: d,
            },
        );
        proof {
            assert(kernels@ =~= before + self.collect_kernels(l, rank, id));
        }
    }

    /// Adds the kernels of one expert by itself.
    #[verifier::spinoff_prover]
    #[verifier::rlimit(80)]
    fn push_single(&self, kernels: &mut Vec<Kernel>, l: usize, rank: usize, id: usize)
        requires
            self.wf(),
            l < self.cfg.n_layers,
            self.reachable(l),
            id < self.cfg.n_experts,
        ensures
            final(kernels)@ == old(kernels)@ + self.single_kernels(l, rank, id),
    {
        let d: usize = self.cfg.embed_dim;
        let f: usize = self.cfg.ffn_dim;
        proof {
            self.lemma_offset(id, d as nat);
            self.lemma_offset(id, f as nat);
            assert(d * f == f * d) by (nonlinear_arith);
        }
        let types = self.types[l];
        let x = start(Buffer::NormOut);
        let wide: usize = id * f;
        let narrow: usize = id * d;
        let ghost before = kernels@;
        kernels.push(
            Kernel::Gemv {
                matrix: self.expert(Buffer::MoeGate(l), types.gate, id),
                x,
                y: start(Buffer::Gate),
                columns: d,
                rows: f,
            },
        );
        push_if(
            kernels,
            self.gate_bias[l],
            Kernel::Add {
                dst: start(Buffer::Gate),
                src: Place { buffer: Buffer::MoeGateBias(l), offset: wide },
                n: f,
            },
        );
        kernels.push(
            Kernel::Gemv {
                matrix: self.expert(Buffer::MoeUp(l), types.up, id),
                x,
                y: start(Buffer::Up),
                columns: d,
                rows: f,
            },
        );
        push_if(
            kernels,
            self.up_bias[l],
            Kernel::Add {
                dst: start(Buffer::Up),
                src: Place { buffer: Buffer::MoeUpBias(l), offset: wide },
                n: f,
            },
        );
        kernels.push(
            Kernel::Swiglu {
                out: start(Buffer::ExpertOut),
                gate: start(Buffer::Gate),
                up: start(Buffer::Up),
                n: f,
                clamped: self.cfg.clamped_swiglu,
            },
        );
        kernels.push(
            Kernel::Gemv {
                matrix: self.expert(Buffer::MoeDown(l), types.down, id),
                x: start(Buffer::ExpertOut),
                y: start(Buffer::DownAll),
                columns: f,
                rows: d,
            },
        );
        push_if(
            kernels,
            self.down_bias[l],
            Kernel::Add {
                dst: start(Buffer::DownAll),
                src: Place { buffer: Buffer::MoeDownBias(l), offset: narrow },
                n: d,
            },
        );
        kernels.push(
            Kernel::AddWeighted {
                dst: start(Buffer::ExpertAcc),
                src: start(Buffer::DownAll),
                rank,
                n: d,
            },
        );
        proof {
            assert(kernels@ =~= before + self.single_kernels(l, rank, id));
        }
    }

    /// The places of four rows of a buffer.
    fn rows(buffer: Buffer, width: usize) -> (places: (Place, Place, Place, Place))
        requires
            4 * width <= usize::MAX,
        ensures
            places == Self::four_rows(buffer, width),
    {
        (
            start(buffer),
            Place { buffer, offset: width },
            Place { buffer, offset: 2 * width },
            Place { buffer, offset: 3 * width },
        )
    }

    /// The kernels of the chosen experts.
    pub fn experts(&self, l: usize, chosen: &[usize]) -> (kernels: Vec<Kernel>)
        requires
            self.wf(),
            l < self.cfg.n_layers,
            self.reachable(l),
            forall|i: int| 0 <= i < chosen@.len() ==> (#[trigger] chosen@[i]) < self.cfg.n_experts,
        ensures
            kernels@ == self.expert_kernels(l, chosen@),
    {
        let d: usize = self.cfg.embed_dim;
        let f: usize = self.cfg.ffn_dim;
        let types = self.types[l];
        let mut kernels: Vec<Kernel> = Vec::new();
        kernels.push(Kernel::Zero { dst: start(Buffer::ExpertAcc), n: d });
        proof {
            assert(chosen@.len() == chosen.len());
            assert(d * f == f * d) by (nonlinear_arith);
        }
        if chosen.len() == 4 {
            let a: usize = chosen[0];
            let b: usize = chosen[1];
            let c: usize = chosen[2];
            let e: usize = chosen[3];
            let x = start(Buffer::NormOut);
            kernels.push(
                Kernel::Gemv4 {
                    matrices: (
                        self.expert(Buffer::MoeGate(l), types.gate, a),
                        self.expert(Buffer::MoeGate(l), types.gate, b),
                        self.expert(Buffer::MoeGate(l), types.gate, c),
                        self.expert(Buffer::MoeGate(l), types.gate, e),
                    ),
                    x: (x, x, x, x),
                    y: Self::rows(Buffer::GateAll, f),
                    columns: d,
                    rows: f,
                },
            );
            kernels.push(
                Kernel::Gemv4 {
                    matrices: (
                        self.expert(Buffer::MoeUp(l), types.up, a),
                        self.expert(Buffer::MoeUp(l), types.up, b),
                        self.expert(Buffer::MoeUp(l), types.up, c),
                        self.expert(Buffer::MoeUp(l), types.up, e),
                    ),
                    x: (x, x, x, x),
                    y: Self::rows(Buffer::UpAll, f),
                    columns: d,
                    rows: f,
                },
            );
            let ghost first = kernels@;
            let mut rank: usize = 0;
            proof {
                assert(kernels@ =~= first + self.all_activate(l, chosen@, 0));
            }
            while rank < 4
                invariant
                    self.wf(),
                    l < self.cfg.n_layers,
                    self.reachable(l),
                    chosen@.len() == 4,
                    chosen@.len() == chosen.len(),
                    forall|i: int|
                        0 <= i < chosen@.len() ==> (#[trigger] chosen@[i]) < self.cfg.n_experts,
                    rank <= 4,
                    kernels@ == first + self.all_activate(l, chosen@, rank as nat),
                decreases 4 - rank,
            {
                let ghost before = self.all_activate(l, chosen@, rank as nat);
                self.push_activate(&mut kernels, l, rank, chosen[rank]);
                proof {
                    let next = self.activate_kernels(l, rank, chosen@[rank as int]);
                    assert(first + before + next =~= first + (before + next));
                }
                rank = rank + 1;
            }
            kernels.push(
                Kernel::Gemv4 {
                    matrices: (
                        self.expert(Buffer::MoeDown(l), types.down, a),
                        self.expert(Buffer::MoeDown(l), types.down, b),
                        self.expert(Buffer::MoeDown(l), types.down, c),
                        self.expert(Buffer::MoeDown(l), types.down, e),
                    ),
                    x: Self::rows(Buffer::ExpertOutAll, f),
                    y: Self::rows(Buffer::DownAll, d),
                    columns: f,
                    rows: d,
                },
            );
            let ghost second = kernels@;
            proof {
                assert(second =~= first + self.all_activate(l, chosen@, 4) + seq![
                    self.downs_kernel(l, chosen@),
                ]);
                assert(first =~= seq![
                    Kernel::Zero { dst: cuda::start(Buffer::ExpertAcc), n: d },
                    self.gates_kernel(l, chosen@),
                    self.ups_kernel(l, chosen@),
                ]);
                assert(kernels@ =~= second + self.all_collect(l, chosen@, 0));
            }
            let mut rank: usize = 0;
            while rank < 4
                invariant
                    self.wf(),
                    l < self.cfg.n_layers,
                    self.reachable(l),
                    chosen@.len() == 4,
                    chosen@.len() == chosen.len(),
                    forall|i: int|
                        0 <= i < chosen@.len() ==> (#[trigger] chosen@[i]) < self.cfg.n_experts,
                    rank <= 4,
                    kernels@ == second + self.all_collect(l, chosen@, rank as nat),
                decreases 4 - rank,
            {
                let ghost before = self.all_collect(l, chosen@, rank as nat);
                self.push_collect(&mut kernels, l, rank, chosen[rank]);
                proof {
                    let next = self.collect_kernels(l, rank, chosen@[rank as int]);
                    assert(second + before + next =~= second + (before + next));
                }
                rank = rank + 1;
            }
        } else {
            let ghost first = kernels@;
            let mut rank: usize = 0;
            proof {
                assert(first =~= seq![
                    Kernel::Zero { dst: cuda::start(Buffer::ExpertAcc), n: d },
                ]);
                assert(kernels@ =~= first + self.all_single(l, chosen@, 0));
            }
            while rank < chosen.len()
                invariant
                    self.wf(),
                    l < self.cfg.n_layers,
                    self.reachable(l),
                    chosen@.len() == chosen.len(),
                    forall|i: int|
                        0 <= i < chosen@.len() ==> (#[trigger] chosen@[i]) < self.cfg.n_experts,
                    rank <= chosen@.len(),
                    kernels@ == first + self.all_single(l, chosen@, rank as nat),
                decreases chosen.len() - rank,
            {
                let ghost before = self.all_single(l, chosen@, rank as nat);
                self.push_single(&mut kernels, l, rank, chosen[rank]);
                proof {
                    let next = self.single_kernels(l, rank, chosen@[rank as int]);
                    assert(first + before + next =~= first + (before + next));
                }
                rank = rank + 1;
            }
        }
        let ghost before = kernels@;
        kernels.push(
            Kernel::Add { dst: start(Buffer::Hidden), src: start(Buffer::ExpertAcc), n: d },
        );
        proof {
            assert(kernels@ =~= before + seq![
                Kernel::Add {
                    dst: cuda::start(Buffer::Hidden),
                    src: cuda::start(Buffer::ExpertAcc),
                    n: d,
                },
            ]);
        }
        kernels
    }

    /// The kernels after the last layer.
    pub fn last(&self) -> (kernels: Vec<Kernel>)
        ensures
            kernels@ == self.final_kernels(),
    {
        let mut kernels: Vec<Kernel> = Vec::new();
        kernels.push(
            Kernel::RmsNorm {
                out: start(Buffer::NormOut),
                x: start(Buffer::Hidden),
                weight: Buffer::FinalNorm,
                n: self.cfg.embed_dim,
            },
        );
        match self.lm_head {
            Some(ggml_type) => {
                kernels.push(
                    Kernel::Gemv {
                        matrix: whole(Buffer::LmHead, ggml_type),
                        x: start(Buffer::NormOut),
                        y: start(Buffer::Logits),
                        columns: self.cfg.embed_dim,
                        rows: self.cfg.vocab_size,
                    },
                );
            },
            None => {},
        }
        proof {
            assert(kernels@ =~= self.final_kernels());
        }
        kernels
    }
}

/// Where a token is on its way.
#[derive(Clone, Copy, Debug, PartialEq, Eq, Structural)]
pub enum Stage {
    /// The host writes the embedding of the token to the hidden state.
    Embed,
    /// The device attends, at a layer.
    Attend(usize),
    /// The device runs the dense feed-forward network of a layer.
    Dense(usize),
    /// The host runs the dense feed-forward network of a layer.
    HostDense(usize),
    /// The device adds what the host computed.
    Residual(usize),
    /// The device scores the experts of a layer.
    Route(usize),
    /// The host chooses experts.
    Choose(usize),
    /// The device runs the chosen experts of a layer.
    Experts(usize),
    /// The device normalizes the last state, and scores the vocabulary if it can.
    Last,
    /// The host reads the scores of the vocabulary.
    ReadLogits,
    /// The host reads the last state and scores the vocabulary.
    HostLogits,
    Done,
}

/// A token on its way through the device.
pub struct GpuStep {
    pub stage: Stage,
    /// The position that the token is written to.
    pub pos: usize,
    /// Whether the vocabulary is scored in the end.
    pub need_logits: bool,
    /// Whether the host runs dense feed-forward networks.
    pub dense_on_host: bool,
    /// The experts that were chosen last.
    pub chosen: Vec<usize>,
}

/// The stage after the last layer.
pub open spec fn ending(need_logits: bool) -> Stage {
    if need_logits {
        Stage::Last
    } else {
        Stage::Done
    }
}

/// The stage at layer `l`, or after the last one.
pub open spec fn layer_or_end(state: &GpuForwardState, l: int, need_logits: bool) -> Stage {
    if l < state.cfg.n_layers {
        Stage::Attend(l as usize)
    } else {
        ending(need_logits)
    }
}

/// The stage that follows.
pub open spec fn following(
    state: &GpuForwardState,
    stage: Stage,
    need_logits: bool,
    dense_on_host: bool,
) -> Stage {
    match stage {
        Stage::Embed => layer_or_end(state, 0, need_logits),
        Stage::Attend(l) => if state.cfg.n_experts > 0 {
            Stage::Route(l)
        } else if dense_on_host {
            Stage::HostDense(l)
        } else {
            Stage::Dense(l)
        },
        Stage::Route(l) => Stage::Choose(l),
        Stage::Choose(l) => Stage::Experts(l),
        Stage::HostDense(l) => Stage::Residual(l),
        Stage::Dense(l) | Stage::Residual(l) | Stage::Experts(l) => layer_or_end(
            state,
            l + 1,
            need_logits,
        ),
        Stage::Last => if state.lm_head is Some {
            Stage::ReadLogits
        } else {
            Stage::HostLogits
        },
        Stage::ReadLogits | Stage::HostLogits | Stage::Done => Stage::Done,
    }
}

/// The layer of a stage exists.
pub open spec fn stage_fits(state: &GpuForwardState, stage: Stage) -> bool {
    match stage {
        Stage::Attend(l) | Stage::Dense(l) | Stage::HostDense(l) | Stage::Residual(l) => l
            < state.cfg.n_layers,
        Stage::Route(l) | Stage::Choose(l) | Stage::Experts(l) => l < state.cfg.n_layers
            && state.cfg.n_experts > 0,
        _ => true,
    }
}

/// How many stages can follow.
pub open spec fn stages_left(state: &GpuForwardState, stage: Stage) -> int {
    let n = state.cfg.n_layers;
    match stage {
        Stage::Embed => 4 * n + 3,
        Stage::Attend(l) => 4 * (n - l) + 2,
        Stage::Route(l) | Stage::HostDense(l) => 4 * (n - l) + 1,
        Stage::Choose(l) | Stage::Residual(l) | Stage::Dense(l) => 4 * (n - l),
        Stage::Experts(l) => 4 * (n - l) - 1,
        Stage::Last => 2,
        Stage::ReadLogits | Stage::HostLogits => 1,
        Stage::Done => 0,
    }
}

/// Every stage of a token is at a layer that exists, and the way comes to an end.
pub proof fn stages_come_to_an_end(
    state: &GpuForwardState,
    stage: Stage,
    need_logits: bool,
    dense_on_host: bool,
)
    requires
        stage_fits(state, stage),
    ensures
        stage_fits(state, following(state, stage, need_logits, dense_on_host)),
        0 <= stages_left(state, stage),
        stage != Stage::Done ==> stages_left(
            state,
            following(state, stage, need_logits, dense_on_host),
        ) < stages_left(state, stage),
{
}

impl GpuStep {
    /// The stage fits the state, and the chosen experts are experts of the model.
    pub open spec fn wf(&self, state: &GpuForwardState) -> bool {
        &&& stage_fits(state, self.stage)
        &&& self.pos < state.max_seq
        &&& forall|i: int|
            0 <= i < self.chosen@.len() ==> (#[trigger] self.chosen@[i]) < state.cfg.n_experts
    }

    /// Starts a token. A token beyond the positions of the caches overwrites the last one.
    pub fn new(state: &GpuForwardState, pos: usize, need_logits: bool, dense_on_host: bool) -> (step:
        Self)
        requires
            state.wf(),
        ensures
            step.wf(state),
            step.stage == Stage::Embed,
            step.pos == state.slot(pos),
            step.need_logits == need_logits,
            step.dense_on_host == dense_on_host,
    {
        GpuStep {
            stage: Stage::Embed,
            pos: state.clamp(pos),
            need_logits,
            dense_on_host,
            chosen: Vec::new(),
        }
    }

    /// The kernels of a stage.
    pub open spec fn kernels_of(&self, state: &GpuForwardState) -> Seq<Kernel> {
        match self.stage {
            Stage::Attend(l) => state.attention_kernels(l, self.pos),
            Stage::Dense(l) => state.dense_kernels(l, false),
            Stage::Residual(l) => state.dense_kernels(l, true),
            Stage::Route(l) => seq![state.router_kernel(l)],
            Stage::Experts(l) => state.expert_kernels(l, self.chosen@),
            Stage::Last => state.final_kernels(),
            _ => Seq::empty(),
        }
    }

    /// The kernels that the device runs at the stage; none where the host works.
    pub fn forward_gpu_step(&self, state: &GpuForwardState) -> (kernels: Vec<Kernel>)
        requires
            state.wf(),
            self.wf(state),
            self.stage matches Stage::Experts(l) ==> state.reachable(l),
        ensures
            kernels@ == self.kernels_of(state),
    {
        match self.stage {
            Stage::Attend(l) => state.attention(l, self.pos),
            Stage::Dense(l) => state.dense(l, false),
            Stage::Residual(l) => state.dense(l, true),
            Stage::Route(l) => {
                let mut kernels: Vec<Kernel> = Vec::new();
                kernels.push(state.router(l));
                proof {
                    assert(kernels@ =~= seq![state.router_kernel(l)]);
                }
                kernels
            },
            Stage::Experts(l) => state.experts(l, &self.chosen),
            Stage::Last => state.last(),
            _ => {
                let kernels: Vec<Kernel> = Vec::new();
                proof {
                    assert(kernels@ =~= Seq::empty());
                }
                kernels
            },
        }
    }

    /// Goes on to the next stage. Where the host chose experts, they are given.
    pub fn proceed(&mut self, state: &GpuForwardState, chosen: Vec<usize>)
        requires
            state.wf(),
            old(self).wf(state),
            forall|i: int| 0 <= i < chosen@.len() ==> (#[trigger] chosen@[i]) < state.cfg.n_experts,
        ensures
            final(self).wf(state),
            final(self).stage == following(
                state,
                old(self).stage,
                old(self).need_logits,
                old(self).dense_on_host,
            ),
            final(self).pos == old(self).pos,
            final(self).need_logits == old(self).need_logits,
            final(self).dense_on_host == old(self).dense_on_host,
            final(self).chosen@ == if old(self).stage is Choose {
                chosen@
            } else {
                old(self).chosen@
            },
    {
        let next = match self.stage {
            Stage::Embed => self.enter(state, 0),
            Stage::Attend(l) => if state.cfg.n_experts > 0 {
                Stage::Route(l)
            } else if self.dense_on_host {
                Stage::HostDense(l)
            } else {
                Stage::Dense(l)
            },
            Stage::Route(l) => Stage::Choose(l),
            Stage::Choose(l) => Stage::Experts(l),
            Stage::HostDense(l) => Stage::Residual(l),
            Stage::Dense(l) => self.enter(state, l + 1),
            Stage::Residual(l) => self.enter(state, l + 1),
            Stage::Experts(l) => self.enter(state, l + 1),
            Stage::Last => if state.lm_head.is_some() {
                Stage::ReadLogits
            } else {
                Stage::HostLogits
            },
            Stage::ReadLogits => Stage::Done,
            Stage::HostLogits => Stage::Done,
            Stage::Done => Stage::Done,
        };
        match self.stage {
            Stage::Choose(_) => {
                self.chosen = chosen;
            },
            _ => {},
        }
        self.stage = next;
    }

    /// The stage at a layer, or after the last one.
    fn enter(&self, state: &GpuForwardState, l: usize) -> (stage: Stage)
        ensures
            stage == layer_or_end(state, l as int, self.need_logits),
    {
        if l < state.cfg.n_layers {
            Stage::Attend(l)
        } else if self.need_logits {
            Stage::Last
        } else {
            Stage::Done
        }
    }
}

} // verus!
