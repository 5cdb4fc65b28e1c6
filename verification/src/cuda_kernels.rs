//! The kernels of a GPU for one token, and where they work.

use vstd::prelude::*;
use crate::cuda;
use crate::cuda::{Buffer, GpuForwardState, GpuSlice, Kernel, Place};

verus! {

/// The kernels that normalize the heads of queries or keys: each head by itself where the norm has
/// the width of a head, all together otherwise.
pub open spec fn norm_heads(
    buffer: Buffer,
    weight: Buffer,
    len: usize,
    heads: nat,
    width: usize,
    total: usize,
) -> Seq<Kernel> {
    if len == 0 {
        Seq::empty()
    } else if len == width {
        Seq::new(
            heads,
            |h: int|
                Kernel::RmsNorm {
                    out: cuda::at(buffer, h * width),
                    x: cuda::at(buffer, h * width),
                    weight,
                    n: width,
                },
        )
    } else {
        seq![
            Kernel::RmsNorm {
                out: cuda::start(buffer),
                x: cuda::start(buffer),
                weight,
                n: total,
            },
        ]
    }
}

/// One kernel, where it runs.
pub open spec fn only_if(condition: bool, kernel: Kernel) -> Seq<Kernel> {
    if condition {
        seq![kernel]
    } else {
        Seq::empty()
    }
}

impl GpuForwardState {
    /// The kernels that give the query, the key and the value of a layer.
    pub open spec fn project_kernels(&self, l: usize) -> Seq<Kernel> {
        let d = self.cfg.embed_dim;
        let q = self.cfg.q_total() as usize;
        let kv = self.cfg.kv_total() as usize;
        let types = self.types@[l as int];
        let x = cuda::start(Buffer::NormOut);
        seq![
            Kernel::RmsNorm {
                out: x,
                x: cuda::start(Buffer::Hidden),
                weight: Buffer::AttnNorm(l),
                n: d,
            },
            Kernel::Gemv {
                matrix: cuda::whole(Buffer::QProj(l), types.q),
                x,
                y: cuda::start(Buffer::Q),
                columns: d,
                rows: q,
            },
            Kernel::Gemv {
                matrix: cuda::whole(Buffer::KProj(l), types.k),
                x,
                y: cuda::start(Buffer::K),
                columns: d,
                rows: kv,
            },
            Kernel::Gemv {
                matrix: cuda::whole(Buffer::VProj(l), types.v),
                x,
                y: cuda::start(Buffer::V),
                columns: d,
                rows: kv,
            },
            Kernel::Add {
                dst: cuda::start(Buffer::Q),
                src: cuda::start(Buffer::QBias(l)),
                n: q,
            },
            Kernel::Add {
                dst: cuda::start(Buffer::K),
                src: cuda::start(Buffer::KBias(l)),
                n: kv,
            },
            Kernel::Add {
                dst: cuda::start(Buffer::V),
                src: cuda::start(Buffer::VBias(l)),
                n: kv,
            },
        ]
    }

    /// The kernels that turn the heads, fill the caches, attend, and project back.
    pub open spec fn attend_kernels(&self, l: usize, pos: usize) -> Seq<Kernel> {
        let cfg = self.cfg;
        let q = cfg.q_total() as usize;
        let kv = cfg.kv_total() as usize;
        let first = self.first_seen(l, pos);
        let seq = (pos + 1 - first) as usize;
        seq![
            Kernel::Rope {
                x: Buffer::Q,
                heads: cfg.n_heads,
                width: cfg.head_dim,
                pos,
                theta: cfg.rope_theta,
                yarn_scale: cfg.yarn_scale,
                yarn_orig_ctx: cfg.yarn_orig_ctx,
            },
            Kernel::Rope {
                x: Buffer::K,
                heads: cfg.n_kv_heads,
                width: cfg.head_dim,
                pos,
                theta: cfg.rope_theta,
                yarn_scale: cfg.yarn_scale,
                yarn_orig_ctx: cfg.yarn_orig_ctx,
            },
            Kernel::Append { layer: l, pos, width: kv },
            Kernel::Score {
                keys: cuda::at(Buffer::Keys(l), first * cfg.kv_total()),
                heads: cfg.n_heads,
                kv_heads: cfg.n_kv_heads,
                seq,
                width: cfg.head_dim,
                kv_width: kv,
                stride: self.max_seq,
                scale: cuda::scale_of(cfg),
            },
            Kernel::Softmax {
                sinks: Buffer::Sinks(l),
                heads: cfg.n_heads,
                seq,
                stride: self.max_seq,
            },
            Kernel::Mix {
                values: cuda::at(Buffer::Values(l), first * cfg.kv_total()),
                heads: cfg.n_heads,
                kv_heads: cfg.n_kv_heads,
                seq,
                width: cfg.head_dim,
                kv_width: kv,
                stride: self.max_seq,
            },
            Kernel::Gemv {
                matrix: cuda::whole(Buffer::OutProj(l), self.types@[l as int].out),
                x: cuda::start(Buffer::AttnOut),
                y: cuda::start(Buffer::NormOut),
                columns: q,
                rows: cfg.embed_dim,
            },
        ]
    }

    /// The kernels that add the result of attention and normalize for the feed-forward network.
    pub open spec fn join_kernels(&self, l: usize) -> Seq<Kernel> {
        let d = self.cfg.embed_dim;
        only_if(
            self.out_bias@[l as int],
            Kernel::Add {
                dst: cuda::start(Buffer::NormOut),
                src: cuda::start(Buffer::OutBias(l)),
                n: d,
            },
        ) + seq![
            Kernel::Add {
                dst: cuda::start(Buffer::Hidden),
                src: cuda::start(Buffer::NormOut),
                n: d,
            },
            Kernel::RmsNorm {
                out: cuda::start(Buffer::NormOut),
                x: cuda::start(Buffer::Hidden),
                weight: Buffer::FfnNorm(l),
                n: d,
            },
        ]
    }

    /// The kernels of the attention of a layer.
    pub open spec fn attention_kernels(&self, l: usize, pos: usize) -> Seq<Kernel> {
        let cfg = self.cfg;
        self.project_kernels(l) + norm_heads(
            Buffer::Q,
            Buffer::QNorm(l),
            self.q_norm@[l as int],
            cfg.n_heads as nat,
            cfg.head_dim,
            cfg.q_total() as usize,
        ) + norm_heads(
            Buffer::K,
            Buffer::KNorm(l),
            self.k_norm@[l as int],
            cfg.n_kv_heads as nat,
            cfg.head_dim,
            cfg.kv_total() as usize,
        ) + self.attend_kernels(l, pos) + self.join_kernels(l)
    }

    /// The kernels of a dense feed-forward network, or of its residual alone where the host
    /// computes the rest.
    pub open spec fn dense_kernels(&self, l: usize, on_host: bool) -> Seq<Kernel> {
        let d = self.cfg.embed_dim;
        let f = self.cfg.ffn_dim;
        let types = self.types@[l as int];
        let residual = Kernel::Add {
            dst: cuda::start(Buffer::Hidden),
            src: cuda::start(Buffer::NormOut),
            n: d,
        };
        if on_host {
            seq![residual]
        } else {
            seq![
                Kernel::Gemv {
                    matrix: cuda::whole(Buffer::GateProj(l), types.gate),
                    x: cuda::start(Buffer::NormOut),
                    y: cuda::start(Buffer::Gate),
                    columns: d,
                    rows: f,
                },
                Kernel::Gemv {
                    matrix: cuda::whole(Buffer::UpProj(l), types.up),
                    x: cuda::start(Buffer::NormOut),
                    y: cuda::start(Buffer::Up),
                    columns: d,
                    rows: f,
                },
                Kernel::Swiglu {
                    out: cuda::start(Buffer::ExpertOut),
                    gate: cuda::start(Buffer::Gate),
                    up: cuda::start(Buffer::Up),
                    n: f,
                    clamped: false,
                },
                Kernel::Gemv {
                    matrix: cuda::whole(Buffer::DownProj(l), types.down),
                    x: cuda::start(Buffer::ExpertOut),
                    y: cuda::start(Buffer::NormOut),
                    columns: f,
                    rows: d,
                },
                residual,
            ]
        }
    }

    /// The kernel that scores the experts of a layer.
    pub open spec fn router_kernel(&self, l: usize) -> Kernel {
        Kernel::Gemv {
            matrix: cuda::whole(Buffer::Router(l), 0),
            x: cuda::start(Buffer::NormOut),
            y: cuda::start(Buffer::RouterLogits),
            columns: self.cfg.embed_dim,
            rows: self.cfg.n_experts,
        }
    }

    /// The weights of one expert for its gates.
    pub open spec fn gate_slice(&self, l: usize, id: usize) -> GpuSlice {
        cuda::expert_slice(
            Buffer::MoeGate(l),
            self.types@[l as int].gate,
            id as nat,
            (self.cfg.embed_dim * self.cfg.ffn_dim) as nat,
        )
    }

    /// The weights of one expert for its values.
    pub open spec fn up_slice(&self, l: usize, id: usize) -> GpuSlice {
        cuda::expert_slice(
            Buffer::MoeUp(l),
            self.types@[l as int].up,
            id as nat,
            (self.cfg.embed_dim * self.cfg.ffn_dim) as nat,
        )
    }

    /// The weights of one expert for its result.
    pub open spec fn down_slice(&self, l: usize, id: usize) -> GpuSlice {
        cuda::expert_slice(
            Buffer::MoeDown(l),
            self.types@[l as int].down,
            id as nat,
            (self.cfg.ffn_dim * self.cfg.embed_dim) as nat,
        )
    }

    /// The kernels that one of four experts needs between the products: biases and activation.
    pub open spec fn activate_kernels(&self, l: usize, rank: usize, id: usize) -> Seq<Kernel> {
        let f = self.cfg.ffn_dim;
        let own = rank * f;
        only_if(
            self.gate_bias@[l as int],
            Kernel::Add {
                dst: cuda::at(Buffer::GateAll, own),
                src: cuda::at(Buffer::MoeGateBias(l), id * f),
                n: f,
            },
        ) + only_if(
            self.up_bias@[l as int],
            Kernel::Add {
                dst: cuda::at(Buffer::UpAll, own),
                src: cuda::at(Buffer::MoeUpBias(l), id * f),
                n: f,
            },
        ) + seq![
            Kernel::Swiglu {
                out: cuda::at(Buffer::ExpertOutAll, own),
                gate: cuda::at(Buffer::GateAll, own),
                up: cuda::at(Buffer::UpAll, own),
                n: f,
                clamped: self.cfg.clamped_swiglu,
            },
        ]
    }

    /// The kernels that add the result of one of four experts.
    pub open spec fn collect_kernels(&self, l: usize, rank: usize, id: usize) -> Seq<Kernel> {
        let d = self.cfg.embed_dim;
        only_if(
            self.down_bias@[l as int],
            Kernel::Add {
                dst: cuda::at(Buffer::DownAll, rank * d),
                src: cuda::at(Buffer::MoeDownBias(l), id * d),
                n: d,
            },
        ) + seq![
            Kernel::AddWeighted {
                dst: cuda::start(Buffer::ExpertAcc),
                src: cuda::at(Buffer::DownAll, rank * d),
                rank,
                n: d,
            },
        ]
    }

    /// The kernels of one expert by itself.
    pub open spec fn single_kernels(&self, l: usize, rank: usize, id: usize) -> Seq<Kernel> {
        let d = self.cfg.embed_dim;
        let f = self.cfg.ffn_dim;
        let x = cuda::start(Buffer::NormOut);
        seq![
            Kernel::Gemv {
                matrix: self.gate_slice(l, id),
                x,
                y: cuda::start(Buffer::Gate),
                columns: d,
                rows: f,
            },
        ] + only_if(
            self.gate_bias@[l as int],
            Kernel::Add {
                dst: cuda::start(Buffer::Gate),
                src: cuda::at(Buffer::MoeGateBias(l), id * f),
                n: f,
            },
        ) + seq![
            Kernel::Gemv {
                matrix: self.up_slice(l, id),
                x,
                y: cuda::start(Buffer::Up),
                columns: d,
                rows: f,
            },
        ] + only_if(
            self.up_bias@[l as int],
            Kernel::Add {
                dst: cuda::start(Buffer::Up),
                src: cuda::at(Buffer::MoeUpBias(l), id * f),
                n: f,
            },
        ) + seq![
            Kernel::Swiglu {
                out: cuda::start(Buffer::ExpertOut),
                gate: cuda::start(Buffer::Gate),
                up: cuda::start(Buffer::Up),
                n: f,
                clamped: self.cfg.clamped_swiglu,
            },
            Kernel::Gemv {
                matrix: self.down_slice(l, id),
                x: cuda::start(Buffer::ExpertOut),
                y: cuda::start(Buffer::DownAll),
                columns: f,
                rows: d,
            },
        ] + only_if(
            self.down_bias@[l as int],
            Kernel::Add {
                dst: cuda::start(Buffer::DownAll),
                src: cuda::at(Buffer::MoeDownBias(l), id * d),
                n: d,
            },
        ) + seq![
            Kernel::AddWeighted {
                dst: cuda::start(Buffer::ExpertAcc),
                src: cuda::start(Buffer::DownAll),
                rank,
                n: d,
            },
        ]
    }

    /// The places of four rows of a buffer.
    pub open spec fn four_rows(buffer: Buffer, width: usize) -> (Place, Place, Place, Place) {
        (
            cuda::start(buffer),
            cuda::at(buffer, width as int),
            cuda::at(buffer, 2 * width),
            cuda::at(buffer, 3 * width),
        )
    }

    /// Four times the start of a buffer.
    pub open spec fn four_starts(buffer: Buffer) -> (Place, Place, Place, Place) {
        (cuda::start(buffer), cuda::start(buffer), cuda::start(buffer), cuda::start(buffer))
    }

    /// The gates of four experts at once.
    pub open spec fn gates_kernel(&self, l: usize, chosen: Seq<usize>) -> Kernel {
        Kernel::Gemv4 {
            matrices: (
                self.gate_slice(l, chosen[0]),
                self.gate_slice(l, chosen[1]),
                self.gate_slice(l, chosen[2]),
                self.gate_slice(l, chosen[3]),
            ),
            x: Self::four_starts(Buffer::NormOut),
            y: Self::four_rows(Buffer::GateAll, self.cfg.ffn_dim),
            columns: self.cfg.embed_dim,
            rows: self.cfg.ffn_dim,
        }
    }

    /// The values of four experts at once.
    pub open spec fn ups_kernel(&self, l: usize, chosen: Seq<usize>) -> Kernel {
        Kernel::Gemv4 {
            matrices: (
                self.up_slice(l, chosen[0]),
                self.up_slice(l, chosen[1]),
                self.up_slice(l, chosen[2]),
                self.up_slice(l, chosen[3]),
            ),
            x: Self::four_starts(Buffer::NormOut),
            y: Self::four_rows(Buffer::UpAll, self.cfg.ffn_dim),
            columns: self.cfg.embed_dim,
            rows: self.cfg.ffn_dim,
        }
    }

    /// The results of four experts at once.
    pub open spec fn downs_kernel(&self, l: usize, chosen: Seq<usize>) -> Kernel {
        Kernel::Gemv4 {
            matrices: (
                self.down_slice(l, chosen[0]),
                self.down_slice(l, chosen[1]),
                self.down_slice(l, chosen[2]),
                self.down_slice(l, chosen[3]),
            ),
            x: Self::four_rows(Buffer::ExpertOutAll, self.cfg.ffn_dim),
            y: Self::four_rows(Buffer::DownAll, self.cfg.embed_dim),
            columns: self.cfg.ffn_dim,
            rows: self.cfg.embed_dim,
        }
    }

    /// The kernels of activation for the first `n` of four experts.
    pub open spec fn all_activate(&self, l: usize, chosen: Seq<usize>, n: nat) -> Seq<Kernel>
        decreases n,
    {
        if n == 0 {
            Seq::empty()
        } else {
            self.all_activate(l, chosen, (n - 1) as nat) + self.activate_kernels(
                l,
                (n - 1) as usize,
                chosen[n - 1],
            )
        }
    }

    /// The kernels that collect the first `n` of four experts.
    pub open spec fn all_collect(&self, l: usize, chosen: Seq<usize>, n: nat) -> Seq<Kernel>
        decreases n,
    {
        if n == 0 {
            Seq::empty()
        } else {
            self.all_collect(l, chosen, (n - 1) as nat) + self.collect_kernels(
                l,
                (n - 1) as usize,
                chosen[n - 1],
            )
        }
    }

    /// The kernels of the first `n` experts, one after another.
    pub open spec fn all_single(&self, l: usize, chosen: Seq<usize>, n: nat) -> Seq<Kernel>
        decreases n,
    {
        if n == 0 {
            Seq::empty()
        } else {
            self.all_single(l, chosen, (n - 1) as nat) + self.single_kernels(
                l,
                (n - 1) as usize,
                chosen[n - 1],
            )
        }
    }

    /// The kernels of the chosen experts: four at once where there are four, otherwise one after
    /// another. They start from zeros and end with the residual.
    pub open spec fn expert_kernels(&self, l: usize, chosen: Seq<usize>) -> Seq<Kernel> {
        let d = self.cfg.embed_dim;
        let zero = Kernel::Zero { dst: cuda::start(Buffer::ExpertAcc), n: d };
        let residual = Kernel::Add {
            dst: cuda::start(Buffer::Hidden),
            src: cuda::start(Buffer::ExpertAcc),
            n: d,
        };
        if chosen.len() == 4 {
            seq![zero, self.gates_kernel(l, chosen), self.ups_kernel(l, chosen)]
                + self.all_activate(l, chosen, 4) + seq![self.downs_kernel(l, chosen)]
                + self.all_collect(l, chosen, 4) + seq![residual]
        } else {
            seq![zero] + self.all_single(l, chosen, chosen.len()) + seq![residual]
        }
    }

    /// The kernels after the last layer: the last norm, and the last product where it is on the
    /// device.
    pub open spec fn final_kernels(&self) -> Seq<Kernel> {
        let norm = Kernel::RmsNorm {
            out: cuda::start(Buffer::NormOut),
            x: cuda::start(Buffer::Hidden),
            weight: Buffer::FinalNorm,
            n: self.cfg.embed_dim,
        };
        match self.lm_head {
            Some(ggml_type) => seq![
                norm,
                Kernel::Gemv {
                    matrix: cuda::whole(Buffer::LmHead, ggml_type),
                    x: cuda::start(Buffer::NormOut),
                    y: cuda::start(Buffer::Logits),
                    columns: self.cfg.embed_dim,
                    rows: self.cfg.vocab_size,
                },
            ],
            None => seq![norm],
        }
    }
}

} // verus!
