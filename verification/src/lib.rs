//! Quartz: the verified core of an on-device inference engine.

pub mod arithmetic;
pub mod attention;
pub mod attention_laws;
pub mod backend;
pub mod backend_error;
pub mod backend_norm;
pub mod backend_patch;
pub mod backend_rows;
pub mod backend_time;
pub mod backend_wan;
pub mod block_laws;
pub mod blocks;
pub mod bpe;
pub mod byte_chars;
pub mod channels;
pub mod cli;
pub mod clip_tokenizer;
pub mod config;
pub mod conv;
pub mod cuda;
pub mod cuda_bounds;
pub mod cuda_kernels;
pub mod cuda_step;
pub mod decoder_laws;
pub mod exact;
pub mod fields;
pub mod float_order;
pub mod fold;
pub mod generation;
pub mod gguf;
pub mod gguf_tensors;
pub mod graph;
pub mod half;
pub mod image;
pub mod json;
pub mod layer_laws;
pub mod layers;
pub mod layout;
pub mod llm;
pub mod llm_attention;
pub mod llm_batch;
pub mod llm_config;
pub mod llm_experts;
pub mod llm_generate;
pub mod llm_laws;
pub mod llm_load;
pub mod llm_model;
pub mod llm_prefill;
pub mod lossy;
pub mod norm;
pub mod ordering;
pub mod pack;
pub mod pack_files;
pub mod pair_map;
pub mod parity;
pub mod png;
pub mod png_laws;
pub mod product_laws;
pub mod quant;
pub mod quant_laws;
pub mod random;
pub mod reshape;
pub mod row_sums;
pub mod safetensors;
pub mod sampling;
pub mod sampling_laws;
pub mod schedule_laws;
pub mod sd15;
pub mod sd_clip;
pub mod sd_generate;
pub mod sd_pipeline;
pub mod sd_scheduler;
pub mod sd_unet;
pub mod sd_vae;
pub mod sdxl;
pub mod sdxl_clip;
pub mod sdxl_generate;
pub mod sdxl_pipeline;
pub mod sdxl_scheduler;
pub mod sdxl_unet;
pub mod sentence_laws;
pub mod server;
pub mod staging;
pub mod streaming;
pub mod t5_tokenizer;
pub mod tensor;
pub mod tensor_error;
pub mod text;
pub mod text_encoder;
pub mod tiles;
pub mod tokenizer;
pub mod tokenizer_laws;
pub mod umt5;
pub mod umt5_buckets;
pub mod umt5_forward;
pub mod umt5_laws;
pub mod unet;
pub mod unet_laws;
pub mod unicode;
pub mod video_laws;
pub mod word_laws;
