# Quartz

An inference engine for a single machine: language models in the GGUF format, and images with
Stable Diffusion 1.5 and SDXL. The engine's logic is a library whose behaviour is stated in
contracts and proved by Verus.

## Layout

- `src/` is the verified library.
  - Files: `gguf`, `gguf_tensors`, `quant`, `row_sums`, `half`, `safetensors`, `json`, `pack`,
    `pack_files`, `config`, `sd15`, `sdxl`.
  - Tokenizers: `tokenizer`, `tokenizer_laws`, `sentence_laws`, `bpe`, `byte_chars`,
    `clip_tokenizer`, `t5_tokenizer`, `unicode`.
  - Language models: `llm_config`, `llm_load`, `llm_model`, `llm_attention`, `llm_experts`, `llm`,
    `llm_prefill`, `llm_batch`, `sampling`, `lossy`, `streaming`, `channels`, `generation`,
    `llm_generate`, and the plan of a GPU step in `cuda`, `cuda_kernels`, `cuda_step`, `cuda_bounds`.
  - Text encoder for video: `umt5`, `umt5_buckets`, `umt5_forward`, and the tensor operations of a
    backend in `backend*` with `parity`.
  - Random numbers: `random`. Requests and the command line: `server`, `cli`.
  - Images: `tensor` and its operators, `layers`, `graph`, `blocks`, `unet`, the encoders, the
    decoder with `tiles`, the schedulers, `png`, and the pipelines `sd_generate` and
    `sdxl_generate`.
- `app/` is the program: command line, files, HTTP, and single-precision arithmetic.
- `tests/` runs the library on concrete values.

## Numbers

The library is generic over its numbers. Every operator takes the arithmetic it needs as closures,
and its contract says which of them is applied to what, and in what order. Parameters that are
floating-point numbers, such as a temperature, are passed by bit pattern. `app/numbers.rs` supplies
single precision.

## The program

```
quartz <model.gguf> [prompt] [tokens] [--nosys]
quartz <model.gguf> --list-tensors
quartz <model.gguf> --server [port]
quartz --generate-sd15 <pack directory> <prompt> <image.png>
quartz --generate-sdxl <pack directory> <prompt> <image.png>
```

The server listens on `127.0.0.1`, or on the address in `QUARTZ_BIND`, and answers `/health`,
`/v1/health`, `/v1/models` and `/v1/chat/completions` (a stream of server-sent events).
