# voxtral

A speech-to-text backend that runs Mistral's Voxtral models on the GPU and
speaks the Super STT `/v1` protocol. The library in `src/` holds its rules, from
the protocol to the decoding, and is verified; the arithmetic on tensors and
samples, the progress bar and the I/O are in `app/` and are not.

| Path | What it holds |
|---|---|
| `src/transcript.rs` | The cleanup of a transcript. |
| `src/protocol.rs` | The states of a load, and what each request is answered. |
| `src/files.rs` | Where a model's files are, and the marker of a finished warm-up. |
| `src/config.rs` | The settings of a checkpoint, and whether they agree. |
| `src/checkpoint.rs` | The names of a checkpoint's tensors, and whether its shards fill the model. |
| `src/audio.rs` | Padding, framing, the split over threads, the cut into chunks. |
| `src/tokenizer.rs` | The ways to tokens and back, and which tokenizers are known to be total. |
| `src/prompt.rs` | The prompt, the place of the audio in it, and the way back to text. |
| `src/decoding.rs` | Greedy decoding: what is fed back, and when it ends. |
| `src/shapes.rs` | Heads, rotary channels, caches and embeddings: what goes where. |
| `src/engine.rs` | The accelerator, the type of the weights, the steps of a load. |
| `src/taps.rs` | Intermediate outputs, recorded by name. |
| `src/reference.rs`, `src/settings.rs` | The tool that dumps candle's own Voxtral for a comparison. |
| `src/text.rs`, `src/arith.rs` | What the others share. |
| `app/` | The server, the tensors on Burn, the transform of the samples, and the tool on candle. |

The library calls `tekken` and `serde_json` through small functions whose
contracts say what is taken from those crates; everything else in `src/` is
proved from them.
