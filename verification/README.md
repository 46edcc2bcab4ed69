# phi3_mixed_quant

Mixed-precision quantized inference for Phi-3 Mini on the CPU. What decides and
what handles data is a library verified with Verus, under `src/`; what computes
with floating-point numbers, reads files and talks to the user is ordinary Rust
around it, under `app/`.

The work goes in three stages.

- Quantize: the weights of a model are routed to eight-bit blocks (`Q8K`) or, for
  the MLP down projections, four-bit blocks (`Q4K`). Embeddings and norms stay as
  they are. A column permutation, a six-bit format and a format with blocks of 128
  values can be switched on.
- Pack: quantized blocks, metadata and the other tensors become one SafeTensors
  file.
- Run: the packed file is loaded and a conversation is held, or the perplexity of
  a text is measured.

| Module | Holds |
|---|---|
| `text`, `bytes` | texts, numbers and little-endian words |
| `types` | file headers, model configuration, element types, widening to single precision |
| `quant_file`, `quant_q8k_128` | files of quantized blocks and the 128-value block |
| `quantize`, `permutation` | routing of weights, column permutations |
| `container`, `pack` | SafeTensors files and packing |
| `quant_linear`, `loader` | quantized layers and whole models out of packed files |
| `model`, `cache`, `scratch` | layouts of projections, masks, cached keys and values, buffers |
| `tokens` | tokens of texts, texts of tokens, and which tokenizers can be used |
| `conversation`, `generation`, `repl` | chat history and its window, answers token by token, turns |
| `perplexity` | chunks of a corpus and their targets |
| `sources`, `cli` | arguments, repositories and their shards |

Floating-point numbers appear in the library as their bits. Where a step needs
arithmetic on them, the caller hands it in as a function, and the contracts say
what the function is applied to and where its results go.

Functions named `law_..` state what holds across several functions.
