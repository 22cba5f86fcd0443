# lib: the verified core of the Chaos tools

Chaos runs large language models from disk on ordinary machines: a front
door (`chaos`), a runner (`chaos-run`), and the engine behind them. This
crate holds the parts of them that decide things, written in Verus and
proved against their contracts. The tensor engine, the container reader and
the network client are separate crates and are not part of it.

## src/

- `text`, `json`: the character-level helpers, and the JSON escape and
  unescape that the bodies and pages are built with.
- `mode`: the saved run mode, and that it reads back as written.
- `cli`, `commands`: the front door's aliases, request bodies, pid and log
  files, completions, help, and what `connect` and `status` are aimed at.
- `chunk`: what a streamed chat-completion chunk or a status reply says.
- `grimoire`: the local pages, with the host's values stamped in.
- `qwen3`, `container`: the dense-family configuration read from a
  container's metadata, the tensors it needs, and its refusals.
- `deepseek4`, `routing`: the raw latent ring, routing histograms and their
  reports, which tensors may be repacked, and how expert slices are read.
- `trunk_quant`: which resident tensors are converted, and in what order.
- `run`, `writer`, `overrides`, `prompt_cache`, `plan`: the runner's prompt
  escapes, reasoning blocks, context shift, UTF-8 output, `--override-kv`,
  the prompt cache file, and `--auto`.
- `runner`: what the runner refuses before loading a model, how it sizes
  the expert cache and what `--auto` may fill in, and what one generated
  token does to a turn (stop strings, the reasoning budget, context shift).

Each module states its laws as public proof functions next to the code they
are about.

## app/

The `chaos` program itself (`main.rs`, `os.rs`), and the model runner's
engine side (`run.rs`, `runner.rs`): the container, tokenizer, forward
passes, files, processes, the machine probe and the HTTP client, each
handing plain values to the library. The runner's command-line flag table
is not here; `run::RunRequest` is what it fills in.

## tests/

Scenarios on concrete values, one file per area.
