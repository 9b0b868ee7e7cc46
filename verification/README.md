# willamette

Inference with BitNet, classic Llama and Qwen2 models in GGUF files, with the
logic verified by Verus.

- `src/` is the library. Every function states what it returns, or why it
  refuses, and is proved to do so.
  - `gguf/` reads files, plans low-memory copies of them and lays those out.
  - `model/` reads configurations, checks tensors, unpacks and multiplies
    quantised weights on integers, keeps the cache of keys and values, and decides
    the order of the steps of a forward pass.
  - `chat/` holds the line editor, the conversation, stop texts, markdown, the
    commands and the dashboard.
  - `commands`, `report`, `text`, `cut` and `quotient` build what is shown.
- `app/` is the program around it: arguments, files, the terminal, threads, and
  arithmetic on floating-point numbers. Floating-point numbers pass through the
  library as bit patterns.
- `tests/` runs the library.
