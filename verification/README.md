# crabformer

A byte-level, GPT-style language model. The verified library (`src/`) holds the
integer-valued logic, each function with a contract proved by Verus:

- `tokenizer`: byte tokenizer; decoding the tokens of a text gives the text back.
- `data`: ring-buffer shuffler and data loader; every batch is a set of contiguous
  windows of the most recent tokens, with targets shifted by one token.
- `generate`: context padding, stop rule and chat-line reading of text generation.
- `metrics`: time spans and per-layer timing records.
- `training`: batch counting and checkpoint schedule.
- `dashboard`: crab animation, time and chart-size arithmetic of the dashboard.
- `layers`: parameter keys, gradient reset trait, attention head split check.

`app/` is the program around it: command line, file reading, the floating-point
model (layers, loss, optimizer, sampling) and the terminal dashboard.
