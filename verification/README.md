# clip_llm

Sends what is on the clipboard to a language model and puts the answer back: a
single tap of the hotkey shows it; a double tap copies the selection first and
pastes the answer over it.

`src/` is the library. It holds every rule of the tool, each with its contract,
proved by Verus:

- `text`, `utf8`, `numbers`, `clock`, `json`, `base64_text`, `toml_doc`: the
  ground that the rest stands on. The last three speak for the crates that do
  the work.
- `mode`, `config`, `prompt`, `starter`, `settings`: what can be configured, what
  prompts are made of it, and how the settings panel writes it back.
- `hotkey`, `coordinator`, `clipboard`, `files`: gestures, and what a capture
  finds.
- `api`: requests, streams, replies, retries and probes; `api::auth`: tokens.
- `images`: which pictures of a page or a text are sent along, and at what size.
- `lang`: which way to translate.
- `diagnostics`, `platform`, `telemetry`: scenarios, keys and windows, log lines.

What waits for the world (a pause, a reply, a key) is written as a step: a
function from what is known and what has just happened to what is to be done
next. `app/` does it, and comes back with what happened.

`app/` is the program around the library: files, the network, the clipboard, the
keyboard and a console to talk through. `tests/` runs the library on given values.
