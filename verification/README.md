# voicetype

The core of an fcitx5 addon for push-to-talk voice input: hold a key, speak, and
the text appears at the cursor. Captured audio is streamed to 豆包流式语音识别
(VolcEngine streaming ASR, v3 binary protocol, `bigmodel_async` endpoint with
two-pass recognition); partial transcripts come back while the user speaks, and
the final one when the key is released.

- `src/` is the library, verified with [Verus](https://github.com/verus-lang/verus).
  It builds and reads the frames of the protocol, chooses the gateway, and
  decides what a session does about everything that can happen in it.
- `app/` is the ordinary Rust around it: the C ABI of the addon, the microphone
  (`cpal`) and the websocket (`tokio-tungstenite`).
- `tests/` exercises the library with the real outside crates.

What is trusted is marked in the source: every function with
`#[verifier::external_body]`, and every `assume_specification`, names the outside
function that it stands for and says what is claimed of it.

| module    | what it holds                                                    |
|-----------|------------------------------------------------------------------|
| `config`  | the configuration, hotwords, and the routes that the keys open   |
| `connect` | requests to the gateways, and which one is tried next            |
| `payload` | the settings that open a session                                 |
| `frame`   | the frames of the protocol, both ways                            |
| `session` | the session, one step at a time                                  |
| `trace`   | what holds of whole sessions                                     |
| `notice`  | what the addon is told, and when it no longer is                 |
| `audio`   | the choice of the microphone, and samples as bytes               |
| `json`    | JSON values                                                      |
| `gz`      | compression                                                      |
| `text`, `bytes`, `error` | characters, words and samples, failures           |
