# wayvr_dictation

Push-to-talk dictation for a VR overlay: hold a button, speak, release, and what
was said is transcribed once and handed to whoever polls for it.

`src/` holds the decisions, proved with Verus: what a capture buffer holds, what
counts as silence, when an utterance is over and whether it is worth a decode,
how a transcript is tidied, and how sessions begin and end. `src/lifecycle.rs`
states what holds of every course that sessions can take.

`app/` drives them: PipeWire delivers the audio, Whisper decodes it, and threads,
channels, the clock and the environment stay there. Audio passes between the two
as the bit patterns of 32-bit samples.

| Variable | Purpose | Default |
|---|---|---|
| `WAYVR_WHISPER_LANG` | language to decode | auto-detect |
| `WAYVR_WHISPER_SOURCE` | source node to capture from | default source |
| `WAYVR_WHISPER_GPU` | device to decode on | `0` |
| `WAYVR_WHISPER_PROMPT` | dictation context | none |
