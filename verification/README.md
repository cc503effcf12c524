# mimo_asr

A client for the batch speech recognition of Xiaomi MiMo, verified with Verus.

The library in `src/` makes every decision of a transcription and is proved to
meet its contracts. It never touches a file or the network: each state of a
`Transcription` says what is to be done next, and the answer is handed back to
the client. `app/` does that work, with `reqwest`, `serde` and `std::fs`.

| Module        | What it holds                                                  |
|---------------|----------------------------------------------------------------|
| `text`        | trimming, joining and numerals                                 |
| `error`       | the errors of a transcription                                  |
| `pcm`         | little-endian integers and 16-bit samples                      |
| `audio_utils` | downmixing to mono, resampling to 16 kHz                       |
| `wav`         | writing and reading RIFF/WAVE files                            |
| `mp3`         | MP3 encoding with LAME                                         |
| `audio`       | which files are encoded, which are sent as they are            |
| `request`     | the endpoint, the `data:` URI and the body of the request      |
| `response`    | the transcript, or the error, in a reply                       |
| `client`      | the steps of a transcription                                   |

What is believed without proof is marked `assume_specification` or
`#[verifier::external_body]`: calls of `std`, of `base64` and of
`mp3lame-encoder`. The Ogg/Opus decoder is passed in by the caller of `app/`.
