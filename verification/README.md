# huddletalk

The rules of a room-based audio server, verified with Verus, and the server around them.

- `src/` is the library: rooms and where they are kept (`domain`, `application`,
  `infrastructure`), the rooms of the forwarding unit (`sfu`), the conversation with each client
  (`signaling`, `session`), what is read and asked for in RTP (`rtp`), how a track's audio is cut
  into chunks and turned into transcripts (`transcription`), and what is reported of a producer
  (`stats`). `laws` states what holds across requests.
- `app/` is the server: HTTP and WebSockets through axum, media through mediasoup, Opus decoding
  and Whisper transcription. It does what the library asks for and hands back the outcome.
- `tests/` runs the library.

## Signaling

Clients talk JSON over `/signal`. A request may carry a `request_id`; its answer carries the same
one, and what the server says unasked carries none. A client joins a room first. It then creates
and connects transports, produces on those that send, and consumes, on those that receive, what
others in its room produce. A consumer starts out paused until the client resumes it.

## Settings

| Variable | Meaning | Default |
| --- | --- | --- |
| `HUDDLETALK_MEDIASOUP_LISTEN_IP` | where transports listen | `0.0.0.0` |
| `HUDDLETALK_MEDIASOUP_ANNOUNCED_ADDRESS` | the address that peers are told | `10.0.2.2` |
| `HUDDLETALK_WHISPER_MODEL_PATH` | the Whisper model; without it nothing is transcribed | none |
| `HUDDLETALK_STT_LANGUAGE` | the language that is spoken | left to Whisper |
| `HUDDLETALK_STT_THREADS` | how many threads transcribe | 4 |
