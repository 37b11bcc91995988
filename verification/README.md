# airplay-bridge

Streams audio to AirPlay receivers, several at a time. `src/` is the protocol as a verified library;
`app/` is the Android side around it, which owns the sockets, the threads and the Java interface.

- `audio`: ALAC frames, conversion of the sample rate by linear interpolation.
- `session`: one receiver. `setup` is the handshake from OPTIONS to RECORD with the key exchange in
  between, `run` carries out commands and keeps the connection alive, `stream` turns PCM into
  encrypted RTP packets. Each takes an event and says what to do next.
- `bridge`: the sessions of all receivers, at most one with each.
- `requests`, `headers`, `response`: RTSP as it is written and read.
- `rtp`, `timing`: audio packets, and answers to the receiver's timing queries.
- `text`: characters, lines and numbers.
- `outside`: the calls into other crates, each with what is believed of it.

Functions named `law_..` state what holds of the library as a whole.
