# fugue

The verified core of Fugue, a small archive of piano sessions: a recorder
listens to a digital piano and uploads each take as a MIDI file, and an API
server stores the takes and renders them as sheet music and audio.

`src/` is the library, proved with Verus:

- `pedal`, `musicxml`: sustain-pedal notation. The pedal presses and
  releases of a take (read with `midly`) are placed, with exact rational
  arithmetic, into the measures of a MuseScore MusicXML score as `<pedal>`
  directions.
- `recorder_state`, `take`, `smf_track`, `live_stream`, `recorder_config`:
  what the recorder keeps of the piano (held keys, pedal, last activity),
  when a take starts and ends and what it is called, the track of a take,
  the stream of live events that keeps every event until it is sent, and
  the checks on the recorder's settings.
- `sessions`, `errors`, `auth`, `live`, `config`, `mscore`: upload checks
  and object keys, API errors, sign-in, live-event routing, and the plain
  data of the server.
- `text`, `tick_sort`, `natural`: searching, trimming, parsing and printing
  characters, the stable ordering of timed items, and natural numbers of any
  size for the exact placement arithmetic.

`app/` holds the programs around it (HTTP server, database, object
storage, MIDI input, uploads); `tests/` runs the library.
