# deck-pi

A bit-perfect single-deck transport: a stick of WAV and AIFF files in, an S/PDIF
stream out at the file's own rate, with nothing resampled, scaled or mixed on
the way.

The library under `src/` is verified with Verus. It holds the
deck's decisions, on plain values: what a file header allows, what is read ahead
of the playhead, what a period hands the device, what a press means, what a
panel shows and how it is drawn, what the realtime setup has to read back. The program under `app/` performs the calls
those decisions ask for, and hands back what came of them.

| Module | What it is |
|---|---|
| `file`, `sndfile` | vetting a header, and a read turned into the ring's layout |
| `window`, `ring`, `engine`, `transport` | what is read ahead, the resident frames, the audio callback, the controls |
| `cue`, `loaded`, `path` | cue points kept per volume, the playing track, paths as bytes |
| `browser`, `media` | folders in natural order, and the medium they are on |
| `input`, `surface` | events into actions, and the firmware that makes the events |
| `display` | cells, pixels, the wire to the panel, the console |
| `sink`, `rt` | the output device and the realtime setup, each read back |
| `app`, `cli`, `text`, `scan` | the loops' decisions, the command lines, text |

Times are nanoseconds, rates thousandths of unity, and positions thousandths of
a frame.

Laws that hold of the library as a whole are the public proof functions whose
names begin with `law_`. What is trusted of other crates stands beside the code
that calls them, each with what it claims.
