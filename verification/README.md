# Field agent

A sports photographer runs the field agent on a laptop beside the course. It
watches a directory for new photos and sends them, records video, cuts it into
overlapping clips, extracts dated frames from it, and sends clips and frames
when the link allows.

The library in `src/` holds the agent's rules, each stated in a contract and
proved with Verus. `app/` holds the desktop program around it: the window, the
network, the disk, the database, FFmpeg.

## The library

| module | what it decides |
| --- | --- |
| `recorder` | pieces, clips and steps from the settings; FFmpeg's command; when a piece is complete; how a recording stops |
| `assembler` | which pieces make which clip, and whether a clip came out |
| `frames`, `chrono_simple`, `manifest` | when each frame and each clip was filmed, and how that is written |
| `capture` | devices and modes, read from FFmpeg's output |
| `disk` | how much room must stay, and when to stop for lack of it |
| `watcher` | which files are photos, when they are stable, one check at a time |
| `uploader` | how many photos go up at once, how long to wait, when to give up |
| `video_queue` | what waits, in which order it leaves, what becomes of a failure |
| `video_uploader` | clips in pieces, frames in batches, what an answer means |
| `database` | the photos of each session and their counts |
| `auth`, `commands` | logging in, sessions, a turn of the queue, the end of a recording |
| `texte`, `horloge` | text and the clock |

Laws that relate several functions are public proof functions named `loi_...`,
beside the functions they speak of: two clips in a row share exactly the
pieces of their overlap, every piece belongs to a clip, a frame falls within
every clip that holds its piece, what one upload takes no other takes, a
saturated server costs no attempt, dates compare as text.

## What is trusted

- the clock, `str::to_lowercase`, `str::to_uppercase` and `String::push` of std;
- `serde_json::Value`, of which one wrapper reads a text member.

Nothing is claimed of the clock. The rest is said in the doc comment of each
item.

## Instants and delays

The library takes instants as numbers: nanoseconds on the clock of a session
for uploads, milliseconds since the epoch for dates. Fractions (frame rates,
the interval between frames, the overlap ratio) stay in `app/`.
