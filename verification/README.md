# eddn

Read, record and watch the [EDDN](https://github.com/EDCD/EDDN) feed: journal and
market messages of Elite Dangerous, live off the gateway's socket or replayed from
a spool on disk.

The logic is a library written in Rust and verified with
[Verus](https://github.com/verus-lang/verus). A thin program around it owns the
sockets, the files, the clocks and the window.

## Layout

- `src/` -- the verified library.
  - `frame`, `envelope`, `schema`, `message`, `journal`, `json` -- a compressed
    frame read into a message, placed by the schema it was sent under.
  - `network`, `connection`, `reporter` -- what to do about a connection that
    closes, dies or goes quiet, and what is worth saying of it.
  - `spool` -- records, segments, cursors, the recorder and the reader, and the
    laws that tie them together: what was recorded is what is read.
  - `gui` -- what a viewer keeps, counts, lists and words.
  - `moment`, `text`, `error`, `names`, `window`, `progress`, `position`,
    `galaxy` -- what the rest is built from.
- `tests/` -- the library on concrete values.
- `app/` -- the program: `eddn record` writes the feed to a directory, `eddn view`
  shows it in a window.

## What is proved, and what is trusted

Every public function states what it returns for every input it accepts. Where that
is the machine's to say -- how far its clock is set from UTC -- the statement holds
for whatever it says. Properties that span functions stand as public proof
functions: a feed recorded over any run of hours that do not run back, each frame
received outside a leap second, reads back through any number of kills as the
frames that were written; a follower misses none of them; a cursor resumes where it
stopped; pruning keeps the window; a recovery is reported only if its loss was; a
viewer's totals are of everything ever pushed.

Calls into other crates stand behind small functions marked `external_body`. Each
says above it which call it makes and what is claimed of it.
