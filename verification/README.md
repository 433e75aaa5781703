# picmash

Picmash learns what one person likes in a collection of images. It shows two images at a time, takes
a vote, and draws the next pair from what it has learned. Images of outside sources can be mixed in,
compared and taken into the collection.

`src/` is the part that decides: which images may be drawn, what a vote, a heart or a veto does, what
is fetched, kept or thrown away, which settings are accepted. It is written in Verus; each function
states what it returns in its `ensures`, and what holds of several functions together stands beside
them as public proof functions.

- `arena`, `arena_scope`, `arena_session`, `pairing`: the pairs that are shown, and the commands on them
- `duel`, `quality`: what votes count and which models they move
- `remote_pick`, `harvest`, `ready_frontier`, `cache`, `orchestration`: outside sources
- `facemash`, `identities`, `explore`, `asset_domain`: faces, subjects, likeness and kinds of images
- `config`, `lifecycle`, `maintenance`, `runtime`, `gate`: settings, start, background work
- `crush`, `png`, `digest`, `hex`, `ids`, `paths`, `text`, `scalar`: files, names and numbers
- `rank`, `pool`, `recents`, `textset`, `texttable`: orders, selections and small collections
- `acceptance`: the story that a finished build is taken through

Numbers with a fraction are carried through `src/` by their bit patterns (`scalar`) and only compared
there. What computes with them, what reads files or talks to the network, and the loops that carry out
the decisions are in `app/`, over the traits of `app/archive.rs`.

`tests/` runs the library from outside.
