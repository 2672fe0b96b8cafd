# atuin_client

Record sync and packfiles for a shell history: which records two stores owe each other, in which
order they move, and how a run of history is packed into one compressed, encrypted bundle. The
library is written in Verus; what each function does is stated in its contract and proved.

## Layout

- `src/record/` is sync. `status` compares two stores, `sync` turns the differences into an ordered
  list of operations and carries them out, `upload` and `download` move the records of one host and
  tag page by page. `encryption` is the interface to a cipher, `domain` the records themselves.
- `src/packfile/` is packfiles. `codec` packs and unpacks, `record` is the manifest, `upload` and
  `download` ship bundles, `batch` works through a list a stretch at a time, `wire` calls the
  encoders.
- `src/order.rs` and `src/text.rs` are a stable sort and the little that is needed of strings.
- `app/` drives the library against any store and server that implement its traits.
- `tests/` runs it.

## How it is put together

Whatever waits for a store or a server is a state machine. A state says what is to be done next; the
driver does it and hands back an event; one step function goes on from there. Each step function has
its relation (`upload_step`, `sync_download_step`, ...) as its contract, and the laws about whole
runs (`law_...`) are proved over sequences of such steps.

## What is taken on trust

- `src/packfile/wire.rs` calls `rmp_serde` and `zstd`. What they return has a name there. Said of
  them besides: that decoding reverses encoding, that the MessagePack encoder does not fail, and that
  zstd fails to compress, or to decompress what it compressed, only where it cannot get memory, with
  the text that it has for that. When memory runs out is not said. Decoding is fixed to the array
  form of records and envelopes.
- `src/text.rs` calls the `Debug` form of a string.
- Nothing is taken on trust of a cipher. What holds only of a cipher that opens what it sealed, or
  that opens nothing else, says so: `is_lawful` and `is_authentic`.
