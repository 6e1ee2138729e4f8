# Yellowstone Old Faithful CAR source

Streams the transactions stored in Old Faithful CAR archives as Vixen
`SubscribeUpdate` messages. Only transaction and slot updates are emitted.

The crate is a Verus library; `app/` holds what runs around it.

## Layout

- `src/car/util/` — CBOR items (`cbor`), CIDs (`link`), the CRC-64/ISO
  checksum (`crc`), byte helpers.
- `src/car/node/` — the node kinds of an archive (block, entry, transaction,
  data frame, subset, epoch, rewards), their decoding from CBOR tuples, the
  group of nodes of one block (`nodes`) and the reassembly of payloads split
  over data frames, checked against the first frame's hash.
- `src/car/reader.rs` — the section framing of a CAR file (varint lengths, CID
  then node).
- `src/tx.rs` — Solana transactions as read from the archive and their
  protobuf form.
- `src/meta.rs` — transaction status metadata and block rewards (zstd,
  protobuf or the bincode layout).
- `src/filters.rs` — the pipelines' prefilters and which updates pass them.
- `src/source.rs` — the decisions of the source: which transactions of a block
  are emitted and to whom, slot updates, epoch file names and downloads, the
  limits on blocks and emitted transactions (which hold for the whole stream).
- `src/error.rs` — the source's errors.
- `app/` — the Vixen `SourceTrait` implementation, file reading, the `aria2c`
  download and the conversions to the protobuf types.

The contracts speak of the outside crates (`serde_cbor`, `cid`, `bincode`,
`zstd`, `prost` through `yellowstone-grpc-proto`) through named results of
their calls; everything else is proved.
