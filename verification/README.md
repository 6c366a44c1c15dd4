# sigid

Identifiers of 26 characters in Crockford Base32, holding 128 bits: a 48-bit
timestamp (milliseconds since 2020-01-01), a 16-bit worker id, a 14-bit counter
and a 50-bit random part. The library is written in Verus. Its functions carry
contracts that Verus proves; the few that read the system clock, draw random
bytes or call into std or an outside crate rest on trusted contracts, and those
whose result depends on the clock or on chance state only what holds of every
reading.

Layout of `src/`:

- `radix`: digit strings and the numbers they denote, in any base up to 256.
- `encoder`: Crockford encoding of 16 bytes and lenient decoding of 26 characters;
  decoding undoes encoding, and encoding keeps order.
- `layout`: the 128-bit field layout and the laws of packing and unpacking.
- `id`: the identifier type, its field getters, string conversion and parsing.
- `checksum`, `rng`, `clock`, `text`, `consts`: CRC-16 and the check character,
  Xorshift64 and seeds, the system clock, UTF-8 facts, constants.
- `generator`: the generator state machine and its laws (counter steps, identifiers
  that increase with time).
- `flexible`: alphabets, prefixes, check characters on strings, and the
  configurable generator, which keeps its state from one identifier to the next.
- `enterprise`: worker ids, inspection of identifier strings, UUID and ULID
  conversion, and the cluster generator.

`app/` holds what Verus does not take: `Display` texts, serde support, and worker
ids read from the process environment.
