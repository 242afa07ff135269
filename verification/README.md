# polycopy_tool

Core of a Polymarket trade-scanning tool, verified with Verus.

- `src/abi.rs` – ABI encoding of `uint256`, `uint8`, decimal token ids and
  addresses as 32-byte big-endian words, with round-trip laws.
- `src/auth.rs` – EIP-712 order hashing and secp256k1 order signing; L2
  HMAC-SHA256 request signing.
- `src/b64.rs` – padded URL-safe base64 decoding as the inverse of the
  encoding, with its law.
- `src/crypto.rs` – trusted interfaces to `hex`, `base64`, `sha3`, `hmac`/`sha2`
  and `k256`.
- `src/bytes.rs`, `src/text.rs` – byte and text helpers (`0x` stripping,
  decimal rendering, std case mapping and trimming).
- `src/wallets.rs` – the watch list (add/remove) and its laws.
- `src/api.rs` – `/trades` request building and the scan's progress
  (fetch, finish, or abort on the first failed fetch).
- `src/tool.rs`, `src/types.rs` – the tool's schema, replies and request types.
- `app/lib.rs` – JSON (de)serialisation, the host's HTTP/clock/log services
  and the tool's entry points.
