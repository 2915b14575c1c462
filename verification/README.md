# blvm-sdk

Governance primitives and a composition framework for Bitcoin nodes built
from modules, written in Verus: every function under `src/` carries a
contract that Verus proves.

## Layout

- `src/governance/`: BIP32 key derivation (the hashes and curve arithmetic
  are done by `hmac`, `sha2`, `ripemd` and `secp256k1` behind small trusted
  wrappers), BIP44 paths and wallets, PSBT maps and their wire format with a
  proved round trip, message signatures, and nested multisig approval.
- `src/composition/`: module records, the module registry, node
  configurations and specifications, composition validation, and the
  module lifecycle's status records.
- `src/module/`: what a module process needs: command-line argument
  parsing, bootstrap defaults, migration plans, the run loop's decisions,
  storage batches, and the host side of WASM modules.
- `src/codegen/`: what the module macros decide from a handler impl block
  (subcommands, dispatch, RPC names, event handlers), identifier naming, and
  configuration overrides from the environment.
- `app/`: everything that touches the outside world: the disk, the TOML
  configuration file, the node's module manager and databases, the
  connection to the node, and the `blvm-compose` and `blvm-registry` tools.
- `tests/`: tests of the library.

## PSBT bytes

`PartiallySignedTransaction::serialize` writes the magic `psbt`, `0xff`,
the global map, `0xff`, then every input map and every output map, each
closed by `0x00` and followed by `0xff`. Read back, the first map after the
global map is the one input map and the rest are output maps, so this plain
layout is kept wherever it reads back as written: exactly one input map, or
no maps at all. Otherwise (no input maps but output maps, or two or more
input maps) one more `0xff` stands right after the global map's separator
and another right after the last input map; `deserialize` reads the input
maps up to that second mark. Every PSBT whose maps the format can carry
reads back as it was written (`lemma_psbt_roundtrip`), and bytes in the
plain layout read as before (`lemma_plain_bytes_read`).
