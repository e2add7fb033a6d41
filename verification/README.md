# btcdeb_engine

The engine of a btcdeb-style Bitcoin Script debugger, written in Verus.

Transaction parsing, sighashes, hash functions and signature verification come
from rust-bitcoin and libsecp256k1. They are reached through a few small
functions whose contracts are relied on, not proved: they stand in `crypto`,
`tx` and `hexcodec`, with one each in `spend`, `text` and `tools`. Every other
function carries a contract that is proved from those.

| Module | What it holds |
| --- | --- |
| `num`, `text`, `hexcodec` | script numbers, decimal and hexadecimal text |
| `opnames`, `oplookup` | opcode names and their lookup |
| `assembly` | script decoder, disassembler, assembler |
| `crypto`, `tx` | what the outside crates compute |
| `sig` | ECDSA and Schnorr checks, sighash selection, FindAndDelete |
| `spend` | which scripts an input makes the machine run |
| `stack`, `ops`, `arith`, `locktime`, `checks`, `multisig`, `exec` | what each opcode does |
| `vm`, `interp` | the machine: building, stepping, running, rewinding |
| `laws` | what holds of the machine as a whole |
| `debugger`, `tools` | debugging sessions and the console tools |

`app/` holds the WebAssembly bindings.
