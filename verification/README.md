# prune

Private transfers of Runes on Bitcoin, with the protocol's logic proved correct in Verus.

A holder *shields* a public balance into a private note, *transfers* notes to other holders, and
*unshields* a note back into a public balance. The chain sees commitments, nullifiers, proofs and
encrypted notes, and with them which Rune is moved, the fee of a transfer and the amount of an
unshield. Owners, and the amounts of notes that stay private, are encrypted for the receiver.

- `src/` is the library. Every function has a contract, and Verus proves it. Calls into other
  crates (field arithmetic, SHA-256, x25519, ChaCha20-Poly1305, hexadecimal text, script encoding,
  taproot, Groth16 verification) stand behind small wrappers whose contracts say what is relied on.
- `app/` is the program around it: the command line, the wallet file, the connection to a Bitcoin
  node, Groth16 setup and proving, and the exports for a browser.
- `tests/` runs the library.

The laws that the parts keep together are proof functions whose names start with `law_`: an envelope
reads back as the operation it was made from, a Merkle path leads to the root, a spend conserves
amounts, a leaf has one nullifier, a spent note is refused, a saved wallet loads as itself, and so on.
