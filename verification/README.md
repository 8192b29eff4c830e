# pizza_factory

A node of a distributed "pizza factory". Each node offers capabilities
(actions), learns about its peers by CBOR gossip over UDP, and serves framed
CBOR commands over TCP: `order`, `list_recipes`, `get_recipe`.

The library under `src/` is written in Verus: every function carries a
contract that the verifier proves.

- `recipe`: the recipe text format (`Name = A(k=v)^n -> [B, C]`), its parser,
  the recipe book (one recipe per name), flattening into actions and the
  formula written back.
- `formula`: proof that a recipe written as `Name = formula` reads back as
  the same recipe.
- `text`, `seqs`: the string and search operations the parsers rest on, each
  stated over `Seq<char>`.
- `cbor`, `json`: CBOR and JSON values with their mathematical models;
  `cbor::codec` writes and reads CBOR bytes through `ciborium`, and
  `json_text` prints JSON through `serde_json`.
- `wire`: the length-prefixed frame format, frames that carry CBOR items,
  and message keys.
- `protocol`: gossip messages and what a payload says about a node.
- `server`: the gossip state (peers, version), the reaction to each gossip
  message, the ping rounds, the reply to each TCP command and the console's
  listings.
- `client`: the commands a client sends and how it reads the replies.
- `cli`: the client subcommands as values.

`app/` holds what the verifier does not see: argument parsing, sockets,
threads, files, reading the console, the pretty-printing of replies on the
client, and the copies of the command-line types that `clap` derives.
