# irken

A chat-room game bot. People in a channel can look around and at items,
describe themselves, craft items, describe the items they made, and give
items to one another; everyone who joins starts with a purse of coins.

- `src/` is the verified game: `text` (trimming, splitting, joining, numbers),
  `world` (items, inventories, characters), `commands` (one function per
  command, each with a contract over the views of the world), `bot` (reading a
  message as a command and carrying it out) and `laws` (what holds across
  commands: items are conserved by giving, making adds exactly one piece and
  never currency, only an item's creator can remake or describe it, `create`
  and `craft` are `make`, quitting ends the session, and the roll call).
- `app/` connects to the chat server, keeps the list of users current, and
  sends the replies. The async runtime crates in `Cargo.toml` serve it alone.
- `tests/` runs the commands on concrete rooms.

## Why the collections are vectors

Items, characters and inventories are looked up by name. vstd specifies
`std::collections::HashMap` only for key types that it models as obeying its
hash-table key model, which it grants to the primitive integer types and
`bool` (and boxes of them), not to `String`; any other key type needs an
assumption that this crate does not make. So each collection keeps its entries
in a vector, finds an entry by comparing names, and holds as a type invariant
that no two entries share a name (and, for inventories, that no stack is
empty). Their views are sequences in the order in which entries were added,
which is also the order in which the bot lists them.
