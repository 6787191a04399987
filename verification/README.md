# typhoon

Verified core of a Solana program framework and of its command line tool.

`src/` is a Verus library; every function in it carries a contract that Verus proves.

- Borsh data read and written in place: `le`, `accessor`, `vector`, `writer`,
  `size`, `borsh_layout`, with the round-trip laws in `borsh_laws` and the laws
  that tie ends and field offsets to encoded lengths in `borsh_encoding`.
- What the borsh macro emits: `read_expr` (the read generated for each field),
  `borsh_item` (the expansion of a struct or an enum), `size_derive`.
- Account validation: `discriminator`, `account` (typed accounts made of raw
  accounts after owner, discriminator, balance, signer and program checks),
  `account_keys` (PDA seeds of account state types), `account_derive` (what
  deriving `AccountState` produces).
- What the context macro emits: `sorter` (dependency order of the accounts of an
  instruction, with its laws in `sorter_laws`), `generators` and `account_gen`
  (the steps emitted per account), `entrypoint` (the emitted context struct and
  constructor header, and how the constructor splits the accounts of an
  instruction), `remover` (helper attributes removed
  from items).
- Project tooling: `naming`, `text`, `templates`, `new_templates`, `project`
  (module files, router, manifests), `manifest` (TOML edits), `cli` (the commands).

`app/` is the command line tool: argument parsing, file reading and writing. The
template files are read at run time from the directory named by
`TYPHOON_TEMPLATES`, or from `templates` beside the executable.

`tests/` runs the library on concrete values.
