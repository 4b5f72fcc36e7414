# Third-party license listings

This library makes a listing of the licenses of a Rust crate's dependencies, as an HTML
page or as JSON. It is written in Verus: what each function does is stated in its
contract and proved.

- `resolve`: the packages that a crate is built from, out of the graph of `cargo metadata`
- `cfg`: target predicates that no real platform satisfies
- `expression`: license expressions and the accepted licenses
- `files`, `harvest`: license files of a crate and the text that is shown for a license
- `listing`, `laws`: licenses with their texts and crates, and what holds of every listing
- `html`, `json`, `generate`: the listing as text
- `command`, `error`: the command line, the calls of cargo, and what can go wrong
- `text`, `order`: texts, their order, and items kept in order

Expressions are parsed by the `spdx` crate and JSON is written by `serde_json`. What is
taken for granted of them, and of a few functions of `std`, stands at the items marked
`external_body` and `assume_specification`.

`app/` is the program around the library: it reads the command line, calls cargo, reads
the files and writes the result.
