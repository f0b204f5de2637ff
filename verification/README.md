# ledb

A lightweight embedded document store. The verified library (`src/`) holds
the store's logic with its contracts and laws, proved by Verus:

- `value`: key data, its stored bytes, its order and its conversions
- `document`: generic document data and documents with identifiers
- `selection`, `filter`: sets of identifiers, filters and orderings
- `modify`: modifiers of documents
- `index`, `collection`, `storage`, `enumerate`: index keys of documents and
  their changes, definitions of collections and indexes, storage options
- `actor`, `scope`: messages of the storage actor and reply data
- `refine`: numbers of document data made floats
- `derive`: what the `Document` derive records of a struct: its primary,
  indexed and nested fields
- `query`: the text forms of filters, comparisons, modifier actions and
  modifiers, parsed against grammars stated as spec functions
- `statement`: the statements of the query language (`index for`, `find`,
  `insert into`, `update in`, `remove from`) and the parts they give
- `pool`: the handles of the storages opened in a process, by their path

`app/` runs the store on LMDB, holds the serde forms of the library's types,
the floating-point arithmetic, and the actix actor. `tests/` exercises the
library.
