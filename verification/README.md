# wasmtime-wasi-keyvalue-redb

A persistent, embedded [redb]-backed host implementation of the [wasi:keyvalue] API for Wasmtime,
verified with Verus.

All data lives in one redb table, `wasi_kv`. A bucket is a namespace in it: the row of `key` in
`bucket` is filed under `{bucket}\0{key}`.

```
open("logs")   -> rows filed under "logs\0{key}"
open("cache")  -> rows filed under "cache\0{key}"
open("")       -> rows filed under "default\0{key}"
```

## Layout

| Module | Contents |
|---|---|
| `keys` | how bucket and key make a name, and how the names are ordered |
| `counter` | decimal numerals, and how a counter advances |
| `error` | the errors of the interface, and of the builder |
| `handles` | open buckets, and the calls into Wasmtime's resource table |
| `storage` | the calls into redb |
| `context` | the database behind the host, and its builder |
| `host` | the requests: `open`, `get`, `set`, `delete`, `key_exists`, `list_keys`, `drop`, `increment`, `get_many`, `set_many`, `delete_many` |
| `laws` | what holds across requests |

What is believed without proof is in `storage` and `handles`: small functions round the calls into
redb and Wasmtime, with contracts that say what a call does to the rows or the handles. There is one
for each call, but that the three on a draft open its table first, since a table borrows its
transaction. `app/` adds the interfaces to a Wasmtime linker.

A write transaction waits for the one in progress to end, so a context is built of an idle database,
and every request leaves it idle.

[redb]: https://www.redb.org
[wasi:keyvalue]: https://github.com/WebAssembly/wasi-keyvalue
