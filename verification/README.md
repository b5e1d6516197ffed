# reclipse

Tool to re-execute Eclipse blocks on top of a downloaded snapshot, with its
decision logic verified in Verus.

- `src/` is the verified library: network endpoints and names (`cli`),
  decimal rendering and parsing and text tests (`text`), file-system path
  operations delegated to `std::path` (`paths`), the test-vector collection
  state machine and listing (`commands::snapshot`), the choices made when
  replaying (`commands::replay`), archive classification (`toolkit::decompress_file`),
  download decisions (`toolkit::download_file`) and the snapshot URL
  (`solana::rpc_client`).
- `app/` is the command-line program: RPC calls, downloads, file I/O and the
  Solana runtime, driven by the library.
- `tests/` runs the library on concrete values.
