# conglobate

The build driver of a PMI-only build VM, as a verified library and a thin program around it.

- `src/` is the library: recipes and the lock file, the chain of scutes, copy and run stages, and
  the network bring-up with its netlink and DHCP wire formats. Every function is verified with
  Verus against its contract. Functions named `law_...` state what holds of several of them
  together.
- `app/` is the program: mounts, devices, tools, sockets and the YAML readers. It performs the
  actions that the library asks for.
- `tests/` runs the library on concrete values, with the crates it calls linked in.

The library trusts a few calls, each behind one small function with the claim stated on it: the
YAML writer in `src/yaml.rs`, SHA-256 and hexadecimal in `src/hash.rs`, debug quoting in
`src/quote.rs`, UTF-8 decoding in `src/init.rs`, and `String::push` in `src/text.rs`.
