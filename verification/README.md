# oaifai

A tiny terminal program to scan for WiFi networks and connect to one, on systems
that use netplan without NetworkManager.

- `src/` is the library: parsing what `iw` and `ip` say, the netplan
  configuration, the steps of connecting, the state of the screens and what they
  show. Verus proves the contract of every function but those listed below.
- `app/` is the program around it: commands, files, threads and the terminal.
- `tests/` runs the library.

Signal strengths are single precision numbers. The library carries their bits and
orders them; reading them from text, and turning them into a quality in percent,
is left to the program.

## What is believed

The proofs rest on contracts of outside code that nothing proves. Each says in its
doc comment what it claims.

- `src/text.rs`: `String::push`, `String::pop` and `String::clear`; `decode_lossy`
  for `String::from_utf8_lossy`; `to_lowercase` for `str::to_lowercase`.
- `src/tui.rs`: `holds_control` for crossterm's `KeyModifiers::contains`.
- `src/geometry.rs`: `inside_border`, `split_footer` and `inset` for ratatui's
  `Block::inner`, `Layout::split` and `Rect::inner`.

Beyond these they rest on Verus itself and on what its library says of Rust's.
