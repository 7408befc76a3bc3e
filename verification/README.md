# wincrust

Windows desktop automation over MCP: see the windows, act on a control, read the
screen, wait for something, start an application.

`src/` is the part that decides. It is written in Verus and verified, except for
the calls in `src/foreign.rs`: label matching, signed scopes, surveying an element tree, acting on
an element, comparing and cropping pictures, finding text, the emergency stop,
access and launching. It works on plain values and never touches the desktop.

- `src/laws/` states what holds of the library as a whole.
- `src/foreign.rs` holds the calls into other crates and into parts of the
  standard library that carry no specification. Their contracts are believed
  rather than proved, and each says what it claims.
- `tests/` runs the library on concrete values, with the other crates linked.
- `app/` is the program around it: arguments, COM, capture, OCR and transports.
