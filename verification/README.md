# bulb

A scanner for a small expression language, its first compiler step, and the
decisions of its read-eval-print loop, verified with Verus.

- `src/scan.rs`: tokens, scan errors and the scanner. `Scanner::scan` returns
  exactly what `grammar::scan_spec` says of the source's characters.
- `src/grammar.rs`: the lexical grammar as spec functions.
- `src/chars.rs`: the character classes the scanner tests.
- `src/display.rs`: the text of tokens and errors.
- `src/repl.rs`: what the REPL prints for a line, and when it stops.
- `src/compilation.rs`: compiles a numeric literal into a constant.
- `src/laws.rs`: properties of every scan, proved.
- `app/`: the program that reads standard input, and the floating-point form
  of compiled instructions.
