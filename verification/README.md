# isa_utils

A toolchain for a small 32-bit RISC-style instruction set, verified with Verus:
instruction encoding and decoding, an assembler (lexer, parser, label
resolution, error reports against the source) and a virtual machine.

Instructions are 32 bits: a 4-bit opcode in bits 31..=28, then register
fields of 5 bits and an 18-bit (signed, or unsigned for jump targets) or
28-bit (unsigned) immediate, depending on the opcode's format.

## Layout

- `src/` — the library; every function carries a contract that Verus proves.
  - `bits`, `types`, `format_spec`, `codec`, `encoder`, `layout`: words,
    opcodes, formats, encoding and decoding, with the round-trip laws.
  - `text`, `opcode_names`, `lexer`, `isa`, `parser`, `errors`, `assembler`:
    the assembler, specified by spec functions over character sequences.
  - `output`: the text, hexadecimal and byte forms of assembled words.
  - `memory`, `vm`, `executor`: the machine, its one-step semantics and its
    laws.
- `tests/` — tests run against the compiled library.
- `app/` — the command line: `assemble`, `check` and `run`.

## Design notes

- The parser's label table is a list of `(name, instruction index)` pairs
  rather than a `HashMap<String, usize>`. Verus's specification of std's hash
  maps supports proofs for keys whose hashing it models, such as integers;
  with `String` keys not even the length after one insert can be proved, so
  label lookups through such a map could not be. A label defined twice is rejected before it is added, so every
  name occurs once in the list, and a lookup finds the one entry.
- Immediates are lexed as `isize`, so that negative values can be written.
  Numbers above `isize::MAX` do not fit that type; the lexer reports them as
  unreadable (`try_lex` gives `None`).
