# belle_asm

An assembler for a small 16-bit instruction set, written in Verus.

- `src/` is the verified library:
  - `lex.rs` — the line lexer, specified as a step function over the line's
    characters (`spec_lex`), with its laws (declared subroutines keep their
    numbers, accepted lines end with `Eol`, literals are sign-and-magnitude
    bytes, registers and addresses read back from their raw text, text after
    a `;` and blanks around a line are ignored);
  - `encode.rs` — the instruction encoder (`spec_encode`), the bit layout of
    its words, and the case-insensitivity of mnemonics;
  - `verify.rs` — the operand-count check (`spec_verify`);
  - `symbols.rs` — the subroutine table (numbers are positions plus one) and
    the scan of a source file's label lines;
  - `program.rs` — include lines, line preparation and the assembly of a whole
    program into big-endian words (`spec_assemble`), with the exact limits of
    its counters (`assembly_runs`);
  - `tokens.rs`, `text.rs`, `config.rs` — tokens, character helpers, settings.
- `app/` is the command-line program: argument parsing, file reading and
  writing, and the wording and colouring of diagnostics.
- `tests/` exercises the library on concrete programs.
