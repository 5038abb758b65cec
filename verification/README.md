# butterc

A compiler for Butter, a small hobby language, to x86-64 NASM assembly for
Linux. The compiler is a library verified with Verus; a thin command wraps it.

## Layout

- `src/tokenizer.rs`: source text to tokens (`tokenize`).
- `src/parser.rs`: tokens to statements (`parse`), with its symbol tables;
  `parse_reporting` also reports the variables declared twice in one function.
- `src/generator.rs`: statements to the lines of the assembly file
  (`write_asm`), with its stack-slot tables; `write_asm` also reports the
  calls of functions that no declaration names, as warnings, up to the point
  where an error stops the generation.
- `src/print_streams.rs`: how a formatted print to standard error relates to
  the same print to standard output.
- `src/asm_laws.rs`: binary expressions step by step, unformatted prints of
  ASCII texts, which section each statement writes, and the layout of the
  assembly file.
- `src/driver.rs`: the names of the files the command reads and writes.
- `src/text.rs`, `src/chars.rs`: string and character helpers.
- `app/main.rs`: the `butterc` command. It reads the `.btr` file, reports
  errors, writes `<name>.asm`, runs `nasm` and `ld`, and removes the
  intermediate files unless `--preserve_asm` or `--preserve_o` is given.
- `tests/`: tests of the library on concrete programs.

Each public function of the library states its result exactly, over spec
functions that model the tokenizer's scan, the parser's expression steps and
the generator's statement steps. Proof functions named `law_*` state
properties that hold of every input: tokens are never empty, comments are
skipped, a parsed program has one statement per terminator, `endfunc`
exactly for each closing brace, and only statement kinds the generator knows, generation only appends lines, prints and calls
release exactly the stack words they push, the stack slots stay below the
stack height, a formatted print to standard error writes the lines of the
same print to standard output with descriptor 2 in place of 1, a binary
expression in two parts is its first part then its second, every ASCII text of
two or more characters prints and releases what it pushed, and the assembly
file has its sections in a fixed order, each written by the statements that
belong there.
