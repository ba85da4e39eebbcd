# aic

A small compiler for the AIC app-description language, with its contracts proved by Verus.
AIC source text describes one Android activity: its views, state, functions, click handlers,
preferences and database. The library parses and checks that text, evaluates it, optimizes it,
lowers its functions to Dalvik instructions, and writes the binary formats an Android package
is made of.

## Layout

- `src/ir.rs`, `src/ir/`: the intermediate representation; the lexer (`lex.rs`), the parser
  (`parse.rs`), the type and flow checks (`check.rs`, `program.rs`), the call graph
  (`graph.rs`) and a reference evaluator (`eval.rs`).
- `src/opt.rs`, `src/opt/`: whole-program optimization (reachability, dead function removal,
  constant folding) with the proof that evaluation is preserved.
- `src/lir.rs`, `src/lower.rs`: Dalvik instructions, their encoding and branch resolution,
  and the lowering of functions to them.
- `src/encoding.rs`, `src/integrity.rs`, `src/writer.rs`: LEB128 and MUTF-8 encodings,
  Adler-32 and SHA-1, and the minimal DEX file writer.
- `src/res.rs`, `src/res/`: resource ids, the binary Android manifest and the resource table.
- `src/apk.rs`: CRC-32 and the stored ZIP archive that holds the package.
- `src/text.rs`: string helpers shared by the modules.
- `tests/`: executable tests of the library.
- `app/`: the command-line front end (reading files, printing results).
