# KECC core, verified

The core of the KAIST Educational C Compiler as a Verus library: the data types of C and of
the intermediate representation (IR), the forming of IR types from C declarations, the
translation of global declarations, IR equivalence, the IR printer, the IR interpreter (its
value arithmetic, its memory of bytes, and its steps through instructions, jumps, calls and
returns, and the start and run of `main`), the picture of a program in the DOT language, the
equivalence of C declarations, the pass combinators and control flow graph helpers of the
optimizer, and the RISC-V assembly printer.
Every function in `src/` carries a contract that Verus proves.

Layout:

- `src/c/` — the parts of the C syntax tree that the compiler reads (`ast`), and the
  equivalence of declarations (`ast_equiv`).
- `src/ir/` — IR types (`dtype`), types from C declarations (`dtype_ast`), IR code and its
  text (`code`), programs (`program`), struct field offsets (`offsets`), equivalence of IR
  functions and programs (`equiv`), the IR text (`write_ir`) and its reader (`parse`), and the interpreter: value
  arithmetic (`interp`), values as bytes and the memory (`memory`), registers, frames and
  steps (`machine`), default and initial values, the first state and runs (`driver`); and the
  DOT picture of a program (`visualize`).
- `src/irgen/` — translation of global declarations and function headers, and the state of
  the translation of a function body (`func`).
- `src/opt/` — the pass interface and its combinators, and control flow graphs.
- `src/assembly/` — the assembly data types and their printer.
- `app/` — the command line: parsing C with `lang-c` and converting its syntax tree, or
  reading an `.ir` file; printing, drawing the IR with `dot` and running it.
- `tests/` — tests of the library on concrete values.
