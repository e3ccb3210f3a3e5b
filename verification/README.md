# lau_bytecode

A small stack-based bytecode machine for agent programs, verified with Verus:
an assembler from program text (labels, `@label` references, comments) and a
machine with an operand stack, 16 locals, 8 sensor and 8 actuator channels, a
"vibe" register, a call stack and a step budget.

The machine is generic in its value type. It decides which values an
instruction works on, where results go and how control flows; the host
supplies the arithmetic on values through the `Numeric` trait.

- `src/` is the verified library:
  - `text.rs`: decimal rendering, white space, integer and number literals;
  - `numeric.rs`: the host's value operations;
  - `program.rs`: opcodes, their byte codes and text, programs and listings;
  - `vm.rs`: the machine model (`Machine`), one step, bounded runs, and the
    laws they keep;
  - `compiler.rs`: the assembler, specified by `compile_text`;
  - `case.rs`: program text is read without regard to the case of ASCII letters;
  - `reassembly.rs`: the text of an instruction assembles back to it;
  - `programs.rs`: the bundled fibonacci, thermostat and conservation programs.
- `app/` is the `f64` host (`F64`) and the entry points agent code calls:
  `compile`, `new_vm`, `reset`, `step`, `run`, `disassemble`.
- `tests/` runs the library with an `f64` host.
