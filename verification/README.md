# blocky_lang

A small block language: a program is a set of tagged blocks (`<execute>`, `<define>`,
`<execution_policy>`) whose lines are statements such as `println "Hello Block";` or
`let number count = 5;`.

The library under `src/` reads programs and decides what their statements do, with its
behaviour stated in contracts and proved with Verus:

- `psycho_parser`, `scan`, `text`: the call reader (`foo bar`, `foo(bar)`, `bar.foo()`).
- `blocks`, `execution_policy`, `runtime_error`: code blocks, the execution policy and
  the errors it excuses or lets through.
- `define_lines`, `command_line`, `var_handler`, `alu`, `logic`, `output_state`: keyword
  statements, typed values, calculations and logic expressions; `error_text`: the
  messages of the errors in calculations and logic expressions.
- `parse_blocks`, `line_parser`, `variable`, `dot_notation`, `conditional_parser`,
  `value_parser`, `library`, `evaluation`: the block parser with typed variables and dot
  notation, and the steps of running its expressions.
- `symbol_resolver`, `i_core`: kinds of block and core values.

Numbers are held by their numerals; computing with them as `f64`, showing them, and all
input and output are done by the program under `app/`.

The variables of a program (`var_handler::VarMap`) are a `Vec` of named values whose
names are distinct, an invariant of the type. Verus's standard library states what the
methods of a `HashMap` do only for keys whose hashing and equality it models
(`obeys_key_model`): integers and `bool`, not `String`. With a `String` key no lookup,
insert or length of the map could be proved; over the `Vec` each of them is.
