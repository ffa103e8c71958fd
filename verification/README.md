# emit

The Go code planner of a compiler that targets Go, verified with Verus.

A function body is first lowered into a tree of statements (`bodies`) over Go
expressions (`go_expression`, `values`); cleanup rewrites then simplify that
tree before it is rendered as Go text (`render`). Every function here carries
a contract over a mathematical model of the tree (`model`), and Verus proves
the code against it.

Modules:

- `text`: Go names and the tokens of Go text.
- `model`: the views of expressions and statements, renaming of identifiers,
  and the Go text an expression is written as.
- `go_expression`, `values`: the expression tree, its printing with the
  parentheses Go needs, constant kinds and value plans.
- `bodies`, `render`, `copy`: the lowered statements, what they write and
  where control goes, their Go text, and `Clone` for the tree types.
- `walk`, `visit`, `lists`: visiting the expressions and statements of a body,
  renaming generated names, and running a rewrite over every statement list.
- `cleanup`, `aliases`, `temps`, `found`: the cleanup rewrites (compound
  assignments, terminal `else`s, return and name aliases, unread temporaries,
  searches that return what they found) and `clean_up`, which runs them all.
- `placement`, `patterns`: plain assignments, folding a declared temporary
  into `x := value`, boolean branch joining, `if`/`else if` chains.
- `laws`, `counting`, `nesting`, `held`: properties that hold across these
  operations, how many statements a body holds before and after each
  rewrite, that no statement is ever nested in itself, and that every
  expression a visit reaches lies inside the visited statement.

Lowering from source syntax (the planner that builds these trees from the
parsed and type-checked program) is not in this crate: it works on the
syntax tree and type store of the front end. The crate starts from the
lowered tree.

The editor side of the compiler is here too:

- `position`: the line index of a document, converting byte offsets to
  line/column positions (UTF-16 columns) and back.
- `document`: what an open document remembers of its analyses and of the
  diagnostics run scheduled for it.
- `diagnostic`: a compiler diagnostic in the form an editor shows.
- `protocol`, `framing`: where a session stands between `shutdown` and
  `exit`, what the server does with each message, protocol errors, and the
  `Content-Length` headers that frame messages.
- `reference_graph`, `collect`: the reference graph behind the unused-code
  lints and the items reachable from the entry points, and which top-level
  items of a module enter it.
- `analysis`: the diagnostics an analysis reports, errors first.
- `source_lines`, `params`: line and column numbers for `//line`
  directives, and Go parameter lists grouped by type.
- `printf`, `escapes`, `constant_fold`: the pieces of the lints that read
  `printf` format strings, the run-time bytes of string literals, and
  integer constants folded in `i128`.

`tests/` exercises the library on concrete values.
