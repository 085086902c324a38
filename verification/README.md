# def_compiler

A verified compiler for the text definitions of Fable: The Lost Chapters.

`src/` is the library. Its functions have contracts that Verus proves; the few that call
the standard library or `codespan-reporting` say in their comments what is taken on trust.

- `text`: tokens, the grammar, the syntax tree and the symbols of headers.
- `eval`, `single`, `natural`: expressions and their values; floating-point numbers are
  computed on their bits.
- `reader`: the statements of a definition, read by field name.
- `value`, `order`, `name_map`, `strings`, `bytes`, `crc32`: the data that the rest works on.
- `lower`: from statements to the fields of a definition, type by type.
- `defs`: the structures of definitions.
- `names`: the table of names, as it is stored.
- `build`: from the files of a corpus to the entries of a binary, and what there is to say
  about them. Strings come into the table of names in the order in which a binary asks for
  them, and the offsets in its entries are those of the finished table.

The laws that hold of several functions together stand as public proof functions, most of
them at the end of a module under "Laws".

`app/` is the program around the library: the command line, the files, the terminal, and
callers in C. `tests/` runs the library.
