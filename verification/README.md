# newt

A verified library for the newt language tools, written in Verus.

- `cursor`, `cursor_iterator`: cursors over text and over items.
- `tokens`: the newt lexer; its tokens cover the source exactly.
- `parse`: the event-recording parser (markers, events, the parser state machine).
- `grammar`: the newt grammar (statements and precedence-climbing expressions) over
  the parser, with a specification of every parse, including the inputs on which a
  parse cannot complete.
- `syntax`: the kinds of syntax nodes.
- `gen_syntax`: the grammar-description tool: lexer, parser with error recovery,
  semantic checks, and error reports rendered for a terminal (colours by `ansi_term`).
- `drawing`: draw lists, extents, handles and RGBA textures.
- `layout`: laying out shapes and stacks into render trees, and walking them.
- `attachments`: a handle-keyed collection of attachments and host surfaces.
- `resource_table`: resources registered under fresh handles, and glyph masks by glyph id.
- `scope`: lexical scopes of the newt runtime: binding, assigning and resolving names.
- `typesetting`: glyph faces (with their RGBA rendering) and glyph runs along one line,
  computed from the metrics a font library measured.
- `glyph_lines`: glyph runs over several lines, placed from an origin with line breaks.
- `swapchain`: when a renderer's swapchain must be rebuilt, from what the GPU answers.
- `frame`: the host's frame decisions: the draw list of a laid-out render tree, and what
  a window event asks of the loop.
- `text_item`: text as a layout item: one glyph run per line, as wide as the widest line
  and as high as the lines together.

`app/main.rs` is the command-line front end of the grammar-description tool: it reads
standard input and prints the errors found, or the parsed grammar.
