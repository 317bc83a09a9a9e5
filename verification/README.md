# nativum

A toolkit for native desktop UIs: views are `.native` markup, logic is a Model / Msg /
`update` loop, and a software renderer draws every pixel into a deterministic PNG.

The library in `src/` is written in Verus. Its contracts state what each function returns
over mathematical models (character sequences, byte sequences, views of the AST), and the
laws of the library are proof functions next to the code they are about.

| Module | What |
|--------|------|
| `text`, `span`, `error` | character/UTF-8 helpers, byte offsets to line/column, diagnostics |
| `color`, `tokens` | hex colors, design tokens, radius tokens |
| `expr`, `expr_parse` | expression grammar (spec) and its recursive-descent parser |
| `markup`, `doc_parse`, `ast` | `.native` grammar (spec), document parser, AST and its views |
| `checker` | static checks: element catalog, tokens, bindings, message tags |
| `surface`, `png` | RGBA framebuffer, nearest-neighbour scaling, stored-block PNG encoder |
| `widget`, `font`, `font_data`, `numfmt`, `scaffold` | widget vocabulary, 8x8 glyphs, word wrap, number grouping, app templates, request parameters |
| `manifest` | `app.json` defaults, appearance setting, window title and package name fix-ups |
| `strfn` | the string functions of expressions: `upper`, `lower`, `trim`, `contains` |
| `request`, `watch` | preview-server requests (request line, path and query, body, route), change detection for `--watch` |

`app/` is the `nativum` command line around the library: files, the window host
(winit + softbuffer), the HTTP preview server, and the parts of the engine that compute in
floating point (values, evaluation, expansion, layout, painting, the session).

Laws proved in `src/` include: unknown elements, unknown message tags and names used out of
scope (in the view and in template bodies) always fail the check, and only the set of declared keys and tags matters; a parsed document's root is an element; the zlib stream reads back
as its data; the PNG bytes decode back to the surface's pixels; every PNG starts with the signature; whitespace collapsing is idempotent;
wrapped lines fit their width and lose no text; `#rgb` is `#rrggbb` with doubled digits.
