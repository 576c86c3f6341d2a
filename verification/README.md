# veridian

A SystemVerilog language server whose core is verified with Verus.

- `src/` is the verified library:
  - `text`, `rope`, `position`: the model of a document (UTF-8 and UTF-16
    offsets, lines as the rope counts them) and the conversions between
    protocol positions, char indexes and byte offsets;
  - `edits`: applying the client's changes, each described as the edit it
    makes in the syntax tree's coordinates (bytes, rows and columns);
  - `symbol`: symbols and how they are built from the matches of the symbol
    query;
  - `lookup`, `completion`, `navigation`, `tokens`, `hover`, `outline`:
    completion, go-to-definition, hover text, the outline and highlights;
  - `syntax`: what is read from the syntax tree of a text (the symbol
    query's matches, the nodes, the node at the cursor) and the requests
    answered from it;
  - `diagnostics`: reading the output of `verible-verilog-syntax` and slang
    reports.
- `app/` is the server itself: the protocol, the document store, the
  configuration file and the external tools.
- `tests/` exercises the library.

The symbol query is read at start-up from `query.scm` beside the executable;
without it, documents are parsed but no symbols are indexed.
