# figurehead

Turns Mermaid diagram source into text-mode drawings. The library is written
in Verus: every function carries a contract that the verifier proves.

## Layout

- `src/text.rs`, `src/scan.rs`: character-level helpers and token scanning.
- `src/canvas.rs`: the character grid the renderers draw on, and label wrapping.
- `src/model.rs`: character sets, render options, node and edge records, errors.
- `src/er/`: entity-relationship diagrams — database, detector, statement
  grammar and parser, grid layout, how relationship lines meet the boxes,
  renderer.
- `src/state/`: state diagrams — database, line grammar and parser,
  breadth-first ranks, layout, the picture of a layout as a specification,
  renderer, and facts about placement, ranks and edge geometry, the
  visibility of every state, and ASCII drawings.
- `src/pie/`: pie charts — detector, reading of the source lines, legend symbols.
- `src/orchestrator.rs`: picks the plugin for a source and runs it.
- `src/cli.rs`: the command-line options and the decisions the application
  makes between reading and writing.
- `app/`: the `figurehead` command: argument parsing, files and terminals,
  and the floating-point pie chart drawing.
- `tests/`: tests of the library, run against the compiled crate.
