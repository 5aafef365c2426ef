# sporaxis

An ontology-first OCI bundle assembler. A composition graph (five entity
types, six predicates) goes in; the bundle's outputs come out: a multi-stage
Dockerfile or a by-digest layer plan, `bundle.yaml`, the s6 service tree, the
smoke script and `composition.ttl`.

- `src/` is the library, verified with Verus: the ontology (`ontology`), the
  graph invariants (`invariants`), the emitters (`render`), the RDF graph and
  its Turtle serialisation through oxigraph (`ttl`), and the plan of which
  files a compose writes (`compose`), with the string order and sorting they
  rest on (`text`, `sorting`, `search`).
- `app/` is the command line: argument parsing, reading the composition
  directory and writing the files under `<composition>/out/`.
- `tests/` exercises the library on concrete graphs.
