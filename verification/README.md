# cortex

A code-intelligence toolkit for AI agents working on large, multi-root
workspaces and on the z4 language, with its core verified by Verus.

- `src/` is the verified library. Each module states its behaviour in
  `requires`/`ensures` contracts over mathematical models (`Seq`, `Map`,
  spec functions) and proves it; `law_*` proof functions state properties
  that span calls (idempotence, round trips, conservation of counts).
  Highlights: z4 source symbols and density maps (`z4`), z4 catalogs and
  registries (`registry`, `hexdoc`), workspace topology and member discovery
  (`workspace`), path resolution across workspace roots (`pathing`),
  checkpoints of symbols (`chronos`), query predicates and result handling
  of the local stores (`store`), context slicing and the budgets of huge
  codebases (`slicer`, `scanner`), module graphs and the scoped repository
  map and modules declared by manifests (`mapper`, `repo_map`),
  `package.json` reading (`package_json`), JSON member reading (`json`),
  the request side of the tools: the stdio request loop, workspace roots
  from `initialize`, tool routing, output caps and query slices
  (`server`), the argument checks of the code explorer, symbol analyzer and
  checkpoint tools (`tool_args`), action routing and edit items
  (`dispatch`), exact search caps and reports (`exact_search`); line and project skeletons (`skeleton`), edit planning (`editor`, `act`, `data_edit`, `atomic`,
  `batch`), and stable sorting under strict weak orders (`sort`).
- `app/` is a thin command-line front end: it reads files and directories,
  calls the library, and prints the results (`cortex help`); `cortex serve`
  answers MCP requests on standard input, the library deciding each answer.
- `tests/` exercises the library on concrete inputs.
