# hugdocker

A Docker project manager for the terminal: it groups containers into
Compose, Stack and standalone projects, plans operations on them behind
confirmation tokens, reports their health, and offers a dashboard.

The library under `src/` holds the logic and is verified with Verus:

- `domain`: containers, projects, grouping of a snapshot and sort orders;
- `config`: settings, group rules, themes and file locations;
- `ops`: operation plans, confirmation tokens and their results;
- `cli`: argument values, the confirmation rule, Compose and update flows;
- `health`: doctor findings, risk fingerprints and the health report;
- `docker`: what the engine's replies become (containers, step lists,
  results, sample totals, log highlighting);
- `tui`: the dashboard state machine (keys, mouse, panels, prompts);
- `sampling`: when the dashboard samples resources, and what it shows meanwhile;
- `output`, `resources`, `recipes`, `telemetry`: list lines, byte sizes,
  built-in recipes and timeline events;
- `text`, `sorted`: string and sorted-set helpers;
- `laws`: properties that span several functions.

`app/` is the program around it: the command line, the Docker engine,
files, the terminal and resource sampling. `tests/` exercises the library.
