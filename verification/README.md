# zfb_build

The decisions of a static-site build, verified with Verus: which pages and
assets a burst of file changes asks for, what a dev tick and a production build
do in which order, and what is remembered between them.

- `src/` is the library. Paths are texts that are compared by their components
  (`path`), pages are known by the paths of their sources (`page`), and a plan
  says what a tick has to do (`plan`). `orchestrator` and `tick` plan, from what
  is known of the changed paths (`facts`), and `tick_run` asks for it in order.
  Under `pipeline/`, `dev` is a tick, `request` a write between two ticks, `prod`
  a production build, and `rewrite`, `hash` and `asset` are the hashed assets
  that pages name. `drain` is the loop around the ticks; `plugin_refresh` and
  `plugin_bundler` serve plugins.
- Where the work itself lies outside (rendering, disk, other programs, waiting),
  the library is a machine: `action` says what is to be done next, and `resume`
  takes what came of it. `dev_laws` and `prod_laws` state what holds of every
  run, `disk_laws` that what is remembered of the writes is on disk, and
  `tick_laws` and `build_laws` what whole ticks and whole builds do.
- `app/` does that outside work: files, processes, the watch loop.
- `tests/` runs the library against worlds in memory.

Outside code is trusted in four places only: SHA-256 (`sha2`), hexadecimal
(`hex`), `file` URLs (`url`), and `String::push`.
