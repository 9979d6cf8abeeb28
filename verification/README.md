# Butler

A service manager. It reads a list of services from a YAML file, runs the services that others
depend on as prerequisites, in dependency order, keeps the remaining services running, and
restarts them, prerequisites first, when files that they watch change.

The library under `src/` is written in Verus; everything it decides is stated in contracts and
proved. `app/` is the program around it: arguments, files, processes, threads and the file watcher.

| module | what it holds |
| --- | --- |
| `types` | services, nodes, the graph |
| `app` | configuration entries and their validation |
| `graph`, `order` | the dependency graph, its order and its partition |
| `graph_laws` | what holds of every graph and every order |
| `runner` | node states and the prerequisites of a restart |
| `command` | command lines of services |
| `watch` | watch patterns, file events and signals |
| `logger`, `text` | log lines |
| `protocol`, `lifecycle`, `supervisor` | what is started, polled, stopped and restarted, and when |
| `lifecycle_laws` | what holds of a supervisor at every moment |
| `process` | how a process is stopped |
| `lists` | lists of node positions |
| `outside` | the calls into other crates and what is taken for granted of them |
