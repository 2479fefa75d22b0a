# local_ai

Local-first support for the agents of a terminal: who may run, which model
serves a request, what is remembered, and which files are kept. Everything is
decided in this process, from local files, local databases and the providers
that the user has configured.

`src/` is the library. Its functions state what they do in contracts over
mathematical models of the data (`Seq`, `Map` and the views of the types), and
Verus proves them.
The properties that span several functions are public proof functions whose
names start with `law_`.

| Modules | What they decide |
| --- | --- |
| `local_agent_registry` | Local runs: registration within limits, topology, controllers, bounded message queues |
| `custom_model_routers`, `router_repository` | Model routers: parsing, routing, resolution to a configured model, their files |
| `local_named_agents`, `named_agent_repository`, `secrets` | Named agents: validation, merging with overrides, their files |
| `local_compaction` | Archiving the older part of a conversation under a summary |
| `local_memory`, `local_artifacts`, `local_codebase_index` | Memories, artifacts and the index of a codebase |
| `relevant_files` | The search for files that a query is about |
| `llms`, `llm_preferences`, `execution_profiles`, `harness_availability`, `providers` | Models, profiles, harnesses and providers |
| `fact_manager`, `fact_pages`, `memory_views`, `rule_views` | The state of the knowledge pane |
| `file_publication` | Replacing a file so that a failure leaves the old one |
| `text`, `tokens`, `paths`, `order`, `id_map`, `ids`, `digest`, `json_text`, `json_tree` | Shared primitives |

Calls into other crates stand behind a few functions whose contracts are
trusted, not proved: SHA-256, hexadecimal text, UUIDs, JSON strings, URLs, Unicode
normalisation, and the Unicode tables of the standard library. Each says in its
doc comment what is claimed of the call.

`app/` is ordinary Rust around the library: directories, SQLite databases, HTTP
requests and the stored forms of values. `tests/` runs the library on concrete
values.
