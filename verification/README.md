# hedron_core

HedronDB keeps, in one SQLite file, what should be true for a software
agent (desired state), what happened (an append-only causal event log), and
a read-only pipe language over both (HQL).

This crate is the core of it. Each function under `src/` states its
behaviour in `requires` / `ensures` and is proved against it:

- `hql/` — HQL v0: pipelines split into stages (`pipe`, `query`), filter
  expressions (`expr`), typed rows (`row`, `rows`), the operators over a
  snapshot of the store (`ops`, `states`, `walk`, `run`), the fluent
  builders and their agreement with `pipe` (`fluent`), the `hedron hql`
  flags and the tsv / table / json renderings (`cli`), and the laws every
  query keeps (`laws`): `state` never reads the event log, `history` never
  carries spec or status and comes in `ts, id` order, `agent` stays in its
  slice, `select` reads from the source row, `limit` keeps a prefix, and two
  reconciles leave version 3 and a two-event causal chain.
- `store` — who may do what: sessions by token and their
  rotation, vault isolation and grants, the checks on nodes and edges, the
  state change and event of a reconcile, and the causal edges an event row
  projects.
- `reconcile` — the `docs_eod` reconciler: which briefs a spec finds, and
  the status drawn from them.
- `types`, `nodes`, `ids`, `digest`, `schema`, `error`, `text` — the
  vocabulary, the records the store writes, UUID and token text, content
  hashes, the schema drift report, errors, and character helpers.

`app/` is the `hedron` program around it: the SQLite reads and writes, YAML
through `serde_yaml`, the clock, floating-point importance, and the command
line.

Calls into `uuid`, `blake3` and std's formatting stand behind a few trusted
wrappers, each documented where it is declared.
