# monodex

Semantic search over the source code of a monorepo. Files are divided into chunks along
their syntax, chunks are embedded and stored under labels, and labels are searched.

`src/` is the verified core. It says, with contracts that Verus proves:

- how TypeScript and Markdown files are divided (`grammar`, `syntax`, `partitioner`,
  `markdown_partitioner`, `chunker`) and how chunks are named (`breadcrumb`, `ids`,
  `identifier`);
- which files are crawled (`crawl_config`, `config`, `git_ops`, `package_lookup`) and what a
  crawl does with them (`crawl`);
- how rows are stored and read back (`schema`, `storage`, `init_db`);
- how settings are read and resolved (`settings`, `system_info`, `context`, `embedder`);
- what is shown (`report`, `display`, `view`, `search`, `use_cmd`, `purge`, `diagnostics`,
  `clock`).

`text`, `numbers`, `names` and `paths` are the vocabulary of the rest. What comes from other
crates (parsing, hashing, globs, slugs, record batches, the clock) stands behind small
functions whose contracts are stated beside them.

`app/` is the program around the core: arguments, files, the `git` program, the embedding
model and the LanceDB tables. `tests/` runs the core.
