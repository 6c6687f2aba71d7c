# sift

Local document retrieval for agentic workflows: BM25 search over raw
corpora, cache bookkeeping for incremental indexing, and evaluation
tooling.

## Layout

- `src/` — the library, written in Verus with its contracts proved:
  - `text`, `paths`, `hashing`, `order`, `perm`: characters, path
    components, BLAKE3 keys, lexicographic order and permutations.
  - `cache`: corpus keys, compatible cache locations, breadcrumb journals,
    the frontier ledger, sector partitioning and the file manifest.
  - `config`: settings, their defaults and merging, TOML highlighting.
  - `dense`, `model`: dense and generative model identities, asset layouts,
    source parsing, cache slugs and preparation routes.
  - `extract`: routing documents to extractors and the byte-level
    extractors.
  - `search`: tokens, term and document counts, snippets, query terms and
    the loaded corpus.
  - `dataset`: rows of gzip-compressed JSON Lines archives, the test
    queries that relevance judgements name, materialized file names.
  - `eval`, `bench`, `facade`, `optimize`: dataset layout, query and
    relevance files, helper-file exclusion, stop-reason summaries, and the
    option types of searches and benchmarks.
- `app/` — the command line: file and network I/O, storage, BM25 scoring
  and benchmark metrics.
- `tests/` — tests of the library.

## What is not provided

- Dense reranking: the `hybrid` engine (the configured default) is refused
  with an error; pass `--engine bm25`. Model conversion is refused too.
- The evaluation, prompt optimization and agent search modes, and the
  search facade with its controller and planners.
- OCR of images and scanned PDFs, and `.siftignore` filtering.
