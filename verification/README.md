# document-finder

The logic of a desktop application that finds open-access documents, as a
library verified with Verus.

- `src/text.rs`: trimming, splitting, joining and comparing text, and numbers in decimal.
- `src/sources/`: the sources CORE, Europe PMC and SearXNG. Each says which
  request to send next and turns the answers into documents.
- `src/engine/local_searxng.rs`: the embedded SearXNG-compatible server: reading
  a query and building its answer.
- `src/ai/`: the status of each AI model, and its download.
- `src/panic_report.rs`: what is logged of a panic.
- `app/`: HTTP, the server's routes, shared state and the desktop shell around it.

The contracts speak of text as sequences of characters and of a search as a
state with its next request and the effect of each answer. The proof functions
whose names begin with `law_` state what holds across calls.

One outside function is called from the library, `CancellationToken::cancel`;
what is taken on trust of it stands in `src/ai/cancellation.rs`.
