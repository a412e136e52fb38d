# ssdm

A verified library for the Simple Space Data Mirror: a daemon that mirrors Earth
Orientation Parameter, space-weather and CelesTrak GP data files into an R2 bucket
on a per-product cadence.

The library (`src/`) is written in Verus. Its functions carry contracts that
Verus proves, except five small wrappers around outside calls (the md5 digest,
the URL parser, lowercasing, the random draw and the system clock), whose
contracts are taken on trust and say no more than those calls document:

- `products`: the registry of mirrored files and the one-alias-per-slot rule;
- `keys`: object keys and public URLs;
- `schedule`, `scheduler`: interval and weekly-anchor cadences, which products
  are due and how long to sleep;
- `status`: `status.json` change detection (md5 via the `md5` crate);
- `ratelimit`: the per-host gap and random stagger (`rand`, host parsing via
  `reqwest::Url`);
- `retry`, `fetch`: the bounded in-run retry and HTTP status classes;
- `sync`, `message`, `cli`: the decisions of a sync pass, the queue message,
  the ingest failure summary and manual product selection;
- `config`: configuration from environment variables;
- `page`: the landing page;
- `duration`, `text`, `strmap`: time spans at nanosecond resolution, digits and string helpers,
  and a string-keyed map.

The Cloudflare Worker entry points (the queue producer, the queue consumer
with its conditional write of `status.json`, and the ingest handler) run on the
`worker` runtime for wasm32, which this build does not include, so they are not
part of this crate. What they decide is in the library: the messages a producer
sends (`message::producer_messages`), how a consumer folds a batch into the
status (`sync::apply_batch`) and the ingest failure text
(`message::failure_entry`, `message::failure_summary`).

`app/` is the daemon binary around it: command line (clap), environment,
HTTP (reqwest), R2 signing (rusty-s3), the data volume (serde_json) and the
tokio loops.
