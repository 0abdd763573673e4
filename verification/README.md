# Apple motion artwork

A verified library that resolves Apple Music's animated album covers for a WaveFlow metadata
plugin.

- `src/` is the library. Its functions carry contracts that Verus proves, but for the few taken on
  trust, which are named at the end. Procedures that need the network or the scratch store are
  functions of the answers heard so far: they finish, or they name the next call (`src/host.rs`).
- `app/` performs those calls for a host, and decodes the body of a search response.
- `tests/` runs the library on concrete values, with a host that plays back pages.

| module | subject |
| --- | --- |
| `album` | the resolution of an album from start to end |
| `search` | the catalogue search and the order in which its results are probed |
| `token` | the web player's anonymous token |
| `catalogue` | editorial videos in the AMP catalogue |
| `playlist` | HLS master playlists and the rendition to play |
| `cache`, `model` | what is stored of an album, and the record for the host |
| `names`, `url`, `scrape` | titles and keys, URLs, script bundles and tokens |
| `http`, `host` | pages with redirects, and the calls that are asked of the host |
| `json`, `chars`, `text` | JSON documents, character classes, and texts |

What is taken on trust: the contracts of a few functions of `serde_json` (in `src/json.rs`) and of
the standard library (in `src/chars.rs` and `src/host.rs`).
