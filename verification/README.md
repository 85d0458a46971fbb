# lapse

A library for HTTP request documents: Markdown-like files that hold a request
(`METHOD URI`, header lines, a body) with `${...}` expressions evaluated by scripts,
environments whose variables nested environments inherit, hooks run around a
request, and logs of the responses. The library is written in Verus: each function
carries a contract, and Verus proves the code against it.

Layout:

- `src/` the verified library
  - `text.rs`, `map.rs`: characters, lines and trimming; a map kept sorted by key
  - `number.rs`: how a number held as decimal text is displayed
  - `parsing/`: splitting a document into text and expressions; reading a request
    message built with the `http` crate
  - `request/`: the requests a document describes (inline parameters, multipart
    forms, URL completion), and the resources of a space
  - `runner/`: values, the expression grammar and evaluation, responses, and the
    step-by-step run of a request
  - `env/`: environments, their inheritance and hooks
  - `log/`: the naming and ordering of response logs
  - `json.rs`, `wire.rs`: the calls into `serde_json` and `http`, with their contracts
  - `cli.rs`, `config.rs`, `space.rs`: the command line's data and choices, and the
    fuzzy matching of resource names (through `nucleo-matcher`)
- `tests/` tests of the library
- `app/` the command line program: files, the network, the scripts runtime, the
  terminal
