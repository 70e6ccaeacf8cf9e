# server_rs

The verified core of the server.

- `src/music/`: the music provider seam (`MusicProvider`, `ProviderTrack`),
  the built-in `MockProvider` and `from_config`, which picks the provider a
  config names.
- `src/syn_input.rs`: reading a deriving item's source text with `syn` into
  plain values (fields, variants, attribute text, string literal values).
- `src/setting_syntax.rs`: the grammar of `#[setting(...)]` arguments.
- `src/settings_derive.rs`: how a config sub-struct describes its settings:
  the struct's source is read, `#[setting(...)]` attributes are parsed, each
  field's kind is decided from its attribute, type and value, and the
  descriptor fields are emitted; an enum's source gives its dropdown options.
- `src/api/settings_schema.rs`: the sectioned descriptor of a whole config.
- `app/`: the HTTP route and JSON form of the descriptor, and the shared
  provider handle.
