# codex_administrator

External Grok model-list injection and state synchronisation for native ChatGPT/Codex
hosts, written in Verus. The decisions the administrator makes are executable functions
whose contracts Verus proves; file, process and network work stays outside them.

## Layout

- `src/` — the verified library. Each module states its model in spec functions and proves
  its executable functions against them, for example:
  - `launcher_settings`, `model_discovery`, `native_provider`, `provider_config`:
    settings, reviewed Grok models, and the provider entry and shell environment guard as
    they are written into the official TOML configuration;
  - `catalog_entry`, `catalog_json`, `catalog_scan`, `model_catalog`: the Grok entries of
    the native model catalog, the catalog JSON they are appended to, and finding the catalog
    bundled in the official executable;
  - `owned_root`, `descendant_capture`, `lineage`, `cleanup`: the owned root's protection
    from git command lines, and capturing and cleaning up escaped descendants;
  - `compatibility`, `host`, `mode`, `isolation`, `runtime`: which hosts may be injected and
    how an isolated instance is laid out;
  - `renderer_addons`: screening, ordering and activating renderer addons;
  - `goal_sync`, `goal_protocol`: three-way Goal synchronisation between the daily and the
    isolated app, and the app-server replies it reads;
  - `continuity`, `session_hook`, `hook_config`, `worker`: session continuity between the
    two apps and the prompt hook that reports it;
  - `session_sync`, `skill_sync`, `rollout`: importing sessions and skills;
  - `supervisor`, `direct_loop`, `launcher`, `control`: the supervision loops and the
    control channel, as step functions from state and event to state and action;
    `redaction` proves that a launcher diagnostic never shows the provider credential;
  - `user_scripts`: turning the bootstrap script on and off in Codex++'s configuration;
  - `json`, `toml_doc`, `codec`, `digest`, `strings`, `text`, and the URI parsing of
    `model_discovery`: the few calls into `serde_json`, `toml_edit`, `base64`, `sha2`,
    `http` and `std` that the rest builds on, each with the contract it is trusted for.
- `tests/` — tests of the library on concrete values.
- `app/` — the command line around the library: provider configuration, model discovery
  and installing the continuity hook; and the file plumbing of installing the native model
  catalog and of the Codex++ user script configuration.
