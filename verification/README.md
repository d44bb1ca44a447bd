# aniflow

A verified core for aniflow, a local media-pipeline planner. Pipeline
documents are checked, resolved against an explicit provider registry, and
turned into self-validating plans with canonical SHA-256 digests. The rules
by which a run would be carried out are here too, as verified decisions the
host drives: each provider execution and its report, each stage of a run,
the stages a resume rebuilds, and the acceptance of outputs. This crate does
not itself run a pipeline: the program in `app/` plans, inspects, and
diagnoses.

Layout:

- `src/` is the library, written in Verus. Every function there carries a
  contract that Verus proves: the configuration rules and their diagnostics
  (`authored`), plan resolution and validation (`plan`, `plan_v3`),
  canonical JSON and digests (`json`, `canonical`), provider manifests,
  registration, and resolution (`provider`, `registry`, `provider_runtime`),
  execution reports and the decisions of one execution (`execution`,
  `supervision`, `sensitive`), the decisions of a run stage by stage and the
  stages a resume rebuilds (`run_steps`, `frontier`), output acceptance and
  invocation identities (`acceptance`, `outputs`), and content identities
  (`identity`), and the checks a YAML or JSON document passes on the tree
  its parser reads (`documents`). Calls into `sha2`, `serde_json`,
  `serde_yaml`, `semver`, and `chrono` go through small trusted wrappers
  whose contracts state what those crates document, or name what they
  return where that is a function of the input alone.
- `tests/` exercises the library on concrete values.
- `app/` is the command-line program: argument parsing, file and process
  I/O, and YAML and JSON reading, handing the library plain values.
