# kempt

A source formatter for Kotlin, Java and Rust repositories that suits pre-commit
hooks: it inserts license headers, normalizes whitespace at line and file ends,
and runs ktfmt, google-java-format and rustfmt on the files that its
configuration, `.kempt.toml`, gives to each of them.

- `src/` is the library, written in Verus. It decides which files a run touches,
  what becomes of their text, which programs are called with which words and what
  their answers mean, and what the user is told. Contracts
  speak of texts as sequences of characters; `chars` and `fspath` hold that
  vocabulary. Properties of several functions together stand beside them as
  public proof functions.
- `app/` is the `kempt` program around the library: arguments, files, processes
  and the network.
- `tests/` runs the library on values in memory.

Paths are separated by `/`, and absolute ones begin with it. Texts of files that a configuration points to are
read before a run (`references::list_text_files` names them) and handed over as
a `snapshot::FileTexts`; plans of runs (`commands::RunPlan`) are handed back and
performed stage by stage.

What is not proved is what other crates do. `globs`, `catalog` and `upgrade`
name the answers of `globset`, `toml` and `toml_edit`, and say of them what the
rest needs.
