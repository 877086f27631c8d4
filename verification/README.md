# rstest-bdd-macros, verified core

The decision logic behind the `rstest-bdd` procedural macros, written in
Verus with contracts and proofs.

## Layout

- `src/` — the verified library.
  - `tag_expr`, `tags`, `tag_ast` — the two tag-expression parsers, their
    grammars as spec functions, evaluation, and the precedence laws.
  - `tag_sets` — tag normalisation and merging of tag sets.
  - `placeholder` — finding `<name>` placeholders and substituting Examples
    values.
  - `feature` — plain models of parsed features, scenario extraction,
    Examples rows with their tags, and tag filtering of rows.
  - `selection` — resolving `index`/`name` selectors and tag filters for
    `#[scenario]`, with the diagnostics.
  - `scenarios_plan` — what `scenarios!` and `#[scenario]` generate:
    scenario binding, the check of outline step placeholders against the
    Examples columns, filtering per feature, harness and runtime choice,
    and the error type of tests with fallible fixtures.
  - `scenario_names` — unique test names with numeric suffixes.
  - `macro_args` — combining the arguments of `#[scenario]` and
    `scenarios!`; step-library path rules.
  - `return_classifier` — return-type classification on a model of type
    syntax.
  - `step_attr`, `step_library` — the grammar of step-attribute arguments,
    help texts and pattern choice; which items of a step library belong to
    which library.
  - `step_args` — `#[derive(StepArgs)]`: field attributes, placeholders,
    and the binding of captures to fields by name.
  - `scenario_state` — `#[derive(ScenarioState)]`: which fields reset.
  - `outline_params` — matching Examples columns to test parameters.
  - `runtime`, `paths`, `text` — runtime modes, path normalisation, and
    string helpers.
- `tests/` — tests of the library on concrete values.
- `app/` — the edge: reading and walking feature files, converting `syn`
  and `gherkin` values into the library's models and the library's
  decisions back into `syn` diagnostics.
