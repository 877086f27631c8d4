//! Verified core of the `rstest-bdd` procedural macros: tag-expression
//! parsing and evaluation, tag-set normalisation, outline placeholder
//! substitution, scenario selection and the naming and argument rules the
//! macros apply.

pub mod text;
pub mod tag_ast;
pub mod tag_expr;
pub mod tags;
pub mod tag_sets;
pub mod placeholder;
pub mod scenario_names;
pub mod feature;
pub mod selection;
pub mod runtime;
pub mod macro_args;
pub mod return_classifier;
pub mod step_attr;
pub mod paths;
pub mod scenarios_plan;
pub mod step_library;
pub mod scenario_state;
pub mod step_args;
pub mod outline_params;
