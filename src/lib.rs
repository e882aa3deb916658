//! OpenAPI fragments from described types, substituted into a text template.

pub mod entries;
pub mod params;
pub mod placeholder;
pub mod reflect;
pub mod render;
pub mod text;
pub mod viewer;

pub use text::{
    contains, find_first, join_lines, replace_all, split_lines, trim, trim_end, with_indent,
};
pub use render::{lemma_line_with_empty_text, lemma_line_with_one_marker, lemma_render_deterministic, lemma_unmatched_template_unchanged, render_template};
pub use entries::{lemma_with_entry_unique, set_entry};
pub use params::{lemma_parameter_rules, parameter, parameters_list, required_of, strip_lines, tidy_yaml, Property};
pub use placeholder::{lemma_found_registered, lemma_reflected_blocks, lemma_unmatched_render, query_parameters, PlaceholderError, OpenApiPlaceHolder};
pub use viewer::{REDOC_UI_PAGE, SWAGGER_UI_PAGE};

pub use schemars;
