//! Equation processor: parses equation listings (CSV or Markdown), builds a
//! de-duplicated list of named equation records, and plans the rendering of
//! each active record through an external typesetting toolchain.
//!
//! The parsing layer (format detection, CSV rows, Markdown blocks, name
//! sanitization and duplicate suffixing) and the render orchestration
//! decisions are verified here; file and process I/O is left to the
//! surrounding application.

pub mod confirm;
pub mod csv;
pub mod detect;
pub mod equation;
pub mod markdown;
pub mod names;
pub mod render;
pub mod text;

pub use confirm::parse_yes_no;
pub use csv::parse_csv;
pub use detect::detect_file_type;
pub use detect::Filetype;
pub use equation::Equation;
pub use equation::EquationModel;
pub use markdown::parse_markdown;
pub use render::advance;
pub use render::batch_plan;
pub use render::initial_state;
pub use render::render_action;
pub use render::RenderAction;
pub use render::RenderError;
pub use render::RenderState;
pub use render::StepOutcome;

