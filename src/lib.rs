//! Rendering of logic-less (Mustache-style) templates that have already been
//! compiled into a sequence of rules, against JSON-like context data.

pub mod context;
pub mod flat;
pub mod lemmas;
pub mod partials;
pub mod processor;
pub mod render;
pub mod rule;
pub mod scanner;

pub use rule::Mustache;
pub use context::Json;
pub use partials::Partials;
pub use processor::{Engine, ExecutionError, TemplateEngine};
pub use render::RenderError;
