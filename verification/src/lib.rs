//! A terminal-resident text editor core: a grapheme-aware line buffer with a
//! cursor, viewport scrolling, syntax-highlight caching, frame composition and
//! a differential renderer that rewrites only changed terminal rows.
//!
//! Terminal and file-system access is left to the surrounding binary; this
//! crate holds the editor's state machine and proves its invariants.

mod editor;
mod frame;
mod line;
mod numfmt;
mod renderer;
mod style;
mod text;
mod width_limited;

pub use editor::ControlFlow;
pub use editor::Editor;
pub use editor::Key;
pub use frame::convert_screen_dimens_to_editor_dimens;
pub use frame::RenderPlan;
pub use line::Line;
pub use renderer::is_whitespace;
pub use renderer::Refresh;
pub use renderer::Renderer;
pub use style::Rgb;
pub use style::Style;
pub use style::StyledGrapheme;
pub use width_limited::truncate_to_width;
pub use width_limited::WidthLimited;
