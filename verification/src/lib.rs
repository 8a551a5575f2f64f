//! Verified core of a terminal-rendering toolkit's Python bindings: the
//! decisions and text that the live display, progress bars, log rows,
//! prompts and pagers compute, stated over plain values and proved.

pub mod chars;
pub mod numfmt;
pub mod tasks;
pub mod track;
pub mod progress_text;
pub mod log_render;
pub mod live;
pub mod screen;
pub mod prompt;
pub mod columns;
pub mod textops;
pub mod plugins;
pub mod segments;
pub mod layout;
pub mod workers;
pub mod bar;
pub mod measure;
pub mod align;
pub mod stacks;
pub mod offsets;
pub mod padding;
pub mod render_cache;
