//! The Moumy Editor library: recipe files, their frontmatter and steps,
//! slugs, images, git and OCR decisions, content paths and self-updates.
pub mod order;
pub mod paths;
pub mod recipe;
pub mod server;
pub mod slug;
pub mod store;
pub mod text;
pub mod updater;
pub mod yaml;
