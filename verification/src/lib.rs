//! Groups e-reader clippings by book, renders each book's notes as Markdown,
//! and plans the exchange that publishes them to a hosted repository.

pub mod errors;
pub mod notes;
pub mod github;
