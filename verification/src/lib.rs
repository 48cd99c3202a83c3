//! A terminal text editor core: lines of grapheme clusters, a buffer of
//! lines addressed by (column, row) positions, a cursor with a scrolling
//! viewport, and an insert/command mode state machine.

pub mod content;
pub mod editor;
pub mod line;
pub mod seg;
pub mod text;

pub use content::Content;
pub use content::SaveError;
pub use editor::Editor;
pub use editor::Mode;
pub use editor::Position;
pub use editor::Signal;
pub use line::Line;
pub use seg::clusters_of;
pub use seg::cluster_count;
pub use seg::chars_before;
pub use seg::chars_from;
pub use seg::seg_wf;
