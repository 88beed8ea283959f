//! The verified core of a live-filtering line viewer.
//!
//! Lines stream in from a source. A query typed by the user selects the lines
//! to show and what to highlight in them, and the latest lines are retained
//! for later. The modules follow the path of a line:
//!
//! - `ingest`: what follows from each attempt to read a line;
//! - `render`: what follows from each line that reaches the render loop;
//! - `buffer`: the lines retained, never more than a capacity;
//! - `query`: the patterns that a query holds;
//! - `search`: the matches of the patterns in a line;
//! - `highlight`: the line with its matches highlighted;
//! - `offsets`: where the characters of a line stand among its bytes;
//! - `control`: what follows from each signal of the input loop.
//!
//! Reading, drawing and waiting are left to the program around this library.

pub mod buffer;
pub mod control;
pub mod highlight;
pub mod ingest;
pub mod offsets;
pub mod query;
pub mod render;
pub mod search;

pub use crate::buffer::RetentionBuffer;
pub use crate::control::{Control, ControlAction, Signal};
pub use crate::highlight::{styled, styled_from, StyledLine};
pub use crate::ingest::{ingest_step, IngestAction, IngestEvent};
pub use crate::query::split_query;
pub use crate::render::{RenderAction, RenderLoop};
pub use crate::search::{accept, matched, MatchError, Span};
