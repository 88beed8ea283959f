//! The render side of the viewer: what follows from each line that the
//! handoff delivers, and what is kept of the lines.

use crate::buffer::{line_texts, pushed, RetentionBuffer};
use crate::highlight::{styled, styled_text, StyledLine};
use std::collections::VecDeque;
use vstd::prelude::*;

verus! {

/// What the render loop does after a tick.
#[derive(Clone, Debug, PartialEq, Eq)]
pub enum RenderAction<S> {
    /// Draw this line.
    Draw(StyledLine<S>),
    /// The line does not match the query: draw nothing.
    Skip,
    /// The handoff is closed: end the loop and hand over the retained lines.
    Finish,
}

/// The state of the render loop: the lines retained so far, and how lines
/// are matched and highlighted.
pub struct RenderLoop<S> {
    buffer: RetentionBuffer,
    highlight_style: S,
    case_insensitive: bool,
}

impl<S: Copy> RenderLoop<S> {
    /// The lines retained, oldest first.
    pub closed spec fn retained(&self) -> Seq<Seq<char>> {
        self.buffer@
    }

    /// The number of lines retained at most.
    pub closed spec fn limit(&self) -> nat {
        self.buffer.limit()
    }

    /// The style that matched bytes get.
    pub closed spec fn style(&self) -> S {
        self.highlight_style
    }

    /// Whether matching ignores case.
    pub closed spec fn ignores_case(&self) -> bool {
        self.case_insensitive
    }

    /// No more lines are retained than the limit allows.
    pub open spec fn well_formed(&self) -> bool {
        self.retained().len() <= self.limit()
    }

    /// A render loop that has seen no line yet and retains up to
    /// `queue_capacity` lines.
    pub fn new(queue_capacity: usize, highlight_style: S, case_insensitive: bool) -> (r: Self)
        ensures
            r.retained() == Seq::<Seq<char>>::empty(),
            r.limit() == queue_capacity,
            r.style() == highlight_style,
            r.ignores_case() == case_insensitive,
            r.well_formed(),
    {
        RenderLoop { buffer: RetentionBuffer::new(queue_capacity), highlight_style, case_insensitive }
    }

    /// Takes what the handoff delivered at this tick, `query` being what the
    /// user has typed by now.
    ///
    /// A line is retained whether it matches or not, the oldest line leaving
    /// if the buffer is full, and is drawn if `query` shows it. Only this
    /// line is looked at, not the lines retained before. When the handoff is
    /// closed the loop finishes with the buffer as it is.
    pub fn on_received(&mut self, received: Option<String>, query: &str) -> (action: RenderAction<
        S,
    >)
        ensures
            old(self).well_formed() ==> final(self).well_formed(),
            final(self).limit() == old(self).limit(),
            final(self).style() == old(self).style(),
            final(self).ignores_case() == old(self).ignores_case(),
            match received {
                Some(line) => {
                    &&& final(self).retained() == pushed(
                        old(self).retained(),
                        line@,
                        old(self).limit(),
                    )
                    &&& match action {
                        RenderAction::Draw(shown) => styled_text(
                            query@,
                            line@,
                            old(self).style(),
                            old(self).ignores_case(),
                        ) == Some(shown@),
                        RenderAction::Skip => styled_text(
                            query@,
                            line@,
                            old(self).style(),
                            old(self).ignores_case(),
                        ) is None,
                        RenderAction::Finish => false,
                    }
                },
                None => final(self).retained() == old(self).retained() && action
                    == RenderAction::<S>::Finish,
            },
    {
        match received {
            Some(line) => {
                let shown = styled(
                    query,
                    line.as_str(),
                    self.highlight_style,
                    self.case_insensitive,
                );
                self.buffer.push(line);
                match shown {
                    Some(shown) => RenderAction::Draw(shown),
                    None => RenderAction::Skip,
                }
            },
            None => RenderAction::Finish,
        }
    }

    /// The number of lines retained.
    pub fn len(&self) -> (n: usize)
        ensures
            n == self.retained().len(),
    {
        self.buffer.len()
    }

    /// The lines retained so far.
    pub fn buffer(&self) -> (buffer: &RetentionBuffer)
        ensures
            buffer@ == self.retained(),
            buffer.limit() == self.limit(),
    {
        &self.buffer
    }

    /// Ends the loop: hands over the retained lines, oldest first.
    pub fn into_lines(self) -> (lines: VecDeque<String>)
        ensures
            line_texts(lines@) == self.retained(),
    {
        self.buffer.into_lines()
    }
}

} // verus!
