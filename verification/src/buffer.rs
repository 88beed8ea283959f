//! The retention buffer: the latest lines seen, oldest first, never more of
//! them than its capacity.

use std::collections::VecDeque;
use vstd::prelude::*;

verus! {

/// The texts of a list of lines.
pub open spec fn line_texts(lines: Seq<String>) -> Seq<Seq<char>> {
    lines.map_values(|l: String| l@)
}

/// What a buffer of `capacity` lines holds once `line` has come in: the line
/// goes to the back, and if that made one line too many, the oldest leaves.
pub open spec fn pushed(held: Seq<Seq<char>>, line: Seq<char>, capacity: nat) -> Seq<Seq<char>> {
    let all = held.push(line);
    if all.len() > capacity {
        all.drop_first()
    } else {
        all
    }
}

/// What a buffer of `capacity` lines holds once `lines` have come in one
/// after another, the buffer empty at first.
pub open spec fn retained(lines: Seq<Seq<char>>, capacity: nat) -> Seq<Seq<char>>
    decreases lines.len(),
{
    if lines.len() == 0 {
        Seq::empty()
    } else {
        pushed(retained(lines.drop_last(), capacity), lines.last(), capacity)
    }
}

/// The latest `capacity` of `lines`, or all of them if they are fewer, in
/// the order in which they came.
pub open spec fn latest(lines: Seq<Seq<char>>, capacity: nat) -> Seq<Seq<char>> {
    if lines.len() > capacity {
        lines.skip(lines.len() - capacity)
    } else {
        lines
    }
}

/// Whatever lines come in, the buffer never holds more than its capacity,
/// and what it holds are the latest lines in the order of their arrival.
pub proof fn lemma_retained_is_latest(lines: Seq<Seq<char>>, capacity: nat)
    ensures
        retained(lines, capacity).len() <= capacity,
        retained(lines, capacity) == latest(lines, capacity),
    decreases lines.len(),
{
    if lines.len() > 0 {
        lemma_retained_is_latest(lines.drop_last(), capacity);
    }
}

/// After one line more than the capacity, the oldest line is gone: the
/// buffer begins with the second line that came in, and the lines after it
/// follow in their order.
pub proof fn lemma_one_line_too_many(lines: Seq<Seq<char>>, capacity: nat)
    requires
        capacity >= 1,
        lines.len() == capacity + 1,
    ensures
        retained(lines, capacity)[0] == lines[1],
        retained(lines, capacity) == lines.drop_first(),
{
    lemma_retained_is_latest(lines, capacity);
}

/// The latest lines seen, oldest first.
pub struct RetentionBuffer {
    lines: VecDeque<String>,
    capacity: usize,
}

impl View for RetentionBuffer {
    type V = Seq<Seq<char>>;

    closed spec fn view(&self) -> Seq<Seq<char>> {
        line_texts(self.lines@)
    }
}

impl RetentionBuffer {
    /// The number of lines that the buffer keeps at most.
    pub closed spec fn limit(&self) -> nat {
        self.capacity as nat
    }

    /// The buffer holds no more lines than its capacity. Every buffer that
    /// `new` made and `push` filled is so.
    pub open spec fn well_formed(&self) -> bool {
        self@.len() <= self.limit()
    }

    /// An empty buffer that keeps up to `capacity` lines.
    pub fn new(capacity: usize) -> (buffer: Self)
        ensures
            buffer@ == Seq::<Seq<char>>::empty(),
            buffer.limit() == capacity,
            buffer.well_formed(),
    {
        RetentionBuffer { lines: VecDeque::new(), capacity }
    }

    /// Takes `line` in at the back. If the buffer then holds more than its
    /// capacity, the oldest line leaves at the front.
    pub fn push(&mut self, line: String)
        ensures
            final(self).limit() == old(self).limit(),
            final(self)@ == pushed(old(self)@, line@, old(self).limit()),
            old(self).well_formed() ==> final(self).well_formed(),
    {
        self.lines.push_back(line);
        if self.lines.len() > self.capacity {
            let _ = self.lines.pop_front();
        }
    }

    /// The number of lines held.
    pub fn len(&self) -> (n: usize)
        ensures
            n == self@.len(),
    {
        self.lines.len()
    }

    /// Whether no line is held.
    pub fn is_empty(&self) -> (b: bool)
        ensures
            b == (self@.len() == 0),
    {
        self.lines.len() == 0
    }

    /// The number of lines that the buffer keeps at most.
    pub fn capacity(&self) -> (n: usize)
        ensures
            n == self.limit(),
    {
        self.capacity
    }

    /// The line at `index`, counted from the oldest; none beyond the last.
    pub fn get(&self, index: usize) -> (line: Option<&String>)
        ensures
            match line {
                Some(l) => index < self@.len() && l@ == self@[index as int],
                None => index >= self@.len(),
            },
    {
        if index < self.lines.len() {
            Some(&self.lines[index])
        } else {
            None
        }
    }

    /// Hands the lines over, oldest first.
    pub fn into_lines(self) -> (lines: VecDeque<String>)
        ensures
            line_texts(lines@) == self@,
    {
        self.lines
    }
}

} // verus!
