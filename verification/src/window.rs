//! The rolling diagnostic window: a fixed-capacity first-in-first-out store
//! of the most recent non-progress lines, kept for redisplay beneath the
//! live progress readout.
//!
//! The store itself is `circular_buffer::CircularBuffer`; its contents are
//! named by [`window_lines`] and every method the library calls carries a
//! contract stating what the crate's source shows it does to those contents.

use vstd::prelude::*;
use circular_buffer::CircularBuffer;

verus! {

/// How many diagnostic lines the window retains.
pub const WINDOW_CAPACITY: usize = 5;

#[verifier::external_type_specification]
#[verifier::external_body]
#[verifier::reject_recursive_types(T)]
pub struct ExCircularBuffer<const N: usize, T>(CircularBuffer<N, T>);

/// The lines a buffer holds, oldest first.
pub uninterp spec fn window_lines(b: CircularBuffer<5, String>) -> Seq<Seq<char>>;

/// Relies on `circular_buffer::CircularBuffer::new`: a freshly created
/// buffer holds nothing.
#[verifier::external_body]
fn buffer_new() -> (r: CircularBuffer<5, String>)
    ensures
        window_lines(r) == Seq::<Seq<char>>::empty(),
{
    CircularBuffer::new()
}

/// Relies on `circular_buffer::CircularBuffer::push_back`: below capacity it
/// appends at the back and returns `None`; at capacity it replaces the front
/// element and returns it.
#[verifier::external_body]
fn buffer_push_back(b: &mut CircularBuffer<5, String>, line: String) -> (evicted: Option<String>)
    ensures
        window_lines(*old(b)).len() < 5 ==> {
            &&& window_lines(*final(b)) == window_lines(*old(b)).push(line@)
            &&& evicted is None
        },
        window_lines(*old(b)).len() == 5 ==> {
            &&& window_lines(*final(b)) == window_lines(*old(b)).drop_first().push(line@)
            &&& evicted is Some
            &&& evicted->0@ == window_lines(*old(b))[0]
        },
{
    b.push_back(line)
}

/// Relies on `circular_buffer::CircularBuffer::len`: the number of elements
/// the buffer holds.
#[verifier::external_body]
fn buffer_len(b: &CircularBuffer<5, String>) -> (r: usize)
    ensures
        r == window_lines(*b).len(),
{
    b.len()
}

/// Relies on `circular_buffer::CircularBuffer::to_vec`: the elements cloned
/// into a vector, front (oldest) first.
#[verifier::external_body]
fn buffer_to_vec(b: &CircularBuffer<5, String>) -> (r: Vec<String>)
    ensures
        r.deep_view() == window_lines(*b),
{
    b.to_vec()
}

/// The rolling window of the most recent diagnostic lines, oldest first,
/// never more than [`WINDOW_CAPACITY`] of them.
pub struct DiagnosticWindow {
    buffer: CircularBuffer<5, String>,
}

impl View for DiagnosticWindow {
    type V = Seq<Seq<char>>;

    closed spec fn view(&self) -> Seq<Seq<char>> {
        window_lines(self.buffer)
    }
}

impl DiagnosticWindow {
    /// The window never outgrows its capacity.
    pub closed spec fn wf(&self) -> bool {
        self@.len() <= WINDOW_CAPACITY
    }

    /// What a single push leaves in a window: the line at the back, and the
    /// oldest line gone once the capacity is spent.
    pub open spec fn pushed(s: Seq<Seq<char>>, line: Seq<char>) -> Seq<Seq<char>> {
        if s.len() < WINDOW_CAPACITY {
            s.push(line)
        } else {
            s.drop_first().push(line)
        }
    }

    /// An empty window.
    pub fn new() -> (r: Self)
        ensures
            r@ == Seq::<Seq<char>>::empty(),
            r.wf(),
    {
        DiagnosticWindow { buffer: buffer_new() }
    }

    /// Append a line, evicting and handing back the oldest when the window
    /// is full.
    pub fn push(&mut self, line: String) -> (evicted: Option<String>)
        requires
            old(self).wf(),
        ensures
            final(self).wf(),
            final(self)@ == Self::pushed(old(self)@, line@),
            (old(self)@.len() < WINDOW_CAPACITY) <==> (evicted is None),
            evicted is Some ==> evicted->0@ == old(self)@[0],
    {
        buffer_push_back(&mut self.buffer, line)
    }

    /// How many lines the window holds.
    pub fn len(&self) -> (r: usize)
        ensures
            r == self@.len(),
    {
        buffer_len(&self.buffer)
    }

    /// The held lines, oldest first.
    pub fn lines(&self) -> (r: Vec<String>)
        ensures
            r.deep_view() == self@,
    {
        buffer_to_vec(&self.buffer)
    }
}

/// What remains after pushing a whole sequence of lines, in order, into an
/// empty window.
pub open spec fn window_after(lines: Seq<Seq<char>>) -> Seq<Seq<char>>
    decreases lines.len(),
{
    if lines.len() == 0 {
        Seq::empty()
    } else {
        DiagnosticWindow::pushed(window_after(lines.drop_last()), lines.last())
    }
}

/// The rolling window keeps exactly the most recent lines, in arrival order:
/// all of them while they fit, and only the last `WINDOW_CAPACITY` once they
/// do not.
pub proof fn lemma_window_keeps_latest(lines: Seq<Seq<char>>)
    ensures
        lines.len() <= WINDOW_CAPACITY ==> window_after(lines) == lines,
        lines.len() > WINDOW_CAPACITY ==> window_after(lines) == lines.skip(
            lines.len() - WINDOW_CAPACITY,
        ),
    decreases lines.len(),
{
    if lines.len() == 0 {
        assert(window_after(lines) =~= lines);
    } else {
        let head = lines.drop_last();
        lemma_window_keeps_latest(head);
        if lines.len() <= WINDOW_CAPACITY {
            assert(window_after(head).push(lines.last()) =~= lines);
        } else if lines.len() == WINDOW_CAPACITY + 1 {
            assert(window_after(head).drop_first().push(lines.last()) =~= lines.skip(1));
        } else {
            assert(window_after(head) == head.skip(head.len() - WINDOW_CAPACITY));
            assert(window_after(head).drop_first().push(lines.last()) =~= lines.skip(
                lines.len() - WINDOW_CAPACITY,
            ));
        }
    }
}

} // verus!
