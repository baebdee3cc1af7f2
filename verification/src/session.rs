//! The transfer session: the state the drive loop keeps while the copy
//! tool runs, and the decision taken on each line of its diagnostic
//! stream.  The loop around it only reads lines, paints frames and waits
//! on the child process; every choice of what a line means is made here.

use vstd::prelude::*;
use crate::progress::{parse, parse_spec, ProgressReport};
use crate::window::DiagnosticWindow;

verus! {

/// One running transfer: the expected total and the rolling window of
/// recent diagnostic lines.
pub struct TransferSession {
    total_bytes: u64,
    window: DiagnosticWindow,
}

impl TransferSession {
    /// The byte count the source file reported before the transfer began.
    pub closed spec fn total(&self) -> u64 {
        self.total_bytes
    }

    /// The buffered diagnostic lines, oldest first.
    pub closed spec fn lines(&self) -> Seq<Seq<char>> {
        self.window@
    }

    /// The window never outgrows its capacity.
    pub closed spec fn wf(&self) -> bool {
        self.window.wf()
    }

    /// A fresh session with nothing buffered.
    pub fn new(total_bytes: u64) -> (r: Self)
        ensures
            r.wf(),
            r.total() == total_bytes,
            r.lines() == Seq::<Seq<char>>::empty(),
    {
        TransferSession { total_bytes, window: DiagnosticWindow::new() }
    }

    /// Take one line from the diagnostic stream: a progress line comes
    /// back parsed and leaves the window alone; any other line joins the
    /// rolling window.
    pub fn handle_line(&mut self, line: String) -> (r: Option<ProgressReport>)
        requires
            old(self).wf(),
        ensures
            final(self).wf(),
            final(self).total() == old(self).total(),
            match parse_spec(line@) {
                Some(f) => {
                    &&& r is Some
                    &&& r->0@ == f
                    &&& final(self).lines() == old(self).lines()
                },
                None => {
                    &&& r is None
                    &&& final(self).lines() == DiagnosticWindow::pushed(old(self).lines(), line@)
                },
            },
    {
        match parse(line.as_str()) {
            Some(rep) => Some(rep),
            None => {
                let _ = self.window.push(line);
                None
            },
        }
    }

    /// The buffered diagnostic lines, oldest first, for repainting.
    pub fn diagnostic_lines(&self) -> (r: Vec<String>)
        ensures
            r.deep_view() == self.lines(),
    {
        self.window.lines()
    }

    /// How many rows the renderer must move back up once the buffered
    /// lines are repainted.
    pub fn rewind_rows(&self) -> (r: usize)
        ensures
            r == self.lines().len(),
    {
        self.window.len()
    }

    /// The expected total, for display beside each report.
    pub fn total_bytes(&self) -> (r: u64)
        ensures
            r == self.total(),
    {
        self.total_bytes
    }
}

/// The transferred share as an exact scaled ratio: `bytes * scale /
/// total`, rounded down.  Deliberately unclamped: where the source grew
/// after its size was taken, the ratio passes `scale` just as the
/// displayed quotient passes one.
pub fn ratio_scaled(bytes: u64, total: u64, scale: u64) -> (r: u128)
    requires
        total > 0,
    ensures
        r == bytes as int * scale as int / total as int,
{
    proof {
        assert(bytes as int * scale as int <= u64::MAX as int * u64::MAX as int)
            by (nonlinear_arith)
            requires
                bytes <= u64::MAX,
                scale <= u64::MAX,
        ;
    }
    (bytes as u128) * (scale as u128) / (total as u128)
}

} // verus!
