//! Diagnostics: what a stage records when it meets something wrong and goes on.

use vstd::prelude::*;

verus! {

/// What a diagnostic is, as mathematics.
pub struct DiagnosticView {
    pub line: nat,
    pub index: nat,
    pub message: Seq<char>,
}

/// A recorded, non-fatal complaint with the position it was raised at.
#[derive(Debug)]
pub struct Diagnostic {
    pub line: usize,
    pub index: usize,
    pub message: String,
}

impl View for Diagnostic {
    type V = DiagnosticView;

    open spec fn view(&self) -> DiagnosticView {
        DiagnosticView {
            line: self.line as nat,
            index: self.index as nat,
            message: self.message@,
        }
    }
}

impl Clone for Diagnostic {
    fn clone(&self) -> (d: Self)
        ensures
            d@ == self@,
    {
        Diagnostic { line: self.line, index: self.index, message: self.message.clone() }
    }
}

/// The views of a sequence of diagnostics, in order.
pub open spec fn diagnostic_views(diagnostics: Seq<Diagnostic>) -> Seq<DiagnosticView> {
    diagnostics.map_values(|d: Diagnostic| d@)
}

/// The complaint `message` raised at `line` and `index`.
pub open spec fn complaint(line: nat, index: nat, message: Seq<char>) -> DiagnosticView {
    DiagnosticView { line, index, message }
}

/// Appends one diagnostic to `sink`.
pub fn report(sink: &mut Vec<Diagnostic>, line: usize, index: usize, message: String)
    ensures
        diagnostic_views(final(sink)@) == diagnostic_views(old(sink)@).push(
            complaint(line as nat, index as nat, message@),
        ),
{
    let d = Diagnostic { line, index, message };
    sink.push(d);
    assert(diagnostic_views(sink@) =~= diagnostic_views(old(sink)@).push(d@));
}

} // verus!
