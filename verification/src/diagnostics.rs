use vstd::prelude::*;

use crate::span::Span;
use codespan::FileId;

verus! {

/// Declares codespan::FileId, the opaque handle into the caller's source
/// registry that tags every diagnostic; the parser only carries it through.
#[verifier::external_type_specification]
#[verifier::external_body]
pub struct ExFileId(FileId);

/// Relies on codespan::FileId's derived Clone: a clone of the Copy handle is
/// the same handle.
pub assume_specification[ <FileId as Clone>::clone ](f: &FileId) -> (r: FileId)
    ensures
        r == *f,
;

/// How grave one diagnostic is, from mildest to gravest.
#[derive(Clone, Copy, Debug, PartialEq, Eq, Structural)]
pub enum Severity {
    Help,
    Note,
    Warning,
    Error,
    Bug,
}

impl Severity {
    /// The position of this severity on the mild-to-grave scale.
    pub open spec fn rank_spec(self) -> int {
        match self {
            Severity::Help => 0,
            Severity::Note => 1,
            Severity::Warning => 2,
            Severity::Error => 3,
            Severity::Bug => 4,
        }
    }

    /// The position of this severity on the mild-to-grave scale.
    pub fn rank(self) -> (n: u8)
        ensures
            n as int == self.rank_spec(),
    {
        match self {
            Severity::Help => 0,
            Severity::Note => 1,
            Severity::Warning => 2,
            Severity::Error => 3,
            Severity::Bug => 4,
        }
    }
}

/// The mathematical content of one diagnostic: its severity, message text and
/// the byte span of the source it points at.
#[verifier::ext_equal]
pub struct DiagM {
    pub severity: Severity,
    pub message: Seq<char>,
    pub span: Span,
}

/// A structured, non-fatal report of a localized parse problem, tagged with
/// the handle of the source file it points into.
#[derive(Debug, Clone)]
pub struct Diag {
    pub file_id: FileId,
    pub severity: Severity,
    pub message: String,
    pub span: Span,
}

impl Diag {
    /// What this diagnostic says, apart from the file handle it is tagged with.
    pub open spec fn model(self) -> DiagM {
        DiagM { severity: self.severity, message: self.message@, span: self.span }
    }
}

/// The content of a sequence of diagnostics, in order.
pub open spec fn diags_model(s: Seq<Diag>) -> Seq<DiagM> {
    Seq::new(s.len(), |i: int| s[i].model())
}

/// A diagnostic sink that keeps every reported diagnostic, in report order.
#[derive(Debug, Clone)]
pub struct Diagnostics {
    diags: Vec<Diag>,
}

impl View for Diagnostics {
    type V = Seq<Diag>;

    closed spec fn view(&self) -> Seq<Diag> {
        self.diags@
    }
}

impl Diagnostics {
    /// An empty sink.
    pub fn new() -> (d: Diagnostics)
        ensures
            d@ == Seq::<Diag>::empty(),
    {
        Diagnostics { diags: Vec::new() }
    }

    /// Every diagnostic reported so far, in report order.
    pub fn diagnostics(&self) -> (r: &[Diag])
        ensures
            r@ == self@,
    {
        self.diags.as_slice()
    }

    /// Appends one diagnostic to the sink.
    pub fn report(&mut self, d: Diag)
        ensures
            final(self)@ == old(self)@.push(d),
    {
        self.diags.push(d);
    }

    /// Whether some kept diagnostic is at least as grave as `severity`.
    pub fn contains_at_least(&self, severity: Severity) -> (r: bool)
        ensures
            r == exists|i: int|
                0 <= i < self@.len() && self@[i].severity.rank_spec() >= severity.rank_spec(),
    {
        let bound = severity.rank();
        let mut i: usize = 0;
        while i < self.diags.len()
            invariant
                0 <= i <= self.diags.len(),
                bound as int == severity.rank_spec(),
                forall|k: int|
                    0 <= k < i ==> self@[k].severity.rank_spec() < severity.rank_spec(),
            decreases self.diags.len() - i,
        {
            if self.diags[i].severity.rank() >= bound {
                return true;
            }
            i = i + 1;
        }
        false
    }
}

impl Default for Diagnostics {
    /// An empty sink.
    fn default() -> (d: Diagnostics)
        ensures
            d@ == Seq::<Diag>::empty(),
    {
        Diagnostics::new()
    }
}

} // verus!
