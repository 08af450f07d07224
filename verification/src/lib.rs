use vstd::prelude::*;

pub mod changelog;
pub mod diagnostics;
pub mod events;
pub mod header;
pub mod parser;
pub mod sections;
pub mod span;

pub use changelog::{Changelog, Changes, Date, Item, Release, Version};
pub use diagnostics::{Diag, Diagnostics, Severity};
pub use events::{MdEvent, MdTag};
pub use sections::SectionKind;
pub use span::Span;

use crate::changelog::ChangelogM;
use crate::diagnostics::diags_model;
use crate::events::tokens_of;
use crate::parser::parse_run;
use codespan::FileId;
use vstd::string::StringSliceAdditionalSpecFns;

verus! {

/// Parses a "Keep a Changelog"-style markdown document into its releases.
/// Spans in the result are byte offsets into `src`; every recoverable parse
/// error is appended to `diags`, tagged with `file_id`, and the parse itself
/// never fails: a document with no valid heading yields an empty release
/// list.
pub fn parse(file_id: FileId, src: &str, diags: &mut Diagnostics) -> (c: Changelog)
    ensures
        ({
            let run = parse_run(tokens_of(src.spec_bytes()));
            &&& c.model() == (ChangelogM {
                releases: run.0,
                span: Span { start: 0, end: src.spec_bytes().len() as usize },
            })
            &&& diags_model(final(diags)@) == diags_model(old(diags)@) + run.1
            &&& final(diags)@.len() >= old(diags)@.len()
            &&& forall|i: int| 0 <= i < old(diags)@.len() ==> final(diags)@[i] == old(diags)@[i]
            &&& forall|i: int|
                old(diags)@.len() <= i < final(diags)@.len() ==> final(diags)@[i].file_id
                    == file_id
        }),
{
    parser::parse(file_id, src, diags)
}

} // verus!
