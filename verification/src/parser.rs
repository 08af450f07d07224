use vstd::prelude::*;

use crate::changelog::{
    lemma_items_model_push, lemma_releases_model_push, items_model, releases_model, Changelog,
    ChangelogM, ChangesM, Item, ItemM, Release, ReleaseM,
};
use crate::diagnostics::{diags_model, Diag, DiagM, Diagnostics};
use crate::events::{tokenize, tokens_of, MdEvent, MdTag};
use crate::header::{header_of, inline_bytes, parse_header};
use crate::sections::{classify, classify_spec, SectionKind};
use crate::span::Span;
use codespan::FileId;
use vstd::string::StringSliceAdditionalSpecFns;

verus! {

/// What the fold carries across events: the file handle for diagnostics and
/// the releases completed so far, in source order.
pub struct State {
    pub file_id: FileId,
    pub releases: Vec<Release>,
}

/// The parser state machine.
#[derive(Debug, PartialEq, Eq)]
pub enum Parser {
    /// Waiting for a level-2 heading; the initial state.
    Idle,
    /// Between a level-2 heading's start and end events; `buffer` holds every
    /// event seen so far in this heading, the opening event included.
    ReadingHeader { buffer: Vec<(MdEvent, Span)> },
    /// Inside a release's body, after its heading parsed. `section` is the
    /// category named by the nearest preceding level-3 heading, `heading` the
    /// text of a level-3 heading currently being read, and `stack` the open
    /// (unclosed) list items, outermost first.
    ReadingRelease {
        release: Release,
        section: Option<SectionKind>,
        heading: Option<Vec<u8>>,
        stack: Vec<Item>,
    },
}

/// The mathematical content of a parser state.
#[verifier::ext_equal]
pub enum ParserM {
    Idle,
    ReadingHeader { buffer: Seq<(MdEvent, Span)> },
    ReadingRelease {
        release: ReleaseM,
        section: Option<SectionKind>,
        heading: Option<Seq<u8>>,
        stack: Seq<ItemM>,
    },
}

impl Parser {
    /// The mathematical content of this parser state.
    pub open spec fn model(self) -> ParserM {
        match self {
            Parser::Idle => ParserM::Idle,
            Parser::ReadingHeader { buffer } => ParserM::ReadingHeader { buffer: buffer@ },
            Parser::ReadingRelease { release, section, heading, stack } => ParserM::ReadingRelease {
                release: release.model(),
                section,
                heading: match heading {
                    Some(h) => Some(h@),
                    None => None,
                },
                stack: items_model(stack@),
            },
        }
    }
}

impl Default for Parser {
    /// A parser starts idle.
    fn default() -> (p: Parser)
        ensures
            p.model() == ParserM::Idle,
    {
        Parser::Idle
    }
}

/// What one step of the fold produces: the next state and the releases and
/// diagnostics emitted by this step, in order.
#[verifier::ext_equal]
pub struct StepM {
    pub state: ParserM,
    pub releases: Seq<ReleaseM>,
    pub diags: Seq<DiagM>,
}

/// `span` grown to reach at least `end`.
pub open spec fn extend_span(sp: Span, end: usize) -> Span {
    Span { start: sp.start, end: if sp.end >= end { sp.end } else { end } }
}

/// `rel` with its span grown to reach at least `end`.
pub open spec fn extend_release_span(rel: ReleaseM, end: usize) -> ReleaseM {
    ReleaseM {
        version: rel.version,
        date: rel.date,
        link: rel.link,
        changes: rel.changes,
        span: extend_span(rel.span, end),
    }
}

/// `it` appended to the category that `section` names; an item under no
/// section, or under an unrecognized one, is attached to no category.
pub open spec fn attach_item(rel: ReleaseM, section: Option<SectionKind>, it: ItemM) -> ReleaseM {
    match section {
        Some(SectionKind::Added) => ReleaseM {
            version: rel.version,
            date: rel.date,
            link: rel.link,
            changes: ChangesM {
                added: rel.changes.added.push(it),
                changed: rel.changes.changed,
                fixed: rel.changes.fixed,
            },
            span: rel.span,
        },
        Some(SectionKind::Changed) => ReleaseM {
            version: rel.version,
            date: rel.date,
            link: rel.link,
            changes: ChangesM {
                added: rel.changes.added,
                changed: rel.changes.changed.push(it),
                fixed: rel.changes.fixed,
            },
            span: rel.span,
        },
        Some(SectionKind::Fixed) => ReleaseM {
            version: rel.version,
            date: rel.date,
            link: rel.link,
            changes: ChangesM {
                added: rel.changes.added,
                changed: rel.changes.changed,
                fixed: rel.changes.fixed.push(it),
            },
            span: rel.span,
        },
        _ => rel,
    }
}

/// The idle transition: a level-2 heading start opens a heading buffer
/// holding that event; everything else is ignored.
pub open spec fn idle_step(e: MdEvent, s: Span) -> ParserM {
    if e.is_heading_start(2) {
        ParserM::ReadingHeader { buffer: seq![(e, s)] }
    } else {
        ParserM::Idle
    }
}

/// The transition while buffering a level-2 heading: its end event hands the
/// buffer to the header extractor — success opens a release, failure emits
/// one diagnostic and resynchronizes to idle; every other event is buffered.
pub open spec fn reading_header_step(buffer: Seq<(MdEvent, Span)>, e: MdEvent, s: Span) -> StepM {
    if e.is_heading_end(2) {
        match header_of(buffer) {
            Ok(rel) => StepM {
                state: ParserM::ReadingRelease {
                    release: rel,
                    section: None,
                    heading: None,
                    stack: Seq::empty(),
                },
                releases: Seq::empty(),
                diags: Seq::empty(),
            },
            Err(d) => StepM { state: ParserM::Idle, releases: Seq::empty(), diags: seq![d] },
        }
    } else {
        StepM {
            state: ParserM::ReadingHeader { buffer: buffer.push((e, s)) },
            releases: Seq::empty(),
            diags: Seq::empty(),
        }
    }
}

/// The transition inside a release's body. A new level-2 heading finalizes
/// the release and opens the next heading buffer. A level-3 heading's text is
/// captured and classified at its end event. List item boundaries build the
/// item tree: an item closing at the top level is attached to the active
/// category (or to none); one closing deeper becomes a child of its parent.
/// Events inside an open item, other than list structure, join its body. The
/// release span grows over classified section headings and completed
/// top-level items. Everything else is ignored.
pub open spec fn reading_release_step(
    rel: ReleaseM,
    section: Option<SectionKind>,
    heading: Option<Seq<u8>>,
    stack: Seq<ItemM>,
    e: MdEvent,
    s: Span,
) -> StepM {
    if e.is_heading_start(2) {
        StepM {
            state: ParserM::ReadingHeader { buffer: seq![(e, s)] },
            releases: seq![rel],
            diags: Seq::empty(),
        }
    } else if heading is Some {
        let h = heading->0;
        if e.is_heading_end(3) {
            StepM {
                state: ParserM::ReadingRelease {
                    release: extend_release_span(rel, s.end),
                    section: Some(classify_spec(h)),
                    heading: None,
                    stack,
                },
                releases: Seq::empty(),
                diags: Seq::empty(),
            }
        } else {
            StepM {
                state: ParserM::ReadingRelease {
                    release: rel,
                    section,
                    heading: Some(h + inline_bytes(e)),
                    stack,
                },
                releases: Seq::empty(),
                diags: Seq::empty(),
            }
        }
    } else if e.is_heading_start(3) && stack.len() == 0 {
        StepM {
            state: ParserM::ReadingRelease {
                release: rel,
                section,
                heading: Some(Seq::empty()),
                stack,
            },
            releases: Seq::empty(),
            diags: Seq::empty(),
        }
    } else if e matches MdEvent::Start(MdTag::ListItem) {
        StepM {
            state: ParserM::ReadingRelease {
                release: rel,
                section,
                heading: None,
                stack: stack.push(ItemM { body: Seq::empty(), children: Seq::empty(), span: s }),
            },
            releases: Seq::empty(),
            diags: Seq::empty(),
        }
    } else if e matches MdEvent::End(MdTag::ListItem) {
        if stack.len() == 0 {
            StepM {
                state: ParserM::ReadingRelease { release: rel, section, heading: None, stack },
                releases: Seq::empty(),
                diags: Seq::empty(),
            }
        } else {
            let it = stack.last();
            let rest = stack.drop_last();
            if rest.len() > 0 {
                let parent = rest.last();
                StepM {
                    state: ParserM::ReadingRelease {
                        release: rel,
                        section,
                        heading: None,
                        stack: rest.update(
                            rest.len() - 1,
                            ItemM {
                                body: parent.body,
                                children: parent.children.push(it),
                                span: parent.span,
                            },
                        ),
                    },
                    releases: Seq::empty(),
                    diags: Seq::empty(),
                }
            } else {
                StepM {
                    state: ParserM::ReadingRelease {
                        release: extend_release_span(attach_item(rel, section, it), s.end),
                        section,
                        heading: None,
                        stack: rest,
                    },
                    releases: Seq::empty(),
                    diags: Seq::empty(),
                }
            }
        }
    } else if stack.len() > 0 && !(e matches MdEvent::Start(MdTag::List(_))) && !(e
        matches MdEvent::End(MdTag::List(_))) {
        let top = stack.last();
        StepM {
            state: ParserM::ReadingRelease {
                release: rel,
                section,
                heading: None,
                stack: stack.update(
                    stack.len() - 1,
                    ItemM { body: top.body.push(e), children: top.children, span: top.span },
                ),
            },
            releases: Seq::empty(),
            diags: Seq::empty(),
        }
    } else {
        StepM {
            state: ParserM::ReadingRelease { release: rel, section, heading: None, stack },
            releases: Seq::empty(),
            diags: Seq::empty(),
        }
    }
}

/// One step of the event-driven fold.
pub open spec fn step_spec(p: ParserM, e: MdEvent, s: Span) -> StepM {
    match p {
        ParserM::Idle => StepM {
            state: idle_step(e, s),
            releases: Seq::empty(),
            diags: Seq::empty(),
        },
        ParserM::ReadingHeader { buffer } => reading_header_step(buffer, e, s),
        ParserM::ReadingRelease { release, section, heading, stack } => reading_release_step(
            release,
            section,
            heading,
            stack,
            e,
            s,
        ),
    }
}

/// What the end-of-stream flush emits: an idle parser nothing; a buffered
/// heading its extracted (childless) release or one diagnostic; a release in
/// progress the release as accumulated so far.
pub open spec fn flush_spec(p: ParserM) -> (Seq<ReleaseM>, Seq<DiagM>) {
    match p {
        ParserM::Idle => (Seq::empty(), Seq::empty()),
        ParserM::ReadingHeader { buffer } => match header_of(buffer) {
            Ok(rel) => (seq![rel], Seq::empty()),
            Err(d) => (Seq::empty(), seq![d]),
        },
        ParserM::ReadingRelease { release, .. } => (seq![release], Seq::empty()),
    }
}

/// The fold state after consuming a whole event stream from idle, with every
/// release and diagnostic emitted on the way, in order.
#[verifier::ext_equal]
pub struct RunM {
    pub state: ParserM,
    pub releases: Seq<ReleaseM>,
    pub diags: Seq<DiagM>,
}

/// Folds `step_spec` over an event stream, starting idle.
pub open spec fn run_from(evs: Seq<(MdEvent, Span)>) -> RunM
    decreases evs.len(),
{
    if evs.len() == 0 {
        RunM { state: ParserM::Idle, releases: Seq::empty(), diags: Seq::empty() }
    } else {
        let prev = run_from(evs.drop_last());
        let st = step_spec(prev.state, evs.last().0, evs.last().1);
        RunM {
            state: st.state,
            releases: prev.releases + st.releases,
            diags: prev.diags + st.diags,
        }
    }
}

/// The whole parse of an event stream: the fold over every event, then the
/// end-of-stream flush. Gives the releases and the diagnostics, each in
/// source order.
pub open spec fn parse_run(evs: Seq<(MdEvent, Span)>) -> (Seq<ReleaseM>, Seq<DiagM>) {
    let r = run_from(evs);
    let fl = flush_spec(r.state);
    (r.releases + fl.0, r.diags + fl.1)
}

/// The idle transition: a level-2 heading start opens a heading buffer.
pub fn process_idle(event: MdEvent, span: Span) -> (p: Parser)
    ensures
        p.model() == idle_step(event, span),
{
    let is_h2 = match &event {
        MdEvent::Start(MdTag::Heading(2)) => true,
        _ => false,
    };
    if is_h2 {
        let mut buffer: Vec<(MdEvent, Span)> = Vec::new();
        buffer.push((event, span));
        let p = Parser::ReadingHeader { buffer };
        proof {
            assert(p.model() =~~= idle_step(event, span));
        }
        p
    } else {
        Parser::Idle
    }
}

/// The transition while buffering a level-2 heading.
pub fn process_reading_header(
    event: MdEvent,
    span: Span,
    buffer: Vec<(MdEvent, Span)>,
    state: &mut State,
    diags: &mut Diagnostics,
) -> (p: Parser)
    ensures
        ({
            let st = reading_header_step(buffer@, event, span);
            &&& p.model() == st.state
            &&& releases_model(final(state).releases@) == releases_model(old(state).releases@)
                + st.releases
            &&& final(state).file_id == old(state).file_id
            &&& diags_model(final(diags)@) == diags_model(old(diags)@) + st.diags
            &&& final(diags)@.len() >= old(diags)@.len()
            &&& forall|i: int| 0 <= i < old(diags)@.len() ==> final(diags)@[i] == old(diags)@[i]
            &&& forall|i: int|
                old(diags)@.len() <= i < final(diags)@.len() ==> final(diags)@[i].file_id == old(
                    state,
                ).file_id
        }),
{
    let ghost bufm = buffer@;
    let ghost st = reading_header_step(buffer@, event, span);
    let is_h2_end = match &event {
        MdEvent::End(MdTag::Heading(2)) => true,
        _ => false,
    };
    if is_h2_end {
        let fid = state.file_id.clone();
        match parse_header(buffer, fid) {
            Ok(release) => {
                let p = Parser::ReadingRelease {
                    release,
                    section: None,
                    heading: None,
                    stack: Vec::new(),
                };
                proof {
                    assert(p.model() =~~= st.state);
                    assert(releases_model(state.releases@) =~= releases_model(state.releases@)
                        + Seq::<ReleaseM>::empty());
                    assert(diags_model(diags@) =~= diags_model(diags@) + Seq::<DiagM>::empty());
                }
                p
            },
            Err(d) => {
                let ghost dm = d.model();
                diags.report(d);
                proof {
                    assert(releases_model(state.releases@) =~= releases_model(state.releases@)
                        + Seq::<ReleaseM>::empty());
                    assert(diags_model(diags@) =~= diags_model(old(diags)@) + seq![dm]);
                }
                Parser::Idle
            },
        }
    } else {
        let mut buffer = buffer;
        buffer.push((event, span));
        let p = Parser::ReadingHeader { buffer };
        proof {
            assert(p.model() =~~= st.state);
            assert(releases_model(state.releases@) =~= releases_model(state.releases@)
                + Seq::<ReleaseM>::empty());
            assert(diags_model(diags@) =~= diags_model(diags@) + Seq::<DiagM>::empty());
        }
        p
    }
}

/// The transition inside a release's body.
pub fn process_reading_release(
    event: MdEvent,
    span: Span,
    release: Release,
    section: Option<SectionKind>,
    heading: Option<Vec<u8>>,
    stack: Vec<Item>,
    state: &mut State,
) -> (p: Parser)
    ensures
        ({
            let st = reading_release_step(
                release.model(),
                section,
                match heading {
                    Some(h) => Some(h@),
                    None => None,
                },
                items_model(stack@),
                event,
                span,
            );
            &&& p.model() == st.state
            &&& releases_model(final(state).releases@) == releases_model(old(state).releases@)
                + st.releases
            &&& final(state).file_id == old(state).file_id
        }),
{
    let ghost relm = release.model();
    let ghost headm: Option<Seq<u8>> = match &heading {
        Some(h) => Some(h@),
        None => None,
    };
    let ghost stackm = items_model(stack@);
    let ghost st = reading_release_step(relm, section, headm, stackm, event, span);

    let is_h2_start = match &event {
        MdEvent::Start(MdTag::Heading(2)) => true,
        _ => false,
    };
    if is_h2_start {
        let ghost rels0 = state.releases@;
        state.releases.push(release);
        let mut buffer: Vec<(MdEvent, Span)> = Vec::new();
        buffer.push((event, span));
        let p = Parser::ReadingHeader { buffer };
        proof {
            lemma_releases_model_push(rels0, release);
            assert(releases_model(state.releases@) =~= releases_model(rels0) + seq![relm]);
            assert(p.model() =~~= st.state);
        }
        return p;
    }
    proof {
        assert(releases_model(state.releases@) =~= releases_model(state.releases@)
            + Seq::<ReleaseM>::empty());
    }
    if heading.is_some() {
        let mut h = heading.unwrap();
        let is_h3_end = match &event {
            MdEvent::End(MdTag::Heading(3)) => true,
            _ => false,
        };
        if is_h3_end {
            let kind = classify(&h);
            let mut release = release;
            release.span = Span {
                start: release.span.start,
                end: if release.span.end >= span.end {
                    release.span.end
                } else {
                    span.end
                },
            };
            let p = Parser::ReadingRelease { release, section: Some(kind), heading: None, stack };
            proof {
                assert(p.model() =~~= st.state);
            }
            return p;
        } else {
            match &event {
                MdEvent::Text(t) => {
                    let mut k: usize = 0;
                    while k < t.len()
                        invariant
                            k <= t@.len(),
                            h@ == headm->0 + t@.take(k as int),
                        decreases t@.len() - k,
                    {
                        h.push(t[k]);
                        proof {
                            assert(t@.take(k + 1 as int) =~= t@.take(k as int).push(t@[k as int]));
                        }
                        k = k + 1;
                    }
                    proof {
                        assert(t@.take(t@.len() as int) =~= t@);
                    }
                },
                MdEvent::Code(t) => {
                    let mut k: usize = 0;
                    while k < t.len()
                        invariant
                            k <= t@.len(),
                            h@ == headm->0 + t@.take(k as int),
                        decreases t@.len() - k,
                    {
                        h.push(t[k]);
                        proof {
                            assert(t@.take(k + 1 as int) =~= t@.take(k as int).push(t@[k as int]));
                        }
                        k = k + 1;
                    }
                    proof {
                        assert(t@.take(t@.len() as int) =~= t@);
                    }
                },
                MdEvent::SoftBreak => {
                    h.push(32);
                    proof {
                        assert(h@ =~= headm->0 + inline_bytes(event));
                    }
                },
                _ => {
                    proof {
                        assert(h@ =~= headm->0 + inline_bytes(event));
                    }
                },
            }
            let p = Parser::ReadingRelease { release, section, heading: Some(h), stack };
            proof {
                assert(p.model() =~~= st.state);
            }
            return p;
        }
    }
    let is_h3_start = match &event {
        MdEvent::Start(MdTag::Heading(3)) => true,
        _ => false,
    };
    if is_h3_start && stack.len() == 0 {
        let p = Parser::ReadingRelease {
            release,
            section,
            heading: Some(Vec::new()),
            stack,
        };
        proof {
            assert(p.model() =~~= st.state);
        }
        return p;
    }
    let is_item_start = match &event {
        MdEvent::Start(MdTag::ListItem) => true,
        _ => false,
    };
    if is_item_start {
        let mut stack = stack;
        let ghost stack0 = stack@;
        let it = Item::new(span);
        stack.push(it);
        let p = Parser::ReadingRelease { release, section, heading: None, stack };
        proof {
            lemma_items_model_push(stack0, it);
            assert(p.model() =~~= st.state);
        }
        return p;
    }
    let is_item_end = match &event {
        MdEvent::End(MdTag::ListItem) => true,
        _ => false,
    };
    if is_item_end {
        if stack.len() == 0 {
            let p = Parser::ReadingRelease { release, section, heading: None, stack };
            proof {
                assert(p.model() =~~= st.state);
            }
            return p;
        }
        let mut stack = stack;
        let ghost stack0 = stack@;
        let it = stack.pop().unwrap();
        proof {
            assert(stack@ =~= stack0.drop_last());
            assert(items_model(stack0.drop_last()) =~= items_model(stack0).drop_last());
            assert(it.model() == items_model(stack0).last());
        }
        if stack.len() > 0 {
            let ghost rest = stack@;
            let mut parent = stack.pop().unwrap();
            parent.push_child(it);
            stack.push(parent);
            let p = Parser::ReadingRelease { release, section, heading: None, stack };
            proof {
                assert(stack@ =~= rest.drop_last().push(parent));
                lemma_items_model_push(rest.drop_last(), parent);
                assert(items_model(rest.drop_last()) =~= items_model(rest).drop_last());
                assert(items_model(rest) =~= items_model(stack0).drop_last());
                assert(items_model(stack@) =~= items_model(stack0).drop_last().update(
                    items_model(stack0).drop_last().len() - 1,
                    parent.model(),
                ));
                assert(p.model() =~~= st.state);
            }
            return p;
        } else {
            let mut release = release;
            match section {
                Some(SectionKind::Added) => {
                    let ghost cat0 = release.changes.added@;
                    release.changes.added.push(it);
                    proof {
                        lemma_items_model_push(cat0, it);
                    }
                },
                Some(SectionKind::Changed) => {
                    let ghost cat0 = release.changes.changed@;
                    release.changes.changed.push(it);
                    proof {
                        lemma_items_model_push(cat0, it);
                    }
                },
                Some(SectionKind::Fixed) => {
                    let ghost cat0 = release.changes.fixed@;
                    release.changes.fixed.push(it);
                    proof {
                        lemma_items_model_push(cat0, it);
                    }
                },
                _ => {},
            }
            proof {
                assert(release.model() =~~= attach_item(relm, section, it.model()));
            }
            release.span = Span {
                start: release.span.start,
                end: if release.span.end >= span.end {
                    release.span.end
                } else {
                    span.end
                },
            };
            let p = Parser::ReadingRelease { release, section, heading: None, stack };
            proof {
                assert(items_model(stack@) =~= items_model(stack0).drop_last());
                assert(p.model() =~~= st.state);
            }
            return p;
        }
    }
    if stack.len() > 0 {
        let is_list_tag = match &event {
            MdEvent::Start(MdTag::List(_)) => true,
            MdEvent::End(MdTag::List(_)) => true,
            _ => false,
        };
        if !is_list_tag {
            let mut stack = stack;
            let ghost stack0 = stack@;
            let mut top = stack.pop().unwrap();
            let ghost top0 = top;
            top.push_body(event);
            stack.push(top);
            let p = Parser::ReadingRelease { release, section, heading: None, stack };
            proof {
                assert(stack@ =~= stack0.drop_last().push(top));
                lemma_items_model_push(stack0.drop_last(), top);
                assert(items_model(stack0.drop_last()) =~= items_model(stack0).drop_last());
                assert(top0.model() == items_model(stack0).last());
                assert(items_model(stack@) =~= items_model(stack0).update(
                    items_model(stack0).len() - 1,
                    top.model(),
                ));
                assert(p.model() =~~= st.state);
            }
            return p;
        }
        let p = Parser::ReadingRelease { release, section, heading: None, stack };
        proof {
            assert(p.model() =~~= st.state);
        }
        return p;
    }
    let p = Parser::ReadingRelease { release, section, heading: None, stack };
    proof {
        assert(p.model() =~~= st.state);
    }
    p
}

impl Parser {
    /// Consumes one event with its span: drives the state machine one step,
    /// appending any completed release to the state and any diagnostic to the
    /// sink, both tagged for the state's file.
    pub fn process(
        self,
        event: MdEvent,
        span: Span,
        state: &mut State,
        diags: &mut Diagnostics,
    ) -> (p: Parser)
        ensures
            ({
                let st = step_spec(self.model(), event, span);
                &&& p.model() == st.state
                &&& releases_model(final(state).releases@) == releases_model(old(state).releases@)
                    + st.releases
                &&& final(state).file_id == old(state).file_id
                &&& diags_model(final(diags)@) == diags_model(old(diags)@) + st.diags
                &&& final(diags)@.len() >= old(diags)@.len()
            &&& forall|i: int| 0 <= i < old(diags)@.len() ==> final(diags)@[i] == old(diags)@[i]
                &&& forall|i: int|
                    old(diags)@.len() <= i < final(diags)@.len() ==> final(diags)@[i].file_id
                        == old(state).file_id
            }),
    {
        match self {
            Parser::Idle => {
                let p = process_idle(event, span);
                proof {
                    assert(releases_model(state.releases@) =~= releases_model(state.releases@)
                        + Seq::<ReleaseM>::empty());
                    assert(diags_model(diags@) =~= diags_model(diags@) + Seq::<DiagM>::empty());
                }
                p
            },
            Parser::ReadingHeader { buffer } => process_reading_header(
                event,
                span,
                buffer,
                state,
                diags,
            ),
            Parser::ReadingRelease { release, section, heading, stack } => {
                let p = process_reading_release(event, span, release, section, heading, stack, state);
                proof {
                    assert(diags_model(diags@) =~= diags_model(diags@) + Seq::<DiagM>::empty());
                }
                p
            },
        }
    }

    /// Finalizes any pending work at the end of the stream: a buffered
    /// heading is extracted (or reported), a release in progress is kept as
    /// accumulated.
    pub fn flush(self, state: &mut State, diags: &mut Diagnostics)
        ensures
            ({
                let fl = flush_spec(self.model());
                &&& releases_model(final(state).releases@) == releases_model(old(state).releases@)
                    + fl.0
                &&& final(state).file_id == old(state).file_id
                &&& diags_model(final(diags)@) == diags_model(old(diags)@) + fl.1
                &&& final(diags)@.len() >= old(diags)@.len()
            &&& forall|i: int| 0 <= i < old(diags)@.len() ==> final(diags)@[i] == old(diags)@[i]
                &&& forall|i: int|
                    old(diags)@.len() <= i < final(diags)@.len() ==> final(diags)@[i].file_id
                        == old(state).file_id
            }),
    {
        match self {
            Parser::Idle => {
                proof {
                    assert(releases_model(state.releases@) =~= releases_model(state.releases@)
                        + Seq::<ReleaseM>::empty());
                    assert(diags_model(diags@) =~= diags_model(diags@) + Seq::<DiagM>::empty());
                }
            },
            Parser::ReadingHeader { buffer } => {
                let fid = state.file_id.clone();
                match parse_header(buffer, fid) {
                    Ok(release) => {
                        let ghost rels0 = state.releases@;
                        let ghost relm = release.model();
                        state.releases.push(release);
                        proof {
                            lemma_releases_model_push(rels0, release);
                            assert(releases_model(state.releases@) =~= releases_model(rels0)
                                + seq![relm]);
                            assert(diags_model(diags@) =~= diags_model(diags@)
                                + Seq::<DiagM>::empty());
                        }
                    },
                    Err(d) => {
                        let ghost dm = d.model();
                        diags.report(d);
                        proof {
                            assert(releases_model(state.releases@) =~= releases_model(
                                state.releases@,
                            ) + Seq::<ReleaseM>::empty());
                            assert(diags_model(diags@) =~= diags_model(old(diags)@) + seq![dm]);
                        }
                    },
                }
            },
            Parser::ReadingRelease { release, .. } => {
                let ghost rels0 = state.releases@;
                let ghost relm = release.model();
                state.releases.push(release);
                proof {
                    lemma_releases_model_push(rels0, release);
                    assert(releases_model(state.releases@) =~= releases_model(rels0) + seq![relm]);
                    assert(diags_model(diags@) =~= diags_model(diags@) + Seq::<DiagM>::empty());
                }
            },
        }
    }
}

/// A fresh vector holding the same pairs back to front.
fn reverse_events(v: Vec<(MdEvent, Span)>) -> (r: Vec<(MdEvent, Span)>)
    ensures
        r@.len() == v@.len(),
        forall|k: int| 0 <= k < v@.len() ==> r@[k] == v@[v@.len() - 1 - k],
{
    let mut src = v;
    let ghost v0 = src@;
    let mut out: Vec<(MdEvent, Span)> = Vec::new();
    while src.len() > 0
        invariant
            out@.len() + src@.len() == v0.len(),
            src@ == v0.take(src@.len() as int),
            forall|k: int| 0 <= k < out@.len() ==> out@[k] == v0[v0.len() - 1 - k],
        decreases src@.len(),
    {
        let ghost srclen = src@.len() as int;
        let x = src.pop().unwrap();
        proof {
            assert(v0.take(srclen).last() == v0[srclen - 1]);
            assert(v0.take(srclen).drop_last() =~= v0.take(srclen - 1));
        }
        out.push(x);
    }
    out
}

/// Parses a whole changelog source: tokenizes it, folds the state machine
/// over every event, flushes, and wraps the releases with the document span.
/// Every diagnostic is appended to `diags`, in source order, tagged with
/// `file_id`. The parse never fails: an empty release list is valid output.
pub fn parse(file_id: FileId, src: &str, diags: &mut Diagnostics) -> (c: Changelog)
    ensures
        ({
            let run = parse_run(tokens_of(src.spec_bytes()));
            &&& c.model() == (ChangelogM {
                releases: run.0,
                span: Span { start: 0, end: src.spec_bytes().len() as usize },
            })
            &&& diags_model(final(diags)@) == diags_model(old(diags)@) + run.1
            &&& final(diags)@.len() >= old(diags)@.len()
            &&& forall|i: int| 0 <= i < old(diags)@.len() ==> final(diags)@[i] == old(diags)@[i]
            &&& forall|i: int|
                old(diags)@.len() <= i < final(diags)@.len() ==> final(diags)@[i].file_id
                    == file_id
        }),
{
    let len = src.len();
    let toks = tokenize(src);
    let ghost evs = tokens_of(src.spec_bytes());
    let n = toks.len();
    let mut rev = reverse_events(toks);
    let mut state = State { file_id, releases: Vec::new() };
    let mut parser = Parser::default();
    let ghost d0 = diags@;
    proof {
        assert(evs.take(0) =~= Seq::<(MdEvent, Span)>::empty());
        assert(releases_model(state.releases@) =~= Seq::<ReleaseM>::empty());
        assert(diags_model(diags@) =~= diags_model(d0) + Seq::<DiagM>::empty());
    }
    let mut i: usize = 0;
    while i < n
        invariant
            i <= n,
            n == evs.len(),
            rev@.len() == n - i,
            forall|k: int| 0 <= k < rev@.len() ==> rev@[k] == evs[n - 1 - k],
            parser.model() == run_from(evs.take(i as int)).state,
            releases_model(state.releases@) == run_from(evs.take(i as int)).releases,
            diags_model(diags@) == diags_model(d0) + run_from(evs.take(i as int)).diags,
            state.file_id == file_id,
            diags@.len() >= d0.len(),
            forall|k: int| 0 <= k < d0.len() ==> diags@[k] == d0[k],
            forall|k: int| d0.len() <= k < diags@.len() ==> diags@[k].file_id == file_id,
        decreases n - i,
    {
        let pair = rev.pop().unwrap();
        proof {
            assert(pair == evs[i as int]);
        }
        let (ev, sp) = pair;
        let ghost prev = run_from(evs.take(i as int));
        let ghost st = step_spec(prev.state, ev, sp);
        parser = parser.process(ev, sp, &mut state, diags);
        proof {
            assert(evs.take(i + 1 as int).drop_last() =~= evs.take(i as int));
            assert(evs.take(i + 1 as int).last() == evs[i as int]);
            assert(run_from(evs.take(i + 1 as int)) =~~= (RunM {
                state: st.state,
                releases: prev.releases + st.releases,
                diags: prev.diags + st.diags,
            }));
            assert(diags_model(diags@) =~= diags_model(d0) + (prev.diags + st.diags));
        }
        i = i + 1;
    }
    proof {
        assert(evs.take(n as int) =~= evs);
    }
    let ghost r = run_from(evs);
    let ghost fl = flush_spec(r.state);
    parser.flush(&mut state, diags);
    proof {
        assert(diags_model(diags@) =~= diags_model(d0) + (r.diags + fl.1));
    }
    let State { file_id: _, releases } = state;
    let c = Changelog::assemble(releases, len);
    proof {
        assert(c.model() =~~= (ChangelogM {
            releases: parse_run(evs).0,
            span: Span { start: 0, end: src.spec_bytes().len() as usize },
        }));
    }
    c
}

/// LAW — A document with no level-2 heading yields nothing: folding a stream
/// that holds no level-2 heading-start event leaves the parser idle and
/// produces no release and no diagnostic.
pub proof fn lemma_idle_run(evs: Seq<(MdEvent, Span)>)
    requires
        forall|i: int| 0 <= i < evs.len() ==> !(#[trigger] evs[i].0.is_heading_start(2)),
    ensures
        run_from(evs).state == ParserM::Idle,
        run_from(evs).releases =~= Seq::<ReleaseM>::empty(),
        run_from(evs).diags =~= Seq::<DiagM>::empty(),
    decreases evs.len(),
{
    if evs.len() > 0 {
        assert(forall|i: int|
            0 <= i < evs.drop_last().len() ==> !(#[trigger] evs.drop_last()[i].0.is_heading_start(
                2,
            )));
        lemma_idle_run(evs.drop_last());
        assert(!evs[evs.len() - 1].0.is_heading_start(2));
        assert(evs.last() == evs[evs.len() - 1]);
    }
}

/// LAW — For every event stream with no level-2 heading-start event, the
/// whole parse (fold and flush) yields an empty release sequence and emits no
/// diagnostic.
pub proof fn lemma_no_level2_heading_no_output(evs: Seq<(MdEvent, Span)>)
    requires
        forall|i: int| 0 <= i < evs.len() ==> !(#[trigger] evs[i].0.is_heading_start(2)),
    ensures
        parse_run(evs).0 =~= Seq::<ReleaseM>::empty(),
        parse_run(evs).1 =~= Seq::<DiagM>::empty(),
{
    lemma_idle_run(evs);
}

/// Every sequence is a prefix of itself.
pub proof fn lemma_prefix_refl<T>(s: Seq<T>)
    ensures
        s.is_prefix_of(s),
{
    assert(s =~= s.subrange(0, s.len() as int));
}

/// A sequence is a prefix of itself with one element appended.
pub proof fn lemma_prefix_push<T>(s: Seq<T>, x: T)
    ensures
        s.is_prefix_of(s.push(x)),
{
    assert(s =~= s.push(x).subrange(0, s.len() as int));
}

/// LAW — A well-formed level-2 heading opens its release: closing a heading
/// whose buffered text parses hands the extracted release skeleton to the
/// body reader, with no category active, no open item, and no diagnostic.
pub proof fn lemma_well_formed_heading_opens_release(
    buffer: Seq<(MdEvent, Span)>,
    e: MdEvent,
    s: Span,
)
    requires
        e.is_heading_end(2),
        header_of(buffer) is Ok,
    ensures
        ({
            let st = reading_header_step(buffer, e, s);
            &&& st.state == (ParserM::ReadingRelease {
                release: header_of(buffer)->Ok_0,
                section: None,
                heading: None,
                stack: Seq::empty(),
            })
            &&& st.releases.len() == 0
            &&& st.diags.len() == 0
        }),
{
}

/// LAW — A malformed level-2 heading is locally recoverable: closing a
/// heading whose buffered text does not parse emits exactly the extractor's
/// one diagnostic, adds no release, and resynchronizes the parser to idle, so
/// parsing resumes at the next heading.
pub proof fn lemma_malformed_heading_recovers(buffer: Seq<(MdEvent, Span)>, e: MdEvent, s: Span)
    requires
        e.is_heading_end(2),
        header_of(buffer) is Err,
    ensures
        ({
            let st = reading_header_step(buffer, e, s);
            &&& st.state == ParserM::Idle
            &&& st.releases.len() == 0
            &&& st.diags =~= seq![header_of(buffer)->Err_0]
        }),
{
}

/// LAW — Nothing inside a release's body raises a diagnostic: items under an
/// unrecognized section heading are excluded from every category silently.
/// Only a failing level-2 heading emits one.
pub proof fn lemma_reading_release_no_diagnostic(
    rel: ReleaseM,
    section: Option<SectionKind>,
    heading: Option<Seq<u8>>,
    stack: Seq<ItemM>,
    e: MdEvent,
    s: Span,
)
    ensures
        reading_release_step(rel, section, heading, stack, e, s).diags =~= Seq::<DiagM>::empty(),
{
}

/// LAW — Document order is kept: a step inside a release's body only ever
/// appends to the three category sequences, so entries stand in the order
/// their list items closed in the source.
pub proof fn lemma_reading_release_categories_grow(
    rel: ReleaseM,
    section: Option<SectionKind>,
    heading: Option<Seq<u8>>,
    stack: Seq<ItemM>,
    e: MdEvent,
    s: Span,
)
    ensures
        ({
            let st = reading_release_step(rel, section, heading, stack, e, s);
            st.state matches ParserM::ReadingRelease { release: r2, .. } ==> {
                &&& rel.changes.added.is_prefix_of(r2.changes.added)
                &&& rel.changes.changed.is_prefix_of(r2.changes.changed)
                &&& rel.changes.fixed.is_prefix_of(r2.changes.fixed)
            }
        }),
{
    lemma_prefix_refl(rel.changes.added);
    lemma_prefix_refl(rel.changes.changed);
    lemma_prefix_refl(rel.changes.fixed);
    if stack.len() > 0 {
        lemma_prefix_push(rel.changes.added, stack.last());
        lemma_prefix_push(rel.changes.changed, stack.last());
        lemma_prefix_push(rel.changes.fixed, stack.last());
    }
}

/// LAW — Parsing is deterministic: the parse of an event stream is a function
/// of the stream alone, so re-parsing the same source yields structurally
/// equal releases and diagnostics.
pub proof fn lemma_parse_deterministic(
    evs: Seq<(MdEvent, Span)>,
    first: (Seq<ReleaseM>, Seq<DiagM>),
    second: (Seq<ReleaseM>, Seq<DiagM>),
)
    requires
        first == parse_run(evs),
        second == parse_run(evs),
    ensures
        first == second,
{
}

} // verus!
