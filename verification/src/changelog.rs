use vstd::prelude::*;

use crate::events::MdEvent;
use crate::span::Span;

verus! {

broadcast use vstd::std_specs::vec::axiom_vec_index_decreases;

/// A semantic version, `major.minor.patch`.
#[derive(Clone, Copy, Debug, PartialEq, Eq, Structural)]
pub struct Version {
    pub major: u64,
    pub minor: u64,
    pub patch: u64,
}

/// A calendar date, `year-month-day`.
#[derive(Clone, Copy, Debug, PartialEq, Eq, Structural)]
pub struct Date {
    pub year: u16,
    pub month: u8,
    pub day: u8,
}

/// One change entry: the normalized events of its own text, its nested
/// entries, and the byte span of the whole list item.
#[derive(Debug, PartialEq, Eq)]
pub struct Item {
    pub body: Vec<MdEvent>,
    pub children: Vec<Item>,
    pub span: Span,
}

/// The categorized change entries of one release.
#[derive(Debug, PartialEq, Eq)]
pub struct Changes {
    pub added: Vec<Item>,
    pub changed: Vec<Item>,
    pub fixed: Vec<Item>,
}

/// One versioned or "Unreleased" section of the changelog.
#[derive(Debug, PartialEq, Eq)]
pub struct Release {
    pub version: Option<Version>,
    pub date: Option<Date>,
    pub link: Option<Vec<u8>>,
    pub changes: Changes,
    pub span: Span,
}

/// The parsed document: every release in source order, and the byte span of
/// the whole source.
#[derive(Debug, PartialEq, Eq)]
pub struct Changelog {
    pub releases: Vec<Release>,
    pub span: Span,
}

/// The mathematical content of an `Item`.
#[verifier::ext_equal]
pub struct ItemM {
    pub body: Seq<MdEvent>,
    pub children: Seq<ItemM>,
    pub span: Span,
}

/// The mathematical content of a `Changes`.
#[verifier::ext_equal]
pub struct ChangesM {
    pub added: Seq<ItemM>,
    pub changed: Seq<ItemM>,
    pub fixed: Seq<ItemM>,
}

/// The mathematical content of a `Release`.
#[verifier::ext_equal]
pub struct ReleaseM {
    pub version: Option<Version>,
    pub date: Option<Date>,
    pub link: Option<Seq<u8>>,
    pub changes: ChangesM,
    pub span: Span,
}

/// The mathematical content of a `Changelog`.
#[verifier::ext_equal]
pub struct ChangelogM {
    pub releases: Seq<ReleaseM>,
    pub span: Span,
}

impl Item {
    /// A fresh item with the given span and nothing in it.
    pub fn new(span: Span) -> (it: Item)
        ensures
            it.model() == (ItemM { body: Seq::empty(), children: Seq::empty(), span }),
    {
        let it = Item { body: Vec::new(), children: Vec::new(), span };
        proof {
            assert(it.model().children =~= Seq::<ItemM>::empty());
            assert(it.model().body =~= Seq::<MdEvent>::empty());
            assert(it.model() =~~= (ItemM {
                body: Seq::empty(),
                children: Seq::empty(),
                span: it.span,
            }));
        }
        it
    }

    /// Appends one event to this item's own text.
    pub fn push_body(&mut self, e: MdEvent)
        ensures
            final(self).model() == (ItemM {
                body: old(self).model().body.push(e),
                children: old(self).model().children,
                span: old(self).model().span,
            }),
    {
        self.body.push(e);
        proof {
            assert(self.model().children =~= old(self).model().children);
            assert(self.model().body =~= old(self).model().body.push(e));
            assert(self.model() =~~= (ItemM {
                body: old(self).model().body.push(e),
                children: old(self).model().children,
                span: old(self).model().span,
            }));
        }
    }

    /// Appends one nested item to this item's children.
    pub fn push_child(&mut self, c: Item)
        ensures
            final(self).model() == (ItemM {
                body: old(self).model().body,
                children: old(self).model().children.push(c.model()),
                span: old(self).model().span,
            }),
    {
        let ghost kids0 = self.children@;
        self.children.push(c);
        proof {
            lemma_item_model_children(*self);
            lemma_item_model_children(*old(self));
            lemma_items_model_push(kids0, c);
            assert(self.model().children =~= old(self).model().children.push(c.model()));
            assert(self.model().body =~= old(self).model().body);
            assert(self.model() =~~= (ItemM {
                body: old(self).model().body,
                children: old(self).model().children.push(c.model()),
                span: old(self).model().span,
            }));
        }
    }

    /// The mathematical content of this item, children included.
    pub open spec fn model(self) -> ItemM
        decreases self,
    {
        ItemM {
            body: self.body@,
            children: Seq::new(
                self.children@.len(),
                |i: int|
                    if 0 <= i < self.children@.len() {
                        self.children@[i].model()
                    } else {
                        arbitrary()
                    },
            ),
            span: self.span,
        }
    }
}

/// An item's modelled children are the model of its child vector.
pub proof fn lemma_item_model_children(it: Item)
    ensures
        it.model().children =~= items_model(it.children@),
{
}

/// The content of a sequence of items, in order.
pub open spec fn items_model(v: Seq<Item>) -> Seq<ItemM> {
    Seq::new(v.len(), |i: int| if 0 <= i < v.len() { v[i].model() } else { arbitrary() })
}

/// Appending an item appends its content.
pub proof fn lemma_items_model_push(v: Seq<Item>, x: Item)
    ensures
        items_model(v.push(x)) =~= items_model(v).push(x.model()),
{
}

impl ChangesM {
    /// No entries in any category.
    pub open spec fn empty() -> ChangesM {
        ChangesM { added: Seq::empty(), changed: Seq::empty(), fixed: Seq::empty() }
    }
}

impl Changes {
    /// The mathematical content of these categorized entries.
    pub open spec fn model(self) -> ChangesM {
        ChangesM {
            added: items_model(self.added@),
            changed: items_model(self.changed@),
            fixed: items_model(self.fixed@),
        }
    }

    /// All three categories empty: the default for a fresh release.
    pub fn empty() -> (c: Changes)
        ensures
            c.model() == ChangesM::empty(),
    {
        let c = Changes { added: Vec::new(), changed: Vec::new(), fixed: Vec::new() };
        proof {
            assert(c.model() =~~= ChangesM::empty());
        }
        c
    }
}

impl Release {
    /// The mathematical content of this release.
    pub open spec fn model(self) -> ReleaseM {
        ReleaseM {
            version: self.version,
            date: self.date,
            link: match self.link {
                Some(v) => Some(v@),
                None => None,
            },
            changes: self.changes.model(),
            span: self.span,
        }
    }
}

/// The content of a sequence of releases, in order.
pub open spec fn releases_model(v: Seq<Release>) -> Seq<ReleaseM> {
    Seq::new(v.len(), |i: int| v[i].model())
}

/// Appending a release appends its content.
pub proof fn lemma_releases_model_push(v: Seq<Release>, x: Release)
    ensures
        releases_model(v.push(x)) =~= releases_model(v).push(x.model()),
{
}

impl Changelog {
    /// The mathematical content of this changelog.
    pub open spec fn model(self) -> ChangelogM {
        ChangelogM { releases: releases_model(self.releases@), span: self.span }
    }

    /// Wraps the accumulated releases with the whole-document span: the byte
    /// range from the first to one past the last byte of the source.
    pub fn assemble(releases: Vec<Release>, source_len: usize) -> (c: Changelog)
        ensures
            c.model() == (ChangelogM {
                releases: releases_model(releases@),
                span: Span { start: 0, end: source_len },
            }),
    {
        let c = Changelog { releases, span: Span { start: 0, end: source_len } };
        proof {
            assert(c.model() =~~= (ChangelogM {
                releases: releases_model(c.releases@),
                span: Span { start: 0, end: source_len },
            }));
        }
        c
    }
}

} // verus!

