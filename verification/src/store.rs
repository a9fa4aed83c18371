//! The presentation store: the authoritative in-memory mapping from
//! document identifier to presentation, with create / read / replace-slides
//! operations.
//!
//! The store is modelled as a `Map` from identifier text to document model.
//! Identifiers and timestamps come from a clock reading the caller passes
//! in; the identifier is the decimal text of that reading, so creations at
//! distinct instants get distinct identifiers, and a creation at an
//! already-used instant silently replaces the earlier entry, as the
//! last-writer-wins semantics of the mapping dictate.

use vstd::prelude::*;

use crate::digits::{dec_str, u64_to_dec};
use crate::presentation::{
    new_doc, slide_models, with_slides, Presentation, PresentationModel, Slide,
};
use vstd::pervasive::VecAdditionalExecFns;

verus! {

/// The identifier assigned to a document created at instant `now`: the
/// decimal text of the clock reading.
pub open spec fn id_of(now: u64) -> Seq<char> {
    dec_str(now as nat)
}

/// The mapping described by a sequence of documents; a later entry with
/// the same identifier wins.
pub open spec fn entries_map(s: Seq<PresentationModel>) -> Map<Seq<char>, PresentationModel>
    decreases s.len(),
{
    if s.len() == 0 {
        Map::empty()
    } else {
        entries_map(s.drop_last()).insert(s.last().id, s.last())
    }
}

/// No two documents of `s` share an identifier.
pub open spec fn ids_distinct(s: Seq<PresentationModel>) -> bool {
    forall|i: int, j: int| 0 <= i < j < s.len() ==> s[i].id != s[j].id
}

/// Every document's update stamp is at or after its creation stamp.
pub open spec fn stamps_ordered(s: Seq<PresentationModel>) -> bool {
    forall|i: int| 0 <= i < s.len() ==> s[i].created_at <= #[trigger] s[i].updated_at
}

/// A key present in the mapping is the identifier of some entry, and the
/// entry at a given index is what the mapping holds for its identifier.
proof fn lemma_entries_map_index(s: Seq<PresentationModel>, i: int)
    requires
        ids_distinct(s),
        0 <= i < s.len(),
    ensures
        entries_map(s).contains_key(s[i].id),
        entries_map(s)[s[i].id] == s[i],
    decreases s.len(),
{
    if i < s.len() - 1 {
        assert(s.drop_last()[i] == s[i]);
        lemma_entries_map_index(s.drop_last(), i);
    }
}

/// An identifier no entry carries is absent from the mapping.
proof fn lemma_entries_map_absent(s: Seq<PresentationModel>, k: Seq<char>)
    requires
        forall|i: int| 0 <= i < s.len() ==> s[i].id != k,
    ensures
        !entries_map(s).contains_key(k),
    decreases s.len(),
{
    if s.len() > 0 {
        lemma_entries_map_absent(s.drop_last(), k);
    }
}

/// Appending a document inserts it into the mapping.
proof fn lemma_entries_map_push(s: Seq<PresentationModel>, p: PresentationModel)
    ensures
        entries_map(s.push(p)) == entries_map(s).insert(p.id, p),
{
    assert(s.push(p).drop_last() =~= s);
}

/// Replacing the entry at `i` by a document with the same identifier
/// inserts that document into the mapping.
proof fn lemma_entries_map_update(s: Seq<PresentationModel>, i: int, p: PresentationModel)
    requires
        ids_distinct(s),
        0 <= i < s.len(),
        s[i].id == p.id,
    ensures
        entries_map(s.update(i, p)) == entries_map(s).insert(p.id, p),
    decreases s.len(),
{
    let t = s.update(i, p);
    if i == s.len() - 1 {
        assert(t.drop_last() =~= s.drop_last());
        assert(entries_map(s).insert(p.id, p) =~= entries_map(s.drop_last()).insert(p.id, p));
    } else {
        assert(t.drop_last() =~= s.drop_last().update(i, p));
        assert(s.drop_last()[i] == s[i]);
        lemma_entries_map_update(s.drop_last(), i, p);
        assert(t.last() == s.last());
        assert(s.last().id != p.id);
        assert(entries_map(s.drop_last()).insert(p.id, p).insert(s.last().id, s.last())
            =~= entries_map(s.drop_last()).insert(s.last().id, s.last()).insert(p.id, p));
    }
}

/// Every value of the mapping is one of the entries it was built from.
proof fn lemma_entries_map_member(s: Seq<PresentationModel>, k: Seq<char>)
    requires
        entries_map(s).contains_key(k),
    ensures
        exists|i: int| 0 <= i < s.len() && s[i] == entries_map(s)[k] && #[trigger] s[i].id == k,
    decreases s.len(),
{
    if s.len() > 0 && s.last().id != k {
        lemma_entries_map_member(s.drop_last(), k);
        let i = choose|i: int|
            0 <= i < s.drop_last().len() && s.drop_last()[i] == entries_map(s.drop_last())[k]
                && #[trigger] s.drop_last()[i].id == k;
        assert(s[i] == s.drop_last()[i]);
    }
}

/// The in-memory keyed collection of presentations. Documents are held in
/// a vector with pairwise-distinct identifiers; the abstract state is the
/// mapping from identifier to document model.
pub struct PresentationStore {
    docs: Vec<Presentation>,
}

impl View for PresentationStore {
    type V = Map<Seq<char>, PresentationModel>;

    closed spec fn view(&self) -> Map<Seq<char>, PresentationModel> {
        entries_map(self.models())
    }
}

impl PresentationStore {
    /// The document models, in insertion order.
    spec fn models(&self) -> Seq<PresentationModel> {
        self.docs@.map_values(|p: Presentation| p@)
    }

    /// Well-formedness: identifiers are pairwise distinct and no document's
    /// update stamp precedes its creation stamp.
    pub closed spec fn inv(&self) -> bool {
        ids_distinct(self.models()) && stamps_ordered(self.models())
    }

    /// In a well-formed store no document's update stamp precedes its
    /// creation stamp.
    pub proof fn lemma_stamps_ordered(&self, id: Seq<char>)
        requires
            self.inv(),
            self@.contains_key(id),
        ensures
            self@[id].created_at <= self@[id].updated_at,
    {
        lemma_entries_map_member(self.models(), id);
    }

    /// An empty store.
    pub fn new() -> (r: PresentationStore)
        ensures
            r.inv(),
            r@ == Map::<Seq<char>, PresentationModel>::empty(),
    {
        PresentationStore { docs: Vec::new() }
    }

    /// The index of the document carrying `id`, if any.
    fn find_index(&self, id: &String) -> (r: Option<usize>)
        ensures
            match r {
                Some(i) => i < self.models().len() && self.models()[i as int].id == id@,
                None => forall|j: int| 0 <= j < self.models().len() ==> self.models()[j].id != id@,
            },
    {
        let mut i: usize = 0;
        while i < self.docs.len()
            invariant
                i <= self.models().len(),
                forall|j: int| 0 <= j < i ==> self.models()[j].id != id@,
            decreases self.models().len() - i,
        {
            if self.docs[i].id == *id {
                return Some(i);
            }
            i = i + 1;
        }
        None
    }

    /// Create a document titled `title` at instant `now`: it gets the
    /// identifier `id_of(now)`, no slides, and both stamps equal to `now`.
    /// The store maps that identifier to the new document afterwards; an
    /// entry created at the same instant earlier is silently replaced.
    /// Returns a copy of the stored document. Never fails.
    pub fn create_presentation(&mut self, title: String, now: u64) -> (r: Presentation)
        requires
            old(self).inv(),
        ensures
            final(self).inv(),
            r@ == new_doc(id_of(now), title@, now),
            final(self)@ == old(self)@.insert(id_of(now), r@),
    {
        let id = u64_to_dec(now);
        let doc = Presentation {
            id,
            title,
            slides: Vec::new(),
            created_at: now,
            updated_at: now,
        };
        proof {
            assert(doc@ =~= new_doc(id_of(now), title@, now));
        }
        let r = doc.clone();
        let ghost pre = self.models();
        let idx = self.find_index(&doc.id);
        match idx {
            Some(i) => {
                self.docs.set(i, doc);
                proof {
                    assert(self.models() =~= pre.update(i as int, r@));
                    lemma_entries_map_update(pre, i as int, r@);
                }
            },
            None => {
                self.docs.push(doc);
                proof {
                    assert(self.models() =~= pre.push(r@));
                    lemma_entries_map_push(pre, r@);
                }
            },
        }
        r
    }

    /// Look `id` up: a copy of the matching document, or `None` if no entry
    /// carries that identifier. Pure read; absence is not an error.
    pub fn get_presentation(&self, id: String) -> (r: Option<Presentation>)
        requires
            self.inv(),
        ensures
            match r {
                Some(p) => self@.contains_key(id@) && p@ == self@[id@],
                None => !self@.contains_key(id@),
            },
    {
        match self.find_index(&id) {
            Some(i) => {
                proof {
                    lemma_entries_map_index(self.models(), i as int);
                }
                Some(self.docs[i].clone())
            },
            None => {
                proof {
                    lemma_entries_map_absent(self.models(), id@);
                }
                None
            },
        }
    }

    /// If a document carries `id`, replace its slides wholesale by
    /// `slides`, refresh its update stamp to `now`, and return a copy of
    /// the updated document; otherwise change nothing and return `None`.
    pub fn update_presentation(&mut self, id: String, slides: Vec<Slide>, now: u64) -> (r: Option<
        Presentation,
    >)
        requires
            old(self).inv(),
            old(self)@.contains_key(id@) ==> now >= old(self)@[id@].created_at,
        ensures
            final(self).inv(),
            match r {
                Some(p) => {
                    &&& old(self)@.contains_key(id@)
                    &&& p@ == with_slides(old(self)@[id@], slide_models(slides@), now)
                    &&& final(self)@ == old(self)@.insert(id@, p@)
                },
                None => {
                    &&& !old(self)@.contains_key(id@)
                    &&& final(self)@ == old(self)@
                },
            },
    {
        let ghost pre = self.models();
        match self.find_index(&id) {
            Some(i) => {
                proof {
                    lemma_entries_map_index(pre, i as int);
                }
                let old_doc = &self.docs[i];
                let doc = Presentation {
                    id: old_doc.id.clone(),
                    title: old_doc.title.clone(),
                    slides,
                    created_at: old_doc.created_at,
                    updated_at: now,
                };
                let r = doc.clone();
                proof {
                    assert(r@ =~= with_slides(pre[i as int], slide_models(doc.slides@), now));
                }
                self.docs.set(i, doc);
                proof {
                    assert(self.models() =~= pre.update(i as int, r@));
                    lemma_entries_map_update(pre, i as int, r@);
                }
                Some(r)
            },
            None => {
                proof {
                    lemma_entries_map_absent(pre, id@);
                }
                None
            },
        }
    }
}

} // verus!
