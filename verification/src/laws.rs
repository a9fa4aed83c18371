//! The store's laws, stated over its abstract state: the mapping from
//! identifier text to document model that the operations' contracts speak
//! of, and the spec-level document transformations they pin the results to.

use vstd::prelude::*;

use crate::digits::lemma_dec_str_injective;
use crate::presentation::{new_doc, with_slides, PresentationModel, SlideModel};
use crate::store::id_of;

verus! {

/// Uniqueness: creations completing at distinguishable instants receive
/// pairwise distinct identifiers.
pub proof fn lemma_created_ids_distinct(t1: u64, t2: u64)
    requires
        t1 != t2,
    ensures
        id_of(t1) != id_of(t2),
{
    lemma_dec_str_injective(t1 as nat, t2 as nat);
}

/// Read-your-write: after a creation at instant `now` puts its document
/// into the mapping, looking the new identifier up yields exactly that
/// document.
pub proof fn lemma_read_your_write(
    m: Map<Seq<char>, PresentationModel>,
    title: Seq<char>,
    now: u64,
)
    ensures
        ({
            let d = new_doc(id_of(now), title, now);
            let m2 = m.insert(d.id, d);
            m2.contains_key(id_of(now)) && m2[id_of(now)] == d
        }),
{
}

/// Update replaces, not merges: after two successive slide replacements
/// on the same document, the mapping holds the second slide sequence
/// exactly, whatever the first held.
pub proof fn lemma_update_replaces(
    m: Map<Seq<char>, PresentationModel>,
    id: Seq<char>,
    s1: Seq<SlideModel>,
    s2: Seq<SlideModel>,
    t1: u64,
    t2: u64,
)
    requires
        m.contains_key(id),
    ensures
        ({
            let m1 = m.insert(id, with_slides(m[id], s1, t1));
            let m2 = m1.insert(id, with_slides(m1[id], s2, t2));
            m2[id].slides == s2
        }),
{
}

/// Timestamp monotonicity: a replacement at an instant no earlier than
/// the document's last update keeps the creation stamp, and moves the
/// update stamp forward, never behind either stamp. The hypotheses are
/// what a monotonically-observed clock guarantees; an instant before the
/// document's last update is outside them.
pub proof fn lemma_update_timestamps(d: PresentationModel, slides: Seq<SlideModel>, now: u64)
    requires
        d.created_at <= d.updated_at,
        d.updated_at <= now,
    ensures
        ({
            let d2 = with_slides(d, slides, now);
            d2.created_at == d.created_at && d2.created_at <= d2.updated_at && d.updated_at
                <= d2.updated_at
        }),
{
}

/// Idempotent re-update: replaying the same slide sequence leaves the
/// slides as they were and refreshes the update stamp, which never moves
/// backwards while the clock does not.
pub proof fn lemma_update_idempotent(
    d: PresentationModel,
    slides: Seq<SlideModel>,
    t1: u64,
    t2: u64,
)
    requires
        t1 <= t2,
    ensures
        ({
            let d1 = with_slides(d, slides, t1);
            let d2 = with_slides(d1, slides, t2);
            d2.slides == d1.slides && d2.updated_at == t2 && d1.updated_at <= d2.updated_at
                && d2 == with_slides(d, slides, t2)
        }),
{
    assert(with_slides(with_slides(d, slides, t1), slides, t2) =~= with_slides(d, slides, t2));
}

} // verus!
