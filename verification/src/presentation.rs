//! The presentation document model: a titled, timestamped document owning
//! an ordered collection of slides.

use vstd::prelude::*;

verus! {

/// One unit of presentation content: body text, notes, and a
/// caller-assigned ordering value. The store neither sorts by `order`
/// nor enforces uniqueness of slide ids.
pub struct Slide {
    pub id: String,
    pub content: String,
    pub notes: String,
    pub order: u32,
}

/// Mathematical model of a slide: its texts as character sequences.
#[verifier::ext_equal]
pub ghost struct SlideModel {
    pub id: Seq<char>,
    pub content: Seq<char>,
    pub notes: Seq<char>,
    pub order: u32,
}

impl View for Slide {
    type V = SlideModel;

    open spec fn view(&self) -> SlideModel {
        SlideModel {
            id: self.id@,
            content: self.content@,
            notes: self.notes@,
            order: self.order,
        }
    }
}

impl Clone for Slide {
    fn clone(&self) -> (r: Self)
        ensures
            r@ == self@,
    {
        Slide {
            id: self.id.clone(),
            content: self.content.clone(),
            notes: self.notes.clone(),
            order: self.order,
        }
    }
}

/// A presentation document. `id` is assigned by the store and never
/// changes; `created_at` is captured once; `updated_at` is refreshed on
/// every successful mutation.
pub struct Presentation {
    pub id: String,
    pub title: String,
    pub slides: Vec<Slide>,
    pub created_at: u64,
    pub updated_at: u64,
}

/// Mathematical model of a presentation document.
#[verifier::ext_equal]
pub ghost struct PresentationModel {
    pub id: Seq<char>,
    pub title: Seq<char>,
    pub slides: Seq<SlideModel>,
    pub created_at: u64,
    pub updated_at: u64,
}

/// The models of a sequence of slides.
pub open spec fn slide_models(s: Seq<Slide>) -> Seq<SlideModel> {
    s.map_values(|x: Slide| x@)
}

impl View for Presentation {
    type V = PresentationModel;

    open spec fn view(&self) -> PresentationModel {
        PresentationModel {
            id: self.id@,
            title: self.title@,
            slides: slide_models(self.slides@),
            created_at: self.created_at,
            updated_at: self.updated_at,
        }
    }
}

/// The document `create` builds at instant `now`: the given identifier and
/// title, no slides, and both stamps equal to `now`.
pub open spec fn new_doc(id: Seq<char>, title: Seq<char>, now: u64) -> PresentationModel {
    PresentationModel { id, title, slides: Seq::empty(), created_at: now, updated_at: now }
}

/// `d` with its slides wholly replaced by `slides` and its update stamp
/// refreshed to `now`; identifier, title and creation stamp are kept.
pub open spec fn with_slides(
    d: PresentationModel,
    slides: Seq<SlideModel>,
    now: u64,
) -> PresentationModel {
    PresentationModel { slides, updated_at: now, ..d }
}

/// Copy each slide of `v`.
pub fn clone_slides(v: &Vec<Slide>) -> (r: Vec<Slide>)
    ensures
        slide_models(r@) == slide_models(v@),
{
    let mut r: Vec<Slide> = Vec::new();
    let mut i: usize = 0;
    while i < v.len()
        invariant
            i <= v@.len(),
            r@.len() == i,
            forall|j: int| 0 <= j < i ==> r@[j]@ == v@[j]@,
        decreases v@.len() - i,
    {
        let s = &v[i];
        r.push(s.clone());
        i = i + 1;
    }
    proof {
        assert(slide_models(r@) =~= slide_models(v@));
    }
    r
}

impl Clone for Presentation {
    fn clone(&self) -> (r: Self)
        ensures
            r@ == self@,
    {
        let r = Presentation {
            id: self.id.clone(),
            title: self.title.clone(),
            slides: clone_slides(&self.slides),
            created_at: self.created_at,
            updated_at: self.updated_at,
        };
        proof {
            assert(r@ =~= self@);
        }
        r
    }
}

} // verus!
