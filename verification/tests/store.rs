use backend::presentation::Slide;
use backend::store::PresentationStore;

fn slide(id: &str, content: &str, notes: &str, order: u32) -> Slide {
    Slide {
        id: id.to_string(),
        content: content.to_string(),
        notes: notes.to_string(),
        order,
    }
}

#[test]
fn create_assigns_id_title_and_stamps() {
    let mut s = PresentationStore::new();
    let d = s.create_presentation("Intro".to_string(), 1000);
    assert_eq!(d.id, "1000");
    assert_eq!(d.title, "Intro");
    assert!(d.slides.is_empty());
    assert_eq!(d.created_at, 1000);
    assert_eq!(d.updated_at, 1000);
}

#[test]
fn read_your_write() {
    let mut s = PresentationStore::new();
    let d = s.create_presentation("Intro".to_string(), 42);
    let got = s.get_presentation(d.id.clone()).expect("created document must be readable");
    assert_eq!(got.id, d.id);
    assert_eq!(got.title, d.title);
    assert_eq!(got.slides.len(), d.slides.len());
    assert_eq!(got.created_at, d.created_at);
    assert_eq!(got.updated_at, d.updated_at);
}

#[test]
fn ids_distinct_for_distinct_instants() {
    let mut s = PresentationStore::new();
    let d1 = s.create_presentation("A".to_string(), 1);
    let d2 = s.create_presentation("B".to_string(), 2);
    let d3 = s.create_presentation("C".to_string(), 30);
    assert_ne!(d1.id, d2.id);
    assert_ne!(d1.id, d3.id);
    assert_ne!(d2.id, d3.id);
}

#[test]
fn same_instant_overwrites() {
    let mut s = PresentationStore::new();
    let first = s.create_presentation("First".to_string(), 7);
    let second = s.create_presentation("Second".to_string(), 7);
    assert_eq!(first.id, second.id);
    let got = s.get_presentation("7".to_string()).unwrap();
    assert_eq!(got.title, "Second");
}

#[test]
fn update_replaces_not_merges() {
    let mut s = PresentationStore::new();
    let d = s.create_presentation("Deck".to_string(), 10);
    let s1 = vec![slide("a", "one", "", 0), slide("b", "two", "", 1)];
    let s2 = vec![slide("c", "three", "", 0)];
    s.update_presentation(d.id.clone(), s1, 11).unwrap();
    s.update_presentation(d.id.clone(), s2, 12).unwrap();
    let got = s.get_presentation(d.id.clone()).unwrap();
    assert_eq!(got.slides.len(), 1);
    assert_eq!(got.slides[0].id, "c");
    assert_eq!(got.slides[0].content, "three");
}

#[test]
fn update_refreshes_stamp_and_keeps_creation() {
    let mut s = PresentationStore::new();
    let d = s.create_presentation("Deck".to_string(), 100);
    let u = s.update_presentation(d.id.clone(), vec![], 250).unwrap();
    assert_eq!(u.created_at, 100);
    assert_eq!(u.updated_at, 250);
    assert!(u.updated_at >= u.created_at);
}

#[test]
fn absent_id_is_not_an_error() {
    let mut s = PresentationStore::new();
    assert!(s.get_presentation("nonexistent".to_string()).is_none());
    assert!(s.update_presentation("nonexistent".to_string(), vec![], 0).is_none());
}

#[test]
fn idempotent_re_update() {
    let mut s = PresentationStore::new();
    let d = s.create_presentation("Deck".to_string(), 5);
    let slides = vec![slide("s1", "Hello", "", 0)];
    let again = vec![slide("s1", "Hello", "", 0)];
    let u1 = s.update_presentation(d.id.clone(), slides, 6).unwrap();
    let u2 = s.update_presentation(d.id.clone(), again, 8).unwrap();
    assert_eq!(u1.slides.len(), u2.slides.len());
    assert_eq!(u1.slides[0].id, u2.slides[0].id);
    assert_eq!(u1.slides[0].content, u2.slides[0].content);
    assert_eq!(u1.updated_at, 6);
    assert_eq!(u2.updated_at, 8);
}

#[test]
fn full_scenario() {
    let mut s = PresentationStore::new();
    let d = s.create_presentation("Intro".to_string(), 1_000_000);
    assert_eq!(d.title, "Intro");
    assert!(d.slides.is_empty());
    assert_eq!(d.created_at, d.updated_at);
    let u = s
        .update_presentation(d.id.clone(), vec![slide("s1", "Hello", "", 0)], 1_000_007)
        .unwrap();
    assert_eq!(u.slides.len(), 1);
    assert!(u.updated_at >= d.updated_at);
    let got = s.get_presentation(d.id.clone()).unwrap();
    assert_eq!(got.slides.len(), 1);
    assert_eq!(got.slides[0].id, "s1");
    assert_eq!(got.slides[0].content, "Hello");
    assert_eq!(got.slides[0].notes, "");
    assert_eq!(got.slides[0].order, 0);
    assert_eq!(got.updated_at, u.updated_at);
}
