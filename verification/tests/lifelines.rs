use lyric_quiz::lifelines::{Lifeline, LifelineInventory};
use rand::rngs::StdRng;
use rand::SeedableRng;

const KINDS: [Lifeline; 3] = [Lifeline::ShowTitleAlbum, Lifeline::ShowPrevLines, Lifeline::Skip];

#[test]
fn a_new_inventory_holds_one_of_each_kind() {
    let inventory = LifelineInventory::new();
    for kind in KINDS {
        assert_eq!(inventory.available(kind), 1);
    }
}

#[test]
fn consuming_spends_one_and_then_fails() {
    for kind in KINDS {
        let mut inventory = LifelineInventory::new();
        assert!(inventory.consume_lifeline(kind));
        assert_eq!(inventory.available(kind), 0);
        assert!(!inventory.consume_lifeline(kind));
        assert_eq!(inventory.available(kind), 0);
        for other in KINDS {
            if other != kind {
                assert_eq!(inventory.available(other), 1);
            }
        }
    }
}

#[test]
fn adding_grants_one_more_of_that_kind_only() {
    let mut inventory = LifelineInventory::new();
    inventory.add_lifeline(&Lifeline::Skip);
    inventory.add_lifeline(&Lifeline::Skip);
    assert_eq!(inventory.available(Lifeline::Skip), 3);
    assert_eq!(inventory.available(Lifeline::ShowTitleAlbum), 1);
    assert_eq!(inventory.available(Lifeline::ShowPrevLines), 1);
    assert!(inventory.consume_lifeline(Lifeline::Skip));
    assert_eq!(inventory.available(Lifeline::Skip), 2);
}

#[test]
fn counts_given_must_not_be_negative() {
    assert!(LifelineInventory::with_counts(0, 0, 0).is_some());
    assert!(LifelineInventory::with_counts(-1, 0, 0).is_none());
    assert!(LifelineInventory::with_counts(0, -1, 0).is_none());
    assert!(LifelineInventory::with_counts(0, 0, i32::MIN).is_none());
    let inventory = LifelineInventory::with_counts(2, 0, 7).unwrap();
    assert_eq!(inventory.available(Lifeline::ShowTitleAlbum), 2);
    assert_eq!(inventory.available(Lifeline::ShowPrevLines), 0);
    assert_eq!(inventory.available(Lifeline::Skip), 7);
}

#[test]
fn an_index_stands_for_a_kind() {
    assert_eq!(Lifeline::from_index(0), Lifeline::ShowTitleAlbum);
    assert_eq!(Lifeline::from_index(1), Lifeline::ShowPrevLines);
    assert_eq!(Lifeline::from_index(2), Lifeline::Skip);
    assert_eq!(Lifeline::from_index(99), Lifeline::Skip);
}

#[test]
fn every_kind_is_drawn_sooner_or_later() {
    let mut rng = StdRng::seed_from_u64(7);
    let mut seen = [false; 3];
    for _ in 0..200 {
        match Lifeline::random_lifeline(&mut rng) {
            Lifeline::ShowTitleAlbum => seen[0] = true,
            Lifeline::ShowPrevLines => seen[1] = true,
            Lifeline::Skip => seen[2] = true,
        }
    }
    assert_eq!(seen, [true, true, true]);
}

#[test]
fn each_kind_has_its_title() {
    assert_eq!(Lifeline::ShowPrevLines.title(), "Show Previous Lines");
    assert_eq!(Lifeline::ShowTitleAlbum.title(), "Show Title");
    assert_eq!(Lifeline::Skip.title(), "Skip Question");
}
