use rumblebees::organism::gene::Gene;
use rumblebees::organism::{random_name, Organism};
use rumblebees::path::WorldPos;

#[test]
fn test_gene() {
    let size = Gene::new("size");
    assert_eq!(size.sequence, "tcgc");
}

#[test]
fn gene_keeps_its_name() {
    let g = Gene::new("chonkiness");
    assert_eq!(g.name, "chonkiness");
    assert_eq!(g.sequence.len(), "chonkiness".len());
}

#[test]
fn empty_gene_name_gives_empty_sequence() {
    let g = Gene::new("");
    assert_eq!(g.sequence, "");
}

#[test]
fn organism_random_places_the_bundle() {
    let o = Organism::random(WorldPos { x: 12, y: 34 });
    assert!(o.visible);
    assert_eq!(o.x, 12);
    assert_eq!(o.y, 34);
    assert_eq!(o.z, 1);
}

#[test]
fn random_name_has_first_and_last_part() {
    for _ in 0..20 {
        let name = random_name();
        assert!(name.len() >= 7);
        assert!(name.contains(' '));
    }
}
