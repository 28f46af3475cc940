use recipe_share::catalog::{create_record, current_max_id, public_records, publish_record, Record};

fn rec(id: u64, name: &str, public: bool) -> Record {
    Record {
        id,
        name: name.as_bytes().to_vec(),
        ingredients: b"i".to_vec(),
        instructions: b"s".to_vec(),
        public,
    }
}

#[test]
fn create_assigns_zero_on_empty_catalog() {
    let mut catalog: Vec<Record> = Vec::new();
    let id = create_record(&mut catalog, b"Soup".to_vec(), b"water,salt".to_vec(), b"boil".to_vec());
    assert_eq!(id, 0);
    assert_eq!(catalog.len(), 1);
    assert_eq!(catalog[0].id, 0);
    assert_eq!(catalog[0].name, b"Soup".to_vec());
    assert_eq!(catalog[0].ingredients, b"water,salt".to_vec());
    assert_eq!(catalog[0].instructions, b"boil".to_vec());
    assert!(!catalog[0].public);
}

#[test]
fn create_ids_are_monotonic_across_publishes() {
    let mut catalog: Vec<Record> = Vec::new();
    let a = create_record(&mut catalog, b"a".to_vec(), b"".to_vec(), b"".to_vec());
    publish_record(&mut catalog, 0);
    let b = create_record(&mut catalog, b"b".to_vec(), b"".to_vec(), b"".to_vec());
    publish_record(&mut catalog, 7);
    let c = create_record(&mut catalog, b"c".to_vec(), b"".to_vec(), b"".to_vec());
    assert_eq!((a, b, c), (0, 1, 2));
    let ids: Vec<u64> = catalog.iter().map(|r| r.id).collect();
    assert_eq!(ids, vec![0, 1, 2]);
}

#[test]
fn create_uses_max_id_plus_one_on_gapped_catalog() {
    let mut catalog = vec![rec(5, "x", false), rec(2, "y", true)];
    assert_eq!(current_max_id(&catalog), 5);
    let id = create_record(&mut catalog, b"z".to_vec(), b"".to_vec(), b"".to_vec());
    assert_eq!(id, 6);
    assert_eq!(catalog[2].id, 6);
}

#[test]
fn publish_unknown_id_is_a_noop() {
    let mut empty: Vec<Record> = Vec::new();
    publish_record(&mut empty, 999);
    assert!(empty.is_empty());

    let mut catalog = vec![rec(0, "a", false), rec(1, "b", true)];
    publish_record(&mut catalog, 999);
    assert_eq!(catalog.len(), 2);
    assert_eq!(catalog[0].id, 0);
    assert!(!catalog[0].public);
    assert_eq!(catalog[1].id, 1);
    assert!(catalog[1].public);
}

#[test]
fn publish_marks_matching_record_public_and_keeps_the_rest() {
    let mut catalog = vec![rec(0, "a", false), rec(1, "b", false)];
    publish_record(&mut catalog, 1);
    assert!(!catalog[0].public);
    assert!(catalog[1].public);
    assert_eq!(catalog[1].name, b"b".to_vec());
}

#[test]
fn public_records_filters_to_public_only_in_order() {
    let catalog = vec![rec(0, "a", false), rec(1, "b", true), rec(2, "c", true)];
    let public = public_records(&catalog);
    assert_eq!(public.len(), 2);
    assert_eq!(public[0].id, 1);
    assert_eq!(public[1].id, 2);
    assert!(public.iter().all(|r| r.public));
}
