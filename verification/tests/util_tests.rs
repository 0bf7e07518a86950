use training_manifest::util::{find_intersection, has_duplicates};

#[test]
fn intersection_keeps_common_entries_in_left_order() {
    let a = vec![b"t-80".to_vec(), b"t-90".to_vec(), b"btr-70".to_vec()];
    let b = vec![b"btr-70".to_vec(), b"t-80".to_vec()];
    assert_eq!(
        find_intersection(&a, &b),
        vec![b"t-80".to_vec(), b"btr-70".to_vec()]
    );
}

#[test]
fn intersection_with_disjoint_collections_is_empty() {
    let a = vec![b"t-80".to_vec()];
    let b = vec![b"m1a2".to_vec()];
    assert_eq!(find_intersection(&a, &b), Vec::<Vec<u8>>::new());
    assert_eq!(find_intersection(&a, &vec![]), Vec::<Vec<u8>>::new());
}

#[test]
fn intersection_keeps_repeated_left_entries() {
    let a = vec![b"x".to_vec(), b"x".to_vec(), b"y".to_vec()];
    let b = vec![b"x".to_vec()];
    assert_eq!(find_intersection(&a, &b), vec![b"x".to_vec(), b"x".to_vec()]);
}

#[test]
fn distinct_entries_have_no_duplicates() {
    let v = vec![b"t-80".to_vec(), b"t-90".to_vec(), b"btr-70".to_vec()];
    assert_eq!(has_duplicates(&v), None);
    assert_eq!(has_duplicates(&vec![]), None);
}

#[test]
fn repeated_entries_are_reported_once_in_first_occurrence_order() {
    let v = vec![
        b"b".to_vec(),
        b"a".to_vec(),
        b"b".to_vec(),
        b"c".to_vec(),
        b"a".to_vec(),
        b"b".to_vec(),
    ];
    assert_eq!(
        has_duplicates(&v),
        Some(vec![b"b".to_vec(), b"a".to_vec()])
    );
}
