use training_manifest::classify::{LabelClassification, LabelGroup};

fn table() -> LabelClassification {
    LabelClassification {
        groups: vec![
            LabelGroup {
                class: b"tank".to_vec(),
                labels: vec![b"t-80".to_vec(), b"t-90".to_vec()],
            },
            LabelGroup {
                class: b"lav".to_vec(),
                labels: vec![b"btr-70".to_vec()],
            },
        ],
    }
}

#[test]
fn configured_labels_resolve_to_their_class() {
    let t = table();
    assert_eq!(t.get_class(&b"t-80".to_vec()), Some(b"tank".to_vec()));
    assert_eq!(t.get_class(&b"t-90".to_vec()), Some(b"tank".to_vec()));
    assert_eq!(t.get_class(&b"btr-70".to_vec()), Some(b"lav".to_vec()));
}

#[test]
fn unconfigured_label_has_no_class() {
    let t = table();
    assert_eq!(t.get_class(&b"unknown".to_vec()), None);
}

#[test]
fn lookup_is_case_sensitive_and_exact() {
    let t = table();
    assert_eq!(t.get_class(&b"T-80".to_vec()), None);
    assert_eq!(t.get_class(&b"t-8".to_vec()), None);
    assert_eq!(t.get_class(&b"t-800".to_vec()), None);
}

#[test]
fn empty_table_matches_nothing() {
    let t = LabelClassification { groups: vec![] };
    assert_eq!(t.get_class(&b"t-80".to_vec()), None);
}

#[test]
fn duplicate_label_takes_the_earlier_group() {
    let t = LabelClassification {
        groups: vec![
            LabelGroup {
                class: b"first".to_vec(),
                labels: vec![b"dup".to_vec()],
            },
            LabelGroup {
                class: b"second".to_vec(),
                labels: vec![b"dup".to_vec()],
            },
        ],
    };
    assert_eq!(t.get_class(&b"dup".to_vec()), Some(b"first".to_vec()));
}
