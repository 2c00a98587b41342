use noten::Metadata;

fn pairs(metadata: &Metadata) -> Vec<(String, String)> {
    metadata.to_pairs()
}

fn pair(key: &str, value: &str) -> (String, String) {
    (key.to_string(), value.to_string())
}

#[test]
fn a_new_record_has_no_fields() {
    let metadata = Metadata::new();
    assert!(metadata.is_empty());
    assert_eq!(metadata.len(), 0);
    assert_eq!(metadata.get("subject"), None);
    assert_eq!(pairs(&metadata), vec![]);
}

#[test]
fn fields_are_kept_in_the_order_of_their_keys() {
    let mut metadata = Metadata::new();
    assert_eq!(metadata.insert("subject".to_string(), "maths".to_string()), None);
    assert_eq!(metadata.insert("year".to_string(), "4".to_string()), None);
    assert_eq!(metadata.insert("grade_type".to_string(), "project".to_string()), None);
    assert_eq!(metadata.insert("grade".to_string(), "30".to_string()), None);
    assert_eq!(metadata.insert("".to_string(), "empty key".to_string()), None);
    assert_eq!(metadata.insert("Zebra".to_string(), "capital".to_string()), None);
    assert_eq!(metadata.len(), 6);
    assert!(!metadata.is_empty());
    assert_eq!(
        pairs(&metadata),
        vec![
            pair("", "empty key"),
            pair("Zebra", "capital"),
            pair("grade", "30"),
            pair("grade_type", "project"),
            pair("subject", "maths"),
            pair("year", "4"),
        ]
    );
    for index in 0..metadata.len() {
        assert_eq!(metadata.key_at(index), &pairs(&metadata)[index].0);
        assert_eq!(metadata.value_at(index), &pairs(&metadata)[index].1);
    }
}

#[test]
fn a_second_value_replaces_the_first() {
    let mut metadata = Metadata::new();
    metadata.insert("grade".to_string(), "30".to_string());
    metadata.insert("year".to_string(), "4".to_string());
    assert_eq!(metadata.insert("grade".to_string(), "60".to_string()), Some("30".to_string()));
    assert_eq!(metadata.len(), 2);
    assert_eq!(metadata.get("grade"), Some(&"60".to_string()));
    assert_eq!(metadata.get("year"), Some(&"4".to_string()));
    assert_eq!(metadata.get("grad"), None);
    assert_eq!(metadata.get("grades"), None);
    assert_eq!(pairs(&metadata), vec![pair("grade", "60"), pair("year", "4")]);
}

#[test]
fn the_order_of_insertion_does_not_show() {
    let keys = ["b", "a", "d", "c", "ab", "é", "z"];
    let mut forward = Metadata::new();
    for key in keys {
        forward.insert(key.to_string(), key.to_uppercase());
    }
    let mut backward = Metadata::new();
    for key in keys.iter().rev() {
        backward.insert(key.to_string(), key.to_uppercase());
    }
    assert_eq!(forward, backward);
    assert_eq!(forward.clone(), forward);
    let listed: Vec<String> = pairs(&forward).into_iter().map(|(key, _)| key).collect();
    assert_eq!(listed, vec!["a", "ab", "b", "c", "d", "z", "é"]);

    backward.insert("a".to_string(), "other".to_string());
    assert_ne!(forward, backward);
    let mut shorter = Metadata::new();
    shorter.insert("a".to_string(), "A".to_string());
    assert_ne!(forward, shorter);
}
