use curies::error::DuplicateRecordError;
use curies::{Converter, Record};

fn doid_record() -> Record {
    Record {
        prefix: "doid".to_string(),
        uri_prefix: "http://purl.obolibrary.org/obo/DOID_".to_string(),
        prefix_synonyms: vec!["DOID".to_string()],
        uri_prefix_synonyms: vec!["https://identifiers.org/DOID/".to_string()],
    }
}

fn obo_record() -> Record {
    Record {
        prefix: "obo".to_string(),
        uri_prefix: "http://purl.obolibrary.org/obo/".to_string(),
        prefix_synonyms: vec!["OBO".to_string()],
        uri_prefix_synonyms: vec!["https://identifiers.org/obo/".to_string()],
    }
}

fn doid_obo_converter() -> Converter {
    let mut converter = Converter::new();
    converter.add_record(doid_record()).unwrap();
    converter.add_record(obo_record()).unwrap();
    converter
}

#[test]
fn main_tests() {
    let mut converter = Converter::new();

    let record1 = doid_record();
    let record2 = obo_record();
    converter.add_record(record1).unwrap();
    converter.add_record(record2).unwrap();

    // Find Record by prefix or URI
    let curie = converter.find_by_prefix("doid").unwrap();
    assert_eq!(curie.prefix, "doid");
    println!("Found CURIE by prefix: {}", curie.prefix);

    let curie = converter
        .find_by_uri_prefix("http://purl.obolibrary.org/obo/DOID_")
        .unwrap();
    assert_eq!(curie.prefix, "doid");
    println!("Found CURIE by URI prefix: {}", curie.prefix);

    let curie = converter
        .find_by_uri("http://purl.obolibrary.org/obo/DOID_1234")
        .unwrap();
    assert_eq!(curie.prefix, "doid");
    println!("Found CURIE by URI: {}", curie.prefix);

    // Test expansion of a primary CURIE prefix
    let uri = converter.expand("doid:1234").unwrap();
    println!("Expanded CURIE: {}", uri);
    assert_eq!(uri, "http://purl.obolibrary.org/obo/DOID_1234");

    // Test expansion of a secondary CURIE prefix (i.e., a synonym)
    let uri = converter.expand("DOID:1234").unwrap();
    println!("Expanded CURIE: {}", uri);
    assert_eq!(uri, "http://purl.obolibrary.org/obo/DOID_1234");

    // Test compression of a primary URI prefix
    let curie = converter
        .compress("http://purl.obolibrary.org/obo/DOID_1234")
        .unwrap();
    println!("Compressed URI: {}", curie);
    assert_eq!(curie, "doid:1234");

    // Test compression of a secondary URI prefix (i.e., synonym)
    let curie = converter
        .compress("https://identifiers.org/DOID/1234")
        .unwrap();
    println!("Compressed URI: {}", curie);
    assert_eq!(curie, "doid:1234");
}

#[test]
fn round_trip_compress_then_expand() {
    let converter = doid_obo_converter();
    let uri = "http://purl.obolibrary.org/obo/DOID_1234";
    let curie = converter.compress(uri).unwrap();
    assert_eq!(converter.expand(&curie).unwrap(), uri);
}

#[test]
fn round_trip_expand_then_compress() {
    let converter = doid_obo_converter();
    let curie = "doid:1234";
    let uri = converter.expand(curie).unwrap();
    assert_eq!(converter.compress(&uri).unwrap(), curie);
}

#[test]
fn longest_prefix_precedence() {
    // Both obo's shorter URI prefix and doid's longer one match; the longer
    // one must win.
    let converter = doid_obo_converter();
    let rec = converter
        .find_by_uri("http://purl.obolibrary.org/obo/DOID_1234")
        .unwrap();
    assert_eq!(rec.prefix, "doid");
    assert_eq!(
        converter
            .compress("http://purl.obolibrary.org/obo/DOID_1234")
            .unwrap(),
        "doid:1234"
    );
    // A URI that only the shorter prefix matches resolves to its owner.
    let rec = converter
        .find_by_uri("http://purl.obolibrary.org/obo/GO_42")
        .unwrap();
    assert_eq!(rec.prefix, "obo");
    assert_eq!(
        converter
            .compress("http://purl.obolibrary.org/obo/GO_42")
            .unwrap(),
        "obo:GO_42"
    );
}

#[test]
fn synonym_equivalence() {
    let converter = doid_obo_converter();
    assert_eq!(
        converter.expand("doid:1234").unwrap(),
        converter.expand("DOID:1234").unwrap()
    );
    assert_eq!(
        converter
            .compress("http://purl.obolibrary.org/obo/DOID_1234")
            .unwrap(),
        converter
            .compress("https://identifiers.org/DOID/1234")
            .unwrap()
    );
}

#[test]
fn duplicate_prefix_rejected_and_state_unchanged() {
    let mut converter = Converter::new();
    converter.add_record(doid_record()).unwrap();
    let clashing = Record {
        prefix: "doid".to_string(),
        uri_prefix: "http://example.org/other_".to_string(),
        prefix_synonyms: vec![],
        uri_prefix_synonyms: vec![],
    };
    let DuplicateRecordError(key) = converter.add_record(clashing).unwrap_err();
    assert_eq!(key, "doid");
    // Observable lookups are as before the attempt.
    assert_eq!(
        converter.expand("doid:1234").unwrap(),
        "http://purl.obolibrary.org/obo/DOID_1234"
    );
    assert!(converter.find_by_uri_prefix("http://example.org/other_").is_none());
    assert!(converter.find_by_uri("http://example.org/other_42").is_none());
}

#[test]
fn duplicate_uri_prefix_rejected_and_state_unchanged() {
    let mut converter = Converter::new();
    converter.add_record(doid_record()).unwrap();
    let clashing = Record {
        prefix: "fresh".to_string(),
        uri_prefix: "http://purl.obolibrary.org/obo/DOID_".to_string(),
        prefix_synonyms: vec![],
        uri_prefix_synonyms: vec![],
    };
    let err = converter.add_record(clashing).unwrap_err();
    assert_eq!(err.key().as_str(), "http://purl.obolibrary.org/obo/DOID_");
    assert!(converter.find_by_prefix("fresh").is_none());
    assert_eq!(
        converter
            .compress("http://purl.obolibrary.org/obo/DOID_1234")
            .unwrap(),
        "doid:1234"
    );
}

#[test]
fn malformed_curie_not_found() {
    let converter = doid_obo_converter();
    assert!(converter.expand("no_colon_here").is_none());
    assert!(converter.expand("a:b:c").is_none());
}

#[test]
fn unknown_inputs_not_found() {
    let converter = doid_obo_converter();
    assert!(converter.find_by_prefix("zzz").is_none());
    assert!(converter.find_by_uri("ftp://unrelated").is_none());
    assert!(converter.find_by_uri_prefix("ftp://unrelated/").is_none());
    assert!(converter.compress("ftp://unrelated/1234").is_none());
    assert!(converter.expand("zzz:1234").is_none());
}

#[test]
fn empty_registry_finds_nothing() {
    let converter = Converter::default();
    assert!(converter.find_by_prefix("doid").is_none());
    assert!(converter.find_by_uri("http://purl.obolibrary.org/obo/DOID_1234").is_none());
    assert!(converter.compress("http://purl.obolibrary.org/obo/DOID_1234").is_none());
    assert!(converter.expand("doid:1234").is_none());
}

#[test]
fn empty_local_identifier() {
    let converter = doid_obo_converter();
    // A bare "prefix:" expands to the bare URI prefix, and that URI
    // compresses back to the bare CURIE: absence of a match, not an empty
    // local id, is what "not found" means.
    assert_eq!(
        converter.expand("doid:").unwrap(),
        "http://purl.obolibrary.org/obo/DOID_"
    );
    assert_eq!(
        converter
            .compress("http://purl.obolibrary.org/obo/DOID_")
            .unwrap(),
        "doid:"
    );
}

#[test]
fn synonym_collision_shadows_earlier_binding() {
    // Synonym keys are not checked for collisions: a later record's synonym
    // silently takes over the exact-prefix lookup. This mirrors the
    // registry's documented insertion discipline.
    let mut converter = Converter::new();
    converter.add_record(doid_record()).unwrap();
    let shadowing = Record {
        prefix: "late".to_string(),
        uri_prefix: "http://example.org/late_".to_string(),
        prefix_synonyms: vec!["doid".to_string()],
        uri_prefix_synonyms: vec![],
    };
    converter.add_record(shadowing).unwrap();
    let rec = converter.find_by_prefix("doid").unwrap();
    assert_eq!(rec.prefix, "late");
    assert_eq!(converter.expand("doid:7").unwrap(), "http://example.org/late_7");
}

#[test]
fn compress_strips_first_matching_synonym() {
    // The resolved record's canonical URI prefix is tried first; when it
    // does not prefix the URI, the synonyms are tried in order.
    let mut converter = Converter::new();
    let record = Record {
        prefix: "ex".to_string(),
        uri_prefix: "http://example.org/canonical_".to_string(),
        prefix_synonyms: vec![],
        uri_prefix_synonyms: vec![
            "https://mirror.example.org/ex/".to_string(),
            "https://mirror.example.org/ex/deep/".to_string(),
        ],
    };
    converter.add_record(record).unwrap();
    // The longest registered match is the deeper synonym, but stripping
    // tries the synonyms in order, so the first one yields the local id.
    assert_eq!(
        converter
            .compress("https://mirror.example.org/ex/deep/9")
            .unwrap(),
        "ex:deep/9"
    );
}

#[test]
fn find_by_uri_picks_longest_across_records() {
    let converter = doid_obo_converter();
    // Exactly the shorter prefix itself as a query: it is its own longest
    // registered prefix.
    let rec = converter
        .find_by_uri("http://purl.obolibrary.org/obo/")
        .unwrap();
    assert_eq!(rec.prefix, "obo");
}
