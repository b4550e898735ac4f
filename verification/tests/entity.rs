use memoria_core::entity::{extract_entities, EntityType};

#[test]
fn extract_entities_finds_a_real_multi_word_proper_span() {
    let entities = extract_entities("Alice met Bob Smith at the conference.");
    assert!(entities.contains(&(EntityType::Proper, "Bob Smith".to_string())));
}

#[test]
fn extract_entities_does_not_extract_a_single_capitalized_word() {
    let entities = extract_entities("The weather was nice today.");
    assert!(
        !entities.iter().any(|(t, _)| *t == EntityType::Proper),
        "a lone capitalized word, especially sentence-initial, is too noisy a signal without real POS context"
    );
}

#[test]
fn extract_entities_treats_a_sentence_boundary_as_two_separate_spans() {
    let entities = extract_entities("New York is large. Golden Gate is a bridge.");
    assert!(entities.contains(&(EntityType::Proper, "New York".to_string())));
    assert!(entities.contains(&(EntityType::Proper, "Golden Gate".to_string())));
    assert!(
        !entities.iter().any(|(_, text)| text.contains("York is large") || text.contains("York")
            && text.contains("Golden")),
        "a sentence boundary must not merge two unrelated proper spans into one"
    );
}

#[test]
fn extract_entities_does_not_merge_two_proper_spans_directly_adjacent_across_a_sentence_boundary() {
    let entities = extract_entities("New York. Golden Gate is a bridge.");
    assert!(entities.contains(&(EntityType::Proper, "New York".to_string())));
    assert!(entities.contains(&(EntityType::Proper, "Golden Gate".to_string())));
    assert!(
        !entities.contains(&(EntityType::Proper, "New York Golden Gate".to_string())),
        "a sentence-ending period must break a proper-noun run even with no lowercase word between the two spans"
    );
}

#[test]
fn extract_entities_finds_a_real_quoted_phrase() {
    let entities = extract_entities(r#"She said "hello world" to everyone."#);
    assert!(entities.contains(&(EntityType::Quoted, "hello world".to_string())));
}

#[test]
fn extract_entities_rejects_a_too_short_quoted_fragment() {
    let entities = extract_entities(r#"He said "ok" and left."#);
    assert!(
        !entities.iter().any(|(t, _)| *t == EntityType::Quoted),
        "a quoted fragment of 2 chars or fewer must be rejected, the documented minimum-length rule"
    );
}

#[test]
fn extract_entities_does_not_misparse_an_apostrophe_as_a_quote_boundary() {
    let entities = extract_entities("Alice's report was thorough.");
    assert!(
        !entities.iter().any(|(t, _)| *t == EntityType::Quoted),
        "an apostrophe in a contraction/possessive must never be treated as a quote boundary"
    );
}

#[test]
fn extract_entities_returns_nothing_for_plain_lowercase_text() {
    let entities = extract_entities("this is just a plain sentence with nothing special.");
    assert!(entities.is_empty());
}

#[test]
fn entities_come_with_proper_names_before_quotations() {
    let entities = extract_entities(r#"She read "war and peace" in New York."#);
    assert_eq!(
        entities,
        vec![(EntityType::Proper, "New York".to_string()), (EntityType::Quoted, "war and peace".to_string())]
    );
    assert_eq!(EntityType::Proper.as_str(), "proper");
    assert_eq!(EntityType::Quoted.as_str(), "quoted");
}

#[test]
fn an_unclosed_quotation_is_no_entity() {
    assert!(extract_entities(r#"she said "hello there"#).is_empty());
}

#[test]
fn a_quotation_of_two_letters_is_too_short() {
    assert_eq!(extract_entities("He typed \"éé\" and left."), vec![]);
    assert_eq!(extract_entities("He typed \"ééé\" and left."), vec![(EntityType::Quoted, "ééé".to_string())]);
}
