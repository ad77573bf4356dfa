use wikidump::{align, revisions};

#[test]
fn short_ids_pack_number_and_kind() {
    assert_eq!(align::entity_to_int("Q42"), Some(42 * 4));
    assert_eq!(align::entity_to_int("P31"), Some(31 * 4 + 1));
    assert_eq!(align::entity_to_int("L7"), Some(7 * 4 + 2));
    assert_eq!(align::entity_to_int("Q+5"), Some(20));
}

#[test]
fn short_ids_that_cannot_be_packed() {
    for e in ["", "Q", "X1", "q1", "Q-1", "Q1a", "é1", "Property:P31"] {
        assert_eq!(align::entity_to_int(e), None, "{}", e);
    }
    // 2^62 * 4 does not fit in 64 bits; 2^62 - 1 still does with kind L.
    assert_eq!(align::entity_to_int("Q4611686018427387904"), None);
    assert_eq!(align::entity_to_int("L4611686018427387903"), Some(u64::MAX - 1));
    assert_eq!(align::entity_to_int("Q4611686018427387903"), Some(u64::MAX - 3));
}

#[test]
fn page_titles_pack_like_short_ids() {
    assert_eq!(revisions::entity_to_int("Q42"), Some(168));
    assert_eq!(revisions::entity_to_int("Property:P31"), Some(125));
    assert_eq!(revisions::entity_to_int("L1"), Some(6));
}

#[test]
fn property_titles_read_after_the_tenth_character() {
    // The tenth character is skipped, whatever it is, and the kind is `P`.
    assert_eq!(revisions::entity_to_int("Property:X5"), Some(21));
    assert_eq!(revisions::entity_to_int("Property:"), None);
    assert_eq!(revisions::entity_to_int("Property:P"), None);
    assert_eq!(revisions::entity_to_int("Property:é5"), None);
    assert_eq!(revisions::entity_to_int("Lexeme:L1"), None);
    assert_eq!(revisions::entity_to_int(""), None);
}

#[test]
fn law_property_title_is_short_id_on_examples() {
    for d in ["31", "+7", "", "x", "18446744073709551615"] {
        let long = format!("Property:P{}", d);
        let short = format!("P{}", d);
        assert_eq!(revisions::entity_to_int(&long), revisions::entity_to_int(&short), "{}", d);
    }
}

#[test]
fn law_entity_ids_distinct_on_examples() {
    let ids = ["Q1", "P1", "L1", "Q2", "P2", "L2", "Q4", "P0"];
    for a in ids {
        for b in ids {
            if a != b {
                assert_ne!(align::entity_to_int(a), align::entity_to_int(b), "{} {}", a, b);
            }
        }
    }
}

#[test]
fn law_entity_id_decodes_on_examples() {
    for (id, number, kind) in [("Q42", 42u64, 0u64), ("P31", 31, 1), ("L7", 7, 2), ("Q0", 0, 0)] {
        let v = align::entity_to_int(id).unwrap();
        assert_eq!(v / 4, number);
        assert_eq!(v % 4, kind);
    }
}

#[test]
fn law_canonical_ids_pack_apart_on_examples() {
    // Ids written as the dumps write them pack apart; other spellings of the
    // same number may pack together.
    let ids = ["Q1", "Q10", "Q100", "P1", "L1", "Q0", "Q9", "Q90"];
    for a in ids {
        for b in ids {
            assert_eq!(a == b, align::entity_to_int(a) == align::entity_to_int(b), "{} {}", a, b);
        }
    }
    assert_eq!(align::entity_to_int("Q01"), align::entity_to_int("Q1"));
}
