use readset::refusal::{RaisedBy, Refusal, RefusalToken};
use std::collections::BTreeSet;

#[test]
fn every_token_is_listed_and_named_once() {
    let all = RefusalToken::all();
    let names: Vec<&str> = all.iter().map(|t| t.as_str()).collect();
    let unique: BTreeSet<&str> = names.iter().copied().collect();
    assert_eq!(
        unique.len(),
        names.len(),
        "two tokens share a name: {names:?}"
    );

    let listed: BTreeSet<RefusalToken> = all.iter().copied().collect();
    assert_eq!(listed.len(), all.len(), "the list repeats a variant");

    assert_eq!(
        all.len(),
        27,
        "a token was added or removed; update this count deliberately, and \
         check whatever reads the histogram still has a row for it"
    );
}

#[test]
fn token_names_are_safe_as_a_bare_key() {
    for token in RefusalToken::all() {
        let name = token.as_str();
        assert!(!name.is_empty(), "empty token name");
        assert!(
            name.bytes()
                .all(|b| b.is_ascii_lowercase() || b == b'-' || b.is_ascii_digit()),
            "token '{name}' is not lowercase-and-hyphens, so it needs quoting somewhere"
        );
    }
}

#[test]
fn display_is_the_prose_alone() {
    let r = Refusal::new(RefusalToken::EffectDomain, "effect domain 'x'");
    assert_eq!(r.to_string(), "effect domain 'x'");
}

#[test]
fn a_token_is_found_by_its_name_alone() {
    for token in RefusalToken::all() {
        assert_eq!(RefusalToken::parse(token.as_str()), Some(token));
    }
    assert_eq!(RefusalToken::parse("effect-Domain"), None);
    assert_eq!(RefusalToken::parse(""), None);
}

#[test]
fn commands_and_the_evaluator_raise_their_own_tokens() {
    for token in RefusalToken::all() {
        let command = token.as_str().starts_with("command-");
        assert_eq!(matches!(token.raised_by(), RaisedBy::CommandLayer), command, "{token:?}");
    }
}
