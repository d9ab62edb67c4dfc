use election_core::error::AppError;
use election_core::token::{
    serialize_person_search_result, sign_person_search_result, validate_person_search_result,
    PersonSearchResult, SignedPersonSearchResultDto,
};

const KEY: &[u8] = b"testing key";

#[test]
fn validate_signature() {
    let search_result = PersonSearchResult {
        username: "ist1123456".to_string(),
        name: "John Doe".to_string(),
    };
    let signed = sign_person_search_result(1, search_result, KEY);

    assert!(validate_person_search_result(1, &signed, KEY).is_ok());
}

#[test]
fn tamper_with_username() {
    let search_result = PersonSearchResult {
        username: "ist1123456".to_string(),
        name: "John Doe".to_string(),
    };
    let mut signed = sign_person_search_result(1, search_result, KEY);

    signed.username = "ist1654321".to_string();

    assert!(validate_person_search_result(1, &signed, KEY).is_err());
}

#[test]
fn tamper_with_display_name() {
    let search_result = PersonSearchResult {
        username: "ist1123456".to_string(),
        name: "John Doe".to_string(),
    };
    let mut signed = sign_person_search_result(1, search_result, KEY);

    signed.display_name = "Jane Doe".to_string();

    assert!(validate_person_search_result(1, &signed, KEY).is_err());
}

#[test]
fn tamper_with_election_id() {
    let search_result = PersonSearchResult {
        username: "ist1123456".to_string(),
        name: "John Doe".to_string(),
    };
    let signed = sign_person_search_result(1, search_result, KEY);

    assert!(validate_person_search_result(2, &signed, KEY).is_err());
}

#[test]
fn tamper_with_signature() {
    let search_result = PersonSearchResult {
        username: "ist1123456".to_string(),
        name: "John Doe".to_string(),
    };
    let mut signed = sign_person_search_result(1, search_result, KEY);

    signed.signature = signed.signature.replace('0', "1");

    assert!(validate_person_search_result(1, &signed, KEY).is_err());
}

fn signed_john() -> SignedPersonSearchResultDto {
    sign_person_search_result(
        7,
        PersonSearchResult {
            username: "ist1123456".to_string(),
            name: "John Doe".to_string(),
        },
        KEY,
    )
}

#[test]
fn signature_is_lowercase_hex_of_a_sha256_tag() {
    let signed = signed_john();
    assert_eq!(signed.signature.len(), 64);
    assert!(signed
        .signature
        .chars()
        .all(|c| c.is_ascii_digit() || ('a'..='f').contains(&c)));
    assert_eq!(signed.username, "ist1123456");
    assert_eq!(signed.display_name, "John Doe");
}

#[test]
fn signature_depends_on_key() {
    let signed = signed_john();
    assert_eq!(
        validate_person_search_result(7, &signed, b"another key"),
        Err(AppError::InvalidPersonSignature)
    );
}

#[test]
fn each_flipped_signature_character_is_refused() {
    let signed = signed_john();
    for i in 0..signed.signature.len() {
        let mut chars: Vec<char> = signed.signature.chars().collect();
        chars[i] = if chars[i] == '0' { '1' } else { '0' };
        let tampered = SignedPersonSearchResultDto {
            username: signed.username.clone(),
            display_name: signed.display_name.clone(),
            signature: chars.into_iter().collect(),
        };
        assert_eq!(
            validate_person_search_result(7, &tampered, KEY),
            Err(AppError::InvalidPersonSignature)
        );
    }
}

#[test]
fn malformed_signatures_are_refused() {
    let mut signed = signed_john();
    signed.signature.pop();
    assert!(validate_person_search_result(7, &signed, KEY).is_err());
    signed.signature = "zz".repeat(32);
    assert!(validate_person_search_result(7, &signed, KEY).is_err());
    signed.signature = String::new();
    assert!(validate_person_search_result(7, &signed, KEY).is_err());
}

#[test]
fn uppercase_signature_is_refused() {
    let mut signed = signed_john();
    signed.signature = signed.signature.to_uppercase();
    assert_eq!(
        validate_person_search_result(7, &signed, KEY),
        Err(AppError::InvalidPersonSignature)
    );
}

#[test]
fn one_letter_turned_uppercase_is_refused() {
    let signed = signed_john();
    let pos = signed.signature.find(|c: char| ('a'..='f').contains(&c)).unwrap();
    let mut chars: Vec<char> = signed.signature.chars().collect();
    chars[pos] = chars[pos].to_ascii_uppercase();
    let tampered = SignedPersonSearchResultDto {
        username: signed.username.clone(),
        display_name: signed.display_name.clone(),
        signature: chars.into_iter().collect(),
    };
    assert_eq!(
        validate_person_search_result(7, &tampered, KEY),
        Err(AppError::InvalidPersonSignature)
    );
}

#[test]
fn payload_layout() {
    let payload = serialize_person_search_result(258, "a|b", "Jo|hn");
    assert_eq!(payload, b"\x00\x00\x01\x02|ab|John".to_vec());
    let negative = serialize_person_search_result(-1, "", "");
    assert_eq!(negative, vec![255, 255, 255, 255, b'|', b'|']);
}

#[test]
fn field_boundaries_cannot_be_shifted() {
    let a = serialize_person_search_result(1, "ab", "c");
    let b = serialize_person_search_result(1, "a", "bc");
    assert_ne!(a, b);
    let piped = serialize_person_search_result(1, "a|", "bc");
    assert_eq!(piped, b);
}

#[test]
fn batch_signing_signs_each_result_for_the_election() {
    let results = vec![
        PersonSearchResult { username: "ist1".to_string(), name: "One".to_string() },
        PersonSearchResult { username: "ist2".to_string(), name: "Two".to_string() },
    ];
    let signed = election_core::token::sign_person_search_results(3, results, KEY);
    assert_eq!(signed.len(), 2);
    assert_eq!(signed[1].username, "ist2");
    assert!(signed.iter().all(|s| validate_person_search_result(3, s, KEY).is_ok()));
    assert!(signed.iter().all(|s| validate_person_search_result(4, s, KEY).is_err()));
    assert_ne!(signed[0].signature, signed[1].signature);
}
