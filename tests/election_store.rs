use election_core::eligibility::{DegreeEntryDto, UserDto};
use election_core::error::AppError;
use election_core::store::{
    BulkCreateElectionsDegreesDto, BulkCreateElectionsDto, CastVoteDto, DateRangeDto,
    EditNominationDto, ElectionStore, Validity,
};
use election_core::identity::PersonSearchResponse;
use election_core::token::{sign_person_search_result, validate_person_search_result, PersonSearchResult};

const KEY: &[u8] = b"server signing key";
const T0: i64 = 1_000_000;
const T1: i64 = 2_000_000;
const T2: i64 = 3_000_000;
const YEAR: &str = "2023/2024";

fn user(username: &str, degrees: &[(&str, u8, bool)]) -> UserDto {
    UserDto {
        username: username.to_string(),
        name: format!("{} name", username),
        display_name: format!("{} display", username),
        degree_entries: degrees
            .iter()
            .map(|(id, year, nom)| DegreeEntryDto {
                degree_id: id.to_string(),
                curricular_year: *year,
                nomination_elegible: *nom,
            })
            .collect(),
    }
}

fn batch(degrees: &[(&str, Option<i32>)], candidacy: Option<(i64, i64)>, voting: (i64, i64), round: i32) -> BulkCreateElectionsDto {
    BulkCreateElectionsDto {
        candidacy_period: candidacy.map(|(start, end)| DateRangeDto { start, end }),
        voting_period: DateRangeDto { start: voting.0, end: voting.1 },
        round,
        degrees: degrees
            .iter()
            .map(|(id, year)| BulkCreateElectionsDegreesDto {
                degree_id: id.to_string(),
                curricular_year: *year,
            })
            .collect(),
    }
}

fn catalog() -> Vec<String> {
    vec!["123456".to_string(), "654321".to_string()]
}

fn store_with_one_election() -> ElectionStore {
    let mut store = ElectionStore::new();
    let dto = batch(&[("123456", None)], Some((T0, T1)), (T1 + 1, T2), 1);
    assert_eq!(store.bulk_create_elections(&dto, &catalog(), &YEAR.to_string()), Ok(()));
    store
}

fn ballot(candidate: Option<&str>) -> CastVoteDto {
    CastVoteDto { username: candidate.map(|c| c.to_string()) }
}

#[test]
fn nomination_and_vote_scenario() {
    let mut store = store_with_one_election();
    let alice = user("alice", &[("123456", 1, false)]);
    let bob = user("bob", &[("123456", 2, false)]);

    assert_eq!(store.self_nominate(1, &alice, T0 + 1), Ok(()));
    assert_eq!(store.nomination_validity(1, &"alice".to_string()), Some(Validity::Valid));

    let carol = sign_person_search_result(
        1,
        PersonSearchResult { username: "carol".to_string(), name: "Carol".to_string() },
        KEY,
    );
    assert_eq!(store.nominate_others(1, &bob, &carol, KEY, T0 + 2), Ok(()));
    assert_eq!(store.nomination_validity(1, &"carol".to_string()), Some(Validity::Pending));

    assert_eq!(
        store.cast_vote(1, &alice, &ballot(Some("alice")), T1 + 1),
        Err(AppError::ElectionWithUnverifiedNomination)
    );
    assert_eq!(store.total_votes(1), 0);

    let edit = EditNominationDto { username: "carol".to_string(), display_name: None, valid: Some(true) };
    assert_eq!(store.edit_nomination(1, &edit), Ok(()));

    assert_eq!(store.cast_vote(1, &alice, &ballot(Some("alice")), T1 + 1), Ok(()));
    assert_eq!(store.tally(1, &"alice".to_string()), 1);
    assert_eq!(
        store.cast_vote(1, &alice, &ballot(Some("alice")), T1 + 1),
        Err(AppError::DuplicateVote)
    );
    assert_eq!(store.tally(1, &"alice".to_string()), 1);
    assert_eq!(store.total_votes(1), 1);
}

#[test]
fn second_nomination_is_duplicate() {
    let mut store = store_with_one_election();
    let alice = user("alice", &[("123456", 1, false)]);
    assert_eq!(store.self_nominate(1, &alice, T0), Ok(()));
    assert!(store.has_nominated(1, &"alice".to_string()));
    assert_eq!(store.self_nominate(1, &alice, T0 + 5), Err(AppError::DuplicateNomination));
    let carol = sign_person_search_result(
        1,
        PersonSearchResult { username: "carol".to_string(), name: "Carol".to_string() },
        KEY,
    );
    assert_eq!(store.nominate_others(1, &alice, &carol, KEY, T0 + 5), Err(AppError::DuplicateNomination));
    assert_eq!(store.nomination_validity(1, &"carol".to_string()), None);
}

#[test]
fn nomination_gates_in_order() {
    let mut store = store_with_one_election();
    let alice = user("alice", &[("123456", 1, false)]);
    let outsider = user("dave", &[("654321", 1, false)]);
    assert_eq!(store.self_nominate(9, &alice, T0), Err(AppError::UnknownElection));
    assert_eq!(store.self_nominate(0, &alice, T0), Err(AppError::UnknownElection));
    assert_eq!(store.self_nominate(1, &outsider, T0), Err(AppError::ElectionUnauthorized));
    assert_eq!(store.self_nominate(1, &alice, T0 - 1), Err(AppError::OutsideCandidacyPeriod));
    assert_eq!(store.self_nominate(1, &alice, T1 + 1), Err(AppError::OutsideCandidacyPeriod));
    assert_eq!(store.self_nominate(1, &alice, T1), Ok(()));
}

#[test]
fn token_for_other_election_is_refused() {
    let mut store = ElectionStore::new();
    let dto = batch(&[("123456", None), ("123456", Some(1))], Some((T0, T1)), (T1 + 1, T2), 1);
    assert_eq!(store.bulk_create_elections(&dto, &catalog(), &YEAR.to_string()), Ok(()));
    let bob = user("bob", &[("123456", 1, false)]);
    let carol = sign_person_search_result(
        2,
        PersonSearchResult { username: "carol".to_string(), name: "Carol".to_string() },
        KEY,
    );
    assert_eq!(store.nominate_others(1, &bob, &carol, KEY, T0), Err(AppError::InvalidPersonSignature));
    assert!(!store.has_nominated(1, &"bob".to_string()));
    assert_eq!(store.nominate_others(2, &bob, &carol, KEY, T0), Ok(()));
}

#[test]
fn nominating_oneself_through_a_token_is_valid() {
    let mut store = store_with_one_election();
    let bob = user("bob", &[("123456", 1, false)]);
    let me = sign_person_search_result(
        1,
        PersonSearchResult { username: "bob".to_string(), name: "Bob".to_string() },
        KEY,
    );
    assert_eq!(store.nominate_others(1, &bob, &me, KEY, T0), Ok(()));
    assert_eq!(store.nomination_validity(1, &"bob".to_string()), Some(Validity::Valid));
}

#[test]
fn upsert_never_overrides_a_decision() {
    let mut store = store_with_one_election();
    let bob = user("bob", &[("123456", 1, false)]);
    let eve = user("eve", &[("123456", 1, false)]);
    let carol_token = sign_person_search_result(
        1,
        PersonSearchResult { username: "carol".to_string(), name: "Carol".to_string() },
        KEY,
    );
    assert_eq!(store.nominate_others(1, &bob, &carol_token, KEY, T0), Ok(()));
    let reject = EditNominationDto { username: "carol".to_string(), display_name: None, valid: Some(false) };
    assert_eq!(store.edit_nomination(1, &reject), Ok(()));
    assert_eq!(store.nominate_others(1, &eve, &carol_token, KEY, T0), Ok(()));
    assert_eq!(store.nomination_validity(1, &"carol".to_string()), Some(Validity::Invalid));
    let carol = user("carol", &[("123456", 1, false)]);
    assert_eq!(store.self_nominate(1, &carol, T0), Ok(()));
    assert_eq!(store.nomination_validity(1, &"carol".to_string()), Some(Validity::Invalid));
}

#[test]
fn self_nomination_confirms_a_pending_row() {
    let mut store = store_with_one_election();
    let bob = user("bob", &[("123456", 1, false)]);
    let carol_token = sign_person_search_result(
        1,
        PersonSearchResult { username: "carol".to_string(), name: "Carol".to_string() },
        KEY,
    );
    assert_eq!(store.nominate_others(1, &bob, &carol_token, KEY, T0), Ok(()));
    let carol = user("carol", &[("123456", 1, false)]);
    assert_eq!(store.self_nominate(1, &carol, T0), Ok(()));
    assert_eq!(store.nomination_validity(1, &"carol".to_string()), Some(Validity::Valid));
}

#[test]
fn edit_of_unknown_nomination() {
    let mut store = store_with_one_election();
    let edit = EditNominationDto { username: "nobody".to_string(), display_name: Some("X".to_string()), valid: None };
    assert_eq!(store.edit_nomination(1, &edit), Err(AppError::UnknownNomination));
}

#[test]
fn pending_blocks_every_choice() {
    let mut store = store_with_one_election();
    let bob = user("bob", &[("123456", 1, false)]);
    let alice = user("alice", &[("123456", 1, false)]);
    assert_eq!(store.self_nominate(1, &alice, T0), Ok(()));
    let carol_token = sign_person_search_result(
        1,
        PersonSearchResult { username: "carol".to_string(), name: "Carol".to_string() },
        KEY,
    );
    assert_eq!(store.nominate_others(1, &bob, &carol_token, KEY, T0), Ok(()));
    for choice in [None, Some("alice"), Some("carol"), Some("nobody")] {
        assert_eq!(
            store.cast_vote(1, &bob, &ballot(choice), T1 + 1),
            Err(AppError::ElectionWithUnverifiedNomination)
        );
    }
    assert_eq!(
        store.get_vote_options(1, &bob, T1 + 1).err(),
        Some(AppError::ElectionWithUnverifiedNomination)
    );
}

#[test]
fn vote_gates_and_blank_votes() {
    let mut store = store_with_one_election();
    let alice = user("alice", &[("123456", 1, false)]);
    let bob = user("bob", &[("123456", 1, false)]);
    let outsider = user("dave", &[("654321", 1, false)]);
    assert_eq!(store.self_nominate(1, &alice, T0), Ok(()));
    assert_eq!(store.cast_vote(1, &bob, &ballot(None), T1), Err(AppError::OutsideVotingPeriod));
    assert_eq!(store.cast_vote(1, &bob, &ballot(None), T2 + 1), Err(AppError::OutsideVotingPeriod));
    assert_eq!(store.cast_vote(1, &outsider, &ballot(None), T2), Err(AppError::ElectionUnauthorized));
    assert_eq!(store.cast_vote(5, &bob, &ballot(None), T2), Err(AppError::UnknownElection));
    assert_eq!(store.cast_vote(1, &bob, &ballot(Some("zed")), T2), Err(AppError::UnknownVoteOption));
    assert!(!store.has_voted(1, &"bob".to_string()));
    assert_eq!(store.cast_vote(1, &bob, &ballot(None), T2), Ok(()));
    assert!(store.has_voted(1, &"bob".to_string()));
    assert_eq!(store.cast_vote(1, &alice, &ballot(Some("alice")), T2), Ok(()));
    assert_eq!(store.total_votes(1), 2);
    assert_eq!(store.candidate_votes(1), 1);
    assert_eq!(store.blank_votes(1), 1);
}

#[test]
fn invalid_nomination_is_not_an_option() {
    let mut store = store_with_one_election();
    let bob = user("bob", &[("123456", 1, false)]);
    let alice = user("alice", &[("123456", 1, false)]);
    assert_eq!(store.self_nominate(1, &alice, T0), Ok(()));
    let carol_token = sign_person_search_result(
        1,
        PersonSearchResult { username: "carol".to_string(), name: "Carol".to_string() },
        KEY,
    );
    assert_eq!(store.nominate_others(1, &bob, &carol_token, KEY, T0), Ok(()));
    let reject = EditNominationDto { username: "carol".to_string(), display_name: None, valid: Some(false) };
    assert_eq!(store.edit_nomination(1, &reject), Ok(()));
    let options = store.get_vote_options(1, &bob, T1 + 1).ok().unwrap();
    assert_eq!(options.len(), 1);
    assert_eq!(options[0].username, "alice");
    assert_eq!(options[0].display_name, "alice name");
    assert_eq!(store.cast_vote(1, &bob, &ballot(Some("carol")), T1 + 1), Err(AppError::UnknownVoteOption));
}

#[test]
fn many_voters_for_one_candidate_are_all_counted() {
    let mut store = store_with_one_election();
    let alice = user("alice", &[("123456", 1, false)]);
    assert_eq!(store.self_nominate(1, &alice, T0), Ok(()));
    for i in 0..50 {
        let voter = user(&format!("voter{}", i), &[("123456", 1, false)]);
        assert_eq!(store.cast_vote(1, &voter, &ballot(Some("alice")), T1 + 1), Ok(()));
    }
    assert_eq!(store.tally(1, &"alice".to_string()), 50);
    assert_eq!(store.total_votes(1), 50);
    assert_eq!(store.blank_votes(1), 0);
}

#[test]
fn bulk_create_validation_errors() {
    let mut store = ElectionStore::new();
    let year = YEAR.to_string();
    let cat = catalog();
    assert_eq!(store.bulk_create_elections(&batch(&[("123456", None)], None, (1, 2), 0), &cat, &year), Err(AppError::InvalidRound));
    assert_eq!(store.bulk_create_elections(&batch(&[("123456", None)], None, (2, 2), 1), &cat, &year), Err(AppError::InvalidDateRange));
    assert_eq!(store.bulk_create_elections(&batch(&[("123456", None)], Some((5, 5)), (10, 20), 1), &cat, &year), Err(AppError::InvalidDateRange));
    assert_eq!(store.bulk_create_elections(&batch(&[("123456", None)], Some((5, 10)), (10, 20), 1), &cat, &year), Err(AppError::ElectionCandidacyAfterVoting));
    assert_eq!(store.bulk_create_elections(&batch(&[("123456", None), ("000000", None)], None, (10, 20), 1), &cat, &year), Err(AppError::InvalidDegree));
    assert_eq!(store.bulk_create_elections(&batch(&[("123456", Some(1)), ("123456", Some(1))], None, (10, 20), 1), &cat, &year), Err(AppError::DuplicateElection));
    assert_eq!(store.election_count(), 0);
}

#[test]
fn bulk_create_twice_is_duplicate() {
    let mut store = ElectionStore::new();
    let year = YEAR.to_string();
    let dto = batch(&[("123456", None), ("654321", Some(2))], Some((1, 5)), (10, 20), 1);
    assert_eq!(store.bulk_create_elections(&dto, &catalog(), &year), Ok(()));
    assert_eq!(store.election_count(), 2);
    assert_eq!(store.bulk_create_elections(&dto, &catalog(), &year), Err(AppError::DuplicateElection));
    assert_eq!(store.election_count(), 2);
    let e = store.get_election(2).ok().unwrap();
    assert_eq!(e.id, 2);
    assert_eq!(e.degree_id, "654321");
    assert_eq!(e.curricular_year, Some(2));
    assert_eq!(e.candidacy_period_start, Some(1));
    assert_eq!(e.candidacy_period_end, Some(5));
    assert_eq!(e.voting_period_start, 10);
    assert_eq!(e.academic_year, YEAR);
    let next_round = batch(&[("123456", None)], None, (30, 40), 2);
    assert_eq!(store.bulk_create_elections(&next_round, &catalog(), &year), Ok(()));
    assert_eq!(store.election_count(), 3);
}

#[test]
fn revalidation_confirms_own_pending_nominations() {
    let mut store = store_with_one_election();
    let bob = user("bob", &[("123456", 1, false)]);
    let carol_token = sign_person_search_result(
        1,
        PersonSearchResult { username: "carol".to_string(), name: "Carol".to_string() },
        KEY,
    );
    assert_eq!(store.nominate_others(1, &bob, &carol_token, KEY, T0), Ok(()));
    let carol_plain = user("carol", &[("123456", 1, false)]);
    store.validate_nominations_of_user(&carol_plain, &YEAR.to_string());
    assert_eq!(store.nomination_validity(1, &"carol".to_string()), Some(Validity::Pending));
    let carol = user("carol", &[("123456", 1, true)]);
    store.validate_nominations_of_user(&carol, &"2000/2001".to_string());
    assert_eq!(store.nomination_validity(1, &"carol".to_string()), Some(Validity::Pending));
    store.validate_nominations_of_user(&carol, &YEAR.to_string());
    assert_eq!(store.nomination_validity(1, &"carol".to_string()), Some(Validity::Valid));
}

#[test]
fn unverified_counts_per_election_of_the_year() {
    let mut store = ElectionStore::new();
    let dto = batch(&[("123456", None), ("654321", None)], Some((T0, T1)), (T1 + 1, T2), 1);
    assert_eq!(store.bulk_create_elections(&dto, &catalog(), &YEAR.to_string()), Ok(()));
    let bob = user("bob", &[("123456", 1, false), ("654321", 1, false)]);
    let eve = user("eve", &[("123456", 1, false)]);
    for (who, target) in [(&bob, "carol"), (&eve, "dan")] {
        let token = sign_person_search_result(
            1,
            PersonSearchResult { username: target.to_string(), name: target.to_uppercase() },
            KEY,
        );
        assert_eq!(store.nominate_others(1, who, &token, KEY, T0), Ok(()));
    }
    assert_eq!(store.count_pending(1), 2);
    assert_eq!(store.get_unverified_nominations_count(&YEAR.to_string()), vec![(1, 2)]);
    assert!(store.get_unverified_nominations_count(&"1999/2000".to_string()).is_empty());
    let pending: Vec<String> = store.pending_nominations(1).iter().map(|n| n.username.clone()).collect();
    assert_eq!(pending, vec!["carol".to_string(), "dan".to_string()]);
}

#[test]
fn vote_options_in_display_name_order() {
    let mut store = store_with_one_election();
    for (name, display) in [("u1", "Zoe"), ("u2", "Ana"), ("u3", "Maria")] {
        let mut candidate = user(name, &[("123456", 1, false)]);
        candidate.name = display.to_string();
        assert_eq!(store.self_nominate(1, &candidate, T0), Ok(()));
    }
    let bob = user("bob", &[("123456", 1, false)]);
    let names: Vec<String> = store
        .get_vote_options(1, &bob, T1 + 1)
        .ok()
        .unwrap()
        .iter()
        .map(|o| o.display_name.clone())
        .collect();
    assert_eq!(names, vec!["Ana".to_string(), "Maria".to_string(), "Zoe".to_string()]);
    assert_eq!(store.get_vote_options(1, &bob, T1).err(), Some(AppError::OutsideVotingPeriod));
}

#[test]
fn user_listing_and_single_election_view() {
    let mut store = ElectionStore::new();
    let dto = batch(&[("123456", None), ("654321", None), ("123456", Some(2))], Some((T0, T1)), (T1 + 1, T2), 1);
    assert_eq!(store.bulk_create_elections(&dto, &catalog(), &YEAR.to_string()), Ok(()));
    let alice = user("alice", &[("123456", 2, false)]);
    assert_eq!(store.self_nominate(3, &alice, T0), Ok(()));
    let listing = store.get_user_elections(&alice, T0);
    let ids: Vec<(i32, Option<bool>)> = listing.iter().map(|e| (e.id, e.has_nominated)).collect();
    assert_eq!(ids, vec![(1, Some(false)), (3, Some(true))]);
    assert_eq!(store.get_election_for_user(2, &alice, T0).err(), Some(AppError::ElectionUnauthorized));
    assert_eq!(store.get_election_for_user(4, &alice, T0).err(), Some(AppError::UnknownElection));
    let view = store.get_election_for_user(3, &alice, T0).ok().unwrap();
    assert_eq!(view.has_nominated, Some(true));
    assert_eq!(view.has_voted, Some(false));
}

#[test]
fn unverified_nominations_grouped_per_election() {
    let mut store = ElectionStore::new();
    let dto = batch(&[("123456", None), ("654321", Some(2))], Some((T0, T1)), (T1 + 1, T2), 1);
    assert_eq!(store.bulk_create_elections(&dto, &catalog(), &YEAR.to_string()), Ok(()));
    let bob = user("bob", &[("654321", 2, false)]);
    let token = sign_person_search_result(
        2,
        PersonSearchResult { username: "carol".to_string(), name: "Carol".to_string() },
        KEY,
    );
    assert_eq!(store.nominate_others(2, &bob, &token, KEY, T0), Ok(()));
    let groups = store.get_unverified_nominations(&YEAR.to_string());
    assert_eq!(groups.len(), 1);
    assert_eq!(groups[0].id, 2);
    assert_eq!(groups[0].degree_id, "654321");
    assert_eq!(groups[0].curricular_year, Some(2));
    assert_eq!(groups[0].nominations.len(), 1);
    assert_eq!(groups[0].nominations[0].username, "carol");
    assert_eq!(groups[0].nominations[0].display_name, "Carol");
    assert_eq!(groups[0].nominations[0].valid, Validity::Pending);
}

#[test]
fn search_response_signs_for_its_election() {
    let response = PersonSearchResponse {
        users: vec![PersonSearchResult { username: "ist9".to_string(), name: "Nine".to_string() }],
    };
    let signed = response.sign_for_election(5, KEY);
    assert_eq!(signed.len(), 1);
    assert_eq!(signed[0].display_name, "Nine");
    assert!(validate_person_search_result(5, &signed[0], KEY).is_ok());
}

#[test]
fn elections_of_one_degree_and_year() {
    let mut store = ElectionStore::new();
    let dto = batch(&[("123456", None), ("654321", None), ("123456", Some(3))], Some((T0, T1)), (T1 + 1, T2), 1);
    assert_eq!(store.bulk_create_elections(&dto, &catalog(), &YEAR.to_string()), Ok(()));
    let listed = store.get_degree_elections(&"123456".to_string(), &YEAR.to_string(), T2 + 1);
    let ids: Vec<i32> = listed.iter().map(|e| e.id).collect();
    assert_eq!(ids, vec![1, 3]);
    assert_eq!(listed[1].curricular_year, Some(3));
    assert!(store.get_degree_elections(&"123456".to_string(), &"1999/2000".to_string(), 0).is_empty());
}
