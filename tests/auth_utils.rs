use election_core::election::Election;
use election_core::eligibility::{
    can_vote_on_election, get_user_in_election_condition, visible_elections, DegreeEntryDto,
    UserDto,
};
use election_core::error::AppError;

fn get_user_with_degrees(degrees: &[(&str, u8)]) -> UserDto {
    UserDto {
        username: "demo".to_string(),
        name: "Demo".to_string(),
        display_name: "Demo".to_string(),
        degree_entries: degrees
            .iter()
            .map(|(id, year)| DegreeEntryDto {
                degree_id: id.to_string(),
                curricular_year: *year,
                nomination_elegible: false,
            })
            .collect(),
    }
}

fn get_election(degree_id: &str, curricular_year: Option<i32>) -> Election {
    Election {
        degree_id: degree_id.to_string(),
        curricular_year,
        id: 1,
        round: 1,
        academic_year: "2022/2023".to_string(),
        voting_period_start: 0,
        voting_period_end: 0,
        candidacy_period_start: None,
        candidacy_period_end: None,
    }
}

#[test]
fn test_can_vote_on_election() {
    let user = get_user_with_degrees(&[("123456", 1), ("654321", 3)]);
    let election1 = get_election("111111", None);
    let election2 = get_election("111111", Some(2));
    let election3 = get_election("123456", None);
    let election4 = get_election("123456", Some(1));
    let election5 = get_election("123456", Some(3));

    assert!(can_vote_on_election(&user, &election1).is_err());
    assert!(can_vote_on_election(&user, &election2).is_err());
    assert!(can_vote_on_election(&user, &election3).is_ok());
    assert!(can_vote_on_election(&user, &election4).is_ok());
    assert!(can_vote_on_election(&user, &election5).is_err());
}

#[test]
fn single_entry_any_year_and_restricted_year() {
    let user = get_user_with_degrees(&[("123456", 1)]);
    assert_eq!(can_vote_on_election(&user, &get_election("123456", None)), Ok(()));
    assert_eq!(
        can_vote_on_election(&user, &get_election("123456", Some(3))),
        Err(AppError::ElectionUnauthorized)
    );
}

#[test]
fn no_enrolment_gives_no_access() {
    let user = get_user_with_degrees(&[]);
    assert_eq!(
        can_vote_on_election(&user, &get_election("123456", None)),
        Err(AppError::ElectionUnauthorized)
    );
}

#[test]
fn election_condition_matches_gate() {
    let user = get_user_with_degrees(&[("123456", 2)]);
    assert!(get_user_in_election_condition(&user.degree_entries, &get_election("123456", Some(2))));
    assert!(!get_user_in_election_condition(&user.degree_entries, &get_election("123456", Some(1))));
    assert!(!get_user_in_election_condition(&user.degree_entries, &get_election("999999", None)));
}

#[test]
fn visible_elections_keeps_order_and_filters() {
    let user = get_user_with_degrees(&[("123456", 1), ("654321", 3)]);
    let mut elections = vec![
        get_election("111111", None),
        get_election("654321", Some(3)),
        get_election("123456", Some(2)),
        get_election("123456", None),
    ];
    for (i, e) in elections.iter_mut().enumerate() {
        e.id = i as i32 + 1;
    }
    let visible = visible_elections(&user, &elections);
    let ids: Vec<i32> = visible.iter().map(|e| e.id).collect();
    assert_eq!(ids, vec![2, 4]);
}
