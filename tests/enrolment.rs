use election_core::curriculum::{degree_entries_from_curriculum, CurriculumResponse, ExecutionYear};
use election_core::eligibility::DegreeEntryDto;
use election_core::error::AppError;
use election_core::overrides::{
    apply_degree_overrides, BulkAddUserDegreeOverrideDto, BulkDeleteUserDegreeOverrideDto,
    OverrideStore, UserDegreeOverride,
};

fn entry(id: &str, year: u8, nom: bool) -> DegreeEntryDto {
    DegreeEntryDto { degree_id: id.to_string(), curricular_year: year, nomination_elegible: nom }
}

fn summary(entries: &[DegreeEntryDto]) -> Vec<(String, u8, bool)> {
    entries.iter().map(|e| (e.degree_id.clone(), e.curricular_year, e.nomination_elegible)).collect()
}

fn override_row(user: &str, degree: &str, year: u8) -> UserDegreeOverride {
    UserDegreeOverride {
        username: user.to_string(),
        academic_year: "2023/2024".to_string(),
        degree_id: degree.to_string(),
        curricular_year: year,
    }
}

#[test]
fn override_changes_year_or_adds_entry() {
    let mut entries = vec![entry("D1", 1, false), entry("D2", 2, false)];
    let overrides = vec![override_row("u", "D2", 3), override_row("u", "D9", 1)];
    apply_degree_overrides(&mut entries, &overrides);
    assert_eq!(
        summary(&entries),
        vec![
            ("D1".to_string(), 1, false),
            ("D2".to_string(), 3, true),
            ("D9".to_string(), 1, true),
        ]
    );
}

#[test]
fn bulk_add_upserts_and_refuses_unknown_degree() {
    let mut store = OverrideStore::new();
    let catalog = vec!["D1".to_string()];
    let year = "2023/2024".to_string();
    let dto = BulkAddUserDegreeOverrideDto {
        degree_id: "D1".to_string(),
        curricular_year: 2,
        usernames: vec!["a".to_string(), "b".to_string()],
    };
    assert_eq!(store.bulk_add_user_degree_override(&dto, &catalog, &year), Ok(()));
    assert_eq!(store.len(), 2);
    let again = BulkAddUserDegreeOverrideDto {
        degree_id: "D1".to_string(),
        curricular_year: 4,
        usernames: vec!["a".to_string()],
    };
    assert_eq!(store.bulk_add_user_degree_override(&again, &catalog, &year), Ok(()));
    assert_eq!(store.len(), 2);
    let a = store.overrides_of(&"a".to_string(), &year);
    assert_eq!(a.len(), 1);
    assert_eq!(a[0].curricular_year, 4);
    assert!(store.overrides_of(&"a".to_string(), &"2000/2001".to_string()).is_empty());
    let unknown = BulkAddUserDegreeOverrideDto {
        degree_id: "D7".to_string(),
        curricular_year: 1,
        usernames: vec!["c".to_string()],
    };
    assert_eq!(store.bulk_add_user_degree_override(&unknown, &catalog, &year), Err(AppError::InvalidDegree));
    assert_eq!(store.len(), 2);
}

#[test]
fn bulk_delete_removes_only_named_rows() {
    let mut store = OverrideStore::new();
    let catalog = vec!["D1".to_string(), "D2".to_string()];
    let year = "2023/2024".to_string();
    for degree in ["D1", "D2"] {
        let dto = BulkAddUserDegreeOverrideDto {
            degree_id: degree.to_string(),
            curricular_year: 1,
            usernames: vec!["a".to_string(), "b".to_string()],
        };
        assert_eq!(store.bulk_add_user_degree_override(&dto, &catalog, &year), Ok(()));
    }
    let del = BulkDeleteUserDegreeOverrideDto { degree_id: "D1".to_string(), usernames: vec!["a".to_string()] };
    store.bulk_delete_user_degree_override(&del, &"1999/2000".to_string());
    assert_eq!(store.len(), 4);
    store.bulk_delete_user_degree_override(&del, &year);
    assert_eq!(store.len(), 3);
    let a: Vec<String> = store.overrides_of(&"a".to_string(), &year).iter().map(|o| o.degree_id.clone()).collect();
    assert_eq!(a, vec!["D2".to_string()]);
}

#[test]
fn curriculum_keeps_registered_entries_of_the_year() {
    let term = |b: u32, e: u32| ExecutionYear { begin_year: b, end_year: e };
    let curriculum = vec![
        CurriculumResponse {
            degree_id: "D1".to_string(),
            curricular_year: 2,
            state: "REGISTERED".to_string(),
            academic_terms: vec![term(2022, 2023), term(2023, 2024)],
        },
        CurriculumResponse {
            degree_id: "D2".to_string(),
            curricular_year: 1,
            state: "CONCLUDED".to_string(),
            academic_terms: vec![term(2023, 2024)],
        },
        CurriculumResponse {
            degree_id: "D3".to_string(),
            curricular_year: 3,
            state: "REGISTERED".to_string(),
            academic_terms: vec![term(2021, 2022)],
        },
    ];
    let entries = degree_entries_from_curriculum(&curriculum, &"2023/2024".to_string());
    assert_eq!(summary(&entries), vec![("D1".to_string(), 2, true)]);
    assert!(degree_entries_from_curriculum(&curriculum, &"2023/24".to_string()).is_empty());
}

#[test]
fn year_label_is_decimal() {
    let y = ExecutionYear { begin_year: 0, end_year: 4_294_967_295 };
    assert_eq!(y.label_bytes(), b"0/4294967295".to_vec());
    let y = ExecutionYear { begin_year: 2023, end_year: 2024 };
    assert_eq!(String::from_utf8(y.label_bytes()).unwrap(), "2023/2024");
}

#[test]
fn override_listing_groups_by_degree() {
    let mut store = OverrideStore::new();
    let catalog = vec!["D1".to_string(), "D2".to_string()];
    let year = "2023/2024".to_string();
    for (degree, users) in [("D2", vec!["b", "a"]), ("D1", vec!["c"])] {
        let dto = BulkAddUserDegreeOverrideDto {
            degree_id: degree.to_string(),
            curricular_year: 3,
            usernames: users.iter().map(|u| u.to_string()).collect(),
        };
        assert_eq!(store.bulk_add_user_degree_override(&dto, &catalog, &year), Ok(()));
    }
    let old = BulkAddUserDegreeOverrideDto { degree_id: "D1".to_string(), curricular_year: 1, usernames: vec!["z".to_string()] };
    assert_eq!(store.bulk_add_user_degree_override(&old, &catalog, &"2000/2001".to_string()), Ok(()));
    let groups = store.get_user_degree_overrides(&year);
    let shape: Vec<(String, Vec<String>)> = groups
        .iter()
        .map(|g| (g.degree_id.clone(), g.users.iter().map(|u| u.username.clone()).collect()))
        .collect();
    assert_eq!(
        shape,
        vec![
            ("D2".to_string(), vec!["b".to_string(), "a".to_string()]),
            ("D1".to_string(), vec!["c".to_string()]),
        ]
    );
    assert_eq!(groups[0].users[0].curricular_year, 3);
    assert!(store.get_user_degree_overrides(&"1999/2000".to_string()).is_empty());
}
