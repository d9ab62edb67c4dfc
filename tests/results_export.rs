use election_core::eligibility::{DegreeEntryDto, UserDto};
use election_core::results::{
    degree_label, election_results, get_all_results, sort_by_votes, DegreeLabel, ResultRow,
};
use election_core::store::{
    BulkCreateElectionsDegreesDto, BulkCreateElectionsDto, CastVoteDto, DateRangeDto, ElectionStore,
};

const YEAR: &str = "2023/2024";

fn voter(name: &str, degree: &str, year: u8) -> UserDto {
    UserDto {
        username: name.to_string(),
        name: name.to_uppercase(),
        display_name: name.to_string(),
        degree_entries: vec![DegreeEntryDto {
            degree_id: degree.to_string(),
            curricular_year: year,
            nomination_elegible: false,
        }],
    }
}

fn create(store: &mut ElectionStore, round: i32, degrees: &[(&str, Option<i32>)], voting: (i64, i64), year: &str) {
    let dto = BulkCreateElectionsDto {
        candidacy_period: Some(DateRangeDto { start: 0, end: 10 }),
        voting_period: DateRangeDto { start: voting.0, end: voting.1 },
        round,
        degrees: degrees
            .iter()
            .map(|(id, y)| BulkCreateElectionsDegreesDto { degree_id: id.to_string(), curricular_year: *y })
            .collect(),
    };
    let catalog = vec!["D1".to_string(), "D2".to_string(), "D3".to_string()];
    assert_eq!(store.bulk_create_elections(&dto, &catalog, &year.to_string()), Ok(()));
}

fn labels() -> Vec<DegreeLabel> {
    vec![
        DegreeLabel { id: "D1".to_string(), acronym: "MEIC".to_string() },
        DegreeLabel { id: "D2".to_string(), acronym: "LEIC".to_string() },
    ]
}

fn vote(store: &mut ElectionStore, id: i32, who: &UserDto, choice: Option<&str>) {
    let ballot = CastVoteDto { username: choice.map(|c| c.to_string()) };
    assert_eq!(store.cast_vote(id, who, &ballot, 20), Ok(()));
}

fn summary(rows: &[ResultRow]) -> Vec<(i32, String, String, u64)> {
    rows.iter()
        .map(|r| (r.election_id, r.degree.clone(), r.username.clone(), r.vote_count))
        .collect()
}

#[test]
fn one_election_block_orders_by_votes_then_blank() {
    let mut store = ElectionStore::new();
    create(&mut store, 1, &[("D1", None)], (15, 30), YEAR);
    let a = voter("a", "D1", 1);
    let b = voter("b", "D1", 1);
    assert_eq!(store.self_nominate(1, &a, 5), Ok(()));
    assert_eq!(store.self_nominate(1, &b, 5), Ok(()));
    vote(&mut store, 1, &a, Some("a"));
    vote(&mut store, 1, &b, Some("a"));
    vote(&mut store, 1, &voter("c", "D1", 1), Some("b"));
    vote(&mut store, 1, &voter("d", "D1", 1), None);
    let block = election_results(&store, 1, &labels()).ok().unwrap();
    assert_eq!(
        summary(&block),
        vec![
            (1, "MEIC".to_string(), "b".to_string(), 1),
            (1, "MEIC".to_string(), "a".to_string(), 2),
            (1, "MEIC".to_string(), "blank".to_string(), 1),
        ]
    );
    assert_eq!(block[0].display_name, "B");
    assert_eq!(block[2].display_name, "");
    assert!(election_results(&store, 2, &labels()).is_err());
}

#[test]
fn all_results_keeps_ended_elections_of_the_year_in_key_order() {
    let mut store = ElectionStore::new();
    create(&mut store, 2, &[("D1", None)], (15, 30), YEAR);
    create(&mut store, 1, &[("D1", Some(2)), ("D2", None), ("D3", None)], (15, 30), YEAR);
    create(&mut store, 1, &[("D2", Some(1))], (15, 100), YEAR);
    create(&mut store, 1, &[("D2", Some(1))], (15, 30), "2000/2001");
    let results = get_all_results(&store, &YEAR.to_string(), 50, &labels());
    let order: Vec<(i32, String)> = results.iter().map(|r| (r.election_id, r.degree.clone())).collect();
    assert_eq!(
        order,
        vec![
            (3, "LEIC".to_string()),
            (2, "MEIC".to_string()),
            (4, "unknown".to_string()),
            (1, "MEIC".to_string()),
        ]
    );
    assert!(results.iter().all(|r| r.username == "blank" && r.vote_count == 0));
}

#[test]
fn nothing_ended_gives_no_rows() {
    let mut store = ElectionStore::new();
    create(&mut store, 1, &[("D1", None)], (15, 30), YEAR);
    assert!(get_all_results(&store, &YEAR.to_string(), 30, &labels()).is_empty());
}

#[test]
fn unknown_degree_is_labelled_unknown() {
    assert_eq!(degree_label(&labels(), &"D2".to_string()), "LEIC");
    assert_eq!(degree_label(&labels(), &"D9".to_string()), "unknown");
}

#[test]
fn sort_by_votes_is_stable() {
    let row = |name: &str, votes: u64| ResultRow {
        election_id: 1,
        round: 1,
        degree: "X".to_string(),
        curricular_year: None,
        username: name.to_string(),
        display_name: String::new(),
        vote_count: votes,
    };
    let sorted = sort_by_votes(&vec![row("a", 3), row("b", 1), row("c", 3), row("d", 0)]);
    let names: Vec<&str> = sorted.iter().map(|r| r.username.as_str()).collect();
    assert_eq!(names, vec!["d", "b", "a", "c"]);
}
