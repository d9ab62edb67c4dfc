use election_core::admins::AdminRegistry;
use election_core::error::AppError;

#[test]
fn first_admin_then_more() {
    let mut admins = AdminRegistry::new();
    assert!(!admins.is_setup());
    assert_eq!(admins.setup_first_admin(&"root".to_string(), 1), Ok(()));
    assert_eq!(admins.setup_first_admin(&"other".to_string(), 2), Err(AppError::Forbidden));
    assert!(admins.is_admin(&"root".to_string()));
    assert!(!admins.is_admin(&"other".to_string()));
    assert_eq!(admins.add_admin(&"ana".to_string(), 3), Ok(()));
    assert_eq!(admins.add_admin(&"ana".to_string(), 4), Err(AppError::DuplicateAdmin));
    assert_eq!(admins.add_admin(&String::new(), 4), Err(AppError::BadInput));
    assert_eq!(admins.list_admins(), vec!["root".to_string(), "ana".to_string()]);
}

#[test]
fn last_admin_cannot_be_removed() {
    let mut admins = AdminRegistry::new();
    assert_eq!(admins.setup_first_admin(&"root".to_string(), 1), Ok(()));
    assert_eq!(admins.remove_admin(&"root".to_string()), Err(AppError::NotEnoughAdmins));
    assert_eq!(admins.add_admin(&"ana".to_string(), 2), Ok(()));
    assert_eq!(admins.remove_admin(&"zed".to_string()), Err(AppError::UnknownAdmin));
    assert_eq!(admins.remove_admin(&String::new()), Err(AppError::BadInput));
    assert_eq!(admins.remove_admin(&"root".to_string()), Ok(()));
    assert_eq!(admins.list_admins(), vec!["ana".to_string()]);
}
