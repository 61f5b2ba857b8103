use relay::profiles::{delete_profile, get_profile, upsert_profile, Profile, ProfileError, SaveProfileRequest};
use relay::settings::AppSettings;

fn req(id: Option<&str>, name: &str) -> SaveProfileRequest {
    SaveProfileRequest {
        id: id.map(|s| s.to_string()),
        name: name.to_string(),
        description: None,
        settings: AppSettings::default(),
        instances: vec!["i1".to_string()],
    }
}

#[test]
fn profiles_are_saved_updated_and_deleted() {
    let mut v: Vec<Profile> = Vec::new();
    let i = upsert_profile(&mut v, req(None, "home")).unwrap();
    assert_eq!(i, 0);
    assert_eq!(v[0].name, "home");
    assert_eq!(v[0].created_at, v[0].updated_at);
    let id = v[0].id.clone();
    assert_eq!(id.len(), 36);
    assert_eq!(get_profile(&v, &id), Some(0));
    let j = upsert_profile(&mut v, req(Some(&id), "work")).unwrap();
    assert_eq!(j, 0);
    assert_eq!(v.len(), 1);
    assert_eq!(v[0].name, "work");
    assert_eq!(upsert_profile(&mut v, req(Some("missing"), "x")), Err(ProfileError::NotFound));
    assert_eq!(v.len(), 1);
    assert_eq!(delete_profile(&mut v, "missing"), Err(ProfileError::NotFound));
    assert_eq!(delete_profile(&mut v, &id), Ok(()));
    assert!(v.is_empty());
    assert_eq!(get_profile(&v, &id), None);
}
