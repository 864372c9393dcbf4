use best_goats::auth::{get_user_id, user_id_cookie};
use best_goats::favorites::{
    current_favorites, modify_favorites, modify_favorites_with_token, FavoritesAction,
    MutationOutcome,
};
use best_goats::store::FavStore;

fn token(s: &str) -> String {
    s.to_string()
}

#[test]
fn resolver_no_header() {
    assert_eq!(get_user_id(None), None);
}

#[test]
fn resolver_single_cookie() {
    assert_eq!(get_user_id(Some("user_id=tok42")), Some("tok42".to_string()));
}

#[test]
fn resolver_trims_whitespace() {
    assert_eq!(
        get_user_id(Some("foo=1; user_id = tok42 ;x=2")),
        Some("tok42".to_string())
    );
}

#[test]
fn resolver_skips_malformed_fragments() {
    assert_eq!(get_user_id(Some("flag; user_id=t")), Some("t".to_string()));
    assert_eq!(get_user_id(Some(" =v; user_id=t")), Some("t".to_string()));
}

#[test]
fn resolver_first_match_wins() {
    assert_eq!(
        get_user_id(Some("user_id=a; user_id=b")),
        Some("a".to_string())
    );
}

#[test]
fn resolver_absent_name() {
    assert_eq!(get_user_id(Some("foo=1; bar=2")), None);
    assert_eq!(get_user_id(Some("")), None);
}

#[test]
fn cookie_format() {
    assert_eq!(
        user_id_cookie("T1".to_string()),
        "user_id=T1; HttpOnly; Secure; Max-Age=630720000"
    );
}

#[test]
fn store_records_are_canonical_bytes() {
    let mut store = FavStore::new();
    store.put_list(token("t1"), &vec![7]);
    assert_eq!(store.get(&token("t1")), Some("[7]".to_string()));
    store.delete(&token("t1"));
    assert_eq!(store.get(&token("t1")), None);
}

#[test]
fn add_then_current_prepends() {
    let mut store = FavStore::new();
    let r = modify_favorites_with_token(&mut store, &None, FavoritesAction::Add, 7, token("t1"));
    assert!(matches!(r, MutationOutcome::Rotated(t) if t == "t1"));
    assert_eq!(current_favorites(&store, &Some(token("t1"))), vec![7]);
    let r2 = modify_favorites_with_token(
        &mut store,
        &Some(token("t1")),
        FavoritesAction::Add,
        3,
        token("t2"),
    );
    assert!(matches!(r2, MutationOutcome::Rotated(t) if t == "t2"));
    assert_eq!(current_favorites(&store, &Some(token("t2"))), vec![3, 7]);
}

#[test]
fn add_present_is_unchanged_and_bytes_identical() {
    let mut store = FavStore::new();
    modify_favorites_with_token(&mut store, &None, FavoritesAction::Add, 7, token("t1"));
    let before = store.get(&token("t1"));
    let r = modify_favorites_with_token(
        &mut store,
        &Some(token("t1")),
        FavoritesAction::Add,
        7,
        token("t2"),
    );
    assert!(matches!(r, MutationOutcome::Unchanged));
    assert_eq!(store.get(&token("t1")), before);
    assert_eq!(store.get(&token("t2")), None);
}

#[test]
fn remove_preserves_order_and_retires_old_token() {
    let mut store = FavStore::new();
    modify_favorites_with_token(&mut store, &None, FavoritesAction::Add, 1, token("t1"));
    modify_favorites_with_token(
        &mut store,
        &Some(token("t1")),
        FavoritesAction::Add,
        2,
        token("t2"),
    );
    modify_favorites_with_token(
        &mut store,
        &Some(token("t2")),
        FavoritesAction::Add,
        3,
        token("t3"),
    );
    assert_eq!(current_favorites(&store, &Some(token("t3"))), vec![3, 2, 1]);
    let r = modify_favorites_with_token(
        &mut store,
        &Some(token("t3")),
        FavoritesAction::Remove,
        2,
        token("t4"),
    );
    assert!(matches!(r, MutationOutcome::Rotated(t) if t == "t4"));
    assert_eq!(current_favorites(&store, &Some(token("t4"))), vec![3, 1]);
    assert_eq!(store.get(&token("t3")), None);
}

#[test]
fn remove_absent_is_noop() {
    let mut store = FavStore::new();
    modify_favorites_with_token(&mut store, &None, FavoritesAction::Add, 7, token("t1"));
    let before = store.get(&token("t1"));
    let r = modify_favorites_with_token(
        &mut store,
        &Some(token("t1")),
        FavoritesAction::Remove,
        99,
        token("t2"),
    );
    assert!(matches!(r, MutationOutcome::Unchanged));
    assert_eq!(store.get(&token("t1")), before);
    assert_eq!(store.get(&token("t2")), None);
}

#[test]
fn remove_last_item_keeps_empty_record() {
    let mut store = FavStore::new();
    modify_favorites_with_token(&mut store, &None, FavoritesAction::Add, 7, token("t1"));
    let r = modify_favorites_with_token(
        &mut store,
        &Some(token("t1")),
        FavoritesAction::Remove,
        7,
        token("t2"),
    );
    assert!(matches!(r, MutationOutcome::Rotated(t) if t == "t2"));
    assert_eq!(store.get(&token("t2")), Some("[]".to_string()));
    assert_eq!(current_favorites(&store, &Some(token("t2"))), vec![]);
}

#[test]
fn random_rotation_yields_fresh_alphanumeric_token() {
    let mut store = FavStore::new();
    let r = modify_favorites(&mut store, &None, FavoritesAction::Add, 5);
    let t1 = match r {
        MutationOutcome::Rotated(t) => t,
        _ => panic!("expected a rotation"),
    };
    assert_eq!(t1.len(), 30);
    assert!(t1.chars().all(|c| c.is_ascii_alphanumeric()));
    assert_eq!(current_favorites(&store, &Some(t1.clone())), vec![5]);
    let r2 = modify_favorites(&mut store, &Some(t1.clone()), FavoritesAction::Add, 6);
    let t2 = match r2 {
        MutationOutcome::Rotated(t) => t,
        _ => panic!("expected a rotation"),
    };
    assert_ne!(t1, t2);
    assert_eq!(current_favorites(&store, &Some(t2)), vec![6, 5]);
    assert_eq!(current_favorites(&store, &Some(t1)), vec![]);
}

#[test]
fn no_cookie_means_empty_list() {
    let store = FavStore::new();
    assert_eq!(current_favorites(&store, &None), vec![]);
    assert_eq!(current_favorites(&store, &Some(token("missing"))), vec![]);
}
