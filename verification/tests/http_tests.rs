use best_goats::models::Goat;
use best_goats::router::{handle_request, resolve_route, Outcome, RequestData, Route};
use best_goats::store::FavStore;
use best_goats::views::{favorite_goats, get_goat_list_items};

fn goat(id: u32, name: &str) -> Goat {
    Goat {
        id,
        name: name.to_string(),
        image: format!("/images/{}.jpg", name),
        image_small: format!("/images/{}_small.jpg", name),
    }
}

fn catalog() -> Vec<Goat> {
    vec![goat(1, "alpha"), goat(2, "beta"), goat(7, "gamma")]
}

fn request(method: &str, path: &str, cookie: Option<&str>, form_id: Option<&str>) -> RequestData {
    RequestData {
        method: method.to_string(),
        path: path.to_string(),
        url: format!("https://goats.example{}", path),
        referrer: None,
        cookie_header: cookie.map(|c| c.to_string()),
        form_id: form_id.map(|f| f.to_string()),
    }
}

fn cookie_token(set_cookie: &str) -> String {
    let rest = set_cookie.strip_prefix("user_id=").expect("cookie name");
    rest.split(';').next().expect("cookie value").to_string()
}

#[test]
fn home_rows_keep_catalog_order_and_flags() {
    let favs: Vec<u32> = vec![2];
    let rows = get_goat_list_items(catalog(), &favs);
    let ids: Vec<u32> = rows.iter().map(|r| r.id).collect();
    let flags: Vec<bool> = rows.iter().map(|r| r.is_favorite).collect();
    assert_eq!(ids, vec![1, 2, 7]);
    assert_eq!(flags, vec![false, true, false]);
    assert_eq!(rows[1].name, "beta");
    assert_eq!(rows[1].image, "/images/beta.jpg");
    assert_eq!(rows[1].image_small, "/images/beta_small.jpg");
}

#[test]
fn favorites_rows_are_filtered_in_catalog_order() {
    let favs: Vec<u32> = vec![7, 1];
    let kept = favorite_goats(catalog(), &favs);
    let rows = get_goat_list_items(kept, &favs);
    let ids: Vec<u32> = rows.iter().map(|r| r.id).collect();
    assert_eq!(ids, vec![1, 7]);
    assert!(rows.iter().all(|r| r.is_favorite));
}

#[test]
fn routing_table() {
    assert_eq!(resolve_route("/", "GET"), Route::Home);
    assert_eq!(resolve_route("/favorites", "get"), Route::Favorites);
    assert_eq!(resolve_route("/FAVORITES", "GeT"), Route::Favorites);
    assert_eq!(resolve_route("/add-favorite", "POST"), Route::AddFavorite);
    assert_eq!(resolve_route("/remove-favorite", "PoSt"), Route::RemoveFavorite);
    assert_eq!(resolve_route("/images/goat.jpg", "GET"), Route::Images);
    assert_eq!(resolve_route("/unknown-path", "GET"), Route::NotFound);
    assert_eq!(resolve_route("/favorites", "POST"), Route::MethodNotAllowed);
    assert_eq!(resolve_route("/", "POST"), Route::MethodNotAllowed);
    assert_eq!(resolve_route("/add-favorite", "GET"), Route::MethodNotAllowed);
}

#[test]
fn add_favorite_end_to_end() {
    let mut store = FavStore::new();
    let cat = catalog();
    let post = request("POST", "/add-favorite", None, Some("7"));
    let r = handle_request(&mut store, &cat, &post);
    let (location, set_cookie) = match r {
        Outcome::Redirect { location, set_cookie } => (location, set_cookie),
        other => panic!("expected a redirect, got {:?}", other),
    };
    assert_eq!(location, "https://goats.example/add-favorite");
    let header = set_cookie.expect("a rotated cookie");
    assert!(header.ends_with("; HttpOnly; Secure; Max-Age=630720000"));
    let t1 = cookie_token(&header);
    assert_eq!(t1.len(), 30);

    let cookie_header = format!("user_id={}", t1);
    let get = request("GET", "/favorites", Some(&cookie_header), None);
    let page = handle_request(&mut store, &cat, &get);
    match page {
        Outcome::FavoritesPage { fav_count, has_favorites, rows } => {
            assert_eq!(fav_count, 1);
            assert!(has_favorites);
            assert_eq!(rows.len(), 1);
            assert_eq!(rows[0].id, 7);
            assert!(rows[0].is_favorite);
        },
        other => panic!("expected the favorites page, got {:?}", other),
    }
}

#[test]
fn add_favorite_invalid_id_is_bad_request() {
    let mut store = FavStore::new();
    let cat = catalog();
    let r = handle_request(&mut store, &cat, &request("POST", "/add-favorite", None, Some("abc")));
    match r {
        Outcome::ErrorPage { status, message } => {
            assert_eq!(status, 400);
            assert!(message.contains("Invalid id parameter"));
        },
        other => panic!("expected an error page, got {:?}", other),
    }
}

#[test]
fn add_favorite_missing_id_is_bad_request() {
    let mut store = FavStore::new();
    let cat = catalog();
    let r = handle_request(&mut store, &cat, &request("POST", "/add-favorite", None, None));
    match r {
        Outcome::ErrorPage { status, message } => {
            assert_eq!(status, 400);
            assert_eq!(message, "Missing id parameter");
        },
        other => panic!("expected an error page, got {:?}", other),
    }
}

#[test]
fn unknown_path_is_not_found() {
    let mut store = FavStore::new();
    let cat = catalog();
    let r = handle_request(&mut store, &cat, &request("GET", "/unknown-path", None, None));
    match r {
        Outcome::ErrorPage { status, message } => {
            assert_eq!(status, 404);
            assert_eq!(message, "404 Not Found");
        },
        other => panic!("expected an error page, got {:?}", other),
    }
}

#[test]
fn wrong_method_is_not_allowed() {
    let mut store = FavStore::new();
    let cat = catalog();
    let r = handle_request(&mut store, &cat, &request("POST", "/", None, None));
    match r {
        Outcome::ErrorPage { status, message } => {
            assert_eq!(status, 405);
            assert_eq!(message, "405 Method Not Allowed");
        },
        other => panic!("expected an error page, got {:?}", other),
    }
}

#[test]
fn home_page_marks_favorites() {
    let mut store = FavStore::new();
    let cat = catalog();
    let post = request("POST", "/add-favorite", None, Some("2"));
    let r = handle_request(&mut store, &cat, &post);
    let header = match r {
        Outcome::Redirect { set_cookie, .. } => set_cookie.expect("a rotated cookie"),
        other => panic!("expected a redirect, got {:?}", other),
    };
    let cookie_header = format!("user_id={}", cookie_token(&header));
    let page = handle_request(&mut store, &cat, &request("GET", "/", Some(&cookie_header), None));
    match page {
        Outcome::HomePage { fav_count, rows } => {
            assert_eq!(fav_count, 1);
            let flags: Vec<bool> = rows.iter().map(|x| x.is_favorite).collect();
            assert_eq!(flags, vec![false, true, false]);
        },
        other => panic!("expected the home page, got {:?}", other),
    }
}

#[test]
fn idempotent_add_keeps_cookie_untouched() {
    let mut store = FavStore::new();
    let cat = catalog();
    let r = handle_request(&mut store, &cat, &request("POST", "/add-favorite", None, Some("7")));
    let header = match r {
        Outcome::Redirect { set_cookie, .. } => set_cookie.expect("a rotated cookie"),
        other => panic!("expected a redirect, got {:?}", other),
    };
    let cookie_header = format!("user_id={}", cookie_token(&header));
    let again = handle_request(
        &mut store,
        &cat,
        &request("POST", "/add-favorite", Some(&cookie_header), Some("7")),
    );
    match again {
        Outcome::Redirect { set_cookie, .. } => assert!(set_cookie.is_none()),
        other => panic!("expected a redirect, got {:?}", other),
    }
}

#[test]
fn image_path_is_proxied_verbatim() {
    let mut store = FavStore::new();
    let cat = catalog();
    let r = handle_request(&mut store, &cat, &request("GET", "/Images/Goat.PNG", None, None));
    match r {
        Outcome::Proxy { url } => {
            assert_eq!(url, "https://storage.googleapis.com/best_goats/Images/Goat.PNG");
        },
        other => panic!("expected a proxy directive, got {:?}", other),
    }
    let r2 = handle_request(&mut store, &cat, &request("GET", "/images/goat.jpg", None, None));
    match r2 {
        Outcome::Proxy { url } => {
            assert_eq!(url, "https://storage.googleapis.com/best_goats/images/goat.jpg");
        },
        other => panic!("expected a proxy directive, got {:?}", other),
    }
}

#[test]
fn favorites_page_empty_without_cookie() {
    let mut store = FavStore::new();
    let cat = catalog();
    let r = handle_request(&mut store, &cat, &request("GET", "/favorites", None, None));
    match r {
        Outcome::FavoritesPage { fav_count, has_favorites, rows } => {
            assert_eq!(fav_count, 0);
            assert!(!has_favorites);
            assert!(rows.is_empty());
        },
        other => panic!("expected the favorites page, got {:?}", other),
    }
}

#[test]
fn routing_reads_only_the_first_segment() {
    assert_eq!(resolve_route("/favorites/extra", "GET"), Route::Favorites);
    assert_eq!(resolve_route("no-leading-slash", "GET"), Route::NotFound);
}

#[test]
fn redirect_prefers_referrer() {
    let mut store = FavStore::new();
    let cat = catalog();
    let mut req = request("POST", "/add-favorite", None, Some("1"));
    req.referrer = Some("https://goats.example/".to_string());
    let r = handle_request(&mut store, &cat, &req);
    match r {
        Outcome::Redirect { location, .. } => assert_eq!(location, "https://goats.example/"),
        other => panic!("expected a redirect, got {:?}", other),
    }
}
