//! Router/dispatcher: five recognized routes, each bound to one HTTP
//! method, case-insensitive on path and method; a wrong method on a
//! recognized path is `405`, an unrecognized path is `404`. The handlers
//! behind the routes produce structured responses: pages of view rows,
//! redirects carrying a rotated cookie, error pages, or an image-proxy
//! directive.

use vstd::prelude::*;
use vstd::string::StrSliceExecFns;
use vstd::string::StringExecFns;
use crate::auth::{cookie_text, get_user_id, is_token_char, spec_user_id, user_id_cookie};
use crate::codec::{dec_rep, parse_goat_id, push_u32_dec, spec_parse_u32};
use crate::favorites::{
    current_favorites, current_list, modify_favorites, remove_first, rotated, tok_of,
    FavoritesAction, MutationOutcome,
};
use crate::models::{Goat, GoatListItem};
use crate::scan::{ascii_lower, find_char_from, idx_of, lower_of};
use crate::store::FavStore;
use crate::views::{
    clone_goats, fav_filter, favorite_goats, get_goat_list_items, goats_view,
    lemma_fav_filter_members, row_of,
};

verus! {

/// What the core needs to know of an inbound request, as plain values.
pub struct RequestData {
    pub method: String,
    pub path: String,
    pub url: String,
    pub referrer: Option<String>,
    pub cookie_header: Option<String>,
    pub form_id: Option<String>,
}

/// Where a request is dispatched.
#[derive(PartialEq, Eq, Structural, Debug)]
pub enum Route {
    Home,
    Favorites,
    AddFavorite,
    RemoveFavorite,
    Images,
    NotFound,
    MethodNotAllowed,
}

/// A structured response: the view data a template would render, a
/// redirect, an error page, or a pass-through to the image origin.
#[derive(Debug)]
pub enum Outcome {
    HomePage { fav_count: usize, rows: Vec<GoatListItem> },
    FavoritesPage { fav_count: usize, has_favorites: bool, rows: Vec<GoatListItem> },
    Redirect { location: String, set_cookie: Option<String> },
    ErrorPage { status: u16, message: String },
    Proxy { url: String },
}

/// The path segment between the first `/` and the next, if the path has a
/// `/` at all.
pub open spec fn first_segment(p: Seq<char>) -> Option<Seq<char>> {
    let a = idx_of(p, '/', 0);
    if a >= p.len() {
        None
    } else {
        Some(p.subrange(a as int + 1, idx_of(p, '/', a + 1) as int))
    }
}

/// The routing table, case-insensitive on path and method.
pub open spec fn route_of(path: Seq<char>, method: Seq<char>) -> Route {
    let lm = lower_of(method);
    match first_segment(lower_of(path)) {
        None => Route::NotFound,
        Some(seg) => {
            if seg.len() == 0 {
                if lm == "get"@ {
                    Route::Home
                } else {
                    Route::MethodNotAllowed
                }
            } else if seg == "favorites"@ {
                if lm == "get"@ {
                    Route::Favorites
                } else {
                    Route::MethodNotAllowed
                }
            } else if seg == "add-favorite"@ {
                if lm == "post"@ {
                    Route::AddFavorite
                } else {
                    Route::MethodNotAllowed
                }
            } else if seg == "remove-favorite"@ {
                if lm == "post"@ {
                    Route::RemoveFavorite
                } else {
                    Route::MethodNotAllowed
                }
            } else if seg == "images"@ {
                if lm == "get"@ {
                    Route::Images
                } else {
                    Route::MethodNotAllowed
                }
            } else {
                Route::NotFound
            }
        },
    }
}

/// Map a request's path and method onto the routing table.
pub fn resolve_route(path: &str, method: &str) -> (r: Route)
    ensures
        r == route_of(path@, method@),
{
    let lp = ascii_lower(path);
    let lm = ascii_lower(method);
    let n = lp.as_str().unicode_len();
    let a = find_char_from(lp.as_str(), '/', 0);
    if a >= n {
        return Route::NotFound;
    }
    let b = find_char_from(lp.as_str(), '/', a + 1);
    let seg = lp.as_str().substring_char(a + 1, b).to_owned();
    let m_get = String::from_str("get");
    let m_post = String::from_str("post");
    if seg.as_str().unicode_len() == 0 {
        if lm == m_get {
            Route::Home
        } else {
            Route::MethodNotAllowed
        }
    } else if seg == String::from_str("favorites") {
        if lm == m_get {
            Route::Favorites
        } else {
            Route::MethodNotAllowed
        }
    } else if seg == String::from_str("add-favorite") {
        if lm == m_post {
            Route::AddFavorite
        } else {
            Route::MethodNotAllowed
        }
    } else if seg == String::from_str("remove-favorite") {
        if lm == m_post {
            Route::RemoveFavorite
        } else {
            Route::MethodNotAllowed
        }
    } else if seg == String::from_str("images") {
        if lm == m_get {
            Route::Images
        } else {
            Route::MethodNotAllowed
        }
    } else {
        Route::NotFound
    }
}

/// The token the request's cookie header carries, if any.
pub open spec fn req_token(req: &RequestData) -> Option<Seq<char>> {
    match req.cookie_header {
        Some(h) => spec_user_id(h@),
        None => None,
    }
}

/// Where a mutation redirects: the referrer when one was sent, else the
/// request's own URL.
pub open spec fn redirect_target(req: &RequestData) -> Seq<char> {
    match req.referrer {
        Some(r) => r@,
        None => req.url@,
    }
}

/// Returns the referrer URL if there is one, otherwise the URL of the
/// request.
pub fn get_referrer_or_orig_url(req: &RequestData) -> (r: String)
    ensures
        r@ == redirect_target(req),
{
    match &req.referrer {
        Some(v) => v.clone(),
        None => req.url.clone(),
    }
}

/// The reason phrase of the statuses the error page can carry.
pub open spec fn reason_of(status: u16) -> Seq<char> {
    if status == 400 {
        "Bad Request"@
    } else if status == 404 {
        "Not Found"@
    } else if status == 405 {
        "Method Not Allowed"@
    } else if status == 500 {
        "Internal Server Error"@
    } else {
        "Unknown Error"@
    }
}

/// The default error-page message: the status and its reason phrase.
pub open spec fn status_line(status: u16) -> Seq<char> {
    dec_rep(status as u32) + seq![' '] + reason_of(status)
}

fn reason_str(status: u16) -> (r: &'static str)
    ensures
        r@ == reason_of(status),
{
    match status {
        400 => "Bad Request",
        404 => "Not Found",
        405 => "Method Not Allowed",
        500 => "Internal Server Error",
        _ => "Unknown Error",
    }
}

/// Build an error page: the given message, or the status's own line.
pub fn generate_error_response(status: u16, msg: Option<String>) -> (r: Outcome)
    ensures
        (r matches Outcome::ErrorPage { status: s, message } && s == status && message@ == (
        match msg {
            Some(m) => m@,
            None => status_line(status),
        })),
{
    proof {
        reveal_strlit(" ");
        assert(" "@ =~= seq![' ']);
    }
    let message = match msg {
        Some(m) => m,
        None => {
            let mut line = String::new();
            push_u32_dec(&mut line, status as u32);
            line.append(" ");
            line.append(reason_str(status));
            proof {
                assert(line@ =~= status_line(status));
            }
            line
        },
    };
    Outcome::ErrorPage { status, message }
}

/// What the home view promises: one row per catalog record, in catalog
/// order, flagged exactly where the id is on the request's list.
pub open spec fn home_ok(
    m: Map<Seq<char>, Seq<char>>,
    catalog: Seq<Goat>,
    req: &RequestData,
    r: Outcome,
) -> bool {
    let favs = current_list(m, req_token(req));
    match r {
        Outcome::HomePage { fav_count, rows } => {
            &&& fav_count == favs.len()
            &&& rows@.len() == catalog.len()
            &&& forall|i: int|
                0 <= i < catalog.len() ==> #[trigger] rows@[i]@ == row_of(
                    catalog[i]@,
                    favs.contains(catalog[i]@.id),
                )
        },
        _ => false,
    }
}

/// What the favorites view promises: exactly the favorited records, in
/// catalog order, every row flagged favorite.
pub open spec fn favorites_ok(
    m: Map<Seq<char>, Seq<char>>,
    catalog: Seq<Goat>,
    req: &RequestData,
    r: Outcome,
) -> bool {
    let favs = current_list(m, req_token(req));
    let kept = fav_filter(goats_view(catalog), favs);
    match r {
        Outcome::FavoritesPage { fav_count, has_favorites, rows } => {
            &&& fav_count == favs.len()
            &&& has_favorites == (favs.len() > 0)
            &&& rows@.len() == kept.len()
            &&& forall|i: int| 0 <= i < kept.len() ==> #[trigger] rows@[i]@ == row_of(kept[i], true)
        },
        _ => false,
    }
}

/// What a mutation route promises, for every way the request and the
/// token draw can go.
pub open spec fn mutation_ok(
    m0: Map<Seq<char>, Seq<char>>,
    m1: Map<Seq<char>, Seq<char>>,
    action: FavoritesAction,
    req: &RequestData,
    r: Outcome,
) -> bool {
    match req.form_id {
        None => (r matches Outcome::ErrorPage { status, message } && status == 400 && message@
            == "Missing id parameter"@) && m1 == m0,
        Some(s) => match spec_parse_u32(s@) {
            None => (r matches Outcome::ErrorPage { status, message } && status == 400 && message@
                == "Invalid id parameter"@) && m1 == m0,
            Some(item) => {
                let tok = req_token(req);
                let oldlist = current_list(m0, tok);
                let noop = match action {
                    FavoritesAction::Add => oldlist.contains(item),
                    FavoritesAction::Remove => !oldlist.contains(item),
                };
                let newlist = match action {
                    FavoritesAction::Add => seq![item] + oldlist,
                    FavoritesAction::Remove => remove_first(oldlist, item),
                };
                if noop {
                    (r matches Outcome::Redirect { location, set_cookie } && location@
                        == redirect_target(req) && set_cookie is None) && m1 == m0
                } else {
                    ||| (r matches Outcome::Redirect { location, set_cookie }
                        && location@ == redirect_target(req)
                        && (set_cookie matches Some(c) && exists|nt: Seq<char>|
                            c@ == #[trigger] cookie_text(nt) && nt.len() == 30
                                && (forall|i: int| 0 <= i < nt.len() ==> is_token_char(#[trigger] nt[i]))
                                && !m0.contains_key(nt) && (tok matches Some(t) ==> nt != t) && m1
                                =~= rotated(m0, tok, nt, newlist)))
                    ||| ((r matches Outcome::ErrorPage { status, message } && status == 500
                        && message@ == "Error updating favorites"@) && m1 == m0)
                }
            },
        },
    }
}

fn cookie_header_of(req: &RequestData) -> (r: Option<&str>)
    ensures
        match r {
            Some(h) => req.cookie_header matches Some(s) && h@ == s@,
            None => req.cookie_header is None,
        },
{
    match &req.cookie_header {
        Some(h) => Some(h.as_str()),
        None => None,
    }
}

/// Render the home view for a request.
pub fn render_home(store: &FavStore, catalog: &Vec<Goat>, req: &RequestData) -> (r: Outcome)
    requires
        store.wf(),
    ensures
        home_ok(store@, catalog@, req, r),
{
    let user = get_user_id(cookie_header_of(req));
    proof {
        assert(tok_of(&user) == req_token(req));
    }
    let favs = current_favorites(store, &user);
    let fav_count = favs.len();
    let rows = get_goat_list_items(clone_goats(catalog), &favs);
    Outcome::HomePage { fav_count, rows }
}

/// Render the favorites-only view for a request.
pub fn render_favorites(store: &FavStore, catalog: &Vec<Goat>, req: &RequestData) -> (r: Outcome)
    requires
        store.wf(),
    ensures
        favorites_ok(store@, catalog@, req, r),
{
    let user = get_user_id(cookie_header_of(req));
    proof {
        assert(tok_of(&user) == req_token(req));
    }
    let favs = current_favorites(store, &user);
    let fav_count = favs.len();
    let has_favorites = favs.len() > 0;
    let copied = clone_goats(catalog);
    proof {
        assert(goats_view(copied@) =~= goats_view(catalog@));
    }
    let kept = favorite_goats(copied, &favs);
    let rows = get_goat_list_items(kept, &favs);
    proof {
        lemma_fav_filter_members(goats_view(catalog@), favs@);
    }
    Outcome::FavoritesPage { fav_count, has_favorites, rows }
}

/// Handle a mutation route: parse the form id, mutate through the session
/// manager, and answer with a redirect (carrying the rotated cookie when
/// the list changed) or an error page.
pub fn handle_mutation(store: &mut FavStore, action: FavoritesAction, req: &RequestData) -> (r:
    Outcome)
    requires
        old(store).wf(),
    ensures
        final(store).wf(),
        mutation_ok(old(store)@, final(store)@, action, req, r),
{
    let id_str = match &req.form_id {
        None => {
            return generate_error_response(400, Some(String::from_str("Missing id parameter")));
        },
        Some(s) => s,
    };
    let item = match parse_goat_id(id_str.as_str()) {
        None => {
            return generate_error_response(400, Some(String::from_str("Invalid id parameter")));
        },
        Some(v) => v,
    };
    let user = get_user_id(cookie_header_of(req));
    proof {
        assert(tok_of(&user) == req_token(req));
    }
    let redirect_url = get_referrer_or_orig_url(req);
    match modify_favorites(store, &user, action, item) {
        MutationOutcome::Unchanged => Outcome::Redirect {
            location: redirect_url,
            set_cookie: None,
        },
        MutationOutcome::Rotated(nt) => {
            let ghost ntv = nt@;
            let set_cookie = user_id_cookie(nt);
            proof {
                assert(set_cookie@ == cookie_text(ntv));
            }
            Outcome::Redirect { location: redirect_url, set_cookie: Some(set_cookie) }
        },
        MutationOutcome::InternalError => generate_error_response(
            500,
            Some(String::from_str("Error updating favorites")),
        ),
    }
}

/// The image-proxy target: the fixed origin with the request path
/// appended verbatim.
pub open spec fn proxy_url_of(p: Seq<char>) -> Seq<char> {
    "https://storage.googleapis.com/best_goats"@ + p
}

/// The URL the image route proxies to.
pub fn proxy_image(path: &str) -> (r: String)
    ensures
        r@ == proxy_url_of(path@),
{
    let mut url = String::from_str("https://storage.googleapis.com/best_goats");
    url.append(path);
    url
}

/// Dispatch one request: route it, run the matching flow, and return its
/// structured response. Only the mutation routes touch the store.
pub fn handle_request(store: &mut FavStore, catalog: &Vec<Goat>, req: &RequestData) -> (r: Outcome)
    requires
        old(store).wf(),
    ensures
        final(store).wf(),
        match route_of(req.path@, req.method@) {
            Route::Home => home_ok(old(store)@, catalog@, req, r) && final(store)@ == old(store)@,
            Route::Favorites => favorites_ok(old(store)@, catalog@, req, r) && final(store)@ == old(
                store,
            )@,
            Route::AddFavorite => mutation_ok(
                old(store)@,
                final(store)@,
                FavoritesAction::Add,
                req,
                r,
            ),
            Route::RemoveFavorite => mutation_ok(
                old(store)@,
                final(store)@,
                FavoritesAction::Remove,
                req,
                r,
            ),
            Route::Images => (r matches Outcome::Proxy { url } && url@ == proxy_url_of(req.path@))
                && final(store)@ == old(store)@,
            Route::NotFound => (r matches Outcome::ErrorPage { status, message } && status == 404
                && message@ == status_line(404)) && final(store)@ == old(store)@,
            Route::MethodNotAllowed => (r matches Outcome::ErrorPage { status, message } && status
                == 405 && message@ == status_line(405)) && final(store)@ == old(store)@,
        },
{
    match resolve_route(req.path.as_str(), req.method.as_str()) {
        Route::Home => render_home(store, catalog, req),
        Route::Favorites => render_favorites(store, catalog, req),
        Route::AddFavorite => handle_mutation(store, FavoritesAction::Add, req),
        Route::RemoveFavorite => handle_mutation(store, FavoritesAction::Remove, req),
        Route::Images => Outcome::Proxy { url: proxy_image(req.path.as_str()) },
        Route::NotFound => generate_error_response(404, None),
        Route::MethodNotAllowed => generate_error_response(405, None),
    }
}

} // verus!
