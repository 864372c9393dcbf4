//! The session resolver: pulls the session token out of a request's
//! `cookie` header under the fixed cookie name, and builds the `Set-Cookie`
//! value that hands a rotated token back to the browser.

use vstd::prelude::*;
use vstd::string::StrSliceExecFns;
use vstd::string::StringExecFns;
use crate::scan::{find_char_from, idx_of, lemma_idx_of};

verus! {

/// Whether a character may appear in a session token.
pub open spec fn is_token_char(c: char) -> bool {
    (48 <= (c as u32) && (c as u32) <= 57) || (65 <= (c as u32) && (c as u32) <= 90) || (97 <= (
    c as u32) && (c as u32) <= 122)
}

/// The characters `str::trim` strips: Unicode `White_Space`.
pub open spec fn is_ws_char(c: char) -> bool {
    let u = c as u32;
    (9 <= u && u <= 13) || u == 0x20 || u == 0x85 || u == 0xA0 || u == 0x1680 || (0x2000 <= u && u
        <= 0x200A) || u == 0x2028 || u == 0x2029 || u == 0x202F || u == 0x205F || u == 0x3000
}

pub open spec fn trim_front(s: Seq<char>) -> Seq<char>
    decreases s.len(),
{
    if s.len() > 0 && is_ws_char(s[0]) {
        trim_front(s.drop_first())
    } else {
        s
    }
}

pub open spec fn trim_end(s: Seq<char>) -> Seq<char>
    decreases s.len(),
{
    if s.len() > 0 && is_ws_char(s.last()) {
        trim_end(s.drop_last())
    } else {
        s
    }
}

/// What `str::trim` leaves of `s`.
pub open spec fn trim_of(s: Seq<char>) -> Seq<char> {
    trim_end(trim_front(s))
}

/// How one `;`-free cookie fragment parses: split at the first `=`, trim
/// name and value; no `=` anywhere or an empty trimmed name is malformed.
pub open spec fn cookie_pair(s: Seq<char>) -> Option<(Seq<char>, Seq<char>)> {
    let e = idx_of(s, '=', 0);
    if e >= s.len() {
        None
    } else {
        let name = trim_of(s.subrange(0, e as int));
        let value = trim_of(s.subrange(e as int + 1, s.len() as int));
        if name.len() == 0 {
            None
        } else {
            Some((name, value))
        }
    }
}

/// Relies on `cookie::Cookie::parse`: on a fragment with no `;` it splits
/// at the first `=` and trims name and value around it; a fragment with no
/// `=` or with an empty trimmed name is an error.
#[verifier::external_body]
fn parse_cookie_fragment(s: &str) -> (r: Option<(String, String)>)
    requires
        forall|i: int| 0 <= i < s@.len() ==> s@[i] != ';',
    ensures
        match r {
            Some(nv) => cookie_pair(s@) == Some((nv.0@, nv.1@)),
            None => cookie_pair(s@) is None,
        },
{
    match cookie::Cookie::parse(s) {
        Ok(c) => Some((c.name().to_string(), c.value().to_string())),
        Err(_) => None,
    }
}

/// The token the header names under `user_id`: the value of the first
/// well-formed fragment whose name matches; malformed fragments are
/// skipped, not fatal.
pub open spec fn spec_user_id(h: Seq<char>) -> Option<Seq<char>>
    decreases h.len(),
{
    let j = idx_of(h, ';', 0);
    if j < h.len() {
        match cookie_pair(h.subrange(0, j as int)) {
            Some(nv) => if nv.0 == "user_id"@ {
                Some(nv.1)
            } else {
                spec_user_id(h.subrange(j as int + 1, h.len() as int))
            },
            None => spec_user_id(h.subrange(j as int + 1, h.len() as int)),
        }
    } else {
        match cookie_pair(h) {
            Some(nv) => if nv.0 == "user_id"@ {
                Some(nv.1)
            } else {
                None
            },
            None => None,
        }
    }
}

fn resolve_user_id(h: &str) -> (r: Option<String>)
    ensures
        match r {
            Some(v) => spec_user_id(h@) == Some(v@),
            None => spec_user_id(h@) is None,
        },
    decreases h@.len(),
{
    let needle = String::from_str("user_id");
    let n = h.unicode_len();
    let j = find_char_from(h, ';', 0);
    if j < n {
        let frag = h.substring_char(0, j);
        let hit = match parse_cookie_fragment(frag) {
            Some(nv) => if nv.0 == needle {
                Some(nv.1)
            } else {
                None
            },
            None => None,
        };
        match hit {
            Some(v) => Some(v),
            None => resolve_user_id(h.substring_char(j + 1, n)),
        }
    } else {
        match parse_cookie_fragment(h) {
            Some(nv) => if nv.0 == needle {
                Some(nv.1)
            } else {
                None
            },
            None => None,
        }
    }
}

/// Extract the session token from a request's cookie header, if one is
/// there.
pub fn get_user_id(cookie_header: Option<&str>) -> (r: Option<String>)
    ensures
        match cookie_header {
            None => r is None,
            Some(h) => match r {
                Some(v) => spec_user_id(h@) == Some(v@),
                None => spec_user_id(h@) is None,
            },
        },
{
    match cookie_header {
        None => None,
        Some(h) => resolve_user_id(h),
    }
}

/// The `Set-Cookie` value carrying a session token: HTTP-only, secure,
/// with a 7300-day (twenty-year) expiry.
pub open spec fn cookie_text(token: Seq<char>) -> Seq<char> {
    "user_id="@ + token + "; HttpOnly; Secure; Max-Age=630720000"@
}

/// Relies on cookie's builder and `Display`: a cookie named `user_id`
/// built with `http_only(true)`, `secure(true)` and a 7300-day max age
/// renders exactly as `user_id=<token>; HttpOnly; Secure; Max-Age=630720000`.
#[verifier::external_body]
pub fn user_id_cookie(new_user_id: String) -> (r: String)
    ensures
        r@ == cookie_text(new_user_id@),
{
    cookie::Cookie::build(("user_id", new_user_id))
        .http_only(true)
        .secure(true)
        .max_age(cookie::time::Duration::days(7300))
        .build()
        .to_string()
}

proof fn lemma_trim_noop(s: Seq<char>)
    requires
        s.len() == 0 || (!is_ws_char(s[0]) && !is_ws_char(s[s.len() - 1])),
    ensures
        trim_of(s) == s,
{
    assert(trim_front(s) == s);
    assert(trim_end(s) == s);
}

/// Law: a cookie header that carries exactly one cookie, `user_id` with an
/// alphanumeric token, resolves back to that token.
pub proof fn lemma_cookie_header_round_trip(tok: Seq<char>)
    requires
        forall|i: int| 0 <= i < tok.len() ==> is_token_char(#[trigger] tok[i]),
    ensures
        spec_user_id("user_id="@ + tok) == Some(tok),
{
    reveal_strlit("user_id=");
    reveal_strlit("user_id");
    let h = "user_id="@ + tok;
    assert(forall|i: int| 0 <= i < tok.len() ==> tok[i] != ';' && tok[i] != '=');
    assert(forall|i: int| 0 <= i < h.len() ==> h[i] != ';');
    lemma_idx_of(h, ';', 0);
    assert(idx_of(h, ';', 0) == h.len());
    lemma_idx_of(h, '=', 0);
    assert(h[7] == '=');
    assert(forall|j: int| 0 <= j < 7 ==> h[j] != '=');
    assert(idx_of(h, '=', 0) == 7);
    let name_part = h.subrange(0, 7);
    let value_part = h.subrange(8, h.len() as int);
    assert(name_part =~= "user_id"@);
    assert(value_part =~= tok);
    lemma_trim_noop("user_id"@);
    lemma_trim_noop(tok);
    assert(cookie_pair(h) == Some(("user_id"@, tok)));
}

} // verus!
