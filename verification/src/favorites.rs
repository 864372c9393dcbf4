//! The favorites session manager: the one component that reads and mutates
//! a favorites list, enforcing rotate-on-write. A mutation that changes the
//! list writes the new list under a brand-new token and only then retires
//! the old token's record; a mutation that would change nothing leaves the
//! store and the token untouched.

use vstd::prelude::*;
use crate::auth::is_token_char;
use crate::codec::{json_of, lemma_parse_round_trip, parse_favorites};
use crate::models::GoatId;
use crate::store::FavStore;
use rand::distr::SampleString;

verus! {

/// Which mutation a request asks for.
pub enum FavoritesAction {
    Add,
    Remove,
}

/// What a mutation did: nothing, a rotation to a fresh token, or a failure
/// that left everything as it was.
pub enum MutationOutcome {
    Unchanged,
    Rotated(String),
    InternalError,
}

/// The token text a request carries, if any.
pub open spec fn tok_of(token: &Option<String>) -> Option<Seq<char>> {
    match token {
        Some(t) => Some(t@),
        None => None,
    }
}

/// The list a store state associates with a token: empty when the token is
/// absent or has no record, else the list whose encoding is the record.
pub open spec fn current_list(m: Map<Seq<char>, Seq<char>>, tok: Option<Seq<char>>) -> Seq<u32> {
    match tok {
        Some(t) => if m.contains_key(t) {
            choose|l: Seq<u32>| l.no_duplicates() && m[t] == json_of(l)
        } else {
            Seq::<u32>::empty()
        },
        None => Seq::<u32>::empty(),
    }
}

/// `l` with the first occurrence of `x` taken out, the rest in order.
pub open spec fn remove_first(l: Seq<u32>, x: u32) -> Seq<u32>
    decreases l.len(),
{
    if l.len() == 0 {
        l
    } else if l[0] == x {
        l.drop_first()
    } else {
        seq![l[0]] + remove_first(l.drop_first(), x)
    }
}

/// The store state after a rotation: the new list written under the fresh
/// token, then the old token's record (if any) retired.
pub open spec fn rotated(
    m: Map<Seq<char>, Seq<char>>,
    tok: Option<Seq<char>>,
    fresh: Seq<char>,
    newlist: Seq<u32>,
) -> Map<Seq<char>, Seq<char>> {
    match tok {
        Some(t) => m.insert(fresh, json_of(newlist)).remove(t),
        None => m.insert(fresh, json_of(newlist)),
    }
}

proof fn lemma_remove_first_at(l: Seq<u32>, x: u32, i: int)
    requires
        0 <= i < l.len(),
        l[i] == x,
        forall|j: int| 0 <= j < i ==> l[j] != x,
    ensures
        remove_first(l, x) == l.subrange(0, i) + l.subrange(i + 1, l.len() as int),
    decreases i,
{
    if i == 0 {
        assert(l.drop_first() =~= l.subrange(0, 0) + l.subrange(1, l.len() as int));
    } else {
        lemma_remove_first_at(l.drop_first(), x, i - 1);
        assert(l.drop_first().subrange(0, i - 1) =~= l.subrange(1, i));
        assert(l.drop_first().subrange(i, l.drop_first().len() as int) =~= l.subrange(
            i + 1,
            l.len() as int,
        ));
        assert(seq![l[0]] + (l.subrange(1, i) + l.subrange(i + 1, l.len() as int)) =~= l.subrange(
            0,
            i,
        ) + l.subrange(i + 1, l.len() as int));
    }
}

/// Read the favorites list for a token: empty when no cookie or no record.
pub fn current_favorites(store: &FavStore, token: &Option<String>) -> (r: Vec<GoatId>)
    requires
        store.wf(),
    ensures
        r@ == current_list(store@, tok_of(token)),
        r@.no_duplicates(),
{
    match token {
        None => Vec::new(),
        Some(t) => {
            match store.get(t) {
                None => Vec::new(),
                Some(v) => {
                    let parsed = parse_favorites(v.as_str());
                    proof {
                        let l0 = choose|l: Seq<u32>|
                            l.no_duplicates() && store@[t@] == json_of(l);
                        lemma_parse_round_trip(l0);
                        let lc = current_list(store@, tok_of(token));
                        crate::codec::lemma_json_of_injective(lc, l0);
                    }
                    match parsed {
                        Some(l) => l,
                        None => {
                            proof {
                                assert(false);
                            }
                            Vec::new()
                        },
                    }
                },
            }
        },
    }
}

pub(crate) fn contains_id(l: &Vec<GoatId>, x: GoatId) -> (r: bool)
    ensures
        r == l@.contains(x),
{
    find_first(l, x).is_some()
}

fn find_first(l: &Vec<GoatId>, x: GoatId) -> (r: Option<usize>)
    ensures
        match r {
            Some(i) => i < l@.len() && l@[i as int] == x && forall|j: int| 0 <= j < i ==> l@[j]
                != x,
            None => !l@.contains(x),
        },
{
    let mut i: usize = 0;
    while i < l.len()
        invariant
            0 <= i <= l@.len(),
            forall|j: int| 0 <= j < i ==> l@[j] != x,
        decreases l@.len() - i,
    {
        if l[i] == x {
            return Some(i);
        }
        i = i + 1;
    }
    proof {
        assert(!l@.contains(x)) by {
            assert(forall|j: int| 0 <= j < l@.len() ==> l@[j] != x);
        }
    }
    None
}

/// Apply a mutation, rotating onto the caller-supplied fresh token.
///
/// Idempotent cases (adding a present item, removing an absent one) change
/// nothing and rotate nothing; otherwise the new list is written under
/// `fresh` and the old token's record is retired afterwards.
pub fn modify_favorites_with_token(
    store: &mut FavStore,
    token: &Option<String>,
    action: FavoritesAction,
    item: GoatId,
    fresh: String,
) -> (r: MutationOutcome)
    requires
        old(store).wf(),
        !old(store)@.contains_key(fresh@),
        match token {
            Some(t) => fresh@ != t@,
            None => true,
        },
    ensures
        final(store).wf(),
        ({
            let oldlist = current_list(old(store)@, tok_of(token));
            match action {
                FavoritesAction::Add => {
                    if oldlist.contains(item) {
                        r == MutationOutcome::Unchanged && final(store)@ == old(store)@
                    } else {
                        (r matches MutationOutcome::Rotated(nt) && nt@ == fresh@)
                            && final(store)@ =~= rotated(old(store)@, tok_of(token), fresh@, seq![item] + oldlist)
                    }
                },
                FavoritesAction::Remove => {
                    if !oldlist.contains(item) {
                        r == MutationOutcome::Unchanged && final(store)@ == old(store)@
                    } else {
                        (r matches MutationOutcome::Rotated(nt) && nt@ == fresh@)
                            && final(store)@ =~= rotated(old(store)@, tok_of(token), fresh@, remove_first(oldlist, item))
                    }
                },
            }
        }),
{
    let favs = current_favorites(store, token);
    let mut newlist: Vec<GoatId> = favs;
    match action {
        FavoritesAction::Add => {
            if contains_id(&newlist, item) {
                return MutationOutcome::Unchanged;
            }
            newlist.insert(0, item);
            proof {
                assert(newlist@ =~= seq![item] + current_list(old(store)@, tok_of(token)));
                assert(newlist@.no_duplicates()) by {
                    let oldlist = current_list(old(store)@, tok_of(token));
                    assert(forall|j: int|
                        1 <= j < newlist@.len() ==> #[trigger] newlist@[j] == oldlist[j - 1]);
                    assert(forall|j: int| 0 <= j < oldlist.len() ==> oldlist[j] != item) by {
                        assert(forall|j: int|
                            0 <= j < oldlist.len() ==> oldlist.contains(#[trigger] oldlist[j]));
                    }
                }
            }
        },
        FavoritesAction::Remove => {
            let pos = find_first(&newlist, item);
            let i: usize = match pos {
                None => {
                    proof {
                        assert(!newlist@.contains(item));
                    }
                    return MutationOutcome::Unchanged;
                },
                Some(p) => p,
            };
            proof {
                lemma_remove_first_at(newlist@, item, i as int);
            }
            let ghost pre = newlist@;
            newlist.remove(i);
            proof {
                assert(newlist@ =~= pre.subrange(0, i as int) + pre.subrange(
                    i + 1,
                    pre.len() as int,
                ));
                assert(newlist@.no_duplicates()) by {
                    assert(forall|a: int|
                        0 <= a < newlist@.len() ==> #[trigger] newlist@[a] == if a < i {
                            pre[a]
                        } else {
                            pre[a + 1]
                        });
                }
            }
        },
    }
    let newtok = fresh.clone();
    store.put_list(newtok, &newlist);
    match token {
        Some(t) => {
            store.delete(t);
        },
        None => {},
    }
    MutationOutcome::Rotated(fresh)
}

/// Relies on rand's `Alphanumeric` distribution and `SampleString`: the
/// sample is exactly `len` ASCII alphanumeric characters. Nothing further
/// is assumed of a random value.
#[verifier::external_body]
fn random_str(len: usize) -> (r: String)
    ensures
        r@.len() == len,
        forall|i: int| 0 <= i < r@.len() ==> is_token_char(#[trigger] r@[i]),
{
    rand::distr::Alphanumeric.sample_string(&mut rand::rng(), len)
}

/// Apply a mutation, generating the fresh token internally.
///
/// The token is random: if the draw collides with the current token or an
/// existing record, the mutation reports `InternalError` and the store and
/// token are left exactly as they were — never a partial write.
pub fn modify_favorites(
    store: &mut FavStore,
    token: &Option<String>,
    action: FavoritesAction,
    item: GoatId,
) -> (r: MutationOutcome)
    requires
        old(store).wf(),
    ensures
        final(store).wf(),
        ({
            let oldlist = current_list(old(store)@, tok_of(token));
            let noop = match action {
                FavoritesAction::Add => oldlist.contains(item),
                FavoritesAction::Remove => !oldlist.contains(item),
            };
            if noop {
                r == MutationOutcome::Unchanged && final(store)@ == old(store)@
            } else {
                ||| (r matches MutationOutcome::Rotated(nt) && nt@.len() == 30
                    && (forall|i: int| 0 <= i < nt@.len() ==> is_token_char(#[trigger] nt@[i]))
                    && !old(store)@.contains_key(nt@) && (tok_of(token) matches Some(t) ==> nt@
                    != t) && final(store)@ =~= rotated(
                    old(store)@,
                    tok_of(token),
                    nt@,
                    match action {
                        FavoritesAction::Add => seq![item] + oldlist,
                        FavoritesAction::Remove => remove_first(oldlist, item),
                    },
                ))
                ||| (r == MutationOutcome::InternalError && final(store)@ == old(store)@)
            }
        }),
{
    let favs = current_favorites(store, token);
    let present = contains_id(&favs, item);
    let noop = match action {
        FavoritesAction::Add => present,
        FavoritesAction::Remove => !present,
    };
    if noop {
        return MutationOutcome::Unchanged;
    }
    let fresh = random_str(30);
    match token {
        Some(t) => {
            if fresh == *t {
                return MutationOutcome::InternalError;
            }
        },
        None => {},
    }
    if store.contains(&fresh) {
        return MutationOutcome::InternalError;
    }
    modify_favorites_with_token(store, token, action, item, fresh)
}

proof fn lemma_remove_first_dupfree(l: Seq<u32>, x: u32)
    requires
        l.no_duplicates(),
    ensures
        remove_first(l, x).no_duplicates(),
        forall|y: u32| remove_first(l, x).contains(y) ==> l.contains(y),
    decreases l.len(),
{
    if l.len() == 0 {
    } else if l[0] == x {
        assert(forall|y: u32| l.drop_first().contains(y) ==> l.contains(y)) by {
            assert(forall|j: int|
                0 <= j < l.drop_first().len() ==> l.drop_first()[j] == l[j + 1]);
        }
    } else {
        lemma_remove_first_dupfree(l.drop_first(), x);
        let rest = remove_first(l.drop_first(), x);
        assert(forall|j: int| 0 <= j < l.drop_first().len() ==> l.drop_first()[j] == l[j + 1]);
        assert(forall|y: u32| rest.contains(y) ==> l.drop_first().contains(y));
        assert(!l.drop_first().contains(l[0]));
        assert(remove_first(l, x) == seq![l[0]] + rest);
        assert(remove_first(l, x).no_duplicates()) by {
            assert(forall|j: int|
                1 <= j < remove_first(l, x).len() ==> remove_first(l, x)[j] == rest[j - 1]
                    && rest.contains(rest[j - 1]));
        }
        assert forall|y: u32| remove_first(l, x).contains(y) implies l.contains(y) by {
            let j = choose|j: int|
                0 <= j < remove_first(l, x).len() && remove_first(l, x)[j] == y;
            if j == 0 {
                assert(l[0] == y);
            } else {
                assert(rest[j - 1] == y);
                assert(rest.contains(y));
                assert(l.drop_first().contains(y));
                let k = choose|k: int|
                    0 <= k < l.drop_first().len() && l.drop_first()[k] == y;
                assert(l[k + 1] == y);
            }
        }
    }
}

proof fn lemma_read_back(
    m1: Map<Seq<char>, Seq<char>>,
    fresh: Seq<char>,
    newl: Seq<u32>,
)
    requires
        m1.contains_key(fresh),
        m1[fresh] == json_of(newl),
        newl.no_duplicates(),
    ensures
        current_list(m1, Some(fresh)) == newl,
{
    assert(exists|l: Seq<u32>| l.no_duplicates() && m1[fresh] == json_of(l)) by {
        assert(newl.no_duplicates() && m1[fresh] == json_of(newl));
    }
    let lc = choose|l: Seq<u32>| l.no_duplicates() && m1[fresh] == json_of(l);
    crate::codec::lemma_json_of_injective(lc, newl);
}

/// Law: adding an item that is not on the list, then reading with the
/// fresh token, yields the old list with the item prepended; the old
/// token's record is gone.
pub proof fn lemma_add_then_current(
    m0: Map<Seq<char>, Seq<char>>,
    tok: Option<Seq<char>>,
    fresh: Seq<char>,
    item: u32,
)
    requires
        current_list(m0, tok).no_duplicates(),
        !current_list(m0, tok).contains(item),
        tok matches Some(t) ==> fresh != t,
    ensures
        current_list(rotated(m0, tok, fresh, seq![item] + current_list(m0, tok)), Some(fresh))
            == seq![item] + current_list(m0, tok),
        tok matches Some(t) ==> !rotated(
            m0,
            tok,
            fresh,
            seq![item] + current_list(m0, tok),
        ).contains_key(t),
{
    let oldl = current_list(m0, tok);
    let newl = seq![item] + oldl;
    let m1 = rotated(m0, tok, fresh, newl);
    assert(newl.no_duplicates()) by {
        assert(forall|j: int| 1 <= j < newl.len() ==> newl[j] == oldl[j - 1]);
        assert(forall|j: int| 0 <= j < oldl.len() ==> oldl[j] != item) by {
            assert(forall|j: int| 0 <= j < oldl.len() ==> oldl.contains(#[trigger] oldl[j]));
        }
    }
    lemma_read_back(m1, fresh, newl);
}

/// Law: removing an item that is on the list, then reading with the fresh
/// token, yields the old list with that item taken out, order preserved;
/// the old token's record is gone.
pub proof fn lemma_remove_then_current(
    m0: Map<Seq<char>, Seq<char>>,
    tok: Option<Seq<char>>,
    fresh: Seq<char>,
    item: u32,
)
    requires
        current_list(m0, tok).no_duplicates(),
        tok matches Some(t) ==> fresh != t,
    ensures
        current_list(rotated(m0, tok, fresh, remove_first(current_list(m0, tok), item)), Some(
            fresh,
        )) == remove_first(current_list(m0, tok), item),
        tok matches Some(t) ==> !rotated(
            m0,
            tok,
            fresh,
            remove_first(current_list(m0, tok), item),
        ).contains_key(t),
{
    let oldl = current_list(m0, tok);
    let newl = remove_first(oldl, item);
    lemma_remove_first_dupfree(oldl, item);
    lemma_read_back(rotated(m0, tok, fresh, newl), fresh, newl);
}

} // verus!
