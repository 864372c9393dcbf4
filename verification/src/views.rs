//! Catalog merge & view builder: joins the catalog with the current
//! favorites list into view-ready rows. The home view keeps every catalog
//! item in catalog order with its favorite flag; the favorites view keeps
//! exactly the favorited items, still in catalog order.

use vstd::prelude::*;
use crate::favorites::contains_id;
use crate::models::{Goat, GoatId, GoatListItem, GoatV, RowV};

verus! {

pub open spec fn goats_view(s: Seq<Goat>) -> Seq<GoatV> {
    s.map_values(|g: Goat| g@)
}

pub open spec fn rows_view(s: Seq<GoatListItem>) -> Seq<RowV> {
    s.map_values(|x: GoatListItem| x@)
}

/// The row a catalog record turns into.
pub open spec fn row_of(g: GoatV, fav: bool) -> RowV {
    RowV { id: g.id, name: g.name, image: g.image, image_small: g.image_small, is_favorite: fav }
}

/// The catalog records whose id is favorited, in catalog order.
pub open spec fn fav_filter(s: Seq<GoatV>, favs: Seq<u32>) -> Seq<GoatV> {
    s.filter(|g: GoatV| favs.contains(g.id))
}

fn clone_goat(g: &Goat) -> (r: Goat)
    ensures
        r@ == g@,
{
    Goat {
        id: g.id,
        name: g.name.clone(),
        image: g.image.clone(),
        image_small: g.image_small.clone(),
    }
}

/// A copy of the catalog, record for record.
pub fn clone_goats(gs: &Vec<Goat>) -> (r: Vec<Goat>)
    ensures
        r@.len() == gs@.len(),
        forall|i: int| 0 <= i < gs@.len() ==> #[trigger] r@[i]@ == gs@[i]@,
{
    let mut out: Vec<Goat> = Vec::new();
    let mut i: usize = 0;
    while i < gs.len()
        invariant
            0 <= i <= gs@.len(),
            out@.len() == i,
            forall|j: int| 0 <= j < i ==> #[trigger] out@[j]@ == gs@[j]@,
        decreases gs@.len() - i,
    {
        out.push(clone_goat(&gs[i]));
        i = i + 1;
    }
    out
}

/// Join every catalog record with its favorite flag, in catalog order.
pub fn get_goat_list_items(goats: Vec<Goat>, favorites: &Vec<GoatId>) -> (r: Vec<GoatListItem>)
    ensures
        r@.len() == goats@.len(),
        forall|i: int|
            0 <= i < goats@.len() ==> #[trigger] r@[i]@ == row_of(
                goats@[i]@,
                favorites@.contains(goats@[i]@.id),
            ),
{
    let mut out: Vec<GoatListItem> = Vec::new();
    let mut i: usize = 0;
    while i < goats.len()
        invariant
            0 <= i <= goats@.len(),
            out@.len() == i,
            forall|j: int|
                0 <= j < i ==> #[trigger] out@[j]@ == row_of(
                    goats@[j]@,
                    favorites@.contains(goats@[j]@.id),
                ),
        decreases goats@.len() - i,
    {
        let g = &goats[i];
        let is_favorite = contains_id(favorites, g.id);
        out.push(
            GoatListItem {
                id: g.id,
                name: g.name.clone(),
                image: g.image.clone(),
                image_small: g.image_small.clone(),
                is_favorite,
            },
        );
        i = i + 1;
    }
    out
}

/// Keep only the favorited records, preserving catalog order.
pub fn favorite_goats(goats: Vec<Goat>, favorites: &Vec<GoatId>) -> (r: Vec<Goat>)
    ensures
        goats_view(r@) == fav_filter(goats_view(goats@), favorites@),
{
    let mut out: Vec<Goat> = Vec::new();
    let mut i: usize = 0;
    while i < goats.len()
        invariant
            0 <= i <= goats@.len(),
            goats_view(out@) =~= fav_filter(goats_view(goats@.take(i as int)), favorites@),
        decreases goats@.len() - i,
    {
        let g = &goats[i];
        let keep = contains_id(favorites, g.id);
        let ghost pre = out@;
        if keep {
            out.push(clone_goat(g));
        }
        proof {
            let tv = goats_view(goats@.take(i + 1));
            assert(tv.drop_last() =~= goats_view(goats@.take(i as int)));
            assert(tv.last() == goats@[i as int]@);
            reveal(Seq::filter);
            if keep {
                assert(goats_view(out@) =~= goats_view(pre).push(goats@[i as int]@));
            }
            assert(goats_view(out@) =~= fav_filter(tv, favorites@));
        }
        i = i + 1;
    }
    proof {
        assert(goats@.take(goats@.len() as int) =~= goats@);
    }
    out
}

/// Every record the favorites filter keeps is indeed favorited.
pub proof fn lemma_fav_filter_members(s: Seq<GoatV>, favs: Seq<u32>)
    ensures
        forall|i: int|
            0 <= i < fav_filter(s, favs).len() ==> favs.contains(
                (#[trigger] fav_filter(s, favs)[i]).id,
            ),
    decreases s.len(),
{
    reveal(Seq::filter);
    if s.len() > 0 {
        lemma_fav_filter_members(s.drop_last(), favs);
        if favs.contains(s.last().id) {
            assert(fav_filter(s, favs) =~= fav_filter(s.drop_last(), favs).push(s.last()));
        } else {
            assert(fav_filter(s, favs) =~= fav_filter(s.drop_last(), favs));
        }
    }
}

} // verus!
