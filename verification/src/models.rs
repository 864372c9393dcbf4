//! Catalog data: item records as the catalog store serves them, and the
//! view rows the pages render.

use vstd::prelude::*;

verus! {

/// Stable identifier of a catalog entry.
pub type GoatId = u32;

/// One catalog record, as read from the catalog store.
#[derive(Debug)]
pub struct Goat {
    pub id: GoatId,
    pub name: String,
    pub image: String,
    pub image_small: String,
}

/// One view-ready row: a catalog record joined with the favorites list.
#[derive(Debug)]
pub struct GoatListItem {
    pub id: GoatId,
    pub name: String,
    pub image: String,
    pub image_small: String,
    pub is_favorite: bool,
}

/// The mathematical value of a catalog record.
pub ghost struct GoatV {
    pub id: GoatId,
    pub name: Seq<char>,
    pub image: Seq<char>,
    pub image_small: Seq<char>,
}

/// The mathematical value of a view row.
pub ghost struct RowV {
    pub id: GoatId,
    pub name: Seq<char>,
    pub image: Seq<char>,
    pub image_small: Seq<char>,
    pub is_favorite: bool,
}

impl View for Goat {
    type V = GoatV;

    open spec fn view(&self) -> GoatV {
        GoatV { id: self.id, name: self.name@, image: self.image@, image_small: self.image_small@ }
    }
}

impl View for GoatListItem {
    type V = RowV;

    open spec fn view(&self) -> RowV {
        RowV {
            id: self.id,
            name: self.name@,
            image: self.image@,
            image_small: self.image_small@,
            is_favorite: self.is_favorite,
        }
    }
}

} // verus!
