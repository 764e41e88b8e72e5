//! Data model for the external catalog: the full record a title lookup
//! yields, and the two derived readings the rest of the system needs,
//! a title's released flag and its display name.

use vstd::prelude::*;

verus! {

/// One genre tag of a title, with an optional localized name.
pub struct Genre {
    pub name: String,
    pub russian: Option<String>,
}

/// The poster image reference of a title.
pub struct ImageData {
    pub original: String,
}

/// Full catalog record for one title, as the external catalog reports it.
pub struct AnimeResponse {
    pub id: i32,
    pub name: String,
    pub russian: Option<String>,
    pub episodes: Option<i32>,
    pub episodes_aired: Option<i32>,
    pub status: String,
    pub description: Option<String>,
    pub score: Option<String>,
    pub genres: Option<Vec<Genre>>,
    pub image: ImageData,
}

/// The catalog status string that marks a finished title.
pub open spec fn released_status() -> Seq<char> {
    "released"@
}

impl AnimeResponse {
    /// Whether this title has finished airing, in spec terms.
    pub open spec fn spec_is_released(&self) -> bool {
        self.status@ == released_status()
    }

    pub fn is_released(&self) -> (r: bool)
        ensures
            r == self.spec_is_released(),
    {
        let released: String = "released".to_owned();
        self.status == released
    }

    /// The name shown to users: the localized name when present, else the
    /// primary name.
    pub open spec fn spec_display_name(&self) -> Seq<char> {
        match self.russian {
            Some(r) => r@,
            None => self.name@,
        }
    }

    pub fn display_name(&self) -> (r: String)
        ensures
            r@ == self.spec_display_name(),
    {
        match &self.russian {
            Some(r) => r.clone(),
            None => self.name.clone(),
        }
    }
}

} // verus!
