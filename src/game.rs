//! Game versions and the lookups on the game catalog.

use crate::catalog::Catalog;
use crate::names::lists;
use vstd::prelude::*;

verus! {

/// What the catalog knows of one game: the generation it belongs to.
#[derive(Clone, Copy, Debug, PartialEq, Eq, Structural)]
pub struct GameVersion {
    pub generation: u8,
}

impl View for GameVersion {
    type V = GameVersion;

    open spec fn view(&self) -> GameVersion {
        *self
    }
}

/// Game names mapped to their versions.
pub type GameCatalog = Catalog<GameVersion>;

/// The names of all known games, each once, in ascending order.
pub fn get_available_games(catalog: &GameCatalog) -> (r: Vec<String>)
    ensures
        lists(r.deep_view(), catalog@.dom()),
        r.deep_view().no_duplicates(),
{
    catalog.names()
}

/// The version of the game called `name`, or `None` where no game has that
/// name.
pub fn get_game_version(catalog: &GameCatalog, name: &str) -> (r: Option<GameVersion>)
    ensures
        r == (if catalog@.contains_key(name@) {
            Some(catalog@[name@])
        } else {
            None
        }),
{
    match catalog.get(name) {
        Some(v) => Some(*v),
        None => None,
    }
}

} // verus!
