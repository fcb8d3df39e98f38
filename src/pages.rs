//! What each of the three pages shows, and when a selection is refused.
//! Rendering the pages as HTML is left to the caller.

use crate::game::{get_available_games, get_game_version, GameCatalog};
use crate::names::lists;
use crate::rules::{compatible, get_available_rulesets, get_ruleset, Ruleset, RulesetCatalog};
use vstd::prelude::*;

verus! {

/// The start page: every game, to pick one from.
pub struct IndexTemplate {
    pub games: Vec<String>,
}

/// The second page: the chosen game and the rulesets it can use.
pub struct RulesetSelectorTemplate {
    pub game: String,
    pub rulesets: Vec<String>,
}

/// The last page: the chosen game and ruleset, with the ruleset's rules.
pub struct RulesetDetailsTemplate {
    pub game: String,
    pub ruleset_name: String,
    pub ruleset: Ruleset,
}

/// A selection that names no known game or ruleset.
#[derive(Clone, Copy, Debug, PartialEq, Eq, Structural)]
pub enum SelectionError {
    InvalidGame,
    InvalidRuleset,
}

impl SelectionError {
    /// The text shown to the client for this error.
    pub fn message(&self) -> (r: &'static str)
        ensures
            *self == SelectionError::InvalidGame ==> r@ == "Invalid game selection"@,
            *self == SelectionError::InvalidRuleset ==> r@ == "Invalid ruleset selection"@,
    {
        match self {
            SelectionError::InvalidGame => "Invalid game selection",
            SelectionError::InvalidRuleset => "Invalid ruleset selection",
        }
    }
}

/// The start page, listing every game in ascending order.
pub fn index_page(games: &GameCatalog) -> (t: IndexTemplate)
    ensures
        lists(t.games.deep_view(), games@.dom()),
{
    IndexTemplate { games: get_available_games(games) }
}

/// The page that offers the rulesets usable with the game called `game`;
/// `InvalidGame` where no game has that name.
pub fn ruleset_selector_page(games: &GameCatalog, rulesets: &RulesetCatalog, game: &str) -> (r:
    Result<RulesetSelectorTemplate, SelectionError>)
    ensures
        r is Err <==> !games@.contains_key(game@),
        r matches Err(e) ==> e == SelectionError::InvalidGame,
        r matches Ok(t) ==> t.game@ == game@ && lists(
            t.rulesets.deep_view(),
            compatible(rulesets@, games@[game@].generation),
        ),
{
    match get_game_version(games, game) {
        Some(version) => Ok(
            RulesetSelectorTemplate {
                game: game.to_owned(),
                rulesets: get_available_rulesets(rulesets, version.generation),
            },
        ),
        None => Err(SelectionError::InvalidGame),
    }
}

/// The page that shows the ruleset called `ruleset_name` for `game`;
/// `InvalidRuleset` where no ruleset has that name.
pub fn ruleset_details_page(rulesets: &RulesetCatalog, game: &str, ruleset_name: &str) -> (r:
    Result<RulesetDetailsTemplate, SelectionError>)
    ensures
        r is Err <==> !rulesets@.contains_key(ruleset_name@),
        r matches Err(e) ==> e == SelectionError::InvalidRuleset,
        r matches Ok(t) ==> t.game@ == game@ && t.ruleset_name@ == ruleset_name@ && t.ruleset@
            == rulesets@[ruleset_name@],
{
    match get_ruleset(rulesets, ruleset_name) {
        Some(ruleset) => Ok(
            RulesetDetailsTemplate {
                game: game.to_owned(),
                ruleset_name: ruleset_name.to_owned(),
                ruleset,
            },
        ),
        None => Err(SelectionError::InvalidRuleset),
    }
}

} // verus!
