//! Game versions, ruleset variants and the compatibility filter between them.
//!
//! Both catalogs are loaded once and never change afterwards; every lookup
//! here is a pure function of a catalog value.

pub mod catalog;
pub mod game;
pub mod names;
pub mod pages;
pub mod rules;

pub use catalog::Catalog;
pub use game::{get_available_games, get_game_version, GameCatalog, GameVersion};
pub use names::compare_names;
pub use pages::{
    index_page, ruleset_details_page, ruleset_selector_page, IndexTemplate, RulesetDetailsTemplate,
    RulesetSelectorTemplate, SelectionError,
};
pub use rules::{get_available_rulesets, get_ruleset, get_ruleset_names, Ruleset, RulesetCatalog};
