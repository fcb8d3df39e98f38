use nuzlocke_tracker::{
    index_page, ruleset_details_page, ruleset_selector_page, GameCatalog, GameVersion, Ruleset,
    RulesetCatalog, SelectionError,
};

fn games() -> GameCatalog {
    GameCatalog::from_entries(vec![
        ("Red".to_string(), GameVersion { generation: 1 }),
        ("Gold".to_string(), GameVersion { generation: 2 }),
    ])
}

fn rulesets() -> RulesetCatalog {
    RulesetCatalog::from_entries(vec![
        (
            "Nuzlocke".to_string(),
            Ruleset {
                earliest_gen: 1,
                rules: vec!["faint=release".to_string()],
            },
        ),
        (
            "Hardcore".to_string(),
            Ruleset {
                earliest_gen: 2,
                rules: vec!["no items".to_string()],
            },
        ),
    ])
}

#[test]
fn index_lists_games() {
    let page = index_page(&games());
    assert_eq!(page.games, vec!["Gold".to_string(), "Red".to_string()]);
}

#[test]
fn selector_for_known_game() {
    let page = ruleset_selector_page(&games(), &rulesets(), "Red").unwrap();
    assert_eq!(page.game, "Red");
    assert_eq!(page.rulesets, vec!["Nuzlocke".to_string()]);
    let page = ruleset_selector_page(&games(), &rulesets(), "Gold").unwrap();
    assert_eq!(page.game, "Gold");
    assert_eq!(
        page.rulesets,
        vec!["Hardcore".to_string(), "Nuzlocke".to_string()]
    );
}

#[test]
fn selector_for_unknown_game() {
    let err = ruleset_selector_page(&games(), &rulesets(), "Blue").err().unwrap();
    assert_eq!(err, SelectionError::InvalidGame);
    assert_eq!(err.message(), "Invalid game selection");
}

#[test]
fn details_for_known_ruleset() {
    let page = ruleset_details_page(&rulesets(), "Gold", "Hardcore").unwrap();
    assert_eq!(page.game, "Gold");
    assert_eq!(page.ruleset_name, "Hardcore");
    assert_eq!(page.ruleset.earliest_gen, 2);
    assert_eq!(page.ruleset.rules, vec!["no items".to_string()]);
}

#[test]
fn details_for_unknown_ruleset() {
    let err = ruleset_details_page(&rulesets(), "Gold", "Wonderlocke").err().unwrap();
    assert_eq!(err, SelectionError::InvalidRuleset);
    assert_eq!(err.message(), "Invalid ruleset selection");
}
