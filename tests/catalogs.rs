use nuzlocke_tracker::{
    compare_names, get_available_games, get_available_rulesets, get_game_version, get_ruleset,
    get_ruleset_names, GameCatalog, GameVersion, Ruleset, RulesetCatalog,
};
use std::cmp::Ordering;

fn games() -> GameCatalog {
    GameCatalog::from_entries(vec![
        ("Red".to_string(), GameVersion { generation: 1 }),
        ("Gold".to_string(), GameVersion { generation: 2 }),
    ])
}

fn ruleset(earliest_gen: u8, rules: &[&str]) -> Ruleset {
    Ruleset {
        earliest_gen,
        rules: rules.iter().map(|r| r.to_string()).collect(),
    }
}

fn rulesets() -> RulesetCatalog {
    RulesetCatalog::from_entries(vec![
        ("Nuzlocke".to_string(), ruleset(1, &["faint=release"])),
        ("Hardcore".to_string(), ruleset(2, &["no items"])),
    ])
}

#[test]
fn available_rulesets_by_generation() {
    let r = rulesets();
    assert_eq!(get_available_rulesets(&r, 1), vec!["Nuzlocke".to_string()]);
    assert_eq!(
        get_available_rulesets(&r, 2),
        vec!["Hardcore".to_string(), "Nuzlocke".to_string()]
    );
}

#[test]
fn available_rulesets_below_every_minimum_is_empty() {
    let r = rulesets();
    assert!(get_available_rulesets(&r, 0).is_empty());
}

#[test]
fn available_rulesets_grow_with_generation() {
    let r = RulesetCatalog::from_entries(vec![
        ("C".to_string(), ruleset(3, &[])),
        ("A".to_string(), ruleset(1, &[])),
        ("B".to_string(), ruleset(2, &[])),
    ]);
    let mut previous: Vec<String> = Vec::new();
    for g in 0..=4u8 {
        let now = get_available_rulesets(&r, g);
        for name in &previous {
            assert!(now.contains(name));
        }
        previous = now;
    }
    assert_eq!(previous, vec!["A".to_string(), "B".to_string(), "C".to_string()]);
}

#[test]
fn ruleset_keeps_rule_order() {
    let r = rulesets();
    let n = get_ruleset(&r, "Nuzlocke").unwrap();
    assert_eq!(n.earliest_gen, 1);
    assert_eq!(n.rules, vec!["faint=release".to_string()]);
    let long = RulesetCatalog::from_entries(vec![(
        "Long".to_string(),
        ruleset(1, &["third", "first", "second"]),
    )]);
    assert_eq!(
        get_ruleset(&long, "Long").unwrap().rules,
        vec!["third".to_string(), "first".to_string(), "second".to_string()]
    );
}

#[test]
fn unknown_names_are_absent() {
    assert_eq!(get_game_version(&games(), "nonexistent"), None);
    assert_eq!(get_ruleset(&rulesets(), "nonexistent"), None);
    assert_eq!(get_game_version(&games(), "red"), None);
}

#[test]
fn game_lookup() {
    assert_eq!(
        get_game_version(&games(), "Gold"),
        Some(GameVersion { generation: 2 })
    );
    assert_eq!(
        get_game_version(&games(), "Red"),
        Some(GameVersion { generation: 1 })
    );
}

#[test]
fn game_names_sorted() {
    assert_eq!(
        get_available_games(&games()),
        vec!["Gold".to_string(), "Red".to_string()]
    );
}

#[test]
fn ruleset_names_sorted() {
    assert_eq!(
        get_ruleset_names(&rulesets()),
        vec!["Hardcore".to_string(), "Nuzlocke".to_string()]
    );
}

#[test]
fn names_sorted_without_duplicates() {
    let g = GameCatalog::from_entries(vec![
        ("b".to_string(), GameVersion { generation: 1 }),
        ("Yellow".to_string(), GameVersion { generation: 1 }),
        ("a".to_string(), GameVersion { generation: 2 }),
        ("Yellow".to_string(), GameVersion { generation: 3 }),
        ("Émeraude".to_string(), GameVersion { generation: 3 }),
        ("".to_string(), GameVersion { generation: 4 }),
        ("ab".to_string(), GameVersion { generation: 4 }),
    ]);
    let names = get_available_games(&g);
    let mut expected = names.clone();
    expected.sort();
    expected.dedup();
    assert_eq!(names, expected);
    assert_eq!(
        names,
        vec![
            "".to_string(),
            "Yellow".to_string(),
            "a".to_string(),
            "ab".to_string(),
            "b".to_string(),
            "Émeraude".to_string(),
        ]
    );
}

#[test]
fn duplicate_name_last_wins() {
    let g = GameCatalog::from_entries(vec![
        ("Yellow".to_string(), GameVersion { generation: 1 }),
        ("Yellow".to_string(), GameVersion { generation: 3 }),
    ]);
    assert_eq!(get_available_games(&g), vec!["Yellow".to_string()]);
    assert_eq!(
        get_game_version(&g, "Yellow"),
        Some(GameVersion { generation: 3 })
    );
}

#[test]
fn empty_catalogs() {
    let g = GameCatalog::new();
    assert!(get_available_games(&g).is_empty());
    assert_eq!(get_game_version(&g, "Red"), None);
    let r = RulesetCatalog::from_entries(Vec::new());
    assert!(get_available_rulesets(&r, 255).is_empty());
    assert!(get_ruleset_names(&r).is_empty());
}

#[test]
fn catalog_len_and_entries() {
    let r = rulesets();
    assert_eq!(r.len(), 2);
    let (name, set) = r.entry(0);
    assert_eq!(name, "Hardcore");
    assert_eq!(set.earliest_gen, 2);
}

#[test]
fn name_order_is_byte_order() {
    assert_eq!(compare_names("Gold", "Red"), Ordering::Less);
    assert_eq!(compare_names("Red", "Gold"), Ordering::Greater);
    assert_eq!(compare_names("Red", "Red"), Ordering::Equal);
    assert_eq!(compare_names("Re", "Red"), Ordering::Less);
    assert_eq!(compare_names("Zz", "a"), Ordering::Less);
    assert_eq!(compare_names("é", "z"), Ordering::Greater);
    assert_eq!(compare_names("", ""), Ordering::Equal);
}
