//! Rulesets and the compatibility filter between rulesets and generations.

use crate::catalog::Catalog;
use crate::names::{lists, name_lt, strictly_sorted};
use vstd::prelude::*;

verus! {

/// A ruleset variant: the earliest generation it can be played with, and
/// its rules in the order they are shown.
#[derive(Clone, Debug, PartialEq, Eq)]
pub struct Ruleset {
    pub earliest_gen: u8,
    pub rules: Vec<String>,
}

/// The model of a ruleset.
pub struct RulesetView {
    pub earliest_gen: u8,
    pub rules: Seq<Seq<char>>,
}

impl View for Ruleset {
    type V = RulesetView;

    open spec fn view(&self) -> RulesetView {
        RulesetView { earliest_gen: self.earliest_gen, rules: self.rules.deep_view() }
    }
}

/// Ruleset names mapped to their rulesets.
pub type RulesetCatalog = Catalog<Ruleset>;

/// The names of the rulesets of `m` that games of `generation` can use.
pub open spec fn compatible(m: Map<Seq<char>, RulesetView>, generation: u8) -> Set<Seq<char>> {
    Set::new(|n: Seq<char>| m.contains_key(n) && m[n].earliest_gen <= generation)
}

/// The names of the rulesets that games of `game_generation` can use, each
/// once, in ascending order: those whose earliest generation is at most
/// `game_generation`.
pub fn get_available_rulesets(catalog: &RulesetCatalog, game_generation: u8) -> (r: Vec<String>)
    ensures
        lists(r.deep_view(), compatible(catalog@, game_generation)),
        forall|n: Seq<char>|
            #[trigger] catalog@.contains_key(n) ==> (r.deep_view().contains(n) <==> catalog@[n].earliest_gen
                <= game_generation),
{
    let count = catalog.len();
    let ghost keys = catalog.key_seq();
    let mut r: Vec<String> = Vec::new();
    let mut i: usize = 0;
    while i < count
        invariant
            count == keys.len(),
            keys == catalog.key_seq(),
            lists(keys, catalog@.dom()),
            i <= count,
            strictly_sorted(r.deep_view()),
            forall|k: int, j: int|
                0 <= k < r.deep_view().len() && i <= j < count ==> name_lt(
                    #[trigger] r.deep_view()[k],
                    #[trigger] keys[j],
                ),
            forall|n: Seq<char>|
                r.deep_view().contains(n) <==> (keys.take(i as int).contains(n)
                    && catalog@[n].earliest_gen <= game_generation),
        decreases count - i,
    {
        let (name, ruleset) = catalog.entry(i);
        let ghost before = r.deep_view();
        assert(keys.take(i as int + 1) =~= keys.take(i as int).push(keys[i as int]));
        if ruleset.earliest_gen <= game_generation {
            r.push(name.clone());
            assert(r.deep_view() =~= before.push(name@));
            assert forall|k: int, j: int| 0 <= k < r.deep_view().len() && i + 1 <= j < count implies name_lt(
                #[trigger] r.deep_view()[k],
                #[trigger] keys[j],
            ) by {
                if k == before.len() {
                    assert(name_lt(keys[i as int], keys[j]));
                } else {
                    assert(name_lt(before[k], keys[j]));
                }
            }
            assert forall|n: Seq<char>|
                r.deep_view().contains(n) <==> (keys.take(i as int + 1).contains(n)
                    && catalog@[n].earliest_gen <= game_generation) by {
                if n == name@ {
                    assert(r.deep_view()[before.len() as int] == n);
                    assert(keys.take(i as int + 1)[i as int] == n);
                }
                if before.contains(n) {
                    let k = choose|k: int| 0 <= k < before.len() && before[k] == n;
                    assert(r.deep_view()[k] == n);
                }
                if r.deep_view().contains(n) && n != name@ {
                    let k = choose|k: int| 0 <= k < r.deep_view().len() && r.deep_view()[k] == n;
                    assert(before[k] == n);
                }
            }
            assert forall|a: int, b: int| 0 <= a < b < r.deep_view().len() implies name_lt(
                #[trigger] r.deep_view()[a],
                #[trigger] r.deep_view()[b],
            ) by {
                if b == before.len() {
                    assert(name_lt(before[a], keys[i as int]));
                } else {
                    assert(name_lt(before[a], before[b]));
                }
            }
        } else {
            assert forall|n: Seq<char>|
                r.deep_view().contains(n) <==> (keys.take(i as int + 1).contains(n)
                    && catalog@[n].earliest_gen <= game_generation) by {
                if n == keys[i as int] && keys.take(i as int).contains(n) {
                    let k = choose|k: int| 0 <= k < i && keys.take(i as int)[k] == n;
                    assert(name_lt(keys[k], keys[i as int]));
                }
            }
        }
        i = i + 1;
    }
    assert(keys.take(count as int) =~= keys);
    assert forall|n: Seq<char>|
        #[trigger] r.deep_view().contains(n) <==> compatible(catalog@, game_generation).contains(n) by {
        if keys.contains(n) {
            assert(catalog@.dom().contains(n));
        }
        if catalog@.contains_key(n) {
            assert(catalog@.dom().contains(n));
        }
    }
    r
}

/// The ruleset called `name`, or `None` where no ruleset has that name.
pub fn get_ruleset(catalog: &RulesetCatalog, name: &str) -> (r: Option<Ruleset>)
    ensures
        r is None <==> !catalog@.contains_key(name@),
        r matches Some(x) ==> x@ == catalog@[name@],
{
    match catalog.get(name) {
        Some(v) => Some(copy_ruleset(v)),
        None => None,
    }
}

/// The names of all known rulesets, each once, in ascending order.
pub fn get_ruleset_names(catalog: &RulesetCatalog) -> (r: Vec<String>)
    ensures
        lists(r.deep_view(), catalog@.dom()),
        r.deep_view().no_duplicates(),
{
    catalog.names()
}

/// A later generation can use every ruleset that an earlier one can.
pub proof fn lemma_available_monotonic(catalog: RulesetCatalog, g1: u8, g2: u8)
    requires
        g1 < g2,
    ensures
        compatible(catalog@, g1).subset_of(compatible(catalog@, g2)),
{
}

fn copy_ruleset(r: &Ruleset) -> (c: Ruleset)
    ensures
        c@ == r@,
{
    let mut rules: Vec<String> = Vec::new();
    let mut i: usize = 0;
    while i < r.rules.len()
        invariant
            i <= r.rules.len(),
            rules@.len() == i,
            forall|k: int| 0 <= k < i ==> (#[trigger] rules@[k])@ == r.rules@[k]@,
        decreases r.rules.len() - i,
    {
        rules.push(r.rules[i].clone());
        i = i + 1;
    }
    assert(rules.deep_view() =~= r.rules.deep_view());
    Ruleset { earliest_gen: r.earliest_gen, rules }
}

} // verus!
