use linear_solver::Cache;
use linear_solver::Inference;
use linear_solver::apply_inference;
use linear_solver::append_with_cache;
use linear_solver::remove_occurrences;
use linear_solver::replace_first_unique;
use linear_solver::solve_minimum;

use self::Step::{Down, Left, Right, Up};

#[derive(Clone, PartialEq, Eq, Debug, Hash)]
pub enum Step {
    Left,
    Right,
    Up,
    Down,
}

fn walk_infer(cache: &Cache<Step>, _facts: &[Step]) -> Option<Inference<Step>> {
    // Put simplification rules first to find simplest set of facts.
    if cache.contains(&Left) && cache.contains(&Right) {
        return Some(Inference::ManyTrue { from: vec![Left, Right] });
    }
    if cache.contains(&Up) && cache.contains(&Down) {
        return Some(Inference::ManyTrue { from: vec![Up, Down] });
    }
    None
}

#[test]
fn it_works() {
}

#[test]
fn walk_cancellation() {
    let start = vec![Left, Left, Up, Left, Right, Down, Down, Right];
    let res = solve_minimum(start, walk_infer);
    // Three Lefts pair with two Rights, one Up pairs with one of two
    // Downs: one Left and one Down stay unpaired.
    assert_eq!(res.len(), 2);
    assert_eq!(res.iter().filter(|s| **s == Left).count(), 1);
    assert_eq!(res.iter().filter(|s| **s == Down).count(), 1);
}

#[test]
fn walk_deterministic_across_runs() {
    let start = vec![Left, Left, Up, Left, Right, Down, Down, Right];
    let first = solve_minimum(start.clone(), walk_infer);
    let second = solve_minimum(start, walk_infer);
    assert_eq!(first, second);
}

#[test]
fn no_op_rules_return_input_unchanged() {
    fn no_rules(_cache: &Cache<Step>, _facts: &[Step]) -> Option<Inference<Step>> {
        None
    }
    let start = vec![Down, Up, Down, Left];
    let res = solve_minimum(start.clone(), no_rules);
    assert_eq!(res, start);
}

#[test]
fn empty_input() {
    fn no_rules(_cache: &Cache<Step>, _facts: &[Step]) -> Option<Inference<Step>> {
        None
    }
    let res = solve_minimum(Vec::new(), no_rules);
    assert_eq!(res, Vec::<Step>::new());
}

#[test]
fn cycle_minimum_of_oscillation() {
    // Adding and consuming one fact in turn repeats the one-fact state:
    // the engine detects the cycle and reports its smallest multiset.
    fn osc_infer(cache: &Cache<Step>, _facts: &[Step]) -> Option<Inference<Step>> {
        if cache.contains(&Down) {
            Some(Inference::OneTrue { from: Down })
        } else {
            Some(Inference::Propagate(Down))
        }
    }
    let res = solve_minimum(vec![Up], osc_infer);
    assert_eq!(res, vec![Up]);
}

#[test]
fn consume_one_of_absent_fact_is_no_change() {
    fn absent_infer(cache: &Cache<Step>, _facts: &[Step]) -> Option<Inference<Step>> {
        assert!(cache.contains(&Up));
        assert!(!cache.contains(&Down));
        Some(Inference::OneTrue { from: Down })
    }
    let res = solve_minimum(vec![Up], absent_infer);
    assert_eq!(res, vec![Up]);
}

#[test]
fn replace_one_by_itself_is_no_change() {
    fn self_infer(cache: &Cache<Step>, _facts: &[Step]) -> Option<Inference<Step>> {
        assert!(cache.contains(&Up));
        Some(Inference::SimplifyOne { from: Up, to: Up })
    }
    let res = solve_minimum(vec![Up], self_infer);
    assert_eq!(res, vec![Up]);
}

#[test]
fn replace_many_with_duplicate_adds_one_copy() {
    fn dup_infer(cache: &Cache<Step>, facts: &[Step]) -> Option<Inference<Step>> {
        assert!(cache.contains(&Up));
        if facts.len() < 2 {
            Some(Inference::SimplifyMany { from: vec![Up], to: vec![Up, Up] })
        } else {
            None
        }
    }
    let res = solve_minimum(vec![Up], dup_infer);
    assert_eq!(res, vec![Up, Up]);
}

#[test]
fn replace_one_checked_routes_through_cache() {
    let present = vec![Up];
    let cache = Cache::from_facts(&present);
    let hit = Inference::replace_one(Down, Up, &cache);
    assert!(matches!(hit, Inference::OneTrue { from: Down }));
    let miss = Inference::replace_one(Down, Left, &cache);
    assert!(matches!(miss, Inference::SimplifyOne { from: Down, to: Left }));
}

#[test]
fn replace_checked_routes_through_cache() {
    let present = vec![Up];
    let cache = Cache::from_facts(&present);
    let hit = Inference::replace(vec![Down, Left], Up, &cache);
    match hit {
        Inference::ManyTrue { from } => assert_eq!(from, vec![Down, Left]),
        _ => panic!("expected ManyTrue"),
    }
    let miss = Inference::replace(vec![Down], Left, &cache);
    match miss {
        Inference::Simplify { from, to } => {
            assert_eq!(from, vec![Down]);
            assert_eq!(to, Left);
        },
        _ => panic!("expected Simplify"),
    }
}

#[test]
fn replace_many_checked_drops_cached_facts() {
    let present = vec![Up];
    let cache = Cache::from_facts(&present);
    let r = Inference::replace_many(vec![Down], vec![Down, Up, Left], &cache);
    match r {
        Inference::SimplifyMany { from, to } => {
            assert_eq!(from, vec![Down]);
            // Walking from the tail, the cached Up is swap-removed and
            // the tail element Left falls into its place.
            assert_eq!(to, vec![Down, Left]);
        },
        _ => panic!("expected SimplifyMany"),
    }
}

#[test]
fn replace_many_checked_swaps_tail_into_hole() {
    let present = vec![Down];
    let cache = Cache::from_facts(&present);
    let r = Inference::replace_many(Vec::new(), vec![Down, Left, Up], &cache);
    match r {
        Inference::SimplifyMany { from, to } => {
            assert_eq!(from, Vec::<Step>::new());
            // Removing the cached Down at the front swaps Up into its
            // place, so the survivors come out reordered.
            assert_eq!(to, vec![Up, Left]);
        },
        _ => panic!("expected SimplifyMany"),
    }
}

#[test]
fn apply_consume_absent_leaves_state_alone() {
    let mut facts = vec![Up];
    let mut cache = Cache::from_facts(&facts);
    apply_inference(&mut facts, &mut cache, Inference::OneTrue { from: Down });
    assert_eq!(facts, vec![Up]);
    assert!(cache.contains(&Up));
    assert!(!cache.contains(&Down));
}

#[test]
fn apply_consume_keeps_presence_while_copies_remain() {
    let mut facts = vec![Up, Down, Up];
    let mut cache = Cache::from_facts(&facts);
    remove_occurrences(&mut facts, &mut cache, &vec![Up]);
    // The first Up is swap-removed: the tail Up falls into its place.
    assert_eq!(facts, vec![Up, Down]);
    assert!(cache.contains(&Up));
    remove_occurrences(&mut facts, &mut cache, &vec![Up]);
    assert_eq!(facts, vec![Down]);
    assert!(!cache.contains(&Up));
}

#[test]
fn apply_replace_keeps_position_stable() {
    let mut facts = vec![Up, Down];
    let mut cache = Cache::from_facts(&facts);
    replace_first_unique(&mut facts, &mut cache, &Up, Left);
    assert_eq!(facts, vec![Left, Down]);
    assert!(!cache.contains(&Up));
    assert!(cache.contains(&Left));
}

#[test]
fn apply_replace_of_absent_fact_is_no_change() {
    // An in-place replacement naming a fact with no occurrence is a
    // silent no-op: the multiset and the presence set both stay as they
    // were, so the presence set never gains a fact the multiset lacks.
    let mut facts = vec![Up];
    let mut cache = Cache::from_facts(&facts);
    apply_inference(&mut facts, &mut cache, Inference::SimplifyOne { from: Down, to: Left });
    assert_eq!(facts, vec![Up]);
    assert!(cache.contains(&Up));
    assert!(!cache.contains(&Left));
    assert!(!cache.contains(&Down));
}

#[test]
fn apply_append_records_presence() {
    let mut facts = vec![Up];
    let mut cache = Cache::from_facts(&facts);
    append_with_cache(&mut facts, &mut cache, Down);
    assert_eq!(facts, vec![Up, Down]);
    assert!(cache.contains(&Down));
    append_with_cache(&mut facts, &mut cache, Down);
    assert_eq!(facts, vec![Up, Down, Down]);
    assert!(cache.contains(&Down));
}

#[test]
fn presence_tracks_multiset_at_boundaries() {
    // At every call the presence set answers exactly "is at least one
    // occurrence present?", for facts present and absent alike.
    fn checked_walk(cache: &Cache<Step>, facts: &[Step]) -> Option<Inference<Step>> {
        for step in [Left, Right, Up, Down] {
            assert_eq!(cache.contains(&step), facts.contains(&step));
        }
        walk_infer(cache, facts)
    }
    let start = vec![Left, Left, Up, Left, Right, Down, Down, Right];
    let res = solve_minimum(start, checked_walk);
    assert_eq!(res.len(), 2);
}

#[test]
fn solve_runs_recursively_inside_inference() {
    // A rule may call the solver again while the outer run is live; the
    // outer multiset and presence set are untouched by the inner run.
    fn outer_infer(cache: &Cache<Step>, facts: &[Step]) -> Option<Inference<Step>> {
        if cache.contains(&Up) {
            let inner = solve_minimum(vec![Left, Right, Left], walk_infer);
            assert_eq!(inner, vec![Left]);
            assert!(cache.contains(&Up));
            assert_eq!(facts.len(), 1);
            return Some(Inference::SimplifyOne { from: Up, to: Down });
        }
        None
    }
    let res = solve_minimum(vec![Up], outer_infer);
    assert_eq!(res, vec![Down]);
}
