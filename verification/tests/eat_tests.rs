use boids::{key_less, plan_eat, remove_eaten, Food, FoodSighting};

fn sight(kind: Food, touching: bool, dist2: Option<u32>) -> FoodSighting {
    FoodSighting { kind, touching, dist2 }
}

#[test]
fn key_less_orders_present_keys() {
    assert!(key_less(Some(1), Some(2)));
    assert!(!key_less(Some(2), Some(2)));
    assert!(!key_less(Some(3), Some(2)));
}

#[test]
fn key_less_missing_key_never_compares() {
    assert!(!key_less(None, Some(2)));
    assert!(!key_less(Some(2), None));
    assert!(!key_less(None, None));
}

#[test]
fn plan_eats_every_touched_piece_in_order() {
    let v = vec![
        sight(Food::Apple, true, Some(0)),
        sight(Food::Poison, false, Some(9)),
        sight(Food::Poison, true, Some(0)),
        sight(Food::Apple, true, Some(0)),
    ];
    let plan = plan_eat(&v, Some(100), Some(100));
    assert_eq!(plan.eaten, vec![0, 2, 3]);
    assert_eq!(plan.nearest_apple, None);
    assert_eq!(plan.nearest_poison, Some(1));
}

#[test]
fn plan_picks_nearest_apple_within_reach() {
    let v = vec![
        sight(Food::Apple, false, Some(50)),
        sight(Food::Apple, false, Some(20)),
        sight(Food::Apple, false, Some(5)),
        sight(Food::Apple, false, Some(30)),
    ];
    let plan = plan_eat(&v, Some(100), Some(100));
    assert_eq!(plan.nearest_apple, Some(2));
    assert!(plan.eaten.is_empty());
}

#[test]
fn plan_ignores_apples_out_of_reach() {
    let v = vec![sight(Food::Apple, false, Some(100)), sight(Food::Apple, false, Some(150))];
    let plan = plan_eat(&v, Some(100), Some(1000));
    assert_eq!(plan.nearest_apple, None);
}

#[test]
fn plan_tie_keeps_first() {
    let v = vec![
        sight(Food::Poison, false, Some(7)),
        sight(Food::Poison, false, Some(7)),
    ];
    let plan = plan_eat(&v, Some(100), Some(100));
    assert_eq!(plan.nearest_poison, Some(0));
}

#[test]
fn plan_poison_uses_its_own_reach() {
    let v = vec![
        sight(Food::Poison, false, Some(40)),
        sight(Food::Apple, false, Some(40)),
    ];
    let plan = plan_eat(&v, Some(50), Some(30));
    assert_eq!(plan.nearest_apple, Some(1));
    assert_eq!(plan.nearest_poison, None);
    let plan = plan_eat(&v, Some(30), Some(50));
    assert_eq!(plan.nearest_apple, None);
    assert_eq!(plan.nearest_poison, Some(0));
}

#[test]
fn plan_never_targets_touched_piece() {
    let v = vec![sight(Food::Apple, true, Some(1)), sight(Food::Apple, false, Some(9))];
    let plan = plan_eat(&v, Some(100), Some(100));
    assert_eq!(plan.eaten, vec![0]);
    assert_eq!(plan.nearest_apple, Some(1));
}

#[test]
fn plan_missing_distance_is_never_chosen() {
    let v = vec![sight(Food::Apple, false, None), sight(Food::Apple, false, Some(9))];
    let plan = plan_eat(&v, Some(100), Some(100));
    assert_eq!(plan.nearest_apple, Some(1));
    let plan = plan_eat(&v, None, None);
    assert_eq!(plan.nearest_apple, None);
}

#[test]
fn plan_on_empty_world() {
    let plan = plan_eat(&Vec::new(), Some(100), Some(100));
    assert!(plan.eaten.is_empty());
    assert_eq!(plan.nearest_apple, None);
    assert_eq!(plan.nearest_poison, None);
}

#[test]
fn single_bite_swaps_last_into_place() {
    let mut items = vec!['a', 'b', 'c', 'd'];
    remove_eaten(&mut items, &vec![1]);
    assert_eq!(items, vec!['a', 'd', 'c']);
}

#[test]
fn bite_of_last_piece_just_drops_it() {
    let mut items = vec!['a', 'b', 'c'];
    remove_eaten(&mut items, &vec![2]);
    assert_eq!(items, vec!['a', 'b']);
}

#[test]
fn several_bites_remove_exactly_the_eaten_pieces() {
    // swap_remove(1) gives [a, d, c], then swap_remove(0) gives [c, d]
    let mut items = vec!['a', 'b', 'c', 'd'];
    remove_eaten(&mut items, &vec![0, 1]);
    assert_eq!(items, vec!['c', 'd']);
}

#[test]
fn bites_at_the_tail() {
    let mut items = vec!['a', 'b', 'c', 'd'];
    remove_eaten(&mut items, &vec![2, 3]);
    assert_eq!(items, vec!['a', 'b']);
}

#[test]
fn meal_shrinks_list_by_bite_count() {
    let mut items: Vec<u32> = (0..10).collect();
    remove_eaten(&mut items, &vec![1, 4, 5, 9]);
    assert_eq!(items.len(), 6);
    assert_eq!(items, vec![0, 6, 2, 3, 7, 8]);
}

#[test]
fn no_bite_leaves_list_alone() {
    let mut items = vec![1, 2, 3];
    remove_eaten(&mut items, &Vec::new());
    assert_eq!(items, vec![1, 2, 3]);
}

#[test]
fn plan_then_remove() {
    let v = vec![
        sight(Food::Apple, false, Some(3)),
        sight(Food::Poison, true, Some(0)),
        sight(Food::Apple, false, Some(2)),
    ];
    let plan = plan_eat(&v, Some(10), Some(10));
    let mut food = vec![Food::Apple, Food::Poison, Food::Apple];
    remove_eaten(&mut food, &plan.eaten);
    assert_eq!(food, vec![Food::Apple, Food::Apple]);
    assert_eq!(plan.nearest_apple, Some(2));
}

#[test]
fn touching_both_apples_leaves_only_the_far_poison() {
    let v = vec![
        sight(Food::Apple, true, Some(0)),
        sight(Food::Apple, true, Some(1)),
        sight(Food::Poison, false, Some(1_000_000)),
    ];
    let plan = plan_eat(&v, Some(10_000), Some(10_000));
    assert_eq!(plan.eaten, vec![0, 1]);
    assert_eq!(plan.nearest_poison, None);
    let mut food = vec![(Food::Apple, 0), (Food::Apple, 1), (Food::Poison, 2)];
    remove_eaten(&mut food, &plan.eaten);
    assert_eq!(food, vec![(Food::Poison, 2)]);
}

#[test]
fn eating_everything_empties_the_list() {
    let mut items = vec![7, 8, 9];
    remove_eaten(&mut items, &vec![0, 1, 2]);
    assert!(items.is_empty());
}

#[test]
fn several_bites_keep_every_uneaten_piece() {
    let mut items: Vec<u32> = (0..8).collect();
    remove_eaten(&mut items, &vec![0, 2, 5]);
    let mut sorted = items.clone();
    sorted.sort();
    assert_eq!(sorted, vec![1, 3, 4, 6, 7]);
}
