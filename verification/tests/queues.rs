use unit_selection::action::{Action, ActionBatcher, MoveOrder, Path};
use unit_selection::geometry::Vector3;
use unit_selection::selection::{contains_id, SelectedUnits};

fn route(x: i32) -> Path {
    Path { waypoints: vec![Vector3 { x, y: 0, z: 0 }, Vector3 { x, y: 9, z: 0 }] }
}

fn queue(batcher: &ActionBatcher, id: u32) -> Vec<Action> {
    let mut out = Vec::new();
    for (entity, action) in batcher.log.iter() {
        if *entity == id {
            out.push(action.clone());
        }
    }
    out
}

#[test]
fn selection_insert_keeps_each_id_once() {
    let mut s = SelectedUnits::new();
    assert!(!s.contains(3));
    s.insert(3);
    s.insert(5);
    s.insert(3);
    assert_eq!(s.ids, vec![3, 5]);
    assert!(s.contains(3));
    assert!(s.contains(5));
    assert!(!s.contains(4));
}

#[test]
fn selection_clear_empties() {
    let mut s = SelectedUnits::new();
    s.insert(1);
    s.insert(2);
    s.clear();
    assert!(s.ids.is_empty());
    assert!(!s.contains(1));
}

#[test]
fn contains_id_finds_first_and_last() {
    let ids = vec![7, 8, 9];
    assert!(contains_id(&ids, 7));
    assert!(contains_id(&ids, 9));
    assert!(!contains_id(&ids, 10));
    assert!(!contains_id(&vec![], 7));
}

#[test]
fn duplicate_copies_every_waypoint() {
    let p = route(4);
    assert_eq!(p.duplicate(), p);
    let none = Path { waypoints: vec![] };
    assert_eq!(none.duplicate(), none);
}

#[test]
fn queue_for_entity_appends_in_order() {
    let mut b = ActionBatcher::new();
    b.queue_for_entity(1, Action::ClearQueue);
    b.queue_for_entity(2, Action::MoveToPosition(route(2)));
    b.queue_for_entity(1, Action::MoveToPosition(route(1)));
    assert_eq!(queue(&b, 1), vec![Action::ClearQueue, Action::MoveToPosition(route(1))]);
    assert_eq!(queue(&b, 2), vec![Action::MoveToPosition(route(2))]);
    assert_eq!(b.log.len(), 3);
}

#[test]
fn move_without_append_clears_first() {
    let mut b = ActionBatcher::new();
    b.queue_move(1, route(1), false);
    assert_eq!(b.log, vec![(1, Action::ClearQueue), (1, Action::MoveToPosition(route(1)))]);
}

#[test]
fn move_with_append_only_adds_the_route() {
    let mut b = ActionBatcher::new();
    b.queue_move(1, route(1), false);
    b.queue_move(1, route(5), true);
    assert_eq!(
        queue(&b, 1),
        vec![
            Action::ClearQueue,
            Action::MoveToPosition(route(1)),
            Action::MoveToPosition(route(5)),
        ]
    );
}

#[test]
fn two_movers_each_get_clear_then_move() {
    let mut b = ActionBatcher::new();
    let orders = vec![
        MoveOrder { entity_id: 10, path: route(10) },
        MoveOrder { entity_id: 20, path: route(20) },
    ];
    b.queue_moves(&orders, false);
    assert_eq!(queue(&b, 10), vec![Action::ClearQueue, Action::MoveToPosition(route(10))]);
    assert_eq!(queue(&b, 20), vec![Action::ClearQueue, Action::MoveToPosition(route(20))]);
    assert_eq!(queue(&b, 30), vec![]);
}

#[test]
fn two_movers_appending_keep_what_was_queued() {
    let mut b = ActionBatcher::new();
    b.queue_for_entity(10, Action::MoveToPosition(route(1)));
    b.queue_for_entity(20, Action::ClearQueue);
    let orders = vec![
        MoveOrder { entity_id: 10, path: route(10) },
        MoveOrder { entity_id: 20, path: route(20) },
    ];
    b.queue_moves(&orders, true);
    assert_eq!(
        queue(&b, 10),
        vec![Action::MoveToPosition(route(1)), Action::MoveToPosition(route(10))]
    );
    assert_eq!(queue(&b, 20), vec![Action::ClearQueue, Action::MoveToPosition(route(20))]);
}

#[test]
fn unreachable_route_is_queued_as_it_is() {
    let mut b = ActionBatcher::new();
    let orders = vec![MoveOrder { entity_id: 10, path: Path { waypoints: vec![] } }];
    b.queue_moves(&orders, false);
    assert_eq!(
        b.log,
        vec![
            (10, Action::ClearQueue),
            (10, Action::MoveToPosition(Path { waypoints: vec![] })),
        ]
    );
}

#[test]
fn no_orders_queue_nothing() {
    let mut b = ActionBatcher::new();
    b.queue_moves(&vec![], false);
    assert!(b.log.is_empty());
}
