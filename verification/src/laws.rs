//! What holds of the system as a whole, proved from the definitions that the
//! functions' contracts use.

use vstd::prelude::*;
use crate::action::{order_of, orders_for, queue_of, Action, ActionView, MoveOrder};
use crate::dat::compatible;
use crate::geometry::{MouseRay, Vector3};
use crate::system::{selection_after_click, UnitSelectionSystem};
use crate::world::{distinct_entities, MoveRequest, Unit};

verus! {

/// A unit without attack classes is no attacker, selected or not, so the
/// cursor is never over a targetable entity on its account.
pub proof fn lemma_unarmed_is_no_attacker(system: UnitSelectionSystem, unit: Unit, selected: Set<u32>)
    requires
        system.info(unit).attack_classes() =~= Set::<i16>::empty(),
    ensures
        !system.attacker(unit, selected),
{
}

/// Where every selected unit lacks attack classes, the cursor is over no
/// targetable entity, whatever lies under it.
pub proof fn lemma_unarmed_selection_targets_nothing(
    system: UnitSelectionSystem,
    units: Seq<Unit>,
    selected: Set<u32>,
    local_player: u8,
    cell: Set<u32>,
    ray: MouseRay,
)
    requires
        forall|i: int|
            0 <= i < units.len() && selected.contains((#[trigger] units[i]).entity_id)
                ==> system.info(units[i]).attack_classes() =~= Set::<i16>::empty(),
    ensures
        !system.targetable(units, selected, local_player, cell, ray),
{
}

/// An attack matches an armor exactly when the armor has no class or the two
/// have a class in common.
pub proof fn lemma_compatible_iff_shared_class(attack: Set<i16>, armor: Set<i16>)
    ensures
        compatible(attack, armor) <==> (armor =~= Set::<i16>::empty() || !(attack.intersect(armor)
            =~= Set::<i16>::empty())),
{
    if exists|c: i16| attack.contains(c) && armor.contains(c) {
        let c = choose|c: i16| attack.contains(c) && armor.contains(c);
        assert(attack.intersect(armor).contains(c));
    }
    if !(attack.intersect(armor) =~= Set::<i16>::empty()) {
        let c = choose|c: i16| attack.intersect(armor).contains(c);
        assert(attack.contains(c) && armor.contains(c));
    }
}

/// A target is always of an armor that its attacker's attacks match.
pub proof fn lemma_targets_are_compatible(
    system: UnitSelectionSystem,
    attacker: Unit,
    target: Unit,
    local_player: u8,
    cell: Set<u32>,
    ray: MouseRay,
)
    requires
        system.target(attacker, target, local_player, cell, ray),
    ensures
        compatible(system.info(attacker).attack_classes(), system.info(target).armor_classes()),
{
}

/// Clicking one unit twice without the additive key leaves exactly that unit
/// selected both times, whatever was selected before.
pub proof fn lemma_click_is_idempotent(
    system: UnitSelectionSystem,
    units: Seq<Unit>,
    cell: Set<u32>,
    ray: MouseRay,
    before: Set<u32>,
    unit: u32,
)
    requires
        system.clicked(units, cell, ray) == Some(unit),
    ensures
        selection_after_click(before, false, system.clicked(units, cell, ray)) =~= set![unit],
        selection_after_click(
            selection_after_click(before, false, system.clicked(units, cell, ray)),
            false,
            system.clicked(units, cell, ray),
        ) =~= set![unit],
{
}

/// A click on a first unit, then one on a second with the additive key held,
/// selects the two; a further click on the second without the key leaves the
/// second alone.
pub proof fn lemma_additive_click(
    system: UnitSelectionSystem,
    units: Seq<Unit>,
    first_cell: Set<u32>,
    second_cell: Set<u32>,
    first_ray: MouseRay,
    second_ray: MouseRay,
    before: Set<u32>,
    first: u32,
    second: u32,
)
    requires
        system.clicked(units, first_cell, first_ray) == Some(first),
        system.clicked(units, second_cell, second_ray) == Some(second),
    ensures
        ({
            let one = selection_after_click(before, false, system.clicked(units, first_cell, first_ray));
            let two = selection_after_click(one, true, system.clicked(units, second_cell, second_ray));
            let three = selection_after_click(two, false, system.clicked(units, second_cell, second_ray));
            &&& two =~= set![first, second]
            &&& three =~= set![second]
        }),
{
}

/// A click selects at most one entity anew, and with the additive key held
/// it deselects none.
pub proof fn lemma_click_adds_at_most_one(before: Set<u32>, additive: bool, clicked: Option<u32>)
    ensures
        ({
            let after = selection_after_click(before, additive, clicked);
            &&& forall|a: u32, b: u32|
                after.contains(a) && !before.contains(a) && after.contains(b) && !before.contains(b)
                    ==> a == b
            &&& additive ==> before.subset_of(after)
            &&& clicked is Some ==> after.contains(clicked->Some_0)
        }),
{
}

/// A click that lands on nothing deselects everything without the additive
/// key and changes nothing with it.
pub proof fn lemma_click_on_nothing(before: Set<u32>)
    ensures
        selection_after_click(before, false, None) =~= Set::<u32>::empty(),
        selection_after_click(before, true, None) =~= before,
{
}

/// The entity that a click lands on is selectable, and no unit before it in
/// the units' order is.
pub proof fn lemma_first_selectable(
    system: UnitSelectionSystem,
    units: Seq<Unit>,
    cell: Set<u32>,
    ray: MouseRay,
    from: int,
)
    requires
        0 <= from,
    ensures
        match system.first_selectable(units, cell, ray, from) {
            Some(k) => from <= k < units.len() && system.selectable(units[k], cell, ray)
                && forall|j: int|
                from <= j < k ==> !system.selectable(#[trigger] units[j], cell, ray),
            None => forall|j: int|
                from <= j < units.len() ==> !system.selectable(#[trigger] units[j], cell, ray),
        },
    decreases units.len() - from,
{
    if from < units.len() && !system.selectable(units[from], cell, ray) {
        lemma_first_selectable(system, units, cell, ray, from + 1);
    }
}

/// A click lands on no entity outside the cursor's grid cell, whatever the
/// ray meets: what it lands on is in the cell, on screen, open to
/// interaction and met by the ray.
pub proof fn lemma_clicked_is_in_cell(
    system: UnitSelectionSystem,
    units: Seq<Unit>,
    cell: Set<u32>,
    ray: MouseRay,
)
    ensures
        match system.clicked(units, cell, ray) {
            Some(id) => cell.contains(id),
            None => true,
        },
        forall|i: int|
            0 <= i < units.len() && !cell.contains((#[trigger] units[i]).entity_id)
                ==> !system.selectable(units[i], cell, ray),
{
    lemma_first_selectable(system, units, cell, ray, 0);
}

/// With no unit in the cursor's cell a click lands on nothing: without the
/// additive key it deselects everything, with it the selection stays.
pub proof fn lemma_empty_cell_clicks_nothing(
    system: UnitSelectionSystem,
    units: Seq<Unit>,
    cell: Set<u32>,
    ray: MouseRay,
    before: Set<u32>,
)
    requires
        forall|i: int| 0 <= i < units.len() ==> !cell.contains((#[trigger] units[i]).entity_id),
    ensures
        system.clicked(units, cell, ray) is None,
        selection_after_click(before, false, system.clicked(units, cell, ray)) =~= Set::<
            u32,
        >::empty(),
        selection_after_click(before, true, system.clicked(units, cell, ray)) =~= before,
{
    lemma_first_selectable(system, units, cell, ray, 0);
}

/// Among the first `n` orders, an entity that has exactly one, at `k`, gets
/// what that order says and nothing else.
pub proof fn lemma_single_order(orders: Seq<MoveOrder>, append: bool, id: u32, k: int, n: int)
    requires
        0 <= n <= orders.len(),
        forall|i: int| 0 <= i < n && i != k ==> (#[trigger] orders[i]).entity_id != id,
    ensures
        orders_for(orders, append, id, n) =~= if 0 <= k < n && orders[k].entity_id == id {
            order_of(orders[k].path@, append)
        } else {
            Seq::<ActionView>::empty()
        },
    decreases n,
{
    if n > 0 {
        lemma_single_order(orders, append, id, k, n - 1);
    }
}

/// Two units sent to one point: each queue grows by a clearing and the
/// unit's own route, or by the route alone where orders are appended.
pub proof fn lemma_two_movers(orders: Seq<MoveOrder>, append: bool)
    requires
        orders.len() == 2,
        orders[0].entity_id != orders[1].entity_id,
    ensures
        orders_for(orders, append, orders[0].entity_id, 2) =~= order_of(orders[0].path@, append),
        orders_for(orders, append, orders[1].entity_id, 2) =~= order_of(orders[1].path@, append),
        order_of(orders[0].path@, false) =~= seq![
            ActionView::ClearQueue,
            ActionView::MoveToPosition(orders[0].path@),
        ],
        order_of(orders[0].path@, true) =~= seq![ActionView::MoveToPosition(orders[0].path@)],
{
    lemma_single_order(orders, append, orders[0].entity_id, 0, 2);
    lemma_single_order(orders, append, orders[1].entity_id, 1, 2);
}

/// Two units with empty queues, sent to one point without the append key:
/// afterwards each queue is a clearing and then the unit's own route. With
/// the key held each queue is what it was, and then the route.
pub proof fn lemma_two_movers_queues(
    before: Seq<(u32, Action)>,
    after: Seq<(u32, Action)>,
    orders: Seq<MoveOrder>,
    append: bool,
)
    requires
        orders.len() == 2,
        orders[0].entity_id != orders[1].entity_id,
        forall|id: u32| #[trigger]
            queue_of(after, id) == queue_of(before, id) + orders_for(orders, append, id, 2),
    ensures
        forall|i: int|
            0 <= i < 2 && append ==> queue_of(after, (#[trigger] orders[i]).entity_id) =~= queue_of(
                before,
                orders[i].entity_id,
            ).push(ActionView::MoveToPosition(orders[i].path@)),
        forall|i: int|
            0 <= i < 2 && !append && queue_of(before, (#[trigger] orders[i]).entity_id).len() == 0
                ==> queue_of(after, orders[i].entity_id) =~= seq![
                ActionView::ClearQueue,
                ActionView::MoveToPosition(orders[i].path@),
            ],
{
    lemma_two_movers(orders, append);
}

/// Some mover among the first `n` units needs the route `request`.
pub open spec fn requested_by_mover(
    system: UnitSelectionSystem,
    request: MoveRequest,
    units: Seq<Unit>,
    selected: Set<u32>,
    local_player: u8,
    to: Vector3,
    n: int,
) -> bool {
    exists|i: int|
        0 <= i < n && UnitSelectionSystem::mover(#[trigger] units[i], selected, local_player)
            && request == system.request_for(units[i], to)
}

/// The routes that a secondary click asks for are those of the movers: one
/// for each selected unit of the local player, each to the clicked point.
pub proof fn lemma_requests_are_movers(
    system: UnitSelectionSystem,
    units: Seq<Unit>,
    selected: Set<u32>,
    local_player: u8,
    to: Vector3,
    n: int,
)
    requires
        0 <= n <= units.len(),
    ensures
        forall|i: int|
            0 <= i < n && UnitSelectionSystem::mover(#[trigger] units[i], selected, local_player)
                ==> system.move_requests(units, selected, local_player, to, n).contains(
                system.request_for(units[i], to),
            ),
        forall|r: int|
            0 <= r < system.move_requests(units, selected, local_player, to, n).len()
                ==> requested_by_mover(
                system,
                #[trigger] system.move_requests(units, selected, local_player, to, n)[r],
                units,
                selected,
                local_player,
                to,
                n,
            ),
    decreases n,
{
    if n > 0 {
        lemma_requests_are_movers(system, units, selected, local_player, to, n - 1);
        let earlier = system.move_requests(units, selected, local_player, to, n - 1);
        let all = system.move_requests(units, selected, local_player, to, n);
        assert forall|i: int|
            0 <= i < n && UnitSelectionSystem::mover(
                #[trigger] units[i],
                selected,
                local_player,
            ) implies all.contains(system.request_for(units[i], to)) by {
            if i < n - 1 {
                let at = choose|at: int|
                    0 <= at < earlier.len() && earlier[at] == system.request_for(units[i], to);
                assert(all[at] == system.request_for(units[i], to));
            } else {
                assert(all[all.len() - 1] == system.request_for(units[i], to));
            }
        }
        assert forall|r: int| 0 <= r < all.len() implies requested_by_mover(
            system,
            #[trigger] all[r],
            units,
            selected,
            local_player,
            to,
            n,
        ) by {
            if r < earlier.len() {
                assert(requested_by_mover(system, earlier[r], units, selected, local_player, to, n - 1));
                let i = choose|i: int|
                    0 <= i < n - 1 && UnitSelectionSystem::mover(
                        #[trigger] units[i],
                        selected,
                        local_player,
                    ) && earlier[r] == system.request_for(units[i], to);
                assert(UnitSelectionSystem::mover(units[i], selected, local_player) && all[r]
                    == system.request_for(units[i], to));
            } else {
                assert(UnitSelectionSystem::mover(units[n - 1], selected, local_player));
            }
        }
    }
}

/// Where each entity occurs once among the units, no two of the routes that
/// a secondary click asks for are for one entity.
pub proof fn lemma_requests_name_each_mover_once(
    system: UnitSelectionSystem,
    units: Seq<Unit>,
    selected: Set<u32>,
    local_player: u8,
    to: Vector3,
    n: int,
)
    requires
        distinct_entities(units),
        0 <= n <= units.len(),
    ensures
        ({
            let requests = system.move_requests(units, selected, local_player, to, n);
            forall|r: int, s: int|
                0 <= r < s < requests.len() ==> (#[trigger] requests[r]).entity_id
                    != (#[trigger] requests[s]).entity_id
        }),
    decreases n,
{
    if n > 0 {
        lemma_requests_name_each_mover_once(system, units, selected, local_player, to, n - 1);
        lemma_requests_are_movers(system, units, selected, local_player, to, n - 1);
        let earlier = system.move_requests(units, selected, local_player, to, n - 1);
        let all = system.move_requests(units, selected, local_player, to, n);
        assert forall|r: int, s: int| 0 <= r < s < all.len() implies #[trigger] all[r].entity_id
            != #[trigger] all[s].entity_id by {
            if s < earlier.len() {
                assert(earlier[r].entity_id != earlier[s].entity_id);
            } else {
                assert(requested_by_mover(
                    system,
                    earlier[r],
                    units,
                    selected,
                    local_player,
                    to,
                    n - 1,
                ));
                let i = choose|i: int|
                    0 <= i < n - 1 && UnitSelectionSystem::mover(
                        #[trigger] units[i],
                        selected,
                        local_player,
                    ) && earlier[r] == system.request_for(units[i], to);
                assert(units[i].entity_id != units[n - 1].entity_id);
            }
        }
    }
}

/// Some selected unit of the local player that stands somewhere has the id
/// `id`.
pub open spec fn is_mover_id(units: Seq<Unit>, selected: Set<u32>, local_player: u8, id: u32) -> bool {
    exists|i: int|
        0 <= i < units.len() && UnitSelectionSystem::mover(
            #[trigger] units[i],
            selected,
            local_player,
        ) && units[i].entity_id == id
}

/// A secondary click as a whole, where each entity occurs once among the
/// units: once the orders for the routes asked for are queued, the queue of
/// each selected, standing unit of the local player is what it was, then a clearing
/// unless the append key is held, then the unit's own route as it was handed
/// in; no other queue changes; and there is an order exactly when there is
/// such a unit.
pub proof fn lemma_movers_queues(
    system: UnitSelectionSystem,
    units: Seq<Unit>,
    selected: Set<u32>,
    local_player: u8,
    to: Vector3,
    orders: Seq<MoveOrder>,
    append: bool,
    before: Seq<(u32, Action)>,
    after: Seq<(u32, Action)>,
)
    requires
        distinct_entities(units),
        orders.len() == system.move_requests(
            units,
            selected,
            local_player,
            to,
            units.len() as int,
        ).len(),
        forall|r: int|
            0 <= r < orders.len() ==> (#[trigger] orders[r]).entity_id == system.move_requests(
                units,
                selected,
                local_player,
                to,
                units.len() as int,
            )[r].entity_id,
        forall|id: u32| #[trigger]
            queue_of(after, id) == queue_of(before, id) + orders_for(
                orders,
                append,
                id,
                orders.len() as int,
            ),
    ensures
        forall|r: int|
            0 <= r < orders.len() ==> is_mover_id(
                units,
                selected,
                local_player,
                (#[trigger] orders[r]).entity_id,
            ) && queue_of(after, orders[r].entity_id) =~= queue_of(before, orders[r].entity_id)
                + order_of(orders[r].path@, append),
        forall|i: int|
            0 <= i < units.len() && UnitSelectionSystem::mover(
                #[trigger] units[i],
                selected,
                local_player,
            ) ==> exists|r: int|
                0 <= r < orders.len() && (#[trigger] orders[r]).entity_id == units[i].entity_id,
        forall|id: u32|
            !is_mover_id(units, selected, local_player, id) ==> #[trigger] queue_of(after, id)
                =~= queue_of(before, id),
        orders.len() > 0 <==> exists|i: int|
            0 <= i < units.len() && UnitSelectionSystem::mover(
                #[trigger] units[i],
                selected,
                local_player,
            ),
{
    let n = units.len() as int;
    let requests = system.move_requests(units, selected, local_player, to, n);
    lemma_requests_are_movers(system, units, selected, local_player, to, n);
    lemma_requests_name_each_mover_once(system, units, selected, local_player, to, n);
    assert forall|r: int| 0 <= r < orders.len() implies is_mover_id(
        units,
        selected,
        local_player,
        (#[trigger] orders[r]).entity_id,
    ) && queue_of(after, orders[r].entity_id) =~= queue_of(before, orders[r].entity_id) + order_of(
        orders[r].path@,
        append,
    ) by {
        assert(requested_by_mover(system, requests[r], units, selected, local_player, to, n));
        assert forall|i: int| 0 <= i < orders.len() && i != r implies (#[trigger] orders[i]).entity_id
            != orders[r].entity_id by {
            if i < r {
                assert(requests[i].entity_id != requests[r].entity_id);
            } else {
                assert(requests[r].entity_id != requests[i].entity_id);
            }
        }
        lemma_single_order(orders, append, orders[r].entity_id, r, orders.len() as int);
    }
    assert forall|i: int|
        0 <= i < units.len() && UnitSelectionSystem::mover(
            #[trigger] units[i],
            selected,
            local_player,
        ) implies exists|r: int|
        0 <= r < orders.len() && (#[trigger] orders[r]).entity_id == units[i].entity_id by {
        let wanted = system.request_for(units[i], to);
        assert(requests.contains(wanted));
        let r = choose|r: int| 0 <= r < requests.len() && requests[r] == wanted;
        assert(orders[r].entity_id == units[i].entity_id);
    }
    assert forall|id: u32| !is_mover_id(units, selected, local_player, id) implies #[trigger] queue_of(
        after,
        id,
    ) =~= queue_of(before, id) by {
        assert forall|i: int| 0 <= i < orders.len() implies (#[trigger] orders[i]).entity_id
            != id by {
            assert(requested_by_mover(system, requests[i], units, selected, local_player, to, n));
        }
        lemma_single_order(orders, append, id, -1, orders.len() as int);
    }
    if orders.len() > 0 {
        assert(requested_by_mover(system, requests[0], units, selected, local_player, to, n));
    }
}

/// A unit outside the cursor's grid cell is no target, whatever the ray
/// meets: the cell decides who is left out.
pub proof fn lemma_outside_cell_is_no_target(
    system: UnitSelectionSystem,
    attacker: Unit,
    target: Unit,
    local_player: u8,
    cell: Set<u32>,
    ray: MouseRay,
)
    requires
        !cell.contains(target.entity_id),
    ensures
        !system.target(attacker, target, local_player, cell, ray),
{
}

/// With no unit in the cursor's cell the cursor is over nothing targetable.
pub proof fn lemma_empty_cell_targets_nothing(
    system: UnitSelectionSystem,
    units: Seq<Unit>,
    selected: Set<u32>,
    local_player: u8,
    cell: Set<u32>,
    ray: MouseRay,
)
    requires
        forall|i: int| 0 <= i < units.len() ==> !cell.contains((#[trigger] units[i]).entity_id),
    ensures
        !system.targetable(units, selected, local_player, cell, ray),
{
}

/// A unit that is closed to interaction, or has no combat parameters, is no
/// target; one that is closed to interaction cannot be selected either.
pub proof fn lemma_inert_units_are_left_alone(
    system: UnitSelectionSystem,
    attacker: Unit,
    unit: Unit,
    local_player: u8,
    cell: Set<u32>,
    ray: MouseRay,
)
    requires
        !system.info(unit).interacts() || system.info(unit).battle_params is None,
    ensures
        !system.target(attacker, unit, local_player, cell, ray),
        !system.info(unit).interacts() ==> !system.selectable(unit, cell, ray),
{
}

/// Being in the cell is not enough: a target is also met by the ray.
pub proof fn lemma_targets_are_under_ray(
    system: UnitSelectionSystem,
    attacker: Unit,
    target: Unit,
    local_player: u8,
    cell: Set<u32>,
    ray: MouseRay,
)
    requires
        system.target(attacker, target, local_player, cell, ray),
    ensures
        cell.contains(target.entity_id),
        UnitSelectionSystem::under_ray(target, ray),
{
}

} // verus!
