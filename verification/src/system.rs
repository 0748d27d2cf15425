//! The system itself: targetability, selection and movement orders of one
//! tick, all judged against one ray.

use vstd::prelude::*;
use crate::action::{ActionBatcher, MoveOrder};
use crate::dat::{can_target, compatible, lemma_class_set_empty, EmpiresDb, UnitInfo};
use crate::geometry::{ray_meets_box, MouseRay, Vector3};
use crate::selection::{contains_id, id_set, SelectedUnits};
use crate::world::{
    attack_decal, attack_decal_at, move_decal, move_decal_at, Decal, Input, MoveRequest,
    TickOutcome, Unit,
};

verus! {

/// Unit selection and movement orders, over a table of unit types.
pub struct UnitSelectionSystem {
    pub empires: EmpiresDb,
}

/// The selection after a primary click that landed on `clicked`, or on
/// nothing: the click first deselects everything unless the additive key is
/// held, then selects what it landed on.
pub open spec fn selection_after_click(before: Set<u32>, additive: bool, clicked: Option<u32>) -> Set<
    u32,
> {
    let kept = if additive {
        before
    } else {
        Set::<u32>::empty()
    };
    match clicked {
        Some(id) => kept.insert(id),
        None => kept,
    }
}

impl UnitSelectionSystem {
    pub fn new(empires: EmpiresDb) -> (system: UnitSelectionSystem)
        ensures
            system.empires == empires,
    {
        UnitSelectionSystem { empires }
    }

    /// The table entry of a unit's type.
    pub open spec fn info(self, unit: Unit) -> UnitInfo {
        self.empires.unit_spec(unit.civilization_id, unit.unit_id)
    }

    /// The table knows the type of every unit.
    pub open spec fn knows(self, units: Seq<Unit>) -> bool {
        forall|i: int|
            0 <= i < units.len() ==> self.empires.has_unit(
                (#[trigger] units[i]).civilization_id,
                units[i].unit_id,
            )
    }

    /// The unit stands somewhere, and the ray meets its selection box.
    pub open spec fn under_ray(unit: Unit, ray: MouseRay) -> bool {
        match unit.transform {
            Some(transform) => ray_meets_box(transform.selection_box, ray.origin, ray.direction),
            None => false,
        }
    }

    /// Whether the unit stands somewhere and the ray meets its selection box.
    pub fn is_under_ray(unit: &Unit, ray: &MouseRay) -> (hit: bool)
        requires
            ray.wf(),
        ensures
            hit == Self::under_ray(*unit, *ray),
    {
        match &unit.transform {
            Some(transform) => transform.selection_box.intersects_ray(ray),
            None => false,
        }
    }

    /// A unit whose attacks count for targetability: selected, and with at
    /// least one attack class.
    pub open spec fn attacker(self, unit: Unit, selected: Set<u32>) -> bool {
        selected.contains(unit.entity_id) && !(self.info(unit).attack_classes()
            =~= Set::<i16>::empty())
    }

    /// `target` is a unit under the cursor that `attacker` can harm: on
    /// screen, in the cursor's cell, another entity, not the local player's,
    /// open to interaction, with combat parameters, met by the ray, and of an
    /// armor that the attacker's attacks match.
    pub open spec fn target(
        self,
        attacker: Unit,
        target: Unit,
        local_player: u8,
        cell: Set<u32>,
        ray: MouseRay,
    ) -> bool {
        &&& target.on_screen
        &&& cell.contains(target.entity_id)
        &&& target.entity_id != attacker.entity_id
        &&& target.player_id != local_player
        &&& self.info(target).interacts()
        &&& self.info(target).battle_params is Some
        &&& Self::under_ray(target, ray)
        &&& compatible(self.info(attacker).attack_classes(), self.info(target).armor_classes())
    }

    /// Some unit is a target for `attacker`.
    pub open spec fn has_target(
        self,
        attacker: Unit,
        units: Seq<Unit>,
        local_player: u8,
        cell: Set<u32>,
        ray: MouseRay,
    ) -> bool {
        exists|t: int|
            0 <= t < units.len() && #[trigger] self.target(
                attacker,
                units[t],
                local_player,
                cell,
                ray,
            )
    }

    /// The cursor is over a targetable entity: some attacker has a target.
    pub open spec fn targetable(
        self,
        units: Seq<Unit>,
        selected: Set<u32>,
        local_player: u8,
        cell: Set<u32>,
        ray: MouseRay,
    ) -> bool {
        exists|a: int|
            0 <= a < units.len() && #[trigger] self.attacker(units[a], selected)
                && self.has_target(units[a], units, local_player, cell, ray)
    }

    /// A unit that a primary click can select: on screen, in the cursor's
    /// cell, open to interaction and met by the ray.
    pub open spec fn selectable(self, unit: Unit, cell: Set<u32>, ray: MouseRay) -> bool {
        unit.on_screen && cell.contains(unit.entity_id) && self.info(unit).interacts()
            && Self::under_ray(unit, ray)
    }

    /// The place of the first selectable unit at or after `from`.
    pub open spec fn first_selectable(
        self,
        units: Seq<Unit>,
        cell: Set<u32>,
        ray: MouseRay,
        from: int,
    ) -> Option<int>
        decreases units.len() - from,
    {
        if from < 0 || from >= units.len() {
            None
        } else if self.selectable(units[from], cell, ray) {
            Some(from)
        } else {
            self.first_selectable(units, cell, ray, from + 1)
        }
    }

    /// The entity that a primary click lands on: of the selectable units the
    /// one that comes first in `units`.
    pub open spec fn clicked(self, units: Seq<Unit>, cell: Set<u32>, ray: MouseRay) -> Option<
        u32,
    > {
        match self.first_selectable(units, cell, ray, 0) {
            Some(i) => Some(units[i].entity_id),
            None => None,
        }
    }

    /// A unit that a secondary click sends off: selected, the local
    /// player's, and standing somewhere.
    pub open spec fn mover(unit: Unit, selected: Set<u32>, local_player: u8) -> bool {
        selected.contains(unit.entity_id) && unit.player_id == local_player
            && unit.transform is Some
    }

    /// The route that a mover needs to reach `to`.
    pub open spec fn request_for(self, unit: Unit, to: Vector3) -> MoveRequest {
        MoveRequest {
            entity_id: unit.entity_id,
            from: unit.transform->Some_0.position,
            to,
            terrain_restriction: self.info(unit).terrain_restriction,
        }
    }

    /// The routes that the movers among the first `n` units need, in the
    /// units' order.
    pub open spec fn move_requests(
        self,
        units: Seq<Unit>,
        selected: Set<u32>,
        local_player: u8,
        to: Vector3,
        n: int,
    ) -> Seq<MoveRequest>
        decreases n,
    {
        if n <= 0 {
            Seq::empty()
        } else {
            let earlier = self.move_requests(units, selected, local_player, to, n - 1);
            if Self::mover(units[n - 1], selected, local_player) {
                earlier.push(self.request_for(units[n - 1], to))
            } else {
                earlier
            }
        }
    }

    /// Whether the table knows the type of every unit.
    pub fn knows_all(&self, units: &Vec<Unit>) -> (yes: bool)
        ensures
            yes == self.knows(units@),
    {
        let mut i: usize = 0;
        while i < units.len()
            invariant
                i <= units.len(),
                forall|j: int|
                    0 <= j < i ==> self.empires.has_unit(
                        (#[trigger] units@[j]).civilization_id,
                        units@[j].unit_id,
                    ),
            decreases units.len() - i,
        {
            if !self.empires.contains_unit(units[i].civilization_id, units[i].unit_id) {
                return false;
            }
            i += 1;
        }
        true
    }

    /// Whether some unit is a target for `attacker`, whose attacks are
    /// `attacks`.
    fn finds_target(
        &self,
        attacker: &Unit,
        attacks: &Vec<(i16, i16)>,
        units: &Vec<Unit>,
        local_player: u8,
        ids_in_cell: &Vec<u32>,
        ray: &MouseRay,
    ) -> (found: bool)
        requires
            self.knows(units@),
            ray.wf(),
            self.info(*attacker).battle_params is Some,
            self.info(*attacker).battle_params->Some_0.attacks@ == attacks@,
        ensures
            found == self.has_target(*attacker, units@, local_player, id_set(ids_in_cell@), *ray),
    {
        let ghost cell = id_set(ids_in_cell@);
        let mut t: usize = 0;
        while t < units.len()
            invariant
                t <= units.len(),
                self.knows(units@),
                ray.wf(),
                cell == id_set(ids_in_cell@),
                self.info(*attacker).battle_params is Some,
                self.info(*attacker).battle_params->Some_0.attacks@ == attacks@,
                forall|j: int|
                    0 <= j < t ==> !#[trigger] self.target(
                        *attacker,
                        units@[j],
                        local_player,
                        cell,
                        *ray,
                    ),
            decreases units.len() - t,
        {
            let other = &units[t];
            if contains_id(ids_in_cell, other.entity_id) && other.entity_id != attacker.entity_id
                && other.player_id != local_player {
                let info = self.empires.unit(other.civilization_id, other.unit_id);
                if info.is_interacting() {
                    match &info.battle_params {
                        Some(bp) => {
                            if other.on_screen && Self::is_under_ray(other, ray)
                                && can_target(attacks, &bp.armors) {
                                assert(self.target(
                                    *attacker,
                                    units@[t as int],
                                    local_player,
                                    cell,
                                    *ray,
                                ));
                                return true;
                            }
                        },
                        None => {},
                    }
                }
            }
            t += 1;
        }
        false
    }

    /// Whether the cursor is over an entity that some selected unit can
    /// attack. `ids_in_cell` are the entities of the grid cell under the
    /// cursor; an entity outside it is no target, whatever the ray meets.
    pub fn cursor_over_targetable_entity(
        &self,
        units: &Vec<Unit>,
        selected: &SelectedUnits,
        local_player: u8,
        ids_in_cell: &Vec<u32>,
        ray: &MouseRay,
    ) -> (over: bool)
        requires
            self.knows(units@),
            ray.wf(),
        ensures
            over == self.targetable(units@, selected@, local_player, id_set(ids_in_cell@), *ray),
    {
        let ghost cell = id_set(ids_in_cell@);
        let mut a: usize = 0;
        while a < units.len()
            invariant
                a <= units.len(),
                self.knows(units@),
                ray.wf(),
                cell == id_set(ids_in_cell@),
                forall|j: int|
                    0 <= j < a ==> !(#[trigger] self.attacker(units@[j], selected@)
                        && self.has_target(units@[j], units@, local_player, cell, *ray)),
            decreases units.len() - a,
        {
            let unit = &units[a];
            if selected.contains(unit.entity_id) {
                let info = self.empires.unit(unit.civilization_id, unit.unit_id);
                match &info.battle_params {
                    Some(bp) => {
                        proof {
                            lemma_class_set_empty(bp.attacks@);
                        }
                        if bp.attacks.len() > 0 && self.finds_target(
                            unit,
                            &bp.attacks,
                            units,
                            local_player,
                            ids_in_cell,
                            ray,
                        ) {
                            assert(self.attacker(units@[a as int], selected@));
                            return true;
                        }
                    },
                    None => {},
                }
            }
            a += 1;
        }
        false
    }

    /// The entity that a primary click lands on, if any. `ids_in_cell` are
    /// the entities of the grid cell under the cursor; the click lands on
    /// none outside it, whatever the ray meets.
    pub fn pick(&self, units: &Vec<Unit>, ids_in_cell: &Vec<u32>, ray: &MouseRay) -> (hit: Option<
        u32,
    >)
        requires
            self.knows(units@),
            ray.wf(),
        ensures
            hit == self.clicked(units@, id_set(ids_in_cell@), *ray),
    {
        let ghost cell = id_set(ids_in_cell@);
        let mut i: usize = 0;
        while i < units.len()
            invariant
                i <= units.len(),
                self.knows(units@),
                ray.wf(),
                cell == id_set(ids_in_cell@),
                self.first_selectable(units@, cell, *ray, 0) == self.first_selectable(
                    units@,
                    cell,
                    *ray,
                    i as int,
                ),
            decreases units.len() - i,
        {
            let unit = &units[i];
            if unit.on_screen && contains_id(ids_in_cell, unit.entity_id) {
                let info = self.empires.unit(unit.civilization_id, unit.unit_id);
                if info.is_interacting() && Self::is_under_ray(unit, ray) {
                    return Some(unit.entity_id);
                }
            }
            i += 1;
        }
        None
    }

    /// A primary click: deselects everything unless `additive` is set, then
    /// selects the entity that the click lands on, if there is one.
    pub fn select_at(
        &self,
        units: &Vec<Unit>,
        ids_in_cell: &Vec<u32>,
        ray: &MouseRay,
        additive: bool,
        selected: &mut SelectedUnits,
    ) -> (hit: Option<u32>)
        requires
            self.knows(units@),
            ray.wf(),
        ensures
            hit == self.clicked(units@, id_set(ids_in_cell@), *ray),
            final(selected)@ == selection_after_click(old(selected)@, additive, hit),
    {
        if !additive {
            selected.clear();
        }
        let hit = self.pick(units, ids_in_cell, ray);
        match hit {
            Some(id) => {
                selected.insert(id);
            },
            None => {},
        }
        hit
    }

    /// A secondary click: for each selected unit of the local player that
    /// stands somewhere, in the units' order, the route to the ray's terrain
    /// point that is to be found.
    pub fn plan_moves(
        &self,
        units: &Vec<Unit>,
        selected: &SelectedUnits,
        local_player: u8,
        ray: &MouseRay,
    ) -> (requests: Vec<MoveRequest>)
        requires
            self.knows(units@),
        ensures
            requests@ == self.move_requests(
                units@,
                selected@,
                local_player,
                ray.world_coord,
                units.len() as int,
            ),
    {
        let mut requests: Vec<MoveRequest> = Vec::new();
        let mut i: usize = 0;
        while i < units.len()
            invariant
                i <= units.len(),
                self.knows(units@),
                requests@ == self.move_requests(
                    units@,
                    selected@,
                    local_player,
                    ray.world_coord,
                    i as int,
                ),
            decreases units.len() - i,
        {
            let unit = &units[i];
            if unit.player_id == local_player && selected.contains(unit.entity_id) {
                match &unit.transform {
                    Some(transform) => {
                        let info = self.empires.unit(unit.civilization_id, unit.unit_id);
                        requests.push(
                            MoveRequest {
                                entity_id: unit.entity_id,
                                from: transform.position,
                                to: ray.world_coord,
                                terrain_restriction: info.terrain_restriction,
                            },
                        );
                    },
                    None => {},
                }
            }
            i += 1;
        }
        requests
    }

    /// One tick, up to the point where routes have to be found. The cursor
    /// is judged against the selection as the tick found it; a primary click
    /// then changes the selection; a secondary click plans the moves of what
    /// is selected after that. `ids_in_cell` are the entities of the grid
    /// cell under the cursor: no other is a target or is clicked.
    pub fn update(
        &self,
        input: &Input,
        units: &Vec<Unit>,
        local_player: u8,
        ids_in_cell: &Vec<u32>,
        ray: &MouseRay,
        selected: &mut SelectedUnits,
    ) -> (outcome: TickOutcome)
        requires
            self.knows(units@),
            ray.wf(),
        ensures
            outcome.attack_decal == if self.targetable(
                units@,
                old(selected)@,
                local_player,
                id_set(ids_in_cell@),
                *ray,
            ) {
                Some(attack_decal_at(ray.world_coord))
            } else {
                None
            },
            outcome.clicked == if input.primary_released {
                self.clicked(units@, id_set(ids_in_cell@), *ray)
            } else {
                None
            },
            final(selected)@ == if input.primary_released {
                selection_after_click(old(selected)@, input.additive_held, outcome.clicked)
            } else {
                old(selected)@
            },
            outcome.move_requests@ == if input.secondary_released {
                self.move_requests(
                    units@,
                    final(selected)@,
                    local_player,
                    ray.world_coord,
                    units.len() as int,
                )
            } else {
                Seq::<MoveRequest>::empty()
            },
    {
        let attack_decal = if self.cursor_over_targetable_entity(
            units,
            selected,
            local_player,
            ids_in_cell,
            ray,
        ) {
            Some(attack_decal(ray.world_coord))
        } else {
            None
        };
        let clicked = if input.primary_released {
            self.select_at(units, ids_in_cell, ray, input.additive_held, selected)
        } else {
            None
        };
        let move_requests = if input.secondary_released {
            self.plan_moves(units, selected, local_player, ray)
        } else {
            Vec::new()
        };
        TickOutcome { attack_decal, clicked, move_requests }
    }

    /// The end of a secondary click, once the routes are found: queues every
    /// order, each after a clearing of its entity's queue unless the append
    /// key is held, and marks the spot if any unit was sent.
    pub fn issue_moves(
        &self,
        input: &Input,
        orders: &Vec<MoveOrder>,
        ray: &MouseRay,
        batcher: &mut ActionBatcher,
    ) -> (decal: Option<Decal>)
        ensures
            forall|id: u32| #[trigger]
                final(batcher).queue(id) == old(batcher).queue(id) + crate::action::orders_for(
                    orders@,
                    input.append_held,
                    id,
                    orders.len() as int,
                ),
            decal == if orders.len() > 0 {
                Some(move_decal_at(ray.world_coord))
            } else {
                None
            },
    {
        batcher.queue_moves(orders, input.append_held);
        if orders.len() > 0 {
            Some(move_decal(ray.world_coord))
        } else {
            None
        }
    }
}

} // verus!
