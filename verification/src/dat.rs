//! The static unit data that the selection logic reads: interaction mode,
//! combat parameters and terrain restriction of each unit type, and the rule
//! that decides whether an attacker can harm a target.

use std::collections::HashSet;
use vstd::prelude::*;

verus! {

/// Whether the pointer can interact with units of a type at all.
#[derive(Clone, Copy, Debug, PartialEq, Eq, Structural)]
pub enum InteractionMode {
    Normal,
    NonInteracting,
}

/// Combat parameters of a unit type: pairs of a class and an amount.
#[derive(Clone, Debug)]
pub struct BattleParams {
    pub attacks: Vec<(i16, i16)>,
    pub armors: Vec<(i16, i16)>,
}

/// What the table holds of one unit type.
#[derive(Clone, Debug)]
pub struct UnitInfo {
    pub interaction_mode: InteractionMode,
    pub battle_params: Option<BattleParams>,
    pub terrain_restriction: u8,
}

/// The unit table: for each civilization, its unit types by number.
#[derive(Clone, Debug)]
pub struct EmpiresDb {
    pub civilizations: Vec<Vec<UnitInfo>>,
}

/// The classes that occur in a list of (class, amount) pairs.
pub open spec fn class_set(pairs: Seq<(i16, i16)>) -> Set<i16> {
    Set::new(|c: i16| exists|i: int| 0 <= i < pairs.len() && (#[trigger] pairs[i]).0 == c)
}

/// The rule of attack against armor: a target without armor classes can be
/// harmed by anything, any other only through a class that attacker and
/// target share.
pub open spec fn compatible(attack: Set<i16>, armor: Set<i16>) -> bool {
    armor =~= Set::<i16>::empty() || exists|c: i16| attack.contains(c) && armor.contains(c)
}

/// A list of pairs has no class exactly when it is empty.
pub proof fn lemma_class_set_empty(pairs: Seq<(i16, i16)>)
    ensures
        class_set(pairs) =~= Set::<i16>::empty() <==> pairs.len() == 0,
{
    if pairs.len() > 0 {
        assert(class_set(pairs).contains(pairs[0].0));
    }
}

/// The classes of a list of pairs, as a hash set.
pub fn classes_of(pairs: &Vec<(i16, i16)>) -> (classes: HashSet<i16>)
    ensures
        classes@ == class_set(pairs@),
{
    broadcast use vstd::std_specs::hash::group_hash_axioms;

    let mut classes: HashSet<i16> = HashSet::new();
    let mut i: usize = 0;
    while i < pairs.len()
        invariant
            i <= pairs.len(),
            forall|c: i16|
                classes@.contains(c) <==> exists|j: int|
                    0 <= j < i && (#[trigger] pairs@[j]).0 == c,
        decreases pairs.len() - i,
    {
        let ghost before = classes@;
        let class: i16 = pairs[i].0;
        classes.insert(class);
        assert forall|c: i16| classes@.contains(c) <==> exists|j: int|
            0 <= j < i + 1 && (#[trigger] pairs@[j]).0 == c by {
            if c == class {
                assert(pairs@[i as int].0 == c);
            } else if before.contains(c) {
                let j = choose|j: int| 0 <= j < i && (#[trigger] pairs@[j]).0 == c;
                assert(pairs@[j].0 == c);
            }
        }
        i += 1;
    }
    assert(classes@ =~= class_set(pairs@));
    classes
}

/// Whether an attacker with the attacks `attacks` can harm a target with the
/// armors `armors`.
pub fn can_target(attacks: &Vec<(i16, i16)>, armors: &Vec<(i16, i16)>) -> (yes: bool)
    ensures
        yes == compatible(class_set(attacks@), class_set(armors@)),
{
    broadcast use vstd::std_specs::hash::group_hash_axioms;

    let attack_classes = classes_of(attacks);
    let armor_classes = classes_of(armors);
    if armor_classes.is_empty() {
        assert(armor_classes@ =~= Set::<i16>::empty());
        return true;
    }
    assert(!(class_set(armors@) =~= Set::<i16>::empty())) by {
        if class_set(armors@) =~= Set::<i16>::empty() {
            assert(armor_classes@.is_empty());
        }
    }
    let mut i: usize = 0;
    while i < armors.len()
        invariant
            i <= armors.len(),
            attack_classes@ == class_set(attacks@),
            forall|j: int| 0 <= j < i ==> !class_set(attacks@).contains((#[trigger] armors@[j]).0),
        decreases armors.len() - i,
    {
        let class: i16 = armors[i].0;
        if attack_classes.contains(&class) {
            assert(class_set(armors@).contains(armors@[i as int].0));
            return true;
        }
        i += 1;
    }
    false
}

impl EmpiresDb {
    /// The table has an entry for this civilization and unit type.
    pub open spec fn has_unit(self, civilization_id: u8, unit_id: u16) -> bool {
        civilization_id < self.civilizations@.len()
            && unit_id < self.civilizations@[civilization_id as int]@.len()
    }

    /// That entry.
    pub open spec fn unit_spec(self, civilization_id: u8, unit_id: u16) -> UnitInfo {
        self.civilizations@[civilization_id as int]@[unit_id as int]
    }

    /// Whether the table has an entry for this civilization and unit type.
    pub fn contains_unit(&self, civilization_id: u8, unit_id: u16) -> (yes: bool)
        ensures
            yes == self.has_unit(civilization_id, unit_id),
    {
        (civilization_id as usize) < self.civilizations.len() && (unit_id as usize)
            < self.civilizations[civilization_id as usize].len()
    }

    /// Looks a unit type up. A type that the table lacks is the caller's
    /// error.
    pub fn unit(&self, civilization_id: u8, unit_id: u16) -> (info: &UnitInfo)
        requires
            self.has_unit(civilization_id, unit_id),
        ensures
            *info == self.unit_spec(civilization_id, unit_id),
    {
        &self.civilizations[civilization_id as usize][unit_id as usize]
    }
}

impl UnitInfo {
    /// The attack classes of this unit type; none without combat parameters.
    pub open spec fn attack_classes(self) -> Set<i16> {
        match self.battle_params {
            Some(bp) => class_set(bp.attacks@),
            None => Set::<i16>::empty(),
        }
    }

    /// The armor classes of this unit type; none without combat parameters.
    pub open spec fn armor_classes(self) -> Set<i16> {
        match self.battle_params {
            Some(bp) => class_set(bp.armors@),
            None => Set::<i16>::empty(),
        }
    }

    /// The pointer can interact with this unit type.
    pub open spec fn interacts(self) -> bool {
        self.interaction_mode != InteractionMode::NonInteracting
    }

    /// Whether the pointer can interact with this unit type.
    pub fn is_interacting(&self) -> (yes: bool)
        ensures
            yes == self.interacts(),
    {
        match self.interaction_mode {
            InteractionMode::Normal => true,
            InteractionMode::NonInteracting => false,
        }
    }
}

} // verus!
