//! The commands that a tick issues, and the sink that keeps them in the order
//! in which they were queued.

use vstd::prelude::*;
use crate::geometry::Vector3;

verus! {

/// A route as the pathfinder found it; empty where it found none.
#[derive(Clone, Debug, PartialEq, Eq)]
pub struct Path {
    pub waypoints: Vec<Vector3>,
}

impl View for Path {
    type V = Seq<Vector3>;

    open spec fn view(&self) -> Seq<Vector3> {
        self.waypoints@
    }
}

/// A command for one entity.
#[derive(Clone, Debug, PartialEq, Eq)]
pub enum Action {
    ClearQueue,
    MoveToPosition(Path),
}

/// A command as contracts see it.
pub enum ActionView {
    ClearQueue,
    MoveToPosition(Seq<Vector3>),
}

impl View for Action {
    type V = ActionView;

    open spec fn view(&self) -> ActionView {
        match *self {
            Action::ClearQueue => ActionView::ClearQueue,
            Action::MoveToPosition(path) => ActionView::MoveToPosition(path@),
        }
    }
}

/// A route for one entity, ready to be queued.
#[derive(Clone, Debug, PartialEq, Eq)]
pub struct MoveOrder {
    pub entity_id: u32,
    pub path: Path,
}

/// Every command queued so far, oldest first, each with its entity.
#[derive(Clone, Debug)]
pub struct ActionBatcher {
    pub log: Vec<(u32, Action)>,
}

/// The commands of `log` that are for `id`, oldest first.
pub open spec fn queue_of(log: Seq<(u32, Action)>, id: u32) -> Seq<ActionView>
    decreases log.len(),
{
    if log.len() == 0 {
        Seq::empty()
    } else {
        let earlier = queue_of(log.drop_last(), id);
        if log.last().0 == id {
            earlier.push(log.last().1@)
        } else {
            earlier
        }
    }
}

/// What one move adds to an entity's queue: the route, after a clearing of
/// the queue unless orders are being appended.
pub open spec fn order_of(path: Seq<Vector3>, append: bool) -> Seq<ActionView> {
    if append {
        seq![ActionView::MoveToPosition(path)]
    } else {
        seq![ActionView::ClearQueue, ActionView::MoveToPosition(path)]
    }
}

/// What the first `n` of `orders` add to the queue of `id`.
pub open spec fn orders_for(orders: Seq<MoveOrder>, append: bool, id: u32, n: int) -> Seq<
    ActionView,
>
    decreases n,
{
    if n <= 0 {
        Seq::empty()
    } else {
        let earlier = orders_for(orders, append, id, n - 1);
        if orders[n - 1].entity_id == id {
            earlier + order_of(orders[n - 1].path@, append)
        } else {
            earlier
        }
    }
}

/// A command queued last is the last of its entity's queue and in no other.
pub proof fn lemma_queue_push(log: Seq<(u32, Action)>, entry: (u32, Action), id: u32)
    ensures
        queue_of(log.push(entry), id) == if entry.0 == id {
            queue_of(log, id).push(entry.1@)
        } else {
            queue_of(log, id)
        },
{
    assert(log.push(entry).drop_last() =~= log);
}

impl Path {
    /// A copy of this route.
    pub fn duplicate(&self) -> (copy: Path)
        ensures
            copy@ == self@,
    {
        let mut waypoints: Vec<Vector3> = Vec::new();
        let mut i: usize = 0;
        while i < self.waypoints.len()
            invariant
                i <= self.waypoints.len(),
                waypoints@ =~= self.waypoints@.subrange(0, i as int),
            decreases self.waypoints.len() - i,
        {
            waypoints.push(self.waypoints[i]);
            i += 1;
        }
        assert(self.waypoints@.subrange(0, i as int) =~= self.waypoints@);
        Path { waypoints }
    }
}

impl ActionBatcher {
    /// A sink with nothing queued.
    pub fn new() -> (batcher: ActionBatcher)
        ensures
            batcher.log@ == Seq::<(u32, Action)>::empty(),
    {
        ActionBatcher { log: Vec::new() }
    }

    /// The queue of one entity.
    pub open spec fn queue(self, id: u32) -> Seq<ActionView> {
        queue_of(self.log@, id)
    }

    /// Appends `action` to the queue of `entity_id`.
    pub fn queue_for_entity(&mut self, entity_id: u32, action: Action)
        ensures
            final(self).log@ == old(self).log@.push((entity_id, action)),
            final(self).queue(entity_id) == old(self).queue(entity_id).push(action@),
            forall|other: u32|
                other != entity_id ==> #[trigger] final(self).queue(other) == old(self).queue(
                    other,
                ),
    {
        proof {
            assert forall|id: u32|
                #[trigger] queue_of(self.log@.push((entity_id, action)), id) == if entity_id
                    == id {
                    queue_of(self.log@, id).push(action@)
                } else {
                    queue_of(self.log@, id)
                } by {
                lemma_queue_push(self.log@, (entity_id, action), id);
            }
        }
        self.log.push((entity_id, action));
    }

    /// Queues one move: the route, after a clearing of the entity's queue
    /// unless `append` is set.
    pub fn queue_move(&mut self, entity_id: u32, path: Path, append: bool)
        ensures
            final(self).queue(entity_id) == old(self).queue(entity_id) + order_of(path@, append),
            forall|other: u32|
                other != entity_id ==> #[trigger] final(self).queue(other) == old(self).queue(
                    other,
                ),
    {
        let ghost before = self.queue(entity_id);
        let ghost route = path@;
        if !append {
            self.queue_for_entity(entity_id, Action::ClearQueue);
        }
        self.queue_for_entity(entity_id, Action::MoveToPosition(path));
        assert(self.queue(entity_id) =~= before + order_of(route, append));
    }

    /// Queues every order, first to last.
    pub fn queue_moves(&mut self, orders: &Vec<MoveOrder>, append: bool)
        ensures
            forall|id: u32| #[trigger]
                final(self).queue(id) == old(self).queue(id) + orders_for(
                    orders@,
                    append,
                    id,
                    orders.len() as int,
                ),
    {
        let mut i: usize = 0;
        assert forall|id: u32| #[trigger]
            self.queue(id) == old(self).queue(id) + orders_for(orders@, append, id, 0) by {
            assert(old(self).queue(id) + Seq::<ActionView>::empty() =~= old(self).queue(id));
        }
        while i < orders.len()
            invariant
                i <= orders.len(),
                forall|id: u32| #[trigger]
                    self.queue(id) == old(self).queue(id) + orders_for(
                        orders@,
                        append,
                        id,
                        i as int,
                    ),
            decreases orders.len() - i,
        {
            let ghost before = *self;
            let path = orders[i].path.duplicate();
            self.queue_move(orders[i].entity_id, path, append);
            assert forall|id: u32| #[trigger]
                self.queue(id) == old(self).queue(id) + orders_for(
                    orders@,
                    append,
                    id,
                    i + 1,
                ) by {
                let earlier = orders_for(orders@, append, id, i as int);
                assert(before.queue(id) == old(self).queue(id) + earlier);
                if id == orders@[i as int].entity_id {
                    let step = order_of(orders@[i as int].path@, append);
                    assert((old(self).queue(id) + earlier) + step =~= old(self).queue(id) + (
                    earlier + step));
                } else {
                    assert(self.queue(id) == before.queue(id));
                }
            }
            i += 1;
        }
    }
}

} // verus!
