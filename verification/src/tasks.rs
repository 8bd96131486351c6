//! Tasks and actions: the planner that decomposes a goal into primitive
//! actions (claiming container stock through the reservation ledger), the
//! executor that drives each primitive action to resolution, and the
//! completion pass that releases leftover claims and frees the agent.
use vstd::prelude::*;
use std::collections::VecDeque;
use crate::items::{CraftRecipeId, EntityId, Inventory, ItemKind};
use crate::pathfinding::PathfindingAgent;
use crate::reservations::{Reservations, free_stock};
use crate::tiles::{TilePos, dist_sq, within_reach, distance_sq, in_reach};

verus! {

/// Marker for a unit with nothing queued: it can be handed a new task.
pub struct Available;

/// State of a unit that reached a container and waits to interact with it.
pub struct WaitingToInteract {
    target: EntityId,
}

/// A primitive, directly executable step.
#[derive(Debug, Clone, Copy, PartialEq, Eq, Structural)]
pub enum Action {
    MoveTo(TilePos),
    Craft { recipe: CraftRecipeId, quantity: u32, with: EntityId },
    Take { kind: ItemKind, quantity: u32, from: EntityId },
    Drop { kind: ItemKind, quantity: u32, to: EntityId },
}

/// The FIFO queue of actions a task was decomposed into.
pub struct ActionQueue(pub VecDeque<Action>);

impl ActionQueue {
    /// A queue holding the given actions in order.
    pub fn from(v: Vec<Action>) -> (q: ActionQueue)
        ensures
            q.0@ =~= v@,
    {
        let ghost target = v@;
        let mut q: VecDeque<Action> = VecDeque::new();
        let mut i: usize = 0;
        while i < v.len()
            invariant
                i <= target.len(),
                v@ == target,
                q@ =~= target.take(i as int),
            decreases target.len() - i,
        {
            q.push_back(v[i]);
            proof {
                assert(q@ =~= target.take(i + 1));
            }
            i += 1;
        }
        ActionQueue(q)
    }
}

impl Default for ActionQueue {
    /// An empty queue.
    fn default() -> (q: ActionQueue)
        ensures
            q.0@ =~= Seq::<Action>::empty(),
    {
        ActionQueue(VecDeque::new())
    }
}

/// The action a unit is carrying out right now, with a flag marking whether
/// its one-time setup (arming the pathfinder, for MoveTo) has run.
pub struct CurrentAction {
    pub action: Option<Action>,
    pub initialized: bool,
}

impl Default for CurrentAction {
    /// No action in hand.
    fn default() -> (c: CurrentAction)
        ensures
            c.action is None,
            !c.initialized,
    {
        CurrentAction { action: None, initialized: false }
    }
}

/// A high-level goal for a unit.
#[derive(Debug, Clone, Copy, PartialEq, Eq, Structural)]
pub enum TaskKind {
    /// Carry out one given action.
    Action(Action),
    /// Take `quantity` of `kind` from a provider chest (uses reservations).
    GetItems { kind: ItemKind, quantity: u32 },
    /// Carry `quantity` of `kind` to the requester chest and drop it.
    DeliverItems { kind: ItemKind, quantity: u32 },
}

/// Lifecycle of a task.
#[derive(Clone, Copy, Debug, Hash, PartialEq, Eq, Structural)]
pub enum TaskStatus {
    Pending,
    /// Already decomposed; its actions are queued.
    Planned,
    InProgress,
    Completed,
    Failed,
}

/// A goal with its decomposition state. Sub-tasks are kept for hierarchical
/// decomposition; the current planner works one level deep.
#[derive(Debug)]
pub struct Task {
    pub kind: TaskKind,
    pub sub_tasks: Vec<Task>,
    pub status: TaskStatus,
}

impl Task {
    pub fn new(kind: TaskKind, sub_tasks: Vec<Task>) -> (t: Task)
        ensures
            t.kind == kind,
            t.sub_tasks == sub_tasks,
            t.status == TaskStatus::Pending,
    {
        Task { kind, sub_tasks, status: TaskStatus::Pending }
    }
}

/// The task slot of a unit, with a flag marking whether planning has
/// initialized it.
pub struct CurrentTask {
    pub task: Option<Task>,
    pub initialized: bool,
}

impl CurrentTask {
    /// Empty the slot, freeing the unit for new assignment.
    pub fn reset(&mut self)
        ensures
            final(self).task is None,
            !final(self).initialized,
    {
        self.task = None;
        self.initialized = false;
    }
}

impl Default for CurrentTask {
    /// An empty task slot.
    fn default() -> (c: CurrentTask)
        ensures
            c.task is None,
            !c.initialized,
    {
        CurrentTask { task: None, initialized: false }
    }
}

/// Assign a new goal to a unit, allowed only when its task slot is empty or
/// its previous task reached a terminal state.
pub fn assign(current_task: &mut CurrentTask, kind: TaskKind) -> (assigned: bool)
    ensures
        assigned == (match old(current_task).task {
            Option::<Task>::None => true,
            Some(t) => t.status == TaskStatus::Completed || t.status == TaskStatus::Failed,
        }),
        assigned ==> {
            &&& final(current_task).task matches Some(t) && t.kind == kind && t.status
                == TaskStatus::Pending && t.sub_tasks@.len() == 0
            &&& !final(current_task).initialized
        },
        !assigned ==> *final(current_task) == *old(current_task),
{
    let can_assign = match &current_task.task {
        Option::<Task>::None => true,
        Some(t) => match t.status {
            TaskStatus::Completed => true,
            TaskStatus::Failed => true,
            _ => false,
        },
    };
    if can_assign {
        current_task.task = Some(Task::new(kind, Vec::new()));
        current_task.initialized = false;
    }
    can_assign
}

/// What the planner and executor know about one provider chest: its entity,
/// its tile, and its inventory at planning time.
pub struct ChestView {
    pub id: EntityId,
    pub tile: TilePos,
    pub inv: Inventory,
}

/// Stock of `kind` in the chest not yet promised to anyone.
pub open spec fn available_spec(c: ChestView, res: Reservations, kind: ItemKind) -> int {
    free_stock(c.inv.count_spec(kind), res.total_spec(c.id, kind))
}

/// Whether the chest alone can satisfy a request for `needed`.
pub open spec fn full_match(c: ChestView, res: Reservations, kind: ItemKind, needed: u32) -> bool {
    available_spec(c, res, kind) > 0 && available_spec(c, res, kind) >= needed
}

/// Whether the chest can contribute anything at all.
pub open spec fn any_match(c: ChestView, res: Reservations, kind: ItemKind) -> bool {
    available_spec(c, res, kind) > 0
}

/// The container selection rule: chest `i` is the one a request for `needed`
/// draws from. It is the nearest chest whose unreserved stock covers the
/// whole request; when no chest can, it is the nearest with any unreserved
/// stock; ties go to the earliest listed.
pub open spec fn chest_selection_ok(
    unit_tile: TilePos,
    needed: u32,
    kind: ItemKind,
    chests: Seq<ChestView>,
    res: Reservations,
    i: int,
) -> bool {
    &&& 0 <= i < chests.len()
    &&& any_match(chests[i], res, kind)
    &&& if full_match(chests[i], res, kind, needed) {
        &&& forall|j: int|
            0 <= j < chests.len() && full_match(#[trigger] chests[j], res, kind, needed)
                ==> dist_sq(unit_tile, chests[i].tile) <= dist_sq(unit_tile, chests[j].tile)
        &&& forall|j: int|
            0 <= j < i && full_match(#[trigger] chests[j], res, kind, needed) ==> dist_sq(
                unit_tile,
                chests[j].tile,
            ) > dist_sq(unit_tile, chests[i].tile)
    } else {
        &&& forall|j: int|
            0 <= j < chests.len() ==> !full_match(#[trigger] chests[j], res, kind, needed)
        &&& forall|j: int|
            0 <= j < chests.len() && any_match(#[trigger] chests[j], res, kind) ==> dist_sq(
                unit_tile,
                chests[i].tile,
            ) <= dist_sq(unit_tile, chests[j].tile)
        &&& forall|j: int|
            0 <= j < i && any_match(#[trigger] chests[j], res, kind) ==> dist_sq(
                unit_tile,
                chests[j].tile,
            ) > dist_sq(unit_tile, chests[i].tile)
    }
}

/// Pick the chest a request for `desired_quantity` of `desired_item_kind`
/// should draw from: the nearest chest with enough unreserved stock to cover
/// the whole request; when none has, the nearest with any unreserved stock
/// (a partial source); ties go to the earliest listed. Returns its index.
pub fn find_best_chest(
    unit_tile_pos: TilePos,
    desired_quantity: u32,
    desired_item_kind: ItemKind,
    chests: &Vec<ChestView>,
    reservations: &Reservations,
) -> (r: Option<usize>)
    requires
        reservations.wf(),
        forall|j: int| 0 <= j < chests@.len() ==> (#[trigger] chests@[j]).inv.wf(),
    ensures
        r is None <==> (forall|j: int|
            0 <= j < chests@.len() ==> available_spec(
                #[trigger] chests@[j],
                *reservations,
                desired_item_kind,
            ) == 0),
        r matches Some(i) ==> chest_selection_ok(
            unit_tile_pos,
            desired_quantity,
            desired_item_kind,
            chests@,
            *reservations,
            i as int,
        ),
{
    let mut best_with_enough: Option<(usize, u128)> = None;
    let mut best_any: Option<(usize, u128)> = None;
    let mut i: usize = 0;
    while i < chests.len()
        invariant
            i <= chests@.len(),
            match best_with_enough {
                Some(p) => {
                    &&& 0 <= p.0 < i
                    &&& full_match(
                        chests@[p.0 as int],
                        *reservations,
                        desired_item_kind,
                        desired_quantity,
                    )
                    &&& p.1 == dist_sq(unit_tile_pos, chests@[p.0 as int].tile)
                    &&& forall|j: int|
                        0 <= j < i && full_match(
                            #[trigger] chests@[j],
                            *reservations,
                            desired_item_kind,
                            desired_quantity,
                        ) ==> dist_sq(unit_tile_pos, chests@[j].tile) >= p.1
                    &&& forall|j: int|
                        0 <= j < p.0 && full_match(
                            #[trigger] chests@[j],
                            *reservations,
                            desired_item_kind,
                            desired_quantity,
                        ) ==> dist_sq(unit_tile_pos, chests@[j].tile) > p.1
                },
                None => forall|j: int|
                    0 <= j < i ==> !full_match(
                        #[trigger] chests@[j],
                        *reservations,
                        desired_item_kind,
                        desired_quantity,
                    ),
            },
            match best_any {
                Some(p) => {
                    &&& 0 <= p.0 < i
                    &&& any_match(chests@[p.0 as int], *reservations, desired_item_kind)
                    &&& !full_match(
                        chests@[p.0 as int],
                        *reservations,
                        desired_item_kind,
                        desired_quantity,
                    )
                    &&& p.1 == dist_sq(unit_tile_pos, chests@[p.0 as int].tile)
                    &&& forall|j: int|
                        0 <= j < i && any_match(
                            #[trigger] chests@[j],
                            *reservations,
                            desired_item_kind,
                        ) && !full_match(
                            chests@[j],
                            *reservations,
                            desired_item_kind,
                            desired_quantity,
                        ) ==> dist_sq(unit_tile_pos, chests@[j].tile) >= p.1
                    &&& forall|j: int|
                        0 <= j < p.0 && any_match(
                            #[trigger] chests@[j],
                            *reservations,
                            desired_item_kind,
                        ) && !full_match(
                            chests@[j],
                            *reservations,
                            desired_item_kind,
                            desired_quantity,
                        ) ==> dist_sq(unit_tile_pos, chests@[j].tile) > p.1
                },
                None => forall|j: int|
                    0 <= j < i ==> !(any_match(#[trigger] chests@[j], *reservations, desired_item_kind)
                        && !full_match(
                        chests@[j],
                        *reservations,
                        desired_item_kind,
                        desired_quantity,
                    )),
            },
        decreases chests@.len() - i,
    {
        let chest = &chests[i];
        let dist = distance_sq(unit_tile_pos, chest.tile);
        let real_quantity = chest.inv.count(&desired_item_kind);
        let already_reserved = reservations.total_reserved(chest.id, desired_item_kind);
        let available = if real_quantity >= already_reserved {
            real_quantity - already_reserved
        } else {
            0
        };
        proof {
            assert(available == available_spec(chests@[i as int], *reservations, desired_item_kind));
        }
        if available > 0 {
            if available >= desired_quantity {
                match best_with_enough {
                    None => {
                        best_with_enough = Some((i, dist));
                    },
                    Some(p) => {
                        if dist < p.1 {
                            best_with_enough = Some((i, dist));
                        }
                    },
                }
            } else {
                match best_any {
                    None => {
                        best_any = Some((i, dist));
                    },
                    Some(p) => {
                        if dist < p.1 {
                            best_any = Some((i, dist));
                        }
                    },
                }
            }
        }
        i += 1;
    }
    match best_with_enough {
        Some(p) => Some(p.0),
        None => {
            match best_any {
                Some(p) => Some(p.0),
                None => None,
            }
        },
    }
}


/// Everything the planner promises when it plans an acquisition from chest
/// `i`: the chest was picked by the selection rule, the claim was recorded
/// for exactly what will be taken, and a MoveTo then a Take were queued.
pub open spec fn planned_get_outcome(
    unit_ent: EntityId,
    unit_tile: TilePos,
    kind: ItemKind,
    needed: u32,
    chests: Seq<ChestView>,
    old_res: Reservations,
    new_res: Reservations,
    old_queue: Seq<Action>,
    new_queue: Seq<Action>,
    i: int,
) -> bool {
    let avail = available_spec(chests[i], old_res, kind);
    let take_qty: int = if needed <= avail {
        needed as int
    } else {
        avail
    };
    &&& chest_selection_ok(unit_tile, needed, kind, chests, old_res, i)
    &&& take_qty > 0
    &&& new_queue =~= old_queue.push(Action::MoveTo(chests[i].tile)).push(
        Action::Take { kind, quantity: take_qty as u32, from: chests[i].id },
    )
    &&& new_res.total_spec(chests[i].id, kind) == old_res.total_spec(chests[i].id, kind) + take_qty
    &&& new_res.owner_spec(unit_ent, chests[i].id, kind) == old_res.owner_spec(
        unit_ent,
        chests[i].id,
        kind,
    ) + take_qty
    &&& new_res.total_spec(chests[i].id, kind) <= chests[i].inv.count_spec(kind)
    &&& forall|c: EntityId, k2: ItemKind|
        !(c == chests[i].id && k2 == kind) ==> #[trigger] new_res.total_spec(c, k2)
            == old_res.total_spec(c, k2)
    &&& forall|o: EntityId, c: EntityId, k2: ItemKind|
        !(o == unit_ent && c == chests[i].id && k2 == kind) ==> #[trigger] new_res.owner_spec(
            o,
            c,
            k2,
        ) == old_res.owner_spec(o, c, k2)
}

/// One planner pass over a unit's pending task: decompose it into actions,
/// reserving container stock for an acquisition. Returns whether the task was
/// planned, in which case the unit stops being available for assignment.
///
/// An acquisition the unit's inventory already covers completes on the spot.
/// Otherwise the selection rule picks a provider chest; what that chest can
/// still give (capped by the need) is reserved and a MoveTo plus a Take are
/// queued. With no stocked provider at all, or no requester to deliver to,
/// the task fails.
#[verifier::rlimit(30)]
pub fn actions_decompose_planner_step(
    unit_ent: EntityId,
    unit_tile_pos: TilePos,
    unit_inv: &Inventory,
    task: &mut Task,
    task_initialized: &mut bool,
    action_queue: &mut ActionQueue,
    reservations: &mut Reservations,
    providers: &Vec<ChestView>,
    requester: Option<(EntityId, TilePos)>,
) -> (planned: bool)
    requires
        unit_inv.wf(),
        old(reservations).wf(),
        forall|j: int| 0 <= j < providers@.len() ==> (#[trigger] providers@[j]).inv.wf(),
    ensures
        final(reservations).wf(),
        final(task).kind == old(task).kind,
        final(task).sub_tasks == old(task).sub_tasks,
        old(task).status != TaskStatus::Pending ==> {
            &&& *final(task) == *old(task)
            &&& *final(task_initialized) == *old(task_initialized)
            &&& final(action_queue).0@ == old(action_queue).0@
            &&& final(reservations).claims_seq() == old(reservations).claims_seq()
            &&& !planned
        },
        old(task).status == TaskStatus::Pending ==> match old(task).kind {
            TaskKind::GetItems { kind, quantity } => {
                if unit_inv.count_spec(kind) >= quantity {
                    &&& final(task).status == TaskStatus::Completed
                    &&& *final(task_initialized) == *old(task_initialized)
                    &&& final(action_queue).0@ == old(action_queue).0@
                    &&& final(reservations).claims_seq() == old(reservations).claims_seq()
                    &&& !planned
                } else if forall|j: int|
                    0 <= j < providers@.len() ==> available_spec(
                        #[trigger] providers@[j],
                        *old(reservations),
                        kind,
                    ) == 0 {
                    &&& final(task).status == TaskStatus::Failed
                    &&& *final(task_initialized) == *old(task_initialized)
                    &&& final(action_queue).0@ == old(action_queue).0@
                    &&& final(reservations).claims_seq() == old(reservations).claims_seq()
                    &&& !planned
                } else {
                    &&& final(task).status == TaskStatus::Planned
                    &&& *final(task_initialized)
                    &&& planned
                    &&& exists|i: int|
                        #[trigger] planned_get_outcome(
                            unit_ent,
                            unit_tile_pos,
                            kind,
                            (quantity - unit_inv.count_spec(kind)) as u32,
                            providers@,
                            *old(reservations),
                            *final(reservations),
                            old(action_queue).0@,
                            final(action_queue).0@,
                            i,
                        )
                }
            },
            TaskKind::DeliverItems { kind, quantity } => {
                &&& final(reservations).claims_seq() == old(reservations).claims_seq()
                &&& match requester {
                    Some(req) => {
                        &&& final(task).status == TaskStatus::Planned
                        &&& *final(task_initialized)
                        &&& planned
                        &&& final(action_queue).0@ =~= old(action_queue).0@.push(
                            Action::MoveTo(req.1),
                        ).push(Action::Drop { kind, quantity, to: req.0 })
                    },
                    None => {
                        &&& final(task).status == TaskStatus::Failed
                        &&& *final(task_initialized) == *old(task_initialized)
                        &&& final(action_queue).0@ == old(action_queue).0@
                        &&& !planned
                    },
                }
            },
            TaskKind::Action(a) => {
                &&& final(reservations).claims_seq() == old(reservations).claims_seq()
                &&& final(task).status == TaskStatus::Planned
                &&& *final(task_initialized) == *old(task_initialized)
                &&& final(action_queue).0@ =~= old(action_queue).0@.push(a)
                &&& planned
            },
        },
{
    match task.status {
        TaskStatus::Pending => {},
        _ => {
            return false;
        },
    }
    let kind_copy = task.kind;
    match kind_copy {
        TaskKind::GetItems { kind, quantity } => {
            let have = unit_inv.count(&kind);
            if have >= quantity {
                task.status = TaskStatus::Completed;
                return false;
            }
            let needed = quantity - have;
            match find_best_chest(unit_tile_pos, needed, kind, providers, reservations) {
                Some(ci) => {
                    let chest_id = providers[ci].id;
                    let chest_tile = providers[ci].tile;
                    let real_quantity = providers[ci].inv.count(&kind);
                    let already_reserved = reservations.total_reserved(chest_id, kind);
                    let available = if real_quantity >= already_reserved {
                        real_quantity - already_reserved
                    } else {
                        0
                    };
                    let take_qty = if needed <= available {
                        needed
                    } else {
                        available
                    };
                    let ghost res0 = *reservations;
                    let ghost q0 = action_queue.0@;
                    if reservations.try_reserve(unit_ent, chest_id, kind, take_qty, &providers[ci].inv) {
                        action_queue.0.push_back(Action::MoveTo(chest_tile));
                        action_queue.0.push_back(
                            Action::Take { kind, quantity: take_qty, from: chest_id },
                        );
                        task.status = TaskStatus::Planned;
                        *task_initialized = true;
                        proof {
                            assert(planned_get_outcome(
                                unit_ent,
                                unit_tile_pos,
                                kind,
                                needed,
                                providers@,
                                res0,
                                *reservations,
                                q0,
                                action_queue.0@,
                                ci as int,
                            ));
                        }
                        true
                    } else {
                        task.status = TaskStatus::Failed;
                        reservations.release_all_for_owner(unit_ent);
                        false
                    }
                },
                None => {
                    task.status = TaskStatus::Failed;
                    false
                },
            }
        },
        TaskKind::DeliverItems { kind, quantity } => {
            match requester {
                Some(req) => {
                    action_queue.0.push_back(Action::MoveTo(req.1));
                    action_queue.0.push_back(Action::Drop { kind, quantity, to: req.0 });
                    task.status = TaskStatus::Planned;
                    *task_initialized = true;
                    true
                },
                None => {
                    task.status = TaskStatus::Failed;
                    false
                },
            }
        },
        TaskKind::Action(a) => {
            action_queue.0.push_back(a);
            task.status = TaskStatus::Planned;
            true
        },
    }
}


/// One-time setup of a freshly assigned current action: arming the
/// pathfinder with the MoveTo target. Other actions need no setup.
pub fn initialize_current_action(current_action: &mut CurrentAction, agent: &mut PathfindingAgent)
    requires
        old(agent).wf(),
    ensures
        final(agent).wf(),
        final(current_action).action == old(current_action).action,
        old(current_action).action is None || old(current_action).initialized ==> {
            &&& *final(current_action) == *old(current_action)
            &&& *final(agent) == *old(agent)
        },
        old(current_action).action is Some && !old(current_action).initialized ==> {
            &&& final(current_action).initialized
            &&& match old(current_action).action->0 {
                Action::MoveTo(target) => {
                    &&& final(agent).target == Some(target)
                    &&& final(agent).path@.len() == 0
                    &&& final(agent).last_tile_pos is None
                    &&& final(agent).stuck_ticks_counter == 0
                },
                _ => *final(agent) == *old(agent),
            }
        },
{
    if current_action.action.is_none() || current_action.initialized {
        return ;
    }
    let action = current_action.action;
    match action {
        Some(Action::MoveTo(target_pos)) => {
            agent.reset();
            agent.target = Some(target_pos);
        },
        _ => {},
    }
    current_action.initialized = true;
}

/// Whether a MoveTo toward `target` counts as arrived for an agent standing
/// on `unit_tile`: no waypoints left and the target within reach.
pub open spec fn move_to_resolved_spec(
    agent: PathfindingAgent,
    unit_tile: TilePos,
    target: TilePos,
) -> bool {
    agent.path@.len() == 0 && within_reach(unit_tile, target)
}

/// Resolve a MoveTo action: it completes exactly when the agent has no
/// waypoints left and stands within reach of the target, and completing it
/// clears the navigation state. An unresolved MoveTo changes nothing.
pub fn process_move_to(agent: &mut PathfindingAgent, unit_tile: TilePos, target: TilePos) -> (resolved:
    bool)
    requires
        old(agent).wf(),
    ensures
        final(agent).wf(),
        resolved == move_to_resolved_spec(*old(agent), unit_tile, target),
        resolved ==> final(agent).is_reset(),
        !resolved ==> *final(agent) == *old(agent),
{
    if agent.path.len() == 0 && in_reach(unit_tile, target) {
        agent.reset();
        true
    } else {
        false
    }
}

/// Once a MoveTo has resolved and the agent stays put, resolving again keeps
/// succeeding and keeps the agent reset: arrival never re-triggers movement.
pub proof fn lemma_move_to_resolution_idempotent(
    agent: PathfindingAgent,
    unit_tile: TilePos,
    target: TilePos,
)
    requires
        agent.is_reset(),
        within_reach(unit_tile, target),
    ensures
        move_to_resolved_spec(agent, unit_tile, target),
{
}

/// Carry out a Take: transfer up to the requested quantity of `kind` from
/// the chest to the unit, bounded by what the chest holds, and reconcile the
/// unit's claim on that chest downward by what was actually taken (fully,
/// when nothing could be taken). A chest out of reach transfers nothing and
/// releases nothing, so the action can be retried after more movement.
pub fn execute_take(
    unit_ent: EntityId,
    unit_tile: TilePos,
    unit_inventory: &mut Inventory,
    kind: ItemKind,
    quantity: u32,
    chest_ent: EntityId,
    chest_tile: TilePos,
    chest_inventory: &mut Inventory,
    reservations: &mut Reservations,
)
    requires
        old(unit_inventory).wf(),
        old(chest_inventory).wf(),
        old(reservations).wf(),
        old(unit_inventory).count_spec(kind) + quantity <= u32::MAX,
    ensures
        final(unit_inventory).wf(),
        final(chest_inventory).wf(),
        final(reservations).wf(),
        !within_reach(chest_tile, unit_tile) ==> {
            &&& *final(unit_inventory) == *old(unit_inventory)
            &&& *final(chest_inventory) == *old(chest_inventory)
            &&& final(reservations).claims_seq() == old(reservations).claims_seq()
        },
        within_reach(chest_tile, unit_tile) ==> {
            let available = old(chest_inventory).count_spec(kind);
            let taken: int = if quantity <= available {
                quantity as int
            } else {
                available
            };
            let owned = old(reservations).owner_spec(unit_ent, chest_ent, kind);
            let freed: int = if taken == 0 {
                owned
            } else if owned <= taken {
                owned
            } else {
                taken
            };
            &&& final(unit_inventory).count_spec(kind) == old(unit_inventory).count_spec(kind)
                + taken
            &&& final(chest_inventory).count_spec(kind) == available - taken
            &&& forall|k2: ItemKind|
                k2 != kind ==> final(unit_inventory).count_spec(k2) == old(
                    unit_inventory,
                ).count_spec(k2) && final(chest_inventory).count_spec(k2) == old(
                    chest_inventory,
                ).count_spec(k2)
            &&& final(reservations).owner_spec(unit_ent, chest_ent, kind) == owned - freed
            &&& final(reservations).total_spec(chest_ent, kind) == old(reservations).total_spec(
                chest_ent,
                kind,
            ) - freed
            &&& forall|c: EntityId, k2: ItemKind|
                !(c == chest_ent && k2 == kind) ==> #[trigger] final(reservations).total_spec(
                    c,
                    k2,
                ) == old(reservations).total_spec(c, k2)
            &&& forall|o: EntityId, c: EntityId, k2: ItemKind|
                !(o == unit_ent && c == chest_ent && k2 == kind) ==> #[trigger] final(reservations).owner_spec(o, c, k2) == old(reservations).owner_spec(o, c, k2)
        },
{
    if !in_reach(chest_tile, unit_tile) {
        return ;
    }
    let available_quantity = chest_inventory.count(&kind);
    let quantity_to_take = if quantity <= available_quantity {
        quantity
    } else {
        available_quantity
    };
    if quantity_to_take == 0 {
        let reserved_by_owner = reservations.owner_reserved(unit_ent, chest_ent, kind);
        if reserved_by_owner > 0 {
            reservations.release(unit_ent, chest_ent, kind, reserved_by_owner);
        }
        return ;
    }
    chest_inventory.remove(&kind, quantity_to_take);
    unit_inventory.add(kind, quantity_to_take);
    let reserved_by_owner = reservations.owner_reserved(unit_ent, chest_ent, kind);
    if reserved_by_owner > 0 {
        let to_release = if reserved_by_owner <= quantity_to_take {
            reserved_by_owner
        } else {
            quantity_to_take
        };
        reservations.release(unit_ent, chest_ent, kind, to_release);
    }
}

/// Carry out a Drop: transfer up to the requested quantity of `kind` from
/// the unit to the chest, bounded by what the unit holds. A chest out of
/// reach transfers nothing.
pub fn execute_drop(
    unit_tile: TilePos,
    unit_inventory: &mut Inventory,
    kind: ItemKind,
    quantity: u32,
    chest_tile: TilePos,
    chest_inventory: &mut Inventory,
)
    requires
        old(unit_inventory).wf(),
        old(chest_inventory).wf(),
        old(chest_inventory).count_spec(kind) + quantity <= u32::MAX,
    ensures
        final(unit_inventory).wf(),
        final(chest_inventory).wf(),
        !within_reach(chest_tile, unit_tile) ==> {
            &&& *final(unit_inventory) == *old(unit_inventory)
            &&& *final(chest_inventory) == *old(chest_inventory)
        },
        within_reach(chest_tile, unit_tile) ==> {
            let held = old(unit_inventory).count_spec(kind);
            let dropped: int = if quantity <= held {
                quantity as int
            } else {
                held
            };
            &&& final(unit_inventory).count_spec(kind) == held - dropped
            &&& final(chest_inventory).count_spec(kind) == old(chest_inventory).count_spec(kind)
                + dropped
            &&& forall|k2: ItemKind|
                k2 != kind ==> final(unit_inventory).count_spec(k2) == old(
                    unit_inventory,
                ).count_spec(k2) && final(chest_inventory).count_spec(k2) == old(
                    chest_inventory,
                ).count_spec(k2)
        },
{
    if !in_reach(chest_tile, unit_tile) {
        return ;
    }
    let available_quantity = unit_inventory.count(&kind);
    let quantity_to_drop = if quantity <= available_quantity {
        quantity
    } else {
        available_quantity
    };
    if quantity_to_drop == 0 {
        return ;
    }
    unit_inventory.remove(&kind, quantity_to_drop);
    chest_inventory.add(kind, quantity_to_drop);
}

/// Cancel whatever a unit was doing: clear its queued actions, clear the
/// current action, and, when that action was a MoveTo, reset the pathfinder.
pub fn reset_actions_system(
    action_queue: &mut ActionQueue,
    current_action: &mut CurrentAction,
    pathfinding_agent: &mut PathfindingAgent,
)
    requires
        old(pathfinding_agent).wf(),
    ensures
        final(action_queue).0@.len() == 0,
        final(current_action).action is None,
        !final(current_action).initialized,
        final(pathfinding_agent).wf(),
        match old(current_action).action {
            Some(Action::MoveTo(t)) => final(pathfinding_agent).is_reset(),
            _ => *final(pathfinding_agent) == *old(pathfinding_agent),
        },
{
    action_queue.0.clear();
    let action = current_action.action;
    match action {
        Some(Action::MoveTo(_)) => {
            pathfinding_agent.reset();
        },
        _ => {},
    }
    current_action.action = None;
    current_action.initialized = false;
}

/// Pop the next queued action into the unit's hands; a unit with nothing in
/// hand and nothing queued becomes available for assignment.
pub fn assign_next_action_or_set_available_system(
    action_queue: &mut ActionQueue,
    current_action: &mut CurrentAction,
) -> (became_available: bool)
    ensures
        old(current_action).action is Some ==> {
            &&& *final(current_action) == *old(current_action)
            &&& final(action_queue).0@ == old(action_queue).0@
            &&& !became_available
        },
        old(current_action).action is None && old(action_queue).0@.len() > 0 ==> {
            &&& final(current_action).action == Some(old(action_queue).0@[0])
            &&& !final(current_action).initialized
            &&& final(action_queue).0@ == old(action_queue).0@.skip(1)
            &&& !became_available
        },
        old(current_action).action is None && old(action_queue).0@.len() == 0 ==> {
            &&& *final(current_action) == *old(current_action)
            &&& final(action_queue).0@ == old(action_queue).0@
            &&& became_available
        },
{
    if current_action.action.is_none() {
        match action_queue.0.pop_front() {
            Some(next_action) => {
                current_action.action = Some(next_action);
                current_action.initialized = false;
                false
            },
            None => true,
        }
    } else {
        false
    }
}

/// Outcome of the completion pass for one unit.
pub enum CompletionOutcome {
    /// The task slot still holds a task that is not finished.
    StillRunning,
    /// A planned or in-progress task ran out of actions: it completed, its
    /// claims were released and the slot was cleared.
    Completed,
    /// A failed task had its claims released and the slot cleared.
    FailedCleared,
    /// Nothing to do: no task, or a pending or already-completed task.
    Untouched,
}

/// The completion pass for one unit, run after the executor each tick: a
/// planned or in-progress task whose action queue is empty and whose current
/// action is done counts as completed; completed-now and failed tasks have
/// every claim of the unit released and the task slot cleared, freeing the
/// unit for assignment.
pub fn update_task_completion_step(
    unit_ent: EntityId,
    current_task: &mut CurrentTask,
    action_queue: &ActionQueue,
    current_action: &CurrentAction,
    reservations: &mut Reservations,
) -> (outcome: CompletionOutcome)
    requires
        old(reservations).wf(),
    ensures
        final(reservations).wf(),
        ({
            let finished = action_queue.0@.len() == 0 && current_action.action is None;
            let cleared = match old(current_task).task {
                Some(t) => (t.status == TaskStatus::Planned || t.status == TaskStatus::InProgress)
                    && finished || t.status == TaskStatus::Failed,
                None => false,
            };
            if cleared {
                &&& final(current_task).task is None
                &&& !final(current_task).initialized
                &&& forall|c: EntityId, k: ItemKind|
                    #[trigger] final(reservations).owner_spec(unit_ent, c, k) == 0
                &&& forall|c: EntityId, k: ItemKind|
                    #[trigger] final(reservations).total_spec(c, k) == old(reservations).total_spec(
                        c,
                        k,
                    ) - old(reservations).owner_spec(unit_ent, c, k)
                &&& forall|o: EntityId, c: EntityId, k: ItemKind|
                    o != unit_ent ==> #[trigger] final(reservations).owner_spec(o, c, k) == old(
                        reservations,
                    ).owner_spec(o, c, k)
            } else {
                &&& *final(current_task) == *old(current_task)
                &&& final(reservations).claims_seq() == old(reservations).claims_seq()
            }
        }),
        ({
            let finished = action_queue.0@.len() == 0 && current_action.action is None;
            match old(current_task).task {
                Some(t) => {
                    &&& (outcome is Completed <==> (t.status == TaskStatus::Planned || t.status
                        == TaskStatus::InProgress) && finished)
                    &&& (outcome is StillRunning <==> (t.status == TaskStatus::Planned || t.status
                        == TaskStatus::InProgress) && !finished)
                    &&& (outcome is FailedCleared <==> t.status == TaskStatus::Failed)
                    &&& (outcome is Untouched <==> t.status == TaskStatus::Pending || t.status
                        == TaskStatus::Completed)
                },
                None => outcome is Untouched,
            }
        }),
{
    let status = match &current_task.task {
        Some(t) => Some(t.status),
        None => None,
    };
    match status {
        Some(TaskStatus::Planned) | Some(TaskStatus::InProgress) => {
            if action_queue.0.len() == 0 && current_action.action.is_none() {
                reservations.release_all_for_owner(unit_ent);
                current_task.reset();
                CompletionOutcome::Completed
            } else {
                CompletionOutcome::StillRunning
            }
        },
        Some(TaskStatus::Failed) => {
            reservations.release_all_for_owner(unit_ent);
            current_task.reset();
            CompletionOutcome::FailedCleared
        },
        Some(TaskStatus::Pending) | Some(TaskStatus::Completed) | None => {
            CompletionOutcome::Untouched
        },
    }
}

} // verus!
