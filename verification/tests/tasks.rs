use overlord_core::items::{Inventory, ItemKind};
use overlord_core::pathfinding::PathfindingAgent;
use overlord_core::reservations::Reservations;
use overlord_core::tasks::{
    actions_decompose_planner_step, assign, assign_next_action_or_set_available_system,
    execute_drop, execute_take, find_best_chest, initialize_current_action, process_move_to,
    reset_actions_system, update_task_completion_step, Action, ActionQueue, ChestView,
    CompletionOutcome, CurrentAction, CurrentTask, Task, TaskKind, TaskStatus,
};
use overlord_core::tiles::TilePos;

const ROCK: ItemKind = ItemKind::Rock;

fn tile(x: i32, y: i32) -> TilePos {
    TilePos { x, y }
}

fn chest(id: u64, x: i32, y: i32, stock: u32) -> ChestView {
    let mut inv = Inventory::new();
    inv.add(ROCK, stock);
    ChestView { id, tile: tile(x, y), inv }
}

#[test]
fn assign_only_when_idle_or_terminal() {
    let mut ct = CurrentTask::default();
    assert!(assign(&mut ct, TaskKind::GetItems { kind: ROCK, quantity: 2 }));
    // A pending task refuses a second assignment.
    assert!(!assign(&mut ct, TaskKind::GetItems { kind: ROCK, quantity: 9 }));
    ct.task.as_mut().unwrap().status = TaskStatus::Failed;
    assert!(assign(&mut ct, TaskKind::DeliverItems { kind: ROCK, quantity: 1 }));
    match &ct.task {
        Some(t) => {
            assert_eq!(t.kind, TaskKind::DeliverItems { kind: ROCK, quantity: 1 });
            assert_eq!(t.status, TaskStatus::Pending);
        }
        None => panic!("task expected"),
    }
}

#[test]
fn best_chest_prefers_nearest_with_enough_stock() {
    let res = Reservations::new();
    let chests = vec![
        chest(1, 10, 0, 100), // far but full
        chest(2, 2, 0, 5),    // near but short
        chest(3, 6, 0, 100),  // nearer of the full ones
    ];
    let r = find_best_chest(tile(0, 0), 50, ROCK, &chests, &res);
    assert_eq!(r, Some(2));
}

#[test]
fn best_chest_falls_back_to_nearest_partial() {
    let res = Reservations::new();
    let chests = vec![chest(1, 9, 0, 5), chest(2, 3, 0, 7)];
    let r = find_best_chest(tile(0, 0), 50, ROCK, &chests, &res);
    assert_eq!(r, Some(1));
}

#[test]
fn best_chest_sees_through_reservations() {
    let mut res = Reservations::new();
    let chests = vec![chest(1, 1, 0, 100), chest(2, 5, 0, 100)];
    // The near chest is fully booked by someone else.
    assert!(res.try_reserve(77, 1, ROCK, 100, &chests[0].inv));
    let r = find_best_chest(tile(0, 0), 10, ROCK, &chests, &res);
    assert_eq!(r, Some(1));
}

#[test]
fn best_chest_none_when_everything_is_empty_or_booked() {
    let mut res = Reservations::new();
    let chests = vec![chest(1, 1, 0, 4)];
    assert!(res.try_reserve(77, 1, ROCK, 4, &chests[0].inv));
    assert_eq!(find_best_chest(tile(0, 0), 1, ROCK, &chests, &res), None);
}

#[test]
fn planner_completes_task_already_satisfied() {
    let mut unit_inv = Inventory::new();
    unit_inv.add(ROCK, 5);
    let mut task = Task::new(TaskKind::GetItems { kind: ROCK, quantity: 3 }, Vec::new());
    let mut initialized = false;
    let mut queue = ActionQueue::default();
    let mut res = Reservations::new();
    let providers = vec![chest(1, 5, 0, 10)];
    let planned = actions_decompose_planner_step(
        7,
        tile(0, 0),
        &unit_inv,
        &mut task,
        &mut initialized,
        &mut queue,
        &mut res,
        &providers,
        None,
    );
    assert!(!planned);
    assert_eq!(task.status, TaskStatus::Completed);
    assert!(queue.0.is_empty());
    assert_eq!(res.owner_reserved(7, 1, ROCK), 0);
}

#[test]
fn planner_queues_move_and_take_and_reserves() {
    let unit_inv = Inventory::new();
    let mut task = Task::new(TaskKind::GetItems { kind: ROCK, quantity: 2 }, Vec::new());
    let mut initialized = false;
    let mut queue = ActionQueue::default();
    let mut res = Reservations::new();
    let providers = vec![chest(1, 5, 0, 1000)];
    let planned = actions_decompose_planner_step(
        7,
        tile(0, 0),
        &unit_inv,
        &mut task,
        &mut initialized,
        &mut queue,
        &mut res,
        &providers,
        None,
    );
    assert!(planned);
    assert_eq!(task.status, TaskStatus::Planned);
    assert!(initialized);
    let actions: Vec<Action> = queue.0.iter().copied().collect();
    assert_eq!(
        actions,
        vec![
            Action::MoveTo(tile(5, 0)),
            Action::Take { kind: ROCK, quantity: 2, from: 1 },
        ]
    );
    assert_eq!(res.owner_reserved(7, 1, ROCK), 2);
    assert_eq!(res.total_reserved(1, ROCK), 2);
}

#[test]
fn planner_fails_acquisition_with_no_stock_anywhere() {
    let unit_inv = Inventory::new();
    let mut task = Task::new(TaskKind::GetItems { kind: ROCK, quantity: 2 }, Vec::new());
    let mut initialized = false;
    let mut queue = ActionQueue::default();
    let mut res = Reservations::new();
    let providers: Vec<ChestView> = Vec::new();
    let planned = actions_decompose_planner_step(
        7,
        tile(0, 0),
        &unit_inv,
        &mut task,
        &mut initialized,
        &mut queue,
        &mut res,
        &providers,
        None,
    );
    assert!(!planned);
    assert_eq!(task.status, TaskStatus::Failed);
    assert!(queue.0.is_empty());
}

#[test]
fn planner_queues_delivery_or_fails_without_requester() {
    let unit_inv = Inventory::new();
    let mut task = Task::new(TaskKind::DeliverItems { kind: ROCK, quantity: 2 }, Vec::new());
    let mut initialized = false;
    let mut queue = ActionQueue::default();
    let mut res = Reservations::new();
    let providers: Vec<ChestView> = Vec::new();
    let planned = actions_decompose_planner_step(
        7,
        tile(0, 0),
        &unit_inv,
        &mut task,
        &mut initialized,
        &mut queue,
        &mut res,
        &providers,
        Some((9, tile(8, 1))),
    );
    assert!(planned);
    assert_eq!(task.status, TaskStatus::Planned);
    let actions: Vec<Action> = queue.0.iter().copied().collect();
    assert_eq!(
        actions,
        vec![
            Action::MoveTo(tile(8, 1)),
            Action::Drop { kind: ROCK, quantity: 2, to: 9 },
        ]
    );

    let mut task2 = Task::new(TaskKind::DeliverItems { kind: ROCK, quantity: 2 }, Vec::new());
    let mut queue2 = ActionQueue::default();
    let planned2 = actions_decompose_planner_step(
        7,
        tile(0, 0),
        &unit_inv,
        &mut task2,
        &mut initialized,
        &mut queue2,
        &mut res,
        &providers,
        None,
    );
    assert!(!planned2);
    assert_eq!(task2.status, TaskStatus::Failed);
}

#[test]
fn planner_passes_plain_action_through() {
    let unit_inv = Inventory::new();
    let action = Action::MoveTo(tile(3, 3));
    let mut task = Task::new(TaskKind::Action(action), Vec::new());
    let mut initialized = false;
    let mut queue = ActionQueue::default();
    let mut res = Reservations::new();
    let providers: Vec<ChestView> = Vec::new();
    let planned = actions_decompose_planner_step(
        7,
        tile(0, 0),
        &unit_inv,
        &mut task,
        &mut initialized,
        &mut queue,
        &mut res,
        &providers,
        None,
    );
    assert!(planned);
    assert_eq!(task.status, TaskStatus::Planned);
    let actions: Vec<Action> = queue.0.iter().copied().collect();
    assert_eq!(actions, vec![action]);
}

#[test]
fn move_to_resolution_requires_empty_path_and_reach() {
    let mut agent = PathfindingAgent::default();
    // In reach but still walking: not resolved.
    agent.path.push_back(tile(4, 0));
    assert!(!process_move_to(&mut agent, tile(4, 0), tile(5, 0)));
    agent.path.clear();
    // Out of reach: not resolved.
    assert!(!process_move_to(&mut agent, tile(2, 0), tile(5, 0)));
    // Adjacent (reach one tile): resolved, navigation cleared.
    assert!(process_move_to(&mut agent, tile(4, 0), tile(5, 0)));
    assert!(agent.target.is_none() && agent.path.is_empty());
}

#[test]
fn move_to_resolution_is_idempotent_after_arrival() {
    let mut agent = PathfindingAgent::default();
    agent.target = Some(tile(5, 0));
    agent.path.push_back(tile(4, 0));
    assert!(!process_move_to(&mut agent, tile(4, 0), tile(5, 0)) || agent.path.is_empty());
    agent.path.clear();
    assert!(process_move_to(&mut agent, tile(4, 0), tile(5, 0)));
    // Arrived; asking again keeps answering "resolved" and never re-arms.
    for _ in 0..5 {
        assert!(process_move_to(&mut agent, tile(4, 0), tile(5, 0)));
        assert!(agent.target.is_none());
        assert!(agent.path.is_empty());
        assert_eq!(agent.stuck_ticks_counter, 0);
    }
}

#[test]
fn take_transfers_and_reconciles_claim() {
    let mut unit_inv = Inventory::new();
    let mut chest_inv = Inventory::new();
    chest_inv.add(ROCK, 10);
    let mut res = Reservations::new();
    assert!(res.try_reserve(7, 1, ROCK, 4, &chest_inv));
    execute_take(7, tile(4, 0), &mut unit_inv, ROCK, 4, 1, tile(5, 0), &mut chest_inv, &mut res);
    assert_eq!(unit_inv.count(&ROCK), 4);
    assert_eq!(chest_inv.count(&ROCK), 6);
    assert_eq!(res.owner_reserved(7, 1, ROCK), 0);
}

#[test]
fn take_out_of_reach_does_nothing() {
    let mut unit_inv = Inventory::new();
    let mut chest_inv = Inventory::new();
    chest_inv.add(ROCK, 10);
    let mut res = Reservations::new();
    assert!(res.try_reserve(7, 1, ROCK, 4, &chest_inv));
    execute_take(7, tile(0, 0), &mut unit_inv, ROCK, 4, 1, tile(5, 0), &mut chest_inv, &mut res);
    assert_eq!(unit_inv.count(&ROCK), 0);
    assert_eq!(chest_inv.count(&ROCK), 10);
    // The claim is kept so the action can be retried after more movement.
    assert_eq!(res.owner_reserved(7, 1, ROCK), 4);
}

#[test]
fn take_from_emptied_chest_releases_the_claim() {
    let mut unit_inv = Inventory::new();
    let mut chest_inv = Inventory::new();
    chest_inv.add(ROCK, 4);
    let mut res = Reservations::new();
    assert!(res.try_reserve(7, 1, ROCK, 4, &chest_inv));
    // Someone outside the reservation system drained the chest.
    assert!(chest_inv.remove(&ROCK, 4));
    execute_take(7, tile(4, 0), &mut unit_inv, ROCK, 4, 1, tile(5, 0), &mut chest_inv, &mut res);
    assert_eq!(unit_inv.count(&ROCK), 0);
    assert_eq!(res.owner_reserved(7, 1, ROCK), 0);
}

#[test]
fn take_caps_at_available_stock() {
    let mut unit_inv = Inventory::new();
    let mut chest_inv = Inventory::new();
    chest_inv.add(ROCK, 3);
    let mut res = Reservations::new();
    execute_take(7, tile(4, 0), &mut unit_inv, ROCK, 9, 1, tile(5, 0), &mut chest_inv, &mut res);
    assert_eq!(unit_inv.count(&ROCK), 3);
    assert_eq!(chest_inv.count(&ROCK), 0);
}

#[test]
fn drop_transfers_capped_by_held_stock() {
    let mut unit_inv = Inventory::new();
    unit_inv.add(ROCK, 3);
    let mut chest_inv = Inventory::new();
    execute_drop(tile(4, 0), &mut unit_inv, ROCK, 9, tile(5, 0), &mut chest_inv);
    assert_eq!(unit_inv.count(&ROCK), 0);
    assert_eq!(chest_inv.count(&ROCK), 3);
    // Out of reach: nothing moves.
    unit_inv.add(ROCK, 2);
    execute_drop(tile(0, 0), &mut unit_inv, ROCK, 2, tile(5, 0), &mut chest_inv);
    assert_eq!(unit_inv.count(&ROCK), 2);
    assert_eq!(chest_inv.count(&ROCK), 3);
}

#[test]
fn queue_advances_and_unit_becomes_available() {
    let mut queue = ActionQueue::from(vec![Action::MoveTo(tile(1, 1))]);
    let mut current = CurrentAction::default();
    assert!(!assign_next_action_or_set_available_system(&mut queue, &mut current));
    assert_eq!(current.action, Some(Action::MoveTo(tile(1, 1))));
    assert!(!current.initialized);
    // Still busy: nothing changes.
    assert!(!assign_next_action_or_set_available_system(&mut queue, &mut current));
    current.action = None;
    // Nothing queued and nothing in hand: available.
    assert!(assign_next_action_or_set_available_system(&mut queue, &mut current));
}

#[test]
fn initialize_arms_the_pathfinder_for_move_to() {
    let mut current = CurrentAction { action: Some(Action::MoveTo(tile(9, 9))), initialized: false };
    let mut agent = PathfindingAgent::default();
    agent.stuck_ticks_counter = 3;
    initialize_current_action(&mut current, &mut agent);
    assert!(current.initialized);
    assert_eq!(agent.target, Some(tile(9, 9)));
    assert!(agent.path.is_empty());
    assert_eq!(agent.stuck_ticks_counter, 0);
    // Already initialized: nothing happens again.
    agent.stuck_ticks_counter = 5;
    initialize_current_action(&mut current, &mut agent);
    assert_eq!(agent.stuck_ticks_counter, 5);
}

#[test]
fn reset_actions_clears_queue_action_and_navigation() {
    let mut queue = ActionQueue::from(vec![
        Action::MoveTo(tile(1, 1)),
        Action::Take { kind: ROCK, quantity: 1, from: 1 },
    ]);
    let mut current =
        CurrentAction { action: Some(Action::MoveTo(tile(1, 1))), initialized: true };
    let mut agent = PathfindingAgent::default();
    agent.target = Some(tile(1, 1));
    agent.path.push_back(tile(1, 1));
    reset_actions_system(&mut queue, &mut current, &mut agent);
    assert!(queue.0.is_empty());
    assert!(current.action.is_none());
    assert!(!current.initialized);
    assert!(agent.target.is_none());
    assert!(agent.path.is_empty());
}

#[test]
fn completion_releases_claims_and_clears_slot() {
    let mut ct = CurrentTask::default();
    assert!(assign(&mut ct, TaskKind::GetItems { kind: ROCK, quantity: 2 }));
    ct.task.as_mut().unwrap().status = TaskStatus::Planned;
    let queue = ActionQueue::default();
    let current = CurrentAction::default();
    let mut res = Reservations::new();
    let mut chest_inv = Inventory::new();
    chest_inv.add(ROCK, 10);
    assert!(res.try_reserve(7, 1, ROCK, 2, &chest_inv));
    let outcome = update_task_completion_step(7, &mut ct, &queue, &current, &mut res);
    assert!(matches!(outcome, CompletionOutcome::Completed));
    assert!(ct.task.is_none());
    assert_eq!(res.owner_reserved(7, 1, ROCK), 0);
    assert_eq!(res.total_reserved(1, ROCK), 0);
}

#[test]
fn completion_leaves_running_tasks_alone() {
    let mut ct = CurrentTask::default();
    assert!(assign(&mut ct, TaskKind::GetItems { kind: ROCK, quantity: 2 }));
    ct.task.as_mut().unwrap().status = TaskStatus::Planned;
    let queue = ActionQueue::from(vec![Action::MoveTo(tile(1, 1))]);
    let current = CurrentAction::default();
    let mut res = Reservations::new();
    let outcome = update_task_completion_step(7, &mut ct, &queue, &current, &mut res);
    assert!(matches!(outcome, CompletionOutcome::StillRunning));
    assert!(ct.task.is_some());
}

#[test]
fn failed_task_is_cleared_and_claims_released() {
    let mut ct = CurrentTask::default();
    assert!(assign(&mut ct, TaskKind::GetItems { kind: ROCK, quantity: 2 }));
    ct.task.as_mut().unwrap().status = TaskStatus::Failed;
    let queue = ActionQueue::from(vec![Action::MoveTo(tile(1, 1))]);
    let current = CurrentAction::default();
    let mut res = Reservations::new();
    let mut chest_inv = Inventory::new();
    chest_inv.add(ROCK, 10);
    assert!(res.try_reserve(7, 1, ROCK, 2, &chest_inv));
    let outcome = update_task_completion_step(7, &mut ct, &queue, &current, &mut res);
    assert!(matches!(outcome, CompletionOutcome::FailedCleared));
    assert!(ct.task.is_none());
    assert_eq!(res.total_reserved(1, ROCK), 0);
}
