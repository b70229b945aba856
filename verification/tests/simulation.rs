use bawal_pathfinder::setup::SetupConfig;
use bawal_pathfinder::simulation::{
    classify_bridge_message, map_image_path, start_simulation, BridgeMessageKind, FormulaKind,
    PlannerLog, PressedButtons, SimulationState, MAX_LOG_ENTRIES,
};

const LEFT: PressedButtons = PressedButtons { left: true, right: false, middle: false };
const RIGHT: PressedButtons = PressedButtons { left: false, right: true, middle: false };
const MIDDLE: PressedButtons = PressedButtons { left: false, right: false, middle: true };
const NONE: PressedButtons = PressedButtons { left: false, right: false, middle: false };

#[test]
fn new_state_defaults() {
    let s: SimulationState<(i32, i32)> = SimulationState::default();
    assert!(s.obstacles.is_empty());
    assert!(s.path.is_empty());
    assert_eq!(s.selected_algorithm, "AStar");
    assert!(s.start_pos.is_none() && s.goal_pos.is_none());
}

#[test]
fn clicks_set_markers_and_publish_when_both() {
    let mut s: SimulationState<(i32, i32)> = SimulationState::new();
    let mut log: PlannerLog<u32> = PlannerLog::new();
    s.set_path(vec![(0, 0), (1, 1)]);
    log.record(7);
    assert!(!s.apply_click(&mut log, RIGHT, (3, 4), &vec![]));
    assert_eq!(s.goal_pos, Some((3, 4)));
    assert!(s.path.is_empty());
    assert!(log.history.is_empty());
    assert!(s.apply_click(&mut log, MIDDLE, (1, 2), &vec![]));
    assert_eq!(s.start_pos, Some((1, 2)));
    // Right wins over the others when pressed together.
    assert!(s.apply_click(&mut log, PressedButtons { left: true, right: true, middle: true }, (9, 9), &vec![]));
    assert_eq!(s.goal_pos, Some((9, 9)));
    assert_eq!(s.start_pos, Some((1, 2)));
    assert!(s.obstacles.is_empty());
}

#[test]
fn no_button_changes_nothing() {
    let mut s: SimulationState<(i32, i32)> = SimulationState::new();
    let mut log: PlannerLog<u32> = PlannerLog::new();
    s.set_path(vec![(5, 5)]);
    log.record(1);
    assert!(!s.apply_click(&mut log, NONE, (0, 0), &vec![]));
    assert_eq!(s.path, vec![(5, 5)]);
    assert_eq!(log.history, vec![1]);
}

#[test]
fn left_click_toggles_obstacles() {
    let mut s: SimulationState<(i32, i32)> = SimulationState::new();
    let mut log: PlannerLog<u32> = PlannerLog::new();
    assert!(!s.apply_click(&mut log, LEFT, (1, 1), &vec![]));
    assert!(!s.apply_click(&mut log, LEFT, (2, 2), &vec![false]));
    assert!(!s.apply_click(&mut log, LEFT, (3, 3), &vec![false, false]));
    assert_eq!(s.obstacles, vec![(1, 1), (2, 2), (3, 3)]);
    // Touching the middle one removes it and places nothing.
    assert!(!s.apply_click(&mut log, LEFT, (2, 2), &vec![false, true, false]));
    assert_eq!(s.obstacles, vec![(1, 1), (3, 3)]);
    // Touching several removes them all.
    assert!(!s.apply_click(&mut log, LEFT, (0, 0), &vec![true, true]));
    assert!(s.obstacles.is_empty());
}

#[test]
fn obstacle_click_undone_law() {
    let mut s: SimulationState<(i32, i32)> = SimulationState::new();
    let mut log: PlannerLog<u32> = PlannerLog::new();
    s.apply_click(&mut log, LEFT, (1, 1), &vec![]);
    let before = s.obstacles.clone();
    s.apply_click(&mut log, LEFT, (4, 4), &vec![false]);
    assert_eq!(s.obstacles, vec![(1, 1), (4, 4)]);
    s.apply_click(&mut log, LEFT, (4, 4), &vec![false, true]);
    assert_eq!(s.obstacles, before);
}

#[test]
fn log_keeps_last_eight() {
    let mut log: PlannerLog<u32> = PlannerLog::default();
    for i in 1..=10 {
        log.record(i);
        assert!(log.history.len() <= MAX_LOG_ENTRIES);
        assert_eq!(*log.history.last().unwrap(), i);
    }
    assert_eq!(log.history, vec![3, 4, 5, 6, 7, 8, 9, 10]);
    log.clear();
    assert!(log.history.is_empty());
}

#[test]
fn bridge_messages_are_classified() {
    assert_eq!(classify_bridge_message("publish", "/plan"), BridgeMessageKind::Plan);
    assert_eq!(classify_bridge_message("publish", "/planner_log"), BridgeMessageKind::PlannerLog);
    assert_eq!(classify_bridge_message("publish", "/other"), BridgeMessageKind::Ignored);
    assert_eq!(classify_bridge_message("subscribe", "/plan"), BridgeMessageKind::Ignored);
    assert_eq!(classify_bridge_message("", ""), BridgeMessageKind::Ignored);
}

#[test]
fn formulas_per_algorithm() {
    assert_eq!(FormulaKind::for_algorithm("AStar"), FormulaKind::CostPlusHeuristic);
    assert_eq!(FormulaKind::for_algorithm("UCS"), FormulaKind::CostOnly);
    assert_eq!(FormulaKind::for_algorithm("GBFS"), FormulaKind::HeuristicOnly);
    assert_eq!(FormulaKind::for_algorithm("Dijkstra"), FormulaKind::TotalOnly);
    assert_eq!(FormulaKind::for_algorithm(""), FormulaKind::TotalOnly);
}

#[test]
fn map_image_paths() {
    assert_eq!(map_image_path(""), None);
    assert_eq!(map_image_path("room.yaml"), Some("Test/maps/room.png".to_string()));
    assert_eq!(map_image_path("a.yaml.yaml"), Some("Test/maps/a.png.png".to_string()));
    assert_eq!(map_image_path("plain"), Some("Test/maps/plain".to_string()));
}

#[test]
fn start_requires_complete_config() {
    let mut sim: SimulationState<(i32, i32)> = SimulationState::new();
    let mut config = SetupConfig::new();
    config.algorithm = "GBFS".to_string();
    config.map_name = "m.yaml".to_string();
    assert!(!start_simulation(&config, &mut sim));
    assert_eq!(sim.selected_algorithm, "AStar");
    config.urdf_model = "r.urdf".to_string();
    assert!(start_simulation(&config, &mut sim));
    assert_eq!(sim.selected_algorithm, "GBFS");
}
