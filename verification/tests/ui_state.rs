use walk_engine::computation_options::{ComputationOptions, ComputationStyle};
use walk_engine::context_menu::ContextMenuAddNode;
use walk_engine::options::{
    parse_target_indexes, Mode, Options, QuantumOptions, Snap,
};
use walk_engine::panels::{Layout, Panels};
use walk_engine::simulation_mode::SimulationMode;
use walk_engine::state::SimulationState;
use walk_engine::tool::Tool;

#[test]
fn test_mode_names() {
    assert_eq!(Mode::Edit.name(), "Edit");
    assert_eq!(Mode::Classical.name(), "Classical");
    assert_eq!(Mode::Quantum.name(), "Quantum");
    assert_eq!(Mode::Edit.options_name(), "Editing Options");
    assert_eq!(Mode::Classical.options_name(), "Simulation Options (Classical)");
    assert_eq!(Mode::Quantum.options_name(), "Simulation Options (Quantum)");
    assert_eq!(ComputationStyle::Classical.name(), "Classical");
    assert_eq!(ComputationStyle::Quantum.name(), "Quantum");
}

#[test]
fn test_set_mode_records_transition() {
    let mut options = Options::default();
    assert_eq!(options.mode, Mode::Edit);
    options.set_mode(Mode::Quantum);
    assert_eq!(options.mode, Mode::Quantum);
    assert_eq!(options.mode_change_data, Some((Mode::Edit, Mode::Quantum)));
    // switching to the current mode records nothing new
    options.clear_mode_change_data();
    options.set_mode(Mode::Quantum);
    assert_eq!(options.mode_change_data, None);
    options.clear_mode_change_data();
    assert_eq!(options.mode_change_data, None);
}

#[test]
fn test_snap_as_num_str() {
    assert_eq!(Snap::NoSnap.as_num_str(), "None");
    assert_eq!(Snap::Half.as_num_str(), "0.5");
    assert_eq!(Snap::One.as_num_str(), "1.0");
    assert_eq!(Snap::Five.as_num_str(), "5.0");
    assert_eq!(Snap::Ten.as_num_str(), "10.0");
}

#[test]
fn test_update_target_node_indexes() {
    let mut q = QuantumOptions::default();
    q.target_node_text = "0 2 17".to_owned();
    q.update_target_node_indexes();
    assert_eq!(q.target_node_indexes, vec![0, 2, 17]);

    q.target_node_text = "  3\t1\n".to_owned();
    q.update_target_node_indexes();
    assert_eq!(q.target_node_indexes, vec![3, 1]);

    // tokens that are not plain numbers are skipped
    q.target_node_text = "1 x 2x 3".to_owned();
    q.update_target_node_indexes();
    assert_eq!(q.target_node_indexes, vec![1, 3]);

    // a value past the machine's index range is skipped
    q.target_node_text = "5 99999999999999999999999999".to_owned();
    q.update_target_node_indexes();
    assert_eq!(q.target_node_indexes, vec![5]);

    q.target_node_text = "".to_owned();
    q.update_target_node_indexes();
    assert_eq!(q.target_node_indexes, Vec::<usize>::new());
}

#[test]
fn test_parse_target_indexes_directly() {
    assert_eq!(parse_target_indexes("4 4 0"), vec![4, 4, 0]);
    assert_eq!(parse_target_indexes("   "), Vec::<usize>::new());
}

#[test]
fn test_context_menu_clear() {
    let mut menu = ContextMenuAddNode {
        x: "1.5".to_owned(),
        y: "-2".to_owned(),
    };
    menu.clear();
    assert_eq!(menu.x, "");
    assert_eq!(menu.y, "");
}

#[test]
fn test_defaults() {
    assert_eq!(Mode::default(), Mode::Edit);
    assert_eq!(Snap::default(), Snap::NoSnap);
    assert_eq!(Tool::default(), Tool::Move);
    assert_eq!(SimulationMode::default(), SimulationMode::SideBySide);
    assert_eq!(SimulationState::default(), SimulationState::Paused(0));
    assert_eq!(Layout::default(), Layout { tools: true, mode: true });
    assert_eq!(Panels::default(), Panels { tools: true, mode: true });
    let computation = ComputationOptions::default();
    assert_eq!(computation.style, ComputationStyle::Classical);
    let generic = walk_engine::options::GenericComputationOptions::default();
    assert_eq!(generic.start_node_idx, 0);
    assert_eq!(generic.start_node_idx_text_field, "0");
}
