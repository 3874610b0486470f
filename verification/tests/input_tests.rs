use simv::input::{decide_frame_input, next_click_target, FrameKeys};
use simv::sim_state::SimConfig;
use simv::widget::{camera_follow_target, selected_body_info_lines, widgets_still_open, InfoLine};

fn keys(space: bool, f: bool, o: bool, rmb_down: bool) -> FrameKeys {
    FrameKeys { space, f, o, rmb_down }
}

#[test]
fn space_toggles_pause() {
    let e = decide_frame_input(false, false, &keys(true, false, false, false));
    assert!(e.paused);
    let e = decide_frame_input(true, false, &keys(true, false, false, false));
    assert!(!e.paused);
    let e = decide_frame_input(true, false, &keys(false, false, false, false));
    assert!(e.paused);
}

#[test]
fn f_toggles_focus_and_blocks_pan() {
    let e = decide_frame_input(false, false, &keys(false, true, false, true));
    assert!(e.focusing);
    assert!(!e.pan);
    let e = decide_frame_input(false, true, &keys(false, true, false, true));
    assert!(!e.focusing);
    assert!(e.pan);
}

#[test]
fn pan_needs_right_button_and_no_focus() {
    assert!(decide_frame_input(false, false, &keys(false, false, false, true)).pan);
    assert!(!decide_frame_input(false, false, &keys(false, false, false, false)).pan);
    assert!(!decide_frame_input(false, true, &keys(false, false, false, true)).pan);
}

#[test]
fn o_opens_settings() {
    assert!(decide_frame_input(false, false, &keys(false, false, true, false)).open_settings);
    assert!(!decide_frame_input(false, false, &keys(false, false, false, false)).open_settings);
}

fn route(handles: &[bool]) -> Vec<usize> {
    let n = handles.len();
    let mut visited = Vec::new();
    let mut t = next_click_target(n, None, false);
    while let Some(i) = t {
        visited.push(i);
        t = next_click_target(n, Some(i), handles[i]);
    }
    visited
}

#[test]
fn click_goes_in_reverse_order_until_handled() {
    assert_eq!(route(&[true, false, false]), vec![2, 1, 0]);
    assert_eq!(route(&[false, true, false, false]), vec![3, 2, 1]);
    assert_eq!(route(&[false, false, true]), vec![2]);
    assert_eq!(route(&[false, false]), vec![1, 0]);
    assert_eq!(route(&[]), Vec::<usize>::new());
}

#[test]
fn next_click_target_steps() {
    assert_eq!(next_click_target(0, None, false), None);
    assert_eq!(next_click_target(4, None, false), Some(3));
    assert_eq!(next_click_target(4, Some(3), false), Some(2));
    assert_eq!(next_click_target(4, Some(3), true), None);
    assert_eq!(next_click_target(4, Some(0), false), None);
}

#[test]
fn closed_widgets_are_removed() {
    assert_eq!(widgets_still_open(&vec![false, true, false, true]), vec![0, 2]);
    assert_eq!(widgets_still_open(&vec![true, true]), Vec::<usize>::new());
    assert_eq!(widgets_still_open(&vec![]), Vec::<usize>::new());
}

#[test]
fn default_info_lines() {
    let c = SimConfig::new();
    assert_eq!(
        selected_body_info_lines(&c),
        vec![InfoLine::KineticEnergy, InfoLine::PotentialEnergy]
    );
}

#[test]
fn all_info_lines_in_order() {
    let mut c = SimConfig::new();
    c.render_mass = true;
    c.render_vel = true;
    c.render_lagrangian = true;
    assert_eq!(
        selected_body_info_lines(&c),
        vec![
            InfoLine::Mass,
            InfoLine::Velocity,
            InfoLine::KineticEnergy,
            InfoLine::PotentialEnergy,
            InfoLine::Lagrangian
        ]
    );
}

#[test]
fn camera_follows_selected_body_only_when_focusing() {
    assert_eq!(camera_follow_target(true, Some(1), 3), Some(1));
    assert_eq!(camera_follow_target(false, Some(1), 3), None);
    assert_eq!(camera_follow_target(true, Some(3), 3), None);
    assert_eq!(camera_follow_target(true, None, 3), None);
}
