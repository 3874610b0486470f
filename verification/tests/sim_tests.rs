use simv::actions::{dispatch_pending_actions, AppAction};
use simv::ringarray::RingArray;
use simv::sim_state::{new_trails, push_trail_points, SimConfig, TRAIL_ARRAY_CAPACITY_PER_BODY};
use simv::universe::{closest_index, force_sources};
use simv::widget::{add_widget_if_not_exists, widget_exists, WidgetType};

fn contents(r: &RingArray<i64>) -> Vec<i64> {
    r.iter().into_iter().copied().collect()
}

#[test]
fn force_sources_all_movable() {
    let r = force_sources(&vec![false, false, false]);
    assert_eq!(r, vec![vec![1, 2], vec![0, 2], vec![0, 1]]);
}

#[test]
fn force_sources_immovable_body_gets_none() {
    let r = force_sources(&vec![false, true, false, false]);
    assert_eq!(r, vec![vec![1, 2, 3], vec![], vec![0, 1, 3], vec![0, 1, 2]]);
}

#[test]
fn force_sources_empty_and_single() {
    assert!(force_sources(&vec![]).is_empty());
    assert_eq!(force_sources(&vec![false]), vec![Vec::<usize>::new()]);
}

#[test]
fn closest_index_empty() {
    assert_eq!(closest_index(&vec![]), None);
}

#[test]
fn closest_index_picks_least() {
    assert_eq!(closest_index(&vec![9, 4, 7, 5]), Some(1));
    assert_eq!(closest_index(&vec![3]), Some(0));
}

#[test]
fn closest_index_tie_goes_to_first() {
    assert_eq!(closest_index(&vec![8, 2, 6, 2, 2]), Some(1));
}

#[test]
fn closest_index_from_float_distances() {
    let d: Vec<f64> = vec![12.5, 0.75, 3.0e6, 0.75];
    let keys: Vec<u64> = d.iter().map(|x| x.to_bits()).collect();
    assert_eq!(closest_index(&keys), Some(1));
}

#[test]
fn sim_config_defaults() {
    let c = SimConfig::new();
    assert!(c.render_trails);
    assert!(c.render_labels);
    assert!(!c.render_mass);
    assert!(!c.render_vel);
    assert!(c.render_ke);
    assert!(c.render_pe);
    assert!(!c.render_lagrangian);
    assert!(!c.render_forces);
}

#[test]
fn new_trails_one_empty_trail_per_body() {
    let t: Vec<RingArray<i64>> = new_trails(3);
    assert_eq!(t.len(), 3);
    assert!(t.iter().all(|r| r.len() == 0));
    assert_eq!(TRAIL_ARRAY_CAPACITY_PER_BODY, 1000);
}

#[test]
fn new_trails_hold_at_most_capacity_points() {
    let mut t: Vec<RingArray<i64>> = new_trails(1);
    for x in 0..1005i64 {
        push_trail_points(&mut t, &vec![x]);
    }
    assert_eq!(t[0].len(), 1000);
    let c = contents(&t[0]);
    assert_eq!(c[0], 5);
    assert_eq!(c[999], 1004);
}

#[test]
fn push_trail_points_matches_by_index() {
    let mut t: Vec<RingArray<i64>> = new_trails(2);
    push_trail_points(&mut t, &vec![1, 2, 3]);
    push_trail_points(&mut t, &vec![4]);
    assert_eq!(contents(&t[0]), vec![1, 4]);
    assert_eq!(contents(&t[1]), vec![2]);
}

#[test]
fn widget_exists_and_add() {
    let mut open = vec![WidgetType::PhysicsOverlay, WidgetType::MenuBar];
    assert!(widget_exists(&open, WidgetType::MenuBar));
    assert!(!widget_exists(&open, WidgetType::SettingsWindow));
    assert!(add_widget_if_not_exists(&mut open, WidgetType::SettingsWindow));
    assert!(!add_widget_if_not_exists(&mut open, WidgetType::SettingsWindow));
    assert_eq!(
        open,
        vec![WidgetType::PhysicsOverlay, WidgetType::MenuBar, WidgetType::SettingsWindow]
    );
}

#[test]
fn dispatch_opens_each_window_once() {
    let open = vec![WidgetType::PhysicsOverlay, WidgetType::MenuBar, WidgetType::StatusOverlay];
    let d = dispatch_pending_actions(
        &open,
        &vec![
            AppAction::OpenSettingsWindow,
            AppAction::OpenAboutWindow,
            AppAction::OpenSettingsWindow,
        ],
    );
    assert_eq!(d.opened, vec![WidgetType::SettingsWindow, WidgetType::AboutWindow]);
    assert!(!d.quit);
}

#[test]
fn dispatch_skips_window_already_open() {
    let open = vec![WidgetType::AboutWindow];
    let d = dispatch_pending_actions(&open, &vec![AppAction::OpenAboutWindow]);
    assert!(d.opened.is_empty());
    assert!(!d.quit);
}

#[test]
fn dispatch_quit_stops_later_actions() {
    let d = dispatch_pending_actions(
        &vec![],
        &vec![AppAction::OpenAboutWindow, AppAction::Quit, AppAction::OpenSettingsWindow],
    );
    assert_eq!(d.opened, vec![WidgetType::AboutWindow]);
    assert!(d.quit);
}

#[test]
fn dispatch_nothing_pending() {
    let d = dispatch_pending_actions(&vec![WidgetType::MenuBar], &vec![]);
    assert!(d.opened.is_empty());
    assert!(!d.quit);
}
