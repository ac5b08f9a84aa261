use quotaglass::login_item;
use quotaglass::providers::ProviderId;
use quotaglass::widget::{
    centres_in_range, copy_step, corner_from_text, corner_point_in_range, corner_xy, height_step,
    menu_action, nearest_corner, snap_target,
    watched_provider, Area, CopyStep, Debounce, HeightStep, Margins, MenuAction, Motion, PathFacts,
};

const SCREEN: Area = Area { x: 0, y: 0, width: 2880, height: 1800 };
const MARGINS: Margins = Margins { side: 20, top: 88, bottom: 20 };

#[test]
fn the_saved_corner_defaults_to_top_right() {
    assert_eq!(corner_from_text(&Some(" bl\n".to_string())), "bl");
    assert_eq!(corner_from_text(&Some("middle".to_string())), "tr");
    assert_eq!(corner_from_text(&None), "tr");
}

#[test]
fn corners_keep_their_margins() {
    assert_eq!(corner_xy("tl", SCREEN, MARGINS, 600, 400), (20, 88));
    assert_eq!(corner_xy("tr", SCREEN, MARGINS, 600, 400), (2260, 88));
    assert_eq!(corner_xy("br", SCREEN, MARGINS, 600, 400), (2260, 1380));
    // A window taller than the screen stays at its top edge.
    assert_eq!(corner_xy("bl", SCREEN, MARGINS, 600, 4000), (20, 0));
}

#[test]
fn a_drag_snaps_to_the_nearest_corner() {
    assert_eq!(nearest_corner(SCREEN, 100, 100, 600, 400), "tl");
    assert_eq!(nearest_corner(SCREEN, 2000, 1500, 600, 400), "br");
    let (corner, x, y) = snap_target(SCREEN, MARGINS, 2000, 100, 600, 400);
    assert_eq!((corner.as_str(), x, y), ("tr", 2260, 88));
}

#[test]
fn motion_blocks_background_repositioning() {
    let mut motion = Motion::new();
    assert!(motion.may_reposition());
    assert!(motion.begin_drag());
    assert!(!motion.begin_drag());
    assert!(!motion.may_reposition());
    assert_eq!(height_step(300, &motion), HeightStep::ResizeOnly);
    motion.release();
    motion.start_snap();
    assert!(!motion.snap_interrupted());
    assert!(!motion.may_reposition());
    assert!(motion.finish_snap());
    assert!(motion.may_reposition());
    assert_eq!(height_step(0, &motion), HeightStep::Ignore);
    assert_eq!(height_step(300, &motion), HeightStep::ResizeAndPlace);
}

#[test]
fn migration_does_not_overwrite_new_state_or_copy_login_marker() {
    let name = |n: &str| Some(n.to_string());
    assert_eq!(copy_step(&name(".corner"), false, true, true), CopyStep::Skip);
    assert_eq!(copy_step(&name(".login-registered"), false, false, true), CopyStep::Skip);
    assert_eq!(copy_step(&name("cache.json"), false, false, true), CopyStep::Copy);
    assert_eq!(copy_step(&name("nested"), true, true, true), CopyStep::Descend);
    assert_eq!(copy_step(&name(".login-registered"), false, false, false), CopyStep::Copy);
}

#[test]
fn file_events_name_the_provider_they_touch() {
    let fact = |jsonl, in_codex, in_claude| PathFacts { jsonl, in_codex, in_claude };
    assert_eq!(watched_provider(&vec![fact(true, true, false)]), Some(ProviderId::Codex));
    assert_eq!(watched_provider(&vec![fact(true, false, true)]), Some(ProviderId::Claude));
    assert_eq!(watched_provider(&vec![fact(false, true, false)]), None);
    assert_eq!(watched_provider(&vec![fact(true, false, false)]), None);
    assert_eq!(
        watched_provider(&vec![fact(true, false, true), fact(false, true, false)]),
        Some(ProviderId::Codex)
    );
}

#[test]
fn updates_are_announced_after_a_quiet_spell() {
    let mut debounce = Debounce::new();
    debounce.note(ProviderId::Claude, 1_000);
    debounce.note(ProviderId::Codex, 1_200);
    debounce.note(ProviderId::Claude, 2_000);
    assert!(debounce.take_due(2_600).is_empty());
    assert_eq!(debounce.take_due(2_700), vec![ProviderId::Codex]);
    assert_eq!(debounce.take_due(3_500), vec![ProviderId::Claude]);
    assert!(debounce.pending.is_empty());
}

#[test]
fn tray_menu_items_map_to_actions() {
    assert_eq!(menu_action("quit"), MenuAction::Quit);
    assert_eq!(menu_action("toggle"), MenuAction::ToggleWindow);
    assert_eq!(menu_action("login"), MenuAction::ToggleLogin);
    assert_eq!(menu_action("other"), MenuAction::Nothing);
}

#[test]
fn login_items_are_unavailable_off_macos() {
    assert!(!login_item::is_enabled());
    assert!(!login_item::set(true));
    login_item::ensure_registered();
}

#[test]
fn placements_that_would_overflow_are_detected() {
    assert!(corner_point_in_range("tr", SCREEN, MARGINS, 640, 480));
    assert!(corner_point_in_range("bl", SCREEN, MARGINS, 640, 480));
    let far = Area { x: i32::MAX - 10, y: 0, width: 100, height: 100 };
    assert!(!corner_point_in_range("tr", far, MARGINS, 10, 10));
    assert!(corner_point_in_range("tl", Area { x: i32::MAX - 30, ..far }, MARGINS, 10, 10));
    assert!(!corner_point_in_range("tl", far, MARGINS, 10, 10));
    assert!(centres_in_range(SCREEN, 100, 100, 640, 480));
    assert!(!centres_in_range(SCREEN, i32::MAX - 10, 100, 640, 480));
    assert!(!centres_in_range(far, 0, 0, 10, 10));
}
