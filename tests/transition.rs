use presemd::grid_transition::{ActiveTransition, TransitionDirection, TransitionKind};
use presemd::transition;

#[test]
fn from_name_spatial() {
    assert_eq!(
        TransitionKind::from_name("spatial"),
        TransitionKind::Spatial
    );
}

#[test]
fn from_name_known_variants() {
    assert_eq!(TransitionKind::from_name("fade"), TransitionKind::Fade);
    assert_eq!(
        TransitionKind::from_name("slide"),
        TransitionKind::SlideHorizontal
    );
    assert_eq!(TransitionKind::from_name("none"), TransitionKind::NoTransition);
    assert_eq!(
        TransitionKind::from_name("unknown"),
        TransitionKind::SlideHorizontal
    );
}

#[test]
fn spatial_direction_same_row() {
    let t = ActiveTransition::new(0, 1, TransitionKind::Spatial, TransitionDirection::Forward);
    let (dx, dy) = t.spatial_direction(4);
    assert_eq!(dx as f32, 1.0);
    assert_eq!(dy as f32, 0.0);
}

#[test]
fn spatial_direction_row_wrap() {
    let t = ActiveTransition::new(3, 4, TransitionKind::Spatial, TransitionDirection::Forward);
    let (dx, dy) = t.spatial_direction(4);
    assert_eq!(dx as f32, -1.0);
    assert_eq!(dy as f32, 1.0);
}

#[test]
fn spatial_direction_backward() {
    let t = ActiveTransition::new(2, 1, TransitionKind::Spatial, TransitionDirection::Backward);
    let (dx, dy) = t.spatial_direction(4);
    assert_eq!(dx as f32, -1.0);
    assert_eq!(dy as f32, 0.0);
}

#[test]
fn spatial_direction_same_column() {
    let t = ActiveTransition::new(0, 4, TransitionKind::Spatial, TransitionDirection::Forward);
    let (dx, dy) = t.spatial_direction(4);
    assert_eq!(dx as f32, 0.0);
    assert_eq!(dy as f32, 1.0);
}

#[test]
fn app_transition_names() {
    assert_eq!(transition::TransitionKind::from_name("fade"), transition::TransitionKind::Fade);
    assert_eq!(transition::TransitionKind::from_name("none"), transition::TransitionKind::NoTransition);
    assert_eq!(transition::TransitionKind::from_name("slide"), transition::TransitionKind::SlideHorizontal);
    assert_eq!(transition::TransitionKind::from_name("spatial"), transition::TransitionKind::SlideHorizontal);
    assert_eq!(transition::TransitionKind::from_name("Fade"), transition::TransitionKind::SlideHorizontal);
}

#[test]
fn transition_length() {
    assert!(!transition::transition_done(0));
    assert!(!transition::transition_done(299));
    assert!(transition::transition_done(300));
    let t = transition::ActiveTransition::new(
        0,
        1,
        transition::TransitionKind::Fade,
        transition::TransitionDirection::Forward,
    );
    assert!(!t.is_complete());
    assert_eq!(t.from, 0);
    assert_eq!(t.to, 1);
}
