use manokeso::render::tile::uniform::frame::FrameUniform;
use manokeso::render::uniform::arr_eq;
use manokeso::util::point::Point;
use manokeso::world::update::{bound_connex, connex_groups, neighbor_index};
use manokeso::world::world::{BoardAction, BoardSlice, WorldControl, WorldEvent};

#[test]
fn control_starts_paused_and_steps_once() {
    let mut c = WorldControl::new();
    assert!(c.paused);
    assert!(c.client_ready);
    assert!(!c.begin_tick());
    assert_eq!(c.receive(WorldEvent::Step, 10), BoardAction::Nothing);
    assert!(c.begin_tick());
    assert!(!c.begin_tick());
    c.receive(WorldEvent::Pause(false), 10);
    assert!(c.begin_tick());
    assert!(c.begin_tick());
}

#[test]
fn control_board_actions() {
    let mut c = WorldControl::new();
    let before = c;
    assert_eq!(
        c.receive(WorldEvent::Swap(Point::new(1, 2), Point::new(3, 0)), 10),
        BoardAction::SwapCells(21, 3)
    );
    assert_eq!(c.receive(WorldEvent::AddEnergy(Point::new(4, 4)), 10), BoardAction::AddEnergy(44));
    assert_eq!(c, before);
}

#[test]
fn control_camera_updates_and_sync() {
    let mut c = WorldControl::new();
    assert!(!c.needs_sync(false));
    assert!(c.needs_sync(true));
    let s = BoardSlice::new(Point::new(0, 0), Point::new(4, 4));
    c.receive(WorldEvent::CameraUpdate(s), 10);
    assert_eq!(c.slice, s);
    assert!(c.slice_change);
    assert!(c.needs_sync(false));
    c.synced();
    assert!(!c.needs_sync(false));
    c.receive(WorldEvent::CameraUpdate(s), 10);
    assert!(!c.slice_change);
    c.client_ready = false;
    assert!(!c.needs_sync(true));
    c.receive(WorldEvent::RenderFinished, 10);
    assert!(c.needs_sync(true));
}

#[test]
fn connex_groups_values() {
    assert_eq!(connex_groups(0), (0, 0, 1));
    assert_eq!(connex_groups(1), (0, 0, 1));
    assert_eq!(connex_groups(7), (1, 1, 1));
    assert_eq!(connex_groups(27), (1, 0, 2));
    assert_eq!(connex_groups(200), (4, 4, 8));
}

#[test]
fn connex_bounds() {
    assert_eq!(bound_connex(250), 200);
    assert_eq!(bound_connex(200), 200);
    assert_eq!(bound_connex(17), 17);
}

#[test]
fn neighbor_index_edges() {
    assert_eq!(neighbor_index(0, 0, 0, 0, 5, 4), Some(0));
    assert_eq!(neighbor_index(0, 0, -1, 0, 5, 4), None);
    assert_eq!(neighbor_index(0, 0, 0, 2, 5, 4), Some(10));
    assert_eq!(neighbor_index(4, 3, 1, 0, 5, 4), None);
    assert_eq!(neighbor_index(4, 3, 0, -2, 5, 4), Some(9));
    assert_eq!(neighbor_index(2, 2, 2, 0, 5, 4), Some(14));
    assert_eq!(neighbor_index(2, 2, 0, 2, 5, 4), None);
}

#[test]
fn arr_eq_compares_positions() {
    assert!(arr_eq([1, 2, 3], [1, 2, 3]));
    assert!(!arr_eq([1, 2, 3], [1, 2, 4]));
    assert!(arr_eq::<u8, 0>([], []));
    assert!(!arr_eq([0.5f32, 1.0], [0.5, 2.0]));
}

#[test]
fn frame_uniform_starts_at_zero() {
    assert_eq!(FrameUniform::new().time, 0);
}
