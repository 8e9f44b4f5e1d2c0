use std::cmp::Ordering;

use std::collections::BTreeMap;

use train_game::chunk_textures::{chunk_texture_steps, TextureStep};
use train_game::entity::EntitySpawner;
use train_game::event_bus::{EventBus, FontSelection, TrainEvent};
use train_game::sounds::{sound_commands, SoundCommand, SoundKind};
use train_game::terrain::{
    chunk_deregister_node, chunk_deregister_track, chunk_mesh_request, chunk_needs_trees,
    can_fill_block, chunk_register_node, chunk_register_track, ensure_chunk_exists, fits_block,
    fits_quadtile,
    install_chunk_meshes, quadtile,
    ground_plane_quads, regen_tree_targets, regenerate_trees, remove_chunk_if_empty,
    spawn_new_chunk, tree_mesh_indices, ChunkIndex,
    MeshRequest, TerrainChunk,
};
use train_game::ui::{text_box_response, ButtonState, Shade, UiEvent};
use train_game::world::{
    follow_target, leading_selected_nodes, pan_direction, release_pressed_node,
    request_chunk_redraw, request_tree_regen, select_on_click, update_ruler_start, HoveredEntity,
    SelectedEntity, World,
};

fn chunk_at(world: &World<u8>, x: i32, y: i32) -> &TerrainChunk<u8> {
    let id = world.chunk_map().get(&(x, y)).expect("chunk filed");
    world.chunks().get(id).expect("chunk present")
}

fn nodes_of(sel: &Option<SelectedEntity<u8>>) -> Vec<u64> {
    match sel {
        Some(SelectedEntity::Nodes(v)) => v.clone(),
        _ => panic!("no node selection"),
    }
}

#[test]
fn event_bus_keeps_order_and_clears() {
    let mut bus: EventBus<u32> = EventBus::new();
    assert_eq!(bus.len(), 0);
    bus.enqueue(3);
    bus.enqueue(1);
    bus.enqueue(2);
    assert_eq!(bus.len(), 3);
    assert_eq!(bus.iter().copied().collect::<Vec<_>>(), vec![3, 1, 2]);
    assert_eq!(*bus.get(1), 1);
    bus.clear();
    assert_eq!(bus.len(), 0);
    assert_eq!(bus.iter().count(), 0);
    bus.enqueue(9);
    assert_eq!(bus.iter().copied().collect::<Vec<_>>(), vec![9]);
}

#[test]
fn font_selection_keeps_last_click() {
    let mut f = FontSelection::new();
    assert_eq!(f.new_font_id(), None);
    f.clicked(4);
    assert_eq!(f.new_font_id(), Some(4));
    f.clicked(2);
    assert_eq!(f.new_font_id(), Some(2));
}

#[test]
fn spawner_counts_up() {
    let mut s = EntitySpawner::default();
    assert_eq!(s.spawn(), 0);
    assert_eq!(s.spawn(), 1);
    assert_eq!(s.spawn(), 2);
}

#[test]
fn sound_paths() {
    assert_eq!(SoundKind::ButtonUp.path(), "assets/sfx/button-up.ogg");
    assert_eq!(SoundKind::Crossword.path(), "assets/sfx/nyt-crossword.ogg");
    assert_eq!(SoundKind::HouseOfLeaves.path(), "assets/sfx/house_of_leaves.mp3");
    let kinds = [SoundKind::ButtonUp, SoundKind::Crossword, SoundKind::HouseOfLeaves];
    for a in kinds {
        for b in kinds {
            assert_eq!(a == b, a.path() == b.path());
        }
    }
}

#[test]
fn sound_commands_follow_events() {
    let mut bus = EventBus::new();
    bus.enqueue(TrainEvent::Sound(SoundKind::Crossword));
    bus.enqueue(TrainEvent::ToggleDebug);
    bus.enqueue(TrainEvent::KillSound(12));
    bus.enqueue(TrainEvent::RedrawTile(ChunkIndex::new(0, 0)));
    bus.enqueue(TrainEvent::Sound(SoundKind::ButtonUp));
    assert_eq!(
        sound_commands(&bus),
        vec![
            SoundCommand::Play(SoundKind::Crossword),
            SoundCommand::Kill(12),
            SoundCommand::Play(SoundKind::ButtonUp),
        ]
    );
    assert_eq!(sound_commands(&EventBus::new()), vec![]);
}

#[test]
fn chunk_index_order_is_column_then_row() {
    let a = ChunkIndex::new(1, 5);
    let b = ChunkIndex::new(2, -7);
    let c = ChunkIndex::new(1, 6);
    assert_eq!(a.partial_cmp(&b), Some(Ordering::Less));
    assert_eq!(b.partial_cmp(&a), Some(Ordering::Greater));
    assert_eq!(a.partial_cmp(&c), Some(Ordering::Less));
    assert_eq!(a.partial_cmp(&a), Some(Ordering::Equal));
    assert_eq!(a.cmp(&b), Ordering::Less);
    assert_eq!(a.cmp(&c), Ordering::Less);
    assert_eq!(a.as_ivec2(), (1, 5));
    assert_eq!(a.key(), (1, 5));
}

#[test]
fn terrain_chunk_tracks_and_nodes() {
    let mut c: TerrainChunk<u8> = TerrainChunk::new(ChunkIndex::new(-1, 2));
    assert!(c.is_empty());
    assert_eq!(c.index(), ChunkIndex::new(-1, 2));
    c.add_track(5);
    assert!(!c.is_empty());
    c.add_track(5);
    assert_eq!(c.tracks().len(), 1);
    c.remove_track(5);
    assert!(c.is_empty());
    c.add_node(8);
    assert!(!c.is_empty());
    assert!(c.nodes().contains(&8));
    c.remove_node(8);
    assert!(c.is_empty());
    assert!(c.trees.is_empty());
    assert_eq!(c.terrain_mesh, None);
    assert_eq!(c.tree_mesh, None);
}

#[test]
fn new_world_is_empty() {
    let w: World<u8> = World::new(3);
    assert_eq!(w.ticks(), 0);
    assert_eq!(w.current_font_id(), Some(3));
    assert!(!w.show_detail());
    assert!(w.chunks().is_empty());
    assert!(w.chunk_map().is_empty());
    assert_eq!(w.followed_car(), None);
}

#[test]
fn spawn_new_chunk_once_per_position() {
    let mut w: World<u8> = World::new(0);
    let mut ev = EventBus::new();
    let idx = ChunkIndex::new(3, 4);
    assert_eq!(spawn_new_chunk(&mut w, &mut ev, idx), Some(0));
    assert_eq!(spawn_new_chunk(&mut w, &mut ev, idx), None);
    assert_eq!(spawn_new_chunk(&mut w, &mut ev, ChunkIndex::new(4, 3)), Some(1));
    assert_eq!(w.chunks().len(), 2);
    assert_eq!(chunk_at(&w, 3, 4).index(), idx);
    assert_eq!(ev.len(), 0);
}

#[test]
fn ensure_chunk_exists_fills_block_once() {
    let mut w: World<u8> = World::new(0);
    let mut ev = EventBus::new();
    spawn_new_chunk(&mut w, &mut ev, ChunkIndex::new(10, 10));
    ensure_chunk_exists(&mut w, &mut ev, ChunkIndex::new(10, 10));
    assert_eq!(w.chunk_map().len(), 25);
    for x in 8..=12 {
        for y in 8..=12 {
            assert_eq!(chunk_at(&w, x, y).index(), ChunkIndex::new(x, y));
        }
    }
    assert_eq!(w.chunk_map().get(&(10, 10)), Some(&0));
    assert_eq!(w.chunk_map().get(&(8, 8)), Some(&1));
    assert_eq!(w.chunk_map().get(&(8, 9)), Some(&2));
    assert_eq!(w.chunk_map().get(&(12, 12)), Some(&24));
    let ids: std::collections::BTreeSet<u64> = w.chunk_map().values().copied().collect();
    assert_eq!(ids.len(), 25);
    ensure_chunk_exists(&mut w, &mut ev, ChunkIndex::new(10, 10));
    assert_eq!(w.chunk_map().len(), 25);
    assert_eq!(w.chunks().len(), 25);
    ensure_chunk_exists(&mut w, &mut ev, ChunkIndex::new(11, 10));
    assert_eq!(w.chunk_map().len(), 30);
    assert_eq!(ev.len(), 0);
}

#[test]
fn register_and_deregister() {
    let mut w: World<u8> = World::new(0);
    let mut ev = EventBus::new();
    let idx = ChunkIndex::new(0, 0);
    assert_eq!(chunk_register_track(&mut w, &mut ev, idx, 40), Some(()));
    assert_eq!(w.chunk_map().len(), 25);
    assert!(chunk_at(&w, 0, 0).tracks().contains(&40));
    assert_eq!(chunk_register_node(&mut w, &mut ev, idx, 41), Some(()));
    assert!(chunk_at(&w, 0, 0).nodes().contains(&41));
    assert!(chunk_at(&w, 1, 1).is_empty());
    assert_eq!(chunk_deregister_track(&mut w, idx, 40), Some(()));
    assert!(!chunk_at(&w, 0, 0).tracks().contains(&40));
    assert_eq!(chunk_deregister_node(&mut w, idx, 41), Some(()));
    assert!(chunk_at(&w, 0, 0).is_empty());
    assert_eq!(chunk_deregister_track(&mut w, ChunkIndex::new(50, 50), 40), None);
    assert_eq!(chunk_deregister_node(&mut w, ChunkIndex::new(50, 50), 41), None);
}

#[test]
fn remove_chunk_if_empty_cases() {
    let mut w: World<u8> = World::new(0);
    let mut ev = EventBus::new();
    let a = spawn_new_chunk(&mut w, &mut ev, ChunkIndex::new(0, 0)).unwrap();
    let b = spawn_new_chunk(&mut w, &mut ev, ChunkIndex::new(0, 1)).unwrap();
    chunk_register_node(&mut w, &mut ev, ChunkIndex::new(0, 1), 77);
    let n = w.chunks().len();
    assert_eq!(remove_chunk_if_empty(&mut w, 999, ChunkIndex::new(0, 0)), None);
    assert_eq!(remove_chunk_if_empty(&mut w, b, ChunkIndex::new(0, 1)), Some(()));
    assert_eq!(w.chunks().len(), n);
    assert_eq!(remove_chunk_if_empty(&mut w, a, ChunkIndex::new(0, 0)), Some(()));
    assert_eq!(w.chunks().len(), n - 1);
    assert_eq!(w.chunk_map().get(&(0, 0)), None);
    assert!(w.chunk_map().get(&(0, 1)).is_some());
}

#[test]
fn trees_are_grown_once() {
    let mut w: World<u8> = World::new(0);
    let mut ev = EventBus::new();
    let idx = ChunkIndex::new(2, 2);
    assert!(!chunk_needs_trees(&w, idx));
    assert_eq!(regenerate_trees(&mut w, idx, vec![1, 2]), None);
    spawn_new_chunk(&mut w, &mut ev, idx);
    assert!(chunk_needs_trees(&w, idx));
    assert_eq!(regenerate_trees(&mut w, idx, vec![1, 2]), Some(()));
    assert_eq!(chunk_at(&w, 2, 2).trees, vec![1, 2]);
    assert!(!chunk_needs_trees(&w, idx));
    assert_eq!(regenerate_trees(&mut w, idx, vec![7]), Some(()));
    assert_eq!(chunk_at(&w, 2, 2).trees, vec![1, 2]);
}

#[test]
fn meshes_are_requested_then_installed() {
    let mut w: World<u8> = World::new(0);
    let mut ev = EventBus::new();
    let idx = ChunkIndex::new(0, 0);
    assert_eq!(chunk_mesh_request(&w, idx), None);
    assert_eq!(install_chunk_meshes(&mut w, idx, 1, None), None);
    spawn_new_chunk(&mut w, &mut ev, idx);
    assert_eq!(
        chunk_mesh_request(&w, idx),
        Some(MeshRequest { build_terrain: true, build_trees: false })
    );
    regenerate_trees(&mut w, idx, vec![4]);
    assert_eq!(
        chunk_mesh_request(&w, idx),
        Some(MeshRequest { build_terrain: true, build_trees: true })
    );
    assert_eq!(install_chunk_meshes(&mut w, idx, 100, Some(101)), Some(()));
    assert_eq!(chunk_at(&w, 0, 0).terrain_mesh, Some(100));
    assert_eq!(chunk_at(&w, 0, 0).tree_mesh, Some(101));
    assert_eq!(
        chunk_mesh_request(&w, idx),
        Some(MeshRequest { build_terrain: false, build_trees: false })
    );
    install_chunk_meshes(&mut w, idx, 200, None);
    assert_eq!(chunk_at(&w, 0, 0).terrain_mesh, Some(200));
    assert_eq!(chunk_at(&w, 0, 0).tree_mesh, Some(101));
}

#[test]
fn quadtile_cases() {
    let r = ChunkIndex::new(5, -3);
    let c = |x, y| ChunkIndex::new(x, y);
    assert_eq!(quadtile(r, false, false), [c(5, -3), c(6, -3), c(5, -2), c(6, -2)]);
    assert_eq!(quadtile(r, true, false), [c(4, -3), c(5, -3), c(4, -2), c(5, -2)]);
    assert_eq!(quadtile(r, false, true), [c(5, -4), c(6, -4), c(5, -3), c(6, -3)]);
    assert_eq!(quadtile(r, true, true), [c(4, -4), c(5, -4), c(4, -3), c(5, -3)]);
    for (w, s) in [(false, false), (true, false), (false, true), (true, true)] {
        assert!(quadtile(r, w, s).contains(&r));
    }
}

#[test]
fn regen_targets_in_order() {
    let mut bus = EventBus::new();
    bus.enqueue(TrainEvent::RegenerateTrees(ChunkIndex::new(1, 1)));
    bus.enqueue(TrainEvent::RedrawTile(ChunkIndex::new(1, 1)));
    bus.enqueue(TrainEvent::RegenerateTrees(ChunkIndex::new(-2, 0)));
    assert_eq!(
        regen_tree_targets(&bus),
        vec![ChunkIndex::new(1, 1), ChunkIndex::new(-2, 0)]
    );
}

#[test]
fn clicks_update_selection() {
    let mut sel: Option<SelectedEntity<u8>> = None;
    assert_eq!(select_on_click(&mut sel, Some(HoveredEntity::Node(5)), false), Some(5));
    assert_eq!(nodes_of(&sel), vec![5]);
    assert_eq!(select_on_click(&mut sel, Some(HoveredEntity::Node(6)), true), Some(6));
    assert_eq!(nodes_of(&sel), vec![5, 6]);
    select_on_click(&mut sel, Some(HoveredEntity::Node(5)), true);
    assert_eq!(nodes_of(&sel), vec![6]);
    select_on_click(&mut sel, Some(HoveredEntity::Node(9)), false);
    assert_eq!(nodes_of(&sel), vec![9]);
    select_on_click(&mut sel, Some(HoveredEntity::Node(9)), false);
    assert_eq!(nodes_of(&sel), Vec::<u64>::new());
    assert_eq!(select_on_click(&mut sel, Some(HoveredEntity::Car(3)), false), None);
    assert!(matches!(sel, Some(SelectedEntity::Car(3))));
    select_on_click(&mut sel, Some(HoveredEntity::Node(4)), true);
    assert_eq!(nodes_of(&sel), vec![4]);
    select_on_click(&mut sel, Some(HoveredEntity::Track(7)), true);
    assert!(matches!(sel, Some(SelectedEntity::Track(7))));
    assert_eq!(select_on_click(&mut sel, None, false), None);
    assert!(sel.is_none());
}

#[test]
fn shift_click_twice_restores() {
    let mut sel: Option<SelectedEntity<u8>> = Some(SelectedEntity::Nodes(vec![1, 2, 3]));
    select_on_click(&mut sel, Some(HoveredEntity::Node(8)), true);
    assert_eq!(nodes_of(&sel), vec![1, 2, 3, 8]);
    select_on_click(&mut sel, Some(HoveredEntity::Node(8)), true);
    assert_eq!(nodes_of(&sel), vec![1, 2, 3]);
}

#[test]
fn follow_and_leading_nodes() {
    let car: Option<SelectedEntity<u8>> = Some(SelectedEntity::Car(11));
    assert_eq!(follow_target(&car), Some(11));
    let nodes: Option<SelectedEntity<u8>> = Some(SelectedEntity::Nodes(vec![4, 5, 6]));
    assert_eq!(follow_target(&nodes), None);
    assert_eq!(follow_target::<u8>(&None), None);
    assert_eq!(leading_selected_nodes(&nodes, 2), Some(vec![4, 5]));
    assert_eq!(leading_selected_nodes(&nodes, 3), Some(vec![4, 5, 6]));
    assert_eq!(leading_selected_nodes(&nodes, 4), None);
    assert_eq!(leading_selected_nodes(&car, 0), None);
}

#[test]
fn pan_direction_cases() {
    assert_eq!(pan_direction(true, false, false, false, false), (0, 1));
    assert_eq!(pan_direction(false, true, true, false, false), (-1, -1));
    assert_eq!(pan_direction(true, true, true, true, false), (0, 0));
    assert_eq!(pan_direction(true, false, false, true, true), (0, 0));
}

#[test]
fn chunk_requests() {
    let mut w: World<u8> = World::new(0);
    let mut ev = EventBus::new();
    let idx = ChunkIndex::new(1, 2);
    request_chunk_redraw(&w, &mut ev, None);
    assert_eq!(ev.len(), 0);
    request_chunk_redraw(&w, &mut ev, Some(idx));
    assert_eq!(ev.iter().copied().collect::<Vec<_>>(), vec![TrainEvent::RedrawTile(idx)]);
    let id = spawn_new_chunk(&mut w, &mut EventBus::new(), idx).unwrap();
    ev.clear();
    request_chunk_redraw(&w, &mut ev, Some(idx));
    assert_eq!(
        ev.iter().copied().collect::<Vec<_>>(),
        vec![TrainEvent::ChunkUpdate(id), TrainEvent::RedrawTile(idx)]
    );
    ev.clear();
    request_tree_regen(&mut ev, Some(idx));
    request_tree_regen(&mut ev, None);
    assert_eq!(
        ev.iter().copied().collect::<Vec<_>>(),
        vec![TrainEvent::RegenerateTrees(idx), TrainEvent::RedrawTile(idx)]
    );
}

#[test]
fn text_box_responses() {
    let mut ev = EventBus::new();
    let r = text_box_response(&mut ev, true, true, true, Some(UiEvent::CheckboxClicked));
    assert_eq!(
        r,
        ButtonState { is_hovered: true, is_clicked: true, is_pressed: true, shade: Shade::Pressed }
    );
    assert!(r.clicked());
    assert_eq!(ev.iter().copied().collect::<Vec<_>>(), vec![UiEvent::CheckboxClicked]);
    let r = text_box_response(&mut ev, true, false, false, Some(UiEvent::ButtonClicked));
    assert_eq!(r.shade, Shade::Hovered);
    assert!(!r.clicked());
    let r = text_box_response(&mut ev, false, true, true, Some(UiEvent::ButtonClicked));
    assert_eq!(
        r,
        ButtonState { is_hovered: false, is_clicked: false, is_pressed: false, shade: Shade::Plain }
    );
    let r = text_box_response(&mut ev, true, true, false, None);
    assert!(r.is_clicked);
    assert_eq!(ev.len(), 1);
}

#[test]
fn smoke_every_fifth_tick() {
    let mut w: World<u8> = World::new(0);
    let smoke: Vec<bool> = (0..10).map(|_| w.advance_tick()).collect();
    assert_eq!(
        smoke,
        vec![false, false, false, false, true, false, false, false, false, true]
    );
    assert_eq!(w.ticks(), 10);
}

#[test]
fn world_settings_round_trip() {
    let mut w: World<u8> = World::new(1);
    w.toggle_detail();
    assert!(w.show_detail());
    w.toggle_detail();
    assert!(!w.show_detail());
    w.set_followed_car(Some(9));
    assert_eq!(w.followed_car(), Some(9));
    w.set_current_font_id(None);
    assert_eq!(w.current_font_id(), None);
    assert_eq!(w.ticks(), 0);
}

#[test]
fn entities_are_numbered_after_chunks() {
    let mut w: World<u8> = World::new(0);
    let mut ev = EventBus::new();
    assert_eq!(w.next_entity(), 0);
    assert_eq!(w.spawn_entity(), 0);
    assert_eq!(spawn_new_chunk(&mut w, &mut ev, ChunkIndex::new(3, 3)), Some(1));
    assert_eq!(spawn_new_chunk(&mut w, &mut ev, ChunkIndex::new(3, 3)), None);
    assert_eq!(w.next_entity(), 2);
    assert_eq!(w.spawn_entity(), 2);
    assert_eq!(w.next_entity(), 3);
}

#[test]
fn block_and_quadtile_fit_checks() {
    assert!(fits_block(ChunkIndex::new(0, 0)));
    assert!(fits_block(ChunkIndex::new(i32::MAX - 2, i32::MIN + 2)));
    assert!(!fits_block(ChunkIndex::new(i32::MAX - 1, 0)));
    assert!(!fits_block(ChunkIndex::new(0, i32::MIN + 1)));
    assert!(fits_quadtile(ChunkIndex::new(i32::MAX, 0), true, false));
    assert!(!fits_quadtile(ChunkIndex::new(i32::MAX, 0), false, false));
    assert!(!fits_quadtile(ChunkIndex::new(0, i32::MIN), true, true));
    assert!(fits_quadtile(ChunkIndex::new(0, i32::MIN), true, false));
}

#[test]
fn texture_steps_follow_events() {
    let mut w: World<u8> = World::new(0);
    let mut ev = EventBus::new();
    let a = spawn_new_chunk(&mut w, &mut ev, ChunkIndex::new(0, 0)).unwrap();
    let b = spawn_new_chunk(&mut w, &mut ev, ChunkIndex::new(1, 0)).unwrap();
    let mut textured: BTreeMap<u64, ()> = BTreeMap::new();
    textured.insert(b, ());
    ev.enqueue(TrainEvent::ChunkUpdate(a));
    ev.enqueue(TrainEvent::RedrawTile(ChunkIndex::new(0, 0)));
    ev.enqueue(TrainEvent::ChunkUpdate(a));
    ev.enqueue(TrainEvent::ChunkUpdate(b));
    ev.enqueue(TrainEvent::ChunkUpdate(99));
    ev.enqueue(TrainEvent::ToggleDebug);
    let steps = chunk_texture_steps(&w, &ev, &textured);
    assert_eq!(
        steps,
        vec![TextureStep::Create(a), TextureStep::Redraw(ChunkIndex::new(0, 0))]
    );
}

#[test]
fn pressed_node_is_released_with_the_button() {
    let mut pressed: Option<(u64, u32)> = Some((4, 100));
    release_pressed_node(&mut pressed, true);
    assert_eq!(pressed, Some((4, 100)));
    release_pressed_node(&mut pressed, false);
    assert_eq!(pressed, None);
}

#[test]
fn ruler_starts_at_cursor_while_key_held() {
    let mut start: Option<(i32, i32)> = None;
    update_ruler_start(&mut start, true, true, (3, 4));
    assert_eq!(start, Some((3, 4)));
    update_ruler_start(&mut start, false, true, (9, 9));
    assert_eq!(start, Some((3, 4)));
    update_ruler_start(&mut start, false, false, (9, 9));
    assert_eq!(start, None);
    update_ruler_start(&mut start, true, false, (1, 1));
    assert_eq!(start, None);
}

#[test]
fn remove_chunk_with_another_position() {
    let mut w: World<u8> = World::new(0);
    let mut ev = EventBus::new();
    let a = spawn_new_chunk(&mut w, &mut ev, ChunkIndex::new(0, 0)).unwrap();
    let b = spawn_new_chunk(&mut w, &mut ev, ChunkIndex::new(4, 4)).unwrap();
    assert_eq!(remove_chunk_if_empty(&mut w, a, ChunkIndex::new(4, 4)), Some(()));
    assert!(w.chunks().get(&a).is_none());
    assert!(w.chunks().get(&b).is_some());
    assert_eq!(w.chunk_map().get(&(4, 4)), None);
    assert_eq!(w.chunk_map().get(&(0, 0)), None);
    assert_eq!(w.chunk_map().len(), 0);
}

#[test]
fn fill_check_counts_missing_chunks() {
    let mut w: World<u8> = World::new(0);
    let mut ev = EventBus::new();
    assert!(can_fill_block(&w, ChunkIndex::new(0, 0)));
    assert!(!can_fill_block(&w, ChunkIndex::new(i32::MAX, 0)));
    ensure_chunk_exists(&mut w, &mut ev, ChunkIndex::new(0, 0));
    assert!(can_fill_block(&w, ChunkIndex::new(1, 1)));
}

#[test]
fn ground_plane_quads_number_corners() {
    let q = ground_plane_quads(2);
    assert_eq!(q, vec![(3, 4, 1, 0), (6, 7, 4, 3), (4, 5, 2, 1), (7, 8, 5, 4)]);
    assert!(ground_plane_quads(0).is_empty());
    let big = ground_plane_quads(255);
    assert_eq!(big.len(), 255 * 255);
    assert_eq!(*big.last().unwrap(), (65534, 65535, 65279, 65278));
}

#[test]
fn tree_mesh_indices_count_up() {
    assert_eq!(tree_mesh_indices(1), vec![0, 1, 2, 3, 4, 5]);
    assert!(tree_mesh_indices(0).is_empty());
    let all = tree_mesh_indices(10922);
    assert_eq!(all.len(), 65532);
    assert_eq!(*all.last().unwrap(), 65531);
}
