use sprite_scene::atlas::TextureAtlas;
use sprite_scene::error::Error;
use sprite_scene::geom::Frame;
use sprite_scene::geom::Rect;
use sprite_scene::geom::Vector2d;
use sprite_scene::geom::SCALE_LIMIT;
use sprite_scene::geom::SCALE_ONE;
use sprite_scene::partition::Region;
use sprite_scene::scene::Camera;
use sprite_scene::scene::Scene;
use sprite_scene::scene::SpriteDataPoint;

fn pt(x: i64, y: i64) -> Vector2d {
    Vector2d { x, y }
}

fn frame_at(u: i64, v: i64, w: i64, h: i64) -> Frame {
    Frame {
        top_left: pt(u, v),
        bottom_left: pt(u, v + h),
        bottom_right: pt(u + w, v + h),
        top_right: pt(u + w, v),
    }
}

fn test_atlas() -> TextureAtlas {
    let mut atlas = TextureAtlas::new();
    atlas.add_texture("hero".to_string(), frame_at(0, 0, 32, 32), Rect::new_raw(0, 0, 0, 16, 16));
    atlas.add_texture("coin".to_string(), frame_at(32, 0, 16, 16), Rect::new_raw(0, 0, 0, 8, 8));
    atlas.add_texture("dot".to_string(), frame_at(48, 0, 1, 1), Rect::new_raw(0, 0, 0, 0, 0));
    atlas
}

fn test_scene() -> Scene {
    Scene::new_empty(256, 2, test_atlas())
}

fn occupied_slots(scene: &Scene, region: Region) -> usize {
    match scene.part_map.get_arena(region) {
        None => 0,
        Some(arena) => arena.iter().filter(|s| s.is_some()).count(),
    }
}

fn arena_len(scene: &Scene, region: Region) -> usize {
    match scene.part_map.get_arena(region) {
        None => 0,
        Some(arena) => arena.len(),
    }
}

#[test]
fn add_sprite_places_default_rect_at_position() {
    let mut scene = test_scene();
    let id = scene.add_sprite(pt(10, 10), &"hero".to_string()).unwrap();
    let data = scene.read_data(id).unwrap();
    assert_eq!(data.rect.top_left, pt(10, 10));
    assert_eq!(data.rect.bottom_right, pt(26, 26));
    assert_eq!(data.frame, frame_at(0, 0, 32, 32));
    assert_eq!(data.anim_key, None);
}

#[test]
fn add_sprite_rejects_unknown_texture() {
    let mut scene = test_scene();
    assert_eq!(
        scene.add_sprite(pt(10, 10), &"ghost".to_string()).unwrap_err(),
        Error::UnknownTexture
    );
}

#[test]
fn add_sprite_rejects_out_of_bounds_corners() {
    let mut scene = test_scene();
    // The far corner of a 16x16 rect at (250, 250) leaves the 256 world.
    assert_eq!(
        scene.add_sprite(pt(250, 250), &"hero".to_string()).unwrap_err(),
        Error::XOutOfBound
    );
    assert_eq!(
        scene.add_sprite(pt(10, -4), &"hero".to_string()).unwrap_err(),
        Error::YOutOfBound
    );
    // The failed adds left no occupied slots behind.
    assert_eq!(occupied_slots(&scene, Region { x: 3, y: 3 }), 0);
    assert_eq!(occupied_slots(&scene, Region { x: 0, y: 0 }), 0);
}

#[test]
fn scenario_two_sprites_and_one_cell_camera() {
    // World size 256, depth 2: a 4x4 grid with cell size 64.
    let mut scene = test_scene();
    let _a = scene.add_sprite(pt(10, 10), &"hero".to_string()).unwrap();
    let _b = scene.add_sprite(pt(200, 200), &"hero".to_string()).unwrap();
    assert_eq!(
        scene.part_map.point_to_region(pt(10, 10)).unwrap(),
        Region { x: 0, y: 0 }
    );
    assert_eq!(
        scene.part_map.point_to_region(pt(200, 200)).unwrap(),
        Region { x: 3, y: 3 }
    );
    // A camera covering only region (0,0)'s world extent sees only the
    // first sprite.
    let cam = Camera::new(0, 0, 63, 63);
    scene.update(&cam, 16).unwrap();
    let batch = scene.render_data();
    assert_eq!(batch.sprite_pos.len(), 1);
    assert_eq!(batch.sprite_pos[0].top_left, pt(10, 10));
    assert_eq!(batch.tex_pos.len(), 1);
    assert!(batch.index.len() >= 6);
}

#[test]
fn whole_world_camera_sees_every_sprite() {
    let mut scene = test_scene();
    let _a = scene.add_sprite(pt(10, 10), &"hero".to_string()).unwrap();
    let _b = scene.add_sprite(pt(200, 200), &"hero".to_string()).unwrap();
    let cam = Camera::new(0, 0, 255, 255);
    scene.update(&cam, 16).unwrap();
    let batch = scene.render_data();
    assert_eq!(batch.sprite_pos.len(), 2);
    // Region enumeration order: (0,0) comes before (3,3).
    assert_eq!(batch.sprite_pos[0].top_left, pt(10, 10));
    assert_eq!(batch.sprite_pos[1].top_left, pt(200, 200));
}

#[test]
fn camera_outside_world_reports_an_error() {
    let mut scene = test_scene();
    let _a = scene.add_sprite(pt(10, 10), &"hero".to_string()).unwrap();
    let cam = Camera::new(0, 0, 300, 300);
    assert_eq!(scene.update(&cam, 16).unwrap_err(), Error::XOutOfBound);
    let cam2 = Camera::new(-5, 0, 60, 60);
    assert_eq!(scene.update(&cam2, 16).unwrap_err(), Error::XOutOfBound);
}

#[test]
fn disposing_all_sprites_leaves_no_occupied_slots() {
    let mut scene = test_scene();
    let region = Region { x: 0, y: 0 };
    let mut len_after_first_cycle = 0;
    for cycle in 0..3 {
        let mut ids = Vec::new();
        for i in 0..5 {
            ids.push(scene.add_sprite(pt(10 + i, 10), &"hero".to_string()).unwrap());
        }
        assert_eq!(occupied_slots(&scene, region), 10);
        for id in ids {
            scene.remove_sprite(id).unwrap();
        }
        assert_eq!(occupied_slots(&scene, region), 0);
        if cycle == 0 {
            len_after_first_cycle = arena_len(&scene, region);
        } else {
            // Freed slots are reused: the arena does not grow across
            // repeated create/dispose cycles.
            assert_eq!(arena_len(&scene, region), len_after_first_cycle);
        }
    }
}

#[test]
fn removed_handle_stays_stale_after_slot_reuse() {
    let mut scene = test_scene();
    let id = scene.add_sprite(pt(10, 10), &"hero".to_string()).unwrap();
    scene.remove_sprite(id).unwrap();
    assert_eq!(scene.remove_sprite(id).unwrap_err(), Error::StaleHandle);
    assert_eq!(scene.set_pos(id, 50, 50).unwrap_err(), Error::StaleHandle);
    // A new sprite reuses the table slot under a fresh generation; the old
    // id is still rejected.
    let id2 = scene.add_sprite(pt(20, 20), &"hero".to_string()).unwrap();
    assert_eq!(id2.index, id.index);
    assert_ne!(id2.generation, id.generation);
    assert_eq!(scene.read_data(id).unwrap_err(), Error::StaleHandle);
    assert!(scene.read_data(id2).is_ok());
}

#[test]
fn set_pos_moves_the_pivot_to_the_target() {
    let mut scene = test_scene();
    let id = scene.add_sprite(pt(10, 10), &"hero".to_string()).unwrap();
    scene.set_pos(id, 50, 60).unwrap();
    assert_eq!(scene.get_pos_top_left(id).unwrap(), pt(50, 60));
    let data = scene.read_data(id).unwrap();
    assert_eq!(data.rect.bottom_right, pt(66, 76));
}

#[test]
fn moved_sprite_is_seen_where_it_now_stands() {
    let mut scene = test_scene();
    let id = scene.add_sprite(pt(10, 10), &"hero".to_string()).unwrap();
    scene.set_pos(id, 200, 200).unwrap();
    let near_origin = Camera::new(0, 0, 63, 63);
    scene.update(&near_origin, 16).unwrap();
    assert_eq!(scene.render_data().sprite_pos.len(), 0);
    let far_corner = Camera::new(192, 192, 63, 63);
    scene.update(&far_corner, 16).unwrap();
    assert_eq!(scene.render_data().sprite_pos.len(), 1);
    assert_eq!(scene.render_data().sprite_pos[0].top_left, pt(200, 200));
}

#[test]
fn set_pos_out_of_bounds_changes_nothing() {
    let mut scene = test_scene();
    let id = scene.add_sprite(pt(10, 10), &"hero".to_string()).unwrap();
    assert_eq!(scene.set_pos(id, 250, 10).unwrap_err(), Error::XOutOfBound);
    assert_eq!(scene.get_pos_top_left(id).unwrap(), pt(10, 10));
}

#[test]
fn offset_pos_shifts_by_the_given_vector() {
    let mut scene = test_scene();
    let id = scene.add_sprite(pt(10, 10), &"hero".to_string()).unwrap();
    scene.offset_pos(id, 5, -3).unwrap();
    assert_eq!(scene.get_pos_top_left(id).unwrap(), pt(15, 7));
}

#[test]
fn set_scale_doubles_about_the_pivot() {
    let mut scene = test_scene();
    let id = scene.add_sprite(pt(10, 10), &"hero".to_string()).unwrap();
    scene.set_scale(id, 2 * SCALE_ONE, 2 * SCALE_ONE).unwrap();
    let data = scene.read_data(id).unwrap();
    // Pivot at the top-left corner: it stays put and the far corner
    // doubles its distance.
    assert_eq!(data.rect.top_left, pt(10, 10));
    assert_eq!(data.rect.bottom_right, pt(42, 42));
}

#[test]
fn half_turn_equals_negative_unit_scale() {
    let mut scene = test_scene();
    let turned = scene.add_sprite(pt(100, 100), &"hero".to_string()).unwrap();
    let flipped = scene.add_sprite(pt(100, 100), &"hero".to_string()).unwrap();
    scene.set_origin(turned, 8, 8).unwrap();
    scene.set_origin(flipped, 8, 8).unwrap();
    scene.set_rotation(turned, -SCALE_ONE, 0).unwrap();
    scene.set_scale(flipped, -SCALE_ONE, -SCALE_ONE).unwrap();
    let a = scene.read_data(turned).unwrap();
    let b = scene.read_data(flipped).unwrap();
    assert_eq!(a.rect, b.rect);
    // Both corners reflected through the pivot (108, 108).
    assert_eq!(a.rect.top_left, pt(116, 116));
    assert_eq!(a.rect.bottom_right, pt(100, 100));
}

#[test]
fn set_size_scales_by_exact_ratios() {
    let mut scene = test_scene();
    let id = scene.add_sprite(pt(10, 10), &"hero".to_string()).unwrap();
    scene.set_size(id, 8, 32).unwrap();
    let data = scene.read_data(id).unwrap();
    assert_eq!(data.rect.top_left, pt(10, 10));
    assert_eq!(data.rect.bottom_right, pt(18, 42));
}

#[test]
fn set_size_on_a_degenerate_rect_fails() {
    let mut scene = test_scene();
    let id = scene.add_sprite(pt(10, 10), &"dot".to_string()).unwrap();
    assert_eq!(scene.set_size(id, 5, 5).unwrap_err(), Error::DegenerateRect);
}

#[test]
fn set_layer_separates_ui_and_world_depth() {
    let mut scene = test_scene();
    let id = scene.add_sprite(pt(10, 10), &"hero".to_string()).unwrap();
    scene.set_layer(id, 5, true).unwrap();
    assert_eq!(scene.read_data(id).unwrap().rect.depth, 5);
    scene.set_layer(id, 5, false).unwrap();
    assert_eq!(scene.read_data(id).unwrap().rect.depth, 133);
}

#[test]
fn set_frame_swaps_only_the_frame() {
    let mut scene = test_scene();
    let id = scene.add_sprite(pt(10, 10), &"hero".to_string()).unwrap();
    scene.set_frame(id, &"coin".to_string()).unwrap();
    let data = scene.read_data(id).unwrap();
    assert_eq!(data.frame, frame_at(32, 0, 16, 16));
    // The rect keeps the hero's extent: only the frame changed.
    assert_eq!(data.rect.bottom_right, pt(26, 26));
    assert_eq!(
        scene.set_frame(id, &"ghost".to_string()).unwrap_err(),
        Error::UnknownTexture
    );
}

#[test]
fn play_binds_a_registered_sequence() {
    let mut scene = test_scene();
    let id = scene.add_sprite(pt(10, 10), &"hero".to_string()).unwrap();
    assert_eq!(
        scene.play(id, &"walk".to_string()).unwrap_err(),
        Error::UnknownSequence
    );
    scene.anim_seq.register("walk".to_string());
    scene.play(id, &"walk".to_string()).unwrap();
    assert_eq!(scene.read_data(id).unwrap().anim_key, Some(0));
}

#[test]
fn update_advances_the_animation_clock() {
    let mut scene = test_scene();
    let cam = Camera::new(0, 0, 100, 100);
    scene.update(&cam, 16).unwrap();
    assert_eq!(scene.anim_seq.elapsed_ms, 16);
    scene.update(&cam, 4).unwrap();
    assert_eq!(scene.anim_seq.elapsed_ms, 20);
    scene.anim_seq.elapsed_ms = u64::MAX - 5;
    scene.update(&cam, 100).unwrap();
    assert_eq!(scene.anim_seq.elapsed_ms, u64::MAX);
}

#[test]
fn bottom_right_markers_render_nothing() {
    let mut scene = test_scene();
    let _id = scene.add_sprite(pt(10, 10), &"hero".to_string()).unwrap();
    // Both of the sprite's points live in region (0,0): one data entry,
    // one marker.
    let arena = scene.part_map.get_arena(Region { x: 0, y: 0 }).unwrap();
    assert_eq!(arena.len(), 2);
    assert!(matches!(arena[0], Some(SpriteDataPoint::TopLeft(_))));
    assert!(matches!(arena[1], Some(SpriteDataPoint::BottomRight)));
    // The marker contributes nothing to the batch.
    let cam = Camera::new(0, 0, 63, 63);
    scene.update(&cam, 16).unwrap();
    assert_eq!(scene.render_data().sprite_pos.len(), 1);
}

#[test]
fn camera_centers_and_zooms() {
    let mut cam = Camera::new(0, 0, 100, 100);
    cam.set_center_pos(128, 128);
    assert_eq!(cam.rect.top_left, pt(78, 78));
    assert_eq!(cam.rect.bottom_right, pt(178, 178));
    let mut cam2 = Camera::new(0, 0, 100, 100);
    cam2.set_zoom_level(2 * SCALE_ONE).unwrap();
    assert_eq!(cam2.rect.top_left, pt(-50, -50));
    assert_eq!(cam2.rect.bottom_right, pt(150, 150));
}

#[test]
fn camera_zoom_out_of_range_is_rejected() {
    let mut cam = Camera::new(0, 0, 0x1_0000_0000, 0x1_0000_0000);
    let before = cam.rect;
    assert_eq!(cam.set_zoom_level(SCALE_LIMIT).unwrap_err(), Error::CameraOutOfRange);
    assert_eq!(cam.rect, before);
}
