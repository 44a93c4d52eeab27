use sprite_scene::error::Error;
use sprite_scene::geom::Vector2d;
use sprite_scene::partition::insert;
use sprite_scene::partition::Key;
use sprite_scene::partition::PartitionMap;
use sprite_scene::partition::Region;

fn pt(x: i64, y: i64) -> Vector2d {
    Vector2d { x, y }
}

#[test]
fn point_to_region_maps_cells() {
    // World 256, depth 2: a 4x4 grid with cell size 64.
    let pm: PartitionMap<u32> = PartitionMap::new(256, 2);
    assert_eq!(pm.point_to_region(pt(10, 10)).unwrap(), Region { x: 0, y: 0 });
    assert_eq!(pm.point_to_region(pt(200, 200)).unwrap(), Region { x: 3, y: 3 });
    assert_eq!(pm.point_to_region(pt(0, 0)).unwrap(), Region { x: 0, y: 0 });
    assert_eq!(pm.point_to_region(pt(255, 255)).unwrap(), Region { x: 3, y: 3 });
}

#[test]
fn point_to_region_is_deterministic() {
    let pm: PartitionMap<u32> = PartitionMap::new(256, 2);
    let a = pm.point_to_region(pt(130, 70)).unwrap();
    let b = pm.point_to_region(pt(130, 70)).unwrap();
    assert_eq!(a, b);
    // Two points in the same cell map to equal regions.
    let c = pm.point_to_region(pt(128, 64)).unwrap();
    assert_eq!(a, c);
}

#[test]
fn cell_boundary_belongs_to_higher_cell() {
    let pm: PartitionMap<u32> = PartitionMap::new(256, 2);
    // 64 is the exact boundary between cells 0 and 1: it belongs to cell 1.
    assert_eq!(pm.point_to_region(pt(63, 0)).unwrap(), Region { x: 0, y: 0 });
    assert_eq!(pm.point_to_region(pt(64, 0)).unwrap(), Region { x: 1, y: 0 });
    assert_eq!(pm.point_to_region(pt(0, 191)).unwrap(), Region { x: 0, y: 2 });
    assert_eq!(pm.point_to_region(pt(0, 192)).unwrap(), Region { x: 0, y: 3 });
}

#[test]
fn point_to_region_rejects_out_of_bounds() {
    let pm: PartitionMap<u32> = PartitionMap::new(256, 2);
    assert_eq!(pm.point_to_region(pt(-1, 10)).unwrap_err(), Error::XOutOfBound);
    assert_eq!(pm.point_to_region(pt(256, 10)).unwrap_err(), Error::XOutOfBound);
    assert_eq!(pm.point_to_region(pt(10, -3)).unwrap_err(), Error::YOutOfBound);
    assert_eq!(pm.point_to_region(pt(10, 256)).unwrap_err(), Error::YOutOfBound);
}

#[test]
fn uneven_world_uses_exact_rational_cells() {
    // World 10, depth 1: the real cell size is 5.
    let pm: PartitionMap<u32> = PartitionMap::new(10, 1);
    assert_eq!(pm.point_to_region(pt(4, 0)).unwrap(), Region { x: 0, y: 0 });
    assert_eq!(pm.point_to_region(pt(5, 0)).unwrap(), Region { x: 1, y: 0 });
    // World 7, depth 1: the real cell size is 3.5, so 3 is still cell 0.
    let pm7: PartitionMap<u32> = PartitionMap::new(7, 1);
    assert_eq!(pm7.point_to_region(pt(3, 0)).unwrap(), Region { x: 0, y: 0 });
    assert_eq!(pm7.point_to_region(pt(4, 0)).unwrap(), Region { x: 1, y: 0 });
}

#[test]
fn insert_fills_first_free_slot() {
    let mut arena: Vec<Option<u32>> = vec![Some(1), None, Some(3), None];
    let i = insert(&mut arena, 9);
    assert_eq!(i, 1);
    assert_eq!(arena, vec![Some(1), Some(9), Some(3), None]);
    let j = insert(&mut arena, 8);
    assert_eq!(j, 3);
    let k = insert(&mut arena, 7);
    assert_eq!(k, 4);
    assert_eq!(arena.len(), 5);
}

#[test]
fn insert_then_remove_round_trips() {
    let mut pm: PartitionMap<u32> = PartitionMap::new(256, 2);
    let k = pm.insert_point(pt(10, 10), 77).unwrap();
    assert_eq!(k.region, Region { x: 0, y: 0 });
    assert_eq!(k.slot, 0);
    assert_eq!(pm.remove_point(k).unwrap(), 77);
}

#[test]
fn freed_slot_is_reused_before_growth() {
    let mut pm: PartitionMap<u32> = PartitionMap::new(256, 2);
    let k0 = pm.insert_point(pt(10, 10), 1).unwrap();
    let k1 = pm.insert_point(pt(20, 20), 2).unwrap();
    assert_eq!(k0.slot, 0);
    assert_eq!(k1.slot, 1);
    // Free slot 0, then insert again into the same region: the freed slot
    // is reused and the arena does not grow.
    pm.remove_point(k0).unwrap();
    let k2 = pm.insert_point(pt(30, 30), 3).unwrap();
    assert_eq!(k2.slot, 0);
    let arena = pm.get_arena(Region { x: 0, y: 0 }).unwrap();
    assert_eq!(arena.len(), 2);
    // The neighbour in slot 1 was never disturbed.
    assert_eq!(*pm.get_point(&k1).unwrap(), 2);
}

#[test]
fn move_point_reads_back_and_invalidates_old_key() {
    let mut pm: PartitionMap<u32> = PartitionMap::new(256, 2);
    let k = pm.insert_point(pt(10, 10), 42).unwrap();
    let stale = k.copy_internal();
    let k2 = pm.move_point(k, pt(200, 200)).unwrap();
    assert_eq!(k2.region, Region { x: 3, y: 3 });
    assert_eq!(*pm.get_point(&k2).unwrap(), 42);
    // The old key no longer names an occupied slot.
    assert!(pm.get_point(&stale).is_none());
}

#[test]
fn move_point_to_invalid_point_changes_nothing() {
    let mut pm: PartitionMap<u32> = PartitionMap::new(256, 2);
    let k = pm.insert_point(pt(10, 10), 42).unwrap();
    let held = k.copy_internal();
    assert_eq!(pm.move_point(k, pt(300, 10)).unwrap_err(), Error::XOutOfBound);
    // The failed move performed no partial mutation: the value is still
    // behind the old key.
    assert_eq!(*pm.get_point(&held).unwrap(), 42);
}

#[test]
fn remove_point_reports_missing_region_and_invalid_slot() {
    let mut pm: PartitionMap<u32> = PartitionMap::new(256, 2);
    let ghost_key = Key { region: Region { x: 2, y: 2 }, slot: 0 };
    assert_eq!(pm.remove_point(ghost_key).unwrap_err(), Error::RegionNotPresent);
    let k = pm.insert_point(pt(10, 10), 5).unwrap();
    let out_of_range = Key { region: Region { x: 0, y: 0 }, slot: 9 };
    assert_eq!(pm.remove_point(out_of_range).unwrap_err(), Error::InvalidKey);
    pm.remove_point(k).unwrap();
    let emptied = Key { region: Region { x: 0, y: 0 }, slot: 0 };
    assert_eq!(pm.remove_point(emptied).unwrap_err(), Error::InvalidKey);
}

#[test]
fn copy_internal_duplicates_the_key() {
    let mut pm: PartitionMap<u32> = PartitionMap::new(256, 2);
    let k = pm.insert_point(pt(70, 130), 1).unwrap();
    let c = k.copy_internal();
    assert_eq!(c, k);
}

#[test]
fn points_to_regions_enumerates_inclusive_lattice() {
    let pm: PartitionMap<u32> = PartitionMap::new(256, 2);
    let regions = pm.points_to_regions(pt(10, 10), pt(130, 70)).unwrap();
    // Corner regions (0,0) and (2,1): a 3x2 lattice, row by row.
    assert_eq!(
        regions,
        vec![
            Region { x: 0, y: 0 },
            Region { x: 1, y: 0 },
            Region { x: 2, y: 0 },
            Region { x: 0, y: 1 },
            Region { x: 1, y: 1 },
            Region { x: 2, y: 1 },
        ]
    );
}

#[test]
fn points_to_regions_normalizes_corner_order() {
    let pm: PartitionMap<u32> = PartitionMap::new(256, 2);
    let a = pm.points_to_regions(pt(10, 10), pt(130, 70)).unwrap();
    let b = pm.points_to_regions(pt(130, 70), pt(10, 10)).unwrap();
    assert_eq!(a, b);
}

#[test]
fn points_to_regions_rejects_out_of_bounds_corners() {
    let pm: PartitionMap<u32> = PartitionMap::new(256, 2);
    assert_eq!(
        pm.points_to_regions(pt(-1, 10), pt(20, 20)).unwrap_err(),
        Error::XOutOfBound
    );
    assert_eq!(
        pm.points_to_regions(pt(10, 10), pt(20, 300)).unwrap_err(),
        Error::YOutOfBound
    );
}
