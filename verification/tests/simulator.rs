use livingmap::structures::StructureType;
use livingmap::tiles::TileManager;
use livingmap::tilesim::{Simulator, WorldGenError};
use livingmap::TilePos;

fn d2(ax: usize, ay: usize, bx: usize, by: usize) -> u64 {
    let dx = if ax >= bx { ax - bx } else { bx - ax } as u64;
    let dy = if ay >= by { ay - by } else { by - ay } as u64;
    dx * dx + dy * dy
}

#[test]
fn center_clearing_and_border_survive_fifty_ticks() {
    // width=20, generation radii (3, 6), weights (20, 30), campfire radius
    // 15, reality radii (10, 13); the player stands at the world center.
    // The automaton opens a cell at 2 wall neighbors or fewer; corners of
    // the border ring have exactly 3 in-bounds neighbors, so they hold.
    let mut sim = Simulator::new(20, (2, 6), (3, 6), (20, 30), 15, (10, 13), 2, 0, 1, 0);
    assert!(sim.post_init().is_ok());
    let center = TilePos { x: 10, y: 10 };
    for _ in 0..50 {
        sim.step(center);
    }
    for x in 9..=11usize {
        for y in 9..=11usize {
            assert!(!sim.grid.is_wall[x][y], "clearing opened at ({x},{y})");
        }
    }
    for x in 0..20usize {
        for y in 0..20usize {
            if x == 0 || x == 19 || y == 0 || y == 19 {
                assert!(sim.grid.is_wall[x][y], "border opened at ({x},{y})");
            }
        }
    }
}

#[test]
fn campfire_freezes_its_neighborhood() {
    // A campfire at (5, 5) with radius 15 protects everything within the
    // radius: the walls never toggle and remembered cells are never
    // forgotten, no matter how long the player stays away.
    let mut sim = Simulator::new(40, (3, 6), (3, 17), (20, 30), 15, (10, 13), 2, 0, 1, 0);
    assert!(sim.post_init().is_ok());
    let fire = TilePos { x: 5, y: 5 };
    sim.place_campfire(fire);
    // Reveal the area around the fire once, then leave.
    sim.step(fire);
    let walls_before = sim.grid.is_wall.clone();
    let bubble_before = sim.grid.reality_bubble.clone();
    let far = TilePos { x: 35, y: 35 };
    for _ in 0..50 {
        sim.step(far);
    }
    let mut remembered = 0;
    for x in 0..40usize {
        for y in 0..40usize {
            if d2(x, y, 5, 5) < 15 * 15 {
                assert_eq!(
                    sim.grid.is_wall[x][y], walls_before[x][y],
                    "wall toggled at ({x},{y})"
                );
                assert_eq!(
                    sim.grid.reality_bubble[x][y], bubble_before[x][y],
                    "bubble changed at ({x},{y})"
                );
                if sim.grid.reality_bubble[x][y] {
                    remembered += 1;
                }
            }
        }
    }
    assert!(remembered > 0, "the reveal step remembered nothing");
}

#[test]
fn calc_new_cell_distance_branches_are_exact() {
    let sim = Simulator::new(20, (3, 6), (3, 6), (20, 30), 15, (10, 13), 2, 0, 1, 0);
    for _ in 0..100 {
        // Strictly inside the inner radius: always open.
        assert!(!sim.calc_new_cell(TilePos { x: 10, y: 10 }));
        assert!(!sim.calc_new_cell(TilePos { x: 12, y: 12 }));
        // Strictly beyond the outer radius: always wall.
        assert!(sim.calc_new_cell(TilePos { x: 0, y: 0 }));
        assert!(sim.calc_new_cell(TilePos { x: 10, y: 17 }));
    }
    // On the inner boundary (distance exactly 3) the cell is not forced
    // open; with wall weight 1 out of 1 the coin always says wall.
    let all_wall = Simulator::new(20, (3, 6), (3, 6), (0, 1), 15, (10, 13), 2, 0, 1, 0);
    assert!(all_wall.calc_new_cell(TilePos { x: 13, y: 10 }));
}

#[test]
fn reveal_tracks_the_outer_reality_radius() {
    let mut sim = Simulator::new(20, (3, 6), (3, 6), (20, 30), 15, (2, 4), 2, 0, 1, 0);
    assert!(sim.post_init().is_ok());
    let player = TilePos { x: 10, y: 10 };
    sim.step(player);
    // Inside the outer radius: revealed.
    assert!(sim.grid.reality_bubble[10][13]);
    assert!(sim.grid.reality_bubble[12][12]);
    // On or beyond it: not revealed.
    assert!(!sim.grid.reality_bubble[10][14]);
    assert!(!sim.grid.reality_bubble[0][0]);
}

#[test]
fn campfire_commands_are_idempotent() {
    let mut sim = Simulator::new(10, (3, 6), (1, 4), (20, 30), 3, (2, 4), 2, 0, 1, 0);
    let fire = TilePos { x: 4, y: 4 };
    sim.place_campfire(fire);
    sim.place_campfire(fire);
    assert_eq!(sim.grid.campfires.len(), 1);
    sim.remove_campfire(TilePos { x: 9, y: 9 });
    assert_eq!(sim.grid.campfires.len(), 1);
    sim.remove_campfire(fire);
    assert_eq!(sim.grid.campfires.len(), 0);
    sim.remove_campfire(fire);
    assert_eq!(sim.grid.campfires.len(), 0);
}

#[test]
fn impossible_placement_is_a_sampling_error() {
    // Every open cell lies within the inner generation radius, so there is
    // no candidate to place the requested structure on.
    let mut sim = Simulator::new(20, (3, 6), (19, 19), (20, 30), 15, (10, 13), 2, 1, 5, 2);
    assert_eq!(sim.post_init(), Err(WorldGenError::SamplingExhausted));
    assert_eq!(sim.grid.structures.len(), 0);
    assert!(sim.boss_room_loc().is_none());
}

#[test]
fn structures_are_placed_cleared_and_revealed_as_the_boss_altar() {
    let mut sim = Simulator::new(20, (3, 6), (3, 6), (20, 30), 15, (10, 13), 2, 1, 1, 2);
    assert!(sim.post_init().is_ok());
    assert_eq!(sim.grid.structures.len(), 1);
    let (pos, kind) = sim.grid.structures[0];
    assert_eq!(kind, StructureType::Unspawned);
    assert_eq!(sim.boss_room_loc(), Some(pos));
    // The placement sits on open ground, outside the clearing but within
    // the outer generation radius.
    assert!(!sim.grid.is_wall[pos.x][pos.y]);
    let dc2 = d2(pos.x, pos.y, 10, 10);
    assert!(dc2 > 9 && dc2 <= 36);
    // The ground around the placement is cleared.
    for x in 0..20usize {
        for y in 0..20usize {
            if d2(x, y, pos.x, pos.y) <= 4 {
                assert!(!sim.grid.is_wall[x][y], "not cleared at ({x},{y})");
            }
        }
    }
    // Walking up to the placement reveals it as the boss altar.
    sim.step(pos);
    assert_eq!(sim.grid.structures[0].1, StructureType::BossAltar);
    // Its kind never changes again.
    sim.step(pos);
    sim.step(TilePos { x: 0, y: 0 });
    assert_eq!(sim.grid.structures[0].1, StructureType::BossAltar);
}

#[test]
fn several_structures_keep_their_spacing() {
    let mut sim = Simulator::new(30, (3, 6), (3, 12), (80, 20), 15, (10, 13), 2, 4, 5, 1);
    assert!(sim.post_init().is_ok());
    assert_eq!(sim.grid.structures.len(), 4);
    for a in 0..4 {
        for b in 0..4 {
            if a != b {
                let pa = sim.grid.structures[a].0;
                let pb = sim.grid.structures[b].0;
                assert!(d2(pa.x, pa.y, pb.x, pb.y) >= 25, "structures too close");
            }
        }
    }
}

#[test]
fn wall_count_counts_every_wall() {
    // Generation radii (0, 0) with a one-sided coin wall every cell.
    let mut sim = Simulator::new(6, (3, 6), (0, 0), (0, 1), 3, (2, 4), 2, 0, 1, 0);
    assert!(sim.post_init().is_ok());
    assert_eq!(sim.wall_count(), 36);
    sim.grid.is_wall[2][3] = false;
    sim.grid.is_wall[4][5] = false;
    assert_eq!(sim.wall_count(), 34);
}

#[test]
fn lightmap_fades_quadratically_from_a_campfire() {
    let mut sim = Simulator::new(6, (3, 6), (0, 0), (0, 1), 3, (2, 4), 2, 0, 1, 0);
    let player = TilePos { x: 0, y: 0 };
    sim.recalc_lightmap(player);
    for x in 0..6usize {
        for y in 0..6usize {
            assert_eq!(sim.grid.lightmap[x][y], 0);
        }
    }
    sim.place_campfire(TilePos { x: 2, y: 2 });
    sim.recalc_lightmap(player);
    assert_eq!(sim.grid.lightmap[2][2], 1024);
    assert_eq!(sim.grid.lightmap[2][3], (9 - 1) * 1024 / 9);
    assert_eq!(sim.grid.lightmap[0][0], (9 - 8) * 1024 / 9);
    assert_eq!(sim.grid.lightmap[2][5], 0);
    assert_eq!(sim.grid.lightmap[5][5], 0);
}

#[test]
fn default_grid_spans_the_default_world() {
    let tm = TileManager::default();
    assert_eq!(tm.is_wall.len(), 200);
    assert_eq!(tm.is_wall[0].len(), 200);
    assert_eq!(tm.lightmap.len(), 200);
    assert_eq!(tm.reality_bubble.len(), 200);
    assert_eq!(tm.spawned_tiles.len(), 200);
    assert!(tm.campfires.is_empty());
    assert!(tm.structures.is_empty());
}
