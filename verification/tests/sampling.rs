use livingmap::decay::{survival_factor, FIX_HALF, FIX_ONE};
use livingmap::structures::{decide_structure_type, StructureType};
use livingmap::tilesim::Simulator;
use livingmap::utils::poisson_disk_sample;
use livingmap::TilePos;

fn d2(a: TilePos, b: TilePos) -> u64 {
    let dx = if a.x >= b.x { a.x - b.x } else { b.x - a.x } as u64;
    let dy = if a.y >= b.y { a.y - b.y } else { b.y - a.y } as u64;
    dx * dx + dy * dy
}

#[test]
fn sampled_points_keep_the_minimum_separation() {
    let mut cands: Vec<TilePos> = Vec::new();
    for x in 0..12usize {
        for y in 0..12usize {
            cands.push(TilePos { x, y });
        }
    }
    let picked = poisson_disk_sample(&cands, 4, 5).expect("a solution exists at this density");
    assert_eq!(picked.len(), 5);
    for i in 0..picked.len() {
        for j in 0..picked.len() {
            if i != j {
                assert!(d2(picked[i], picked[j]) >= 16, "separation violated");
            }
        }
    }
}

#[test]
fn sampling_nothing_always_succeeds() {
    let cands = vec![TilePos { x: 1, y: 1 }];
    let picked = poisson_disk_sample(&cands, 1000, 0).expect("zero points need no tries");
    assert!(picked.is_empty());
}

#[test]
fn a_single_point_or_no_spacing_always_succeeds() {
    // One point: the first draw is accepted against an empty set, whatever
    // the spacing demands.
    let cands = vec![TilePos { x: 1, y: 1 }];
    let picked = poisson_disk_sample(&cands, 1000, 1).expect("one point needs no separation");
    assert_eq!(picked.len(), 1);
    assert_eq!(picked[0], TilePos { x: 1, y: 1 });
    // No spacing demanded: every draw is accepted, duplicates and all.
    let two = vec![TilePos { x: 0, y: 0 }, TilePos { x: 0, y: 1 }];
    let picked = poisson_disk_sample(&two, 0, 7).expect("zero spacing rejects nothing");
    assert_eq!(picked.len(), 7);
}

#[test]
fn an_impossible_density_gives_up_after_the_retry_cap() {
    // Two candidates one tile apart can never carry two points spaced five
    // apart; the sampler must exhaust its 1000 tries and fail.
    let cands = vec![TilePos { x: 0, y: 0 }, TilePos { x: 0, y: 1 }];
    assert!(poisson_disk_sample(&cands, 5, 2).is_none());
}

#[test]
fn survival_factor_matches_the_half_life() {
    // Half-life 1: the survival factor is exactly one half.
    assert_eq!(survival_factor(1), FIX_HALF);
    // Half-life 2: the largest fixed-point square root of one half.
    assert_eq!(survival_factor(2), 3037000500);
    // Half-life 0: instant decay.
    assert_eq!(survival_factor(0), 0);
    let sim = Simulator::new(10, (3, 6), (1, 4), (20, 30), 3, (2, 3), 1, 0, 1, 0);
    assert_eq!(sim.forget_threshold, FIX_ONE - FIX_HALF);
    let sim2 = Simulator::new(10, (3, 6), (1, 4), (20, 30), 3, (2, 3), 2, 0, 1, 0);
    assert_eq!(sim2.forget_threshold, FIX_ONE - 3037000500);
}

#[test]
fn forgetting_converges_to_the_half_life_rate() {
    // A remembered, unprotected cell far from the player is forgotten with
    // probability 1 - 0.5^(1/2) per tick at half-life 2. Over many
    // one-tick trials the empirical rate converges to about 0.2929.
    let mut sim = Simulator::new(12, (3, 6), (3, 6), (20, 30), 3, (2, 3), 2, 0, 1, 0);
    assert!(sim.post_init().is_ok());
    let far = TilePos { x: 11, y: 11 };
    let trials = 20000;
    let mut forgotten = 0u32;
    for _ in 0..trials {
        sim.grid.reality_bubble[0][0] = true;
        sim.step(far);
        if !sim.grid.reality_bubble[0][0] {
            forgotten += 1;
        }
    }
    let rate = forgotten as f64 / trials as f64;
    assert!(
        (rate - 0.292893).abs() < 0.02,
        "forget rate {rate} is far from the half-life rate"
    );
}

#[test]
fn the_boss_room_always_reveals_the_boss_altar() {
    let boss = TilePos { x: 3, y: 3 };
    for _ in 0..50 {
        assert_eq!(decide_structure_type(boss, boss), StructureType::BossAltar);
    }
}

#[test]
fn other_rooms_reveal_altars_and_lore_markers() {
    let boss = TilePos { x: 3, y: 3 };
    let other = TilePos { x: 7, y: 2 };
    let mut altars = 0u32;
    let mut markers = 0u32;
    for _ in 0..400 {
        let t = decide_structure_type(boss, other);
        match t {
            StructureType::Altar => altars += 1,
            StructureType::Remember
            | StructureType::BewareSpider
            | StructureType::FearTheSpider
            | StructureType::Forget
            | StructureType::RememberRemember
            | StructureType::TorchHint => markers += 1,
            _ => panic!("reveal produced {t:?}"),
        }
    }
    // The upgrade altar carries weight three in ten; both kinds must show
    // up over 400 draws.
    assert!(altars > 0 && markers > 0);
    assert!(altars < markers);
}
