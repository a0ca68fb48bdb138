use population_reverser::chunk_random::set_population_seed;
use population_reverser::math::PopulationReverser;
use population_reverser::population_reverser::population_seed_utils::{reverse, reverse_with};

fn sorted(mut seeds: Vec<i64>) -> Vec<i64> {
    seeds.sort();
    seeds.dedup();
    seeds
}

fn round_trip(tables: &PopulationReverser, world_seed: i64, x: i32, z: i32) {
    let population_seed = set_population_seed(world_seed, x, z);
    let seeds = reverse_with(tables, population_seed, x, z);
    assert!(
        seeds.contains(&world_seed),
        "{} at ({}, {}) is missing from {:?}",
        world_seed,
        x,
        z,
        seeds
    );
    for seed in &seeds {
        assert!(0 <= *seed && *seed < (1i64 << 48));
        assert_eq!(set_population_seed(*seed, x, z), population_seed);
    }
}

#[test]
fn seed_test() {
    let seeds: Vec<i64> = reverse(2721704043401555507, 32, 64);

    assert!(
        seeds.contains(&(41823749187923 as i64)),
        "Failed to get seeds... returned: {:?}",
        seeds
    );
}

#[test]
fn seed_test_finds_exactly_one_seed() {
    assert_eq!(reverse(2721704043401555507, 32, 64), vec![41823749187923i64]);
}

#[test]
fn population_seed_of_a_known_world_seed() {
    assert_eq!(set_population_seed(41823749187923, 32, 64), 2721704043401555507);
    assert_eq!(set_population_seed(160215742132725, 95, -84), 1169457435186366200);
    assert_eq!(
        set_population_seed(59097842566678, -1744359796, 1442100146),
        -1225808314395793616
    );
}

#[test]
fn population_seed_at_the_origin_is_the_world_seed() {
    for seed in [0i64, 1, -1, 41823749187923, i64::MAX, i64::MIN] {
        assert_eq!(set_population_seed(seed, 0, 0), seed);
    }
}

#[test]
fn every_returned_seed_gives_the_population_seed() {
    let tables = PopulationReverser::new();
    let cases: [(i64, i32, i32); 6] = [
        (2721704043401555507, 32, 64),
        (1169457435186366200, 95, -84),
        (7802720958596387956, 26, 94),
        (-1225808314395793616, -1744359796, 1442100146),
        (-4553596694687923030, -3520, 12960),
        (123456789, 5, 7),
    ];
    for (population_seed, x, z) in cases {
        for seed in reverse_with(&tables, population_seed, x, z) {
            assert_eq!(set_population_seed(seed, x, z), population_seed);
        }
    }
}

#[test]
fn known_world_seeds_are_found() {
    let tables = PopulationReverser::new();
    assert_eq!(
        reverse_with(&tables, 1169457435186366200, 95, -84),
        vec![160215742132725i64]
    );
    assert_eq!(
        reverse_with(&tables, -1225808314395793616, -1744359796, 1442100146),
        vec![59097842566678i64]
    );
    assert_eq!(
        reverse_with(&tables, -4553596694687923030, -3520, 12960),
        vec![248046984893514i64]
    );
}

#[test]
fn world_seeds_come_back_at_small_coordinates() {
    let tables = PopulationReverser::new();
    let mut world_seed: i64 = 0x1234_5678_9ABC;
    for x in -3..4 {
        for z in -3..4 {
            if x == 0 && z == 0 {
                continue;
            }
            world_seed = world_seed.wrapping_mul(0x5DEECE66D).wrapping_add(0xB) & 0xFFFF_FFFF_FFFF;
            round_trip(&tables, world_seed, x, z);
        }
    }
}

#[test]
fn world_seeds_come_back_at_even_coordinates() {
    let tables = PopulationReverser::new();
    round_trip(&tables, 41823749187923, 32, 64);
    round_trip(&tables, 0, 16, 48);
    round_trip(&tables, 0xFFFF_FFFF_FFFF, -16, 1024);
    round_trip(&tables, 0x8000_0000_0000, 4096, -4096);
    round_trip(&tables, 0x0000_FFFF_0000, 2, 2);
    round_trip(&tables, 248046984893514, i32::MAX, i32::MAX);
    round_trip(&tables, 248046984893514, i32::MIN, 1);
}

#[test]
fn world_seeds_come_back_where_the_factor_vanishes() {
    let tables = PopulationReverser::new();
    // both coordinates are multiples of 2^16, so nothing is left of the factor
    round_trip(&tables, 41823749187923, 65536, 0);
    round_trip(&tables, 160215742132725, -131072, 65536 * 7);
    round_trip(&tables, 0x7654_3210_FEDC, 0, 1 << 20);
    round_trip(&tables, 0x7654_3210_FEDC, i32::MIN, 0);
    round_trip(&tables, 0x7654_3210_FEDC, i32::MIN, i32::MIN);
}

#[test]
fn world_seeds_come_back_where_odd_coordinates_cancel() {
    let tables = PopulationReverser::new();
    // 0xBB20B4600A69 * x + 0x32EB772C5F11 * z is a multiple of 2^16 here
    let z: i64 = 1;
    let inverse = tables.mod_inverse[0x0A69] as i64;
    let x = (-(0x5F11 * z) * inverse) & 0xFFFF;
    assert_eq!((0xBB20B4600A69_i64 * x + 0x32EB772C5F11_i64 * z) & 0xFFFF, 0);
    round_trip(&tables, 41823749187923, x as i32, z as i32);
    round_trip(&tables, 0x0123_4567_89AB, x as i32, z as i32);
}

#[test]
fn origin_gives_back_the_population_seed() {
    assert_eq!(reverse(12345, 0, 0), vec![12345i64]);
    assert_eq!(reverse(0, 0, 0), vec![0i64]);
    assert_eq!(reverse(-5, 0, 0), vec![-5i64]);
    assert_eq!(reverse(2721704043401555507, 0, 0), vec![2721704043401555507i64]);
}

#[test]
fn unrelated_population_seed_gives_nothing() {
    let tables = PopulationReverser::new();
    let mut empty = 0;
    for population_seed in 1000..1040i64 {
        let seeds = reverse_with(&tables, population_seed, 3, 5);
        for seed in &seeds {
            assert_eq!(set_population_seed(*seed, 3, 5), population_seed);
        }
        if seeds.is_empty() {
            empty += 1;
        }
    }
    assert!(empty > 0);
}

#[test]
fn search_agrees_with_trying_every_top_half() {
    // all seeds that share the low 32 bits of a known one, tried one by one
    let tables = PopulationReverser::new();
    let cases: [(i64, i32, i32); 5] = [
        (41823749187923, 32, 64),
        (160215742132725, 3, 5),
        (59097842566678, 7, -2),
        (41823749187923, 65536, 0),
        (248046984893514, -131072, 65536 * 7),
    ];
    for (world_seed, x, z) in cases {
        let population_seed = set_population_seed(world_seed, x, z);
        let low = world_seed & 0xFFFF_FFFF;
        let mut expected: Vec<i64> = Vec::new();
        for top in 0..65536i64 {
            let candidate = (top << 32) + low;
            if set_population_seed(candidate, x, z) == population_seed {
                expected.push(candidate);
            }
        }
        let found: Vec<i64> = reverse_with(&tables, population_seed, x, z)
            .into_iter()
            .filter(|seed| seed & 0xFFFF_FFFF == low)
            .collect();
        assert_eq!(sorted(found), sorted(expected));
    }
}

#[test]
fn search_agrees_with_trying_every_middle_part() {
    // all seeds that share the top and the low 16 bits of a known one
    let tables = PopulationReverser::new();
    let world_seed: i64 = 41823749187923;
    let (x, z) = (32, 64);
    let population_seed = set_population_seed(world_seed, x, z);
    let fixed = world_seed & 0xFFFF_0000_FFFF;
    let mut expected: Vec<i64> = Vec::new();
    for middle in 0..65536i64 {
        let candidate = (middle << 16) | fixed;
        if set_population_seed(candidate, x, z) == population_seed {
            expected.push(candidate);
        }
    }
    let found: Vec<i64> = reverse_with(&tables, population_seed, x, z)
        .into_iter()
        .filter(|seed| seed & 0xFFFF_0000_FFFF == fixed)
        .collect();
    assert_eq!(sorted(found), sorted(expected));
}

#[test]
fn repeated_calls_agree() {
    let tables = PopulationReverser::new();
    let first = reverse(2721704043401555507, 32, 64);
    let second = reverse(2721704043401555507, 32, 64);
    let third = reverse_with(&tables, 2721704043401555507, 32, 64);
    assert_eq!(first, second);
    assert_eq!(first, third);
    assert_eq!(reverse(77, 65536, 0), reverse_with(&tables, 77, 65536, 0));
}
