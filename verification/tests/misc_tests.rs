use game_engine::lod::{LODLevel, LODStats, LODVisibility};
use game_engine::mesh::{capsule_indices, cube_indices, quad_indices, sphere_indices, Mesh, PlayerMesh, SunMesh};
use game_engine::rng::{random, RANDOM_SEED};
use game_engine::textures::{decode_to_rgba, texture_from_decoded};
use game_engine::worker::{chunk_indices, WorkerPool, CHUNK_SIZE};
use game_engine::world::{spawn_within_limit, MAX_PARTICLES};

#[test]
fn xorshift_sequence() {
    let mut seed = 1u32;
    assert_eq!(random(&mut seed), 270369);
    assert_eq!(seed, 270369);
    let mut s = RANDOM_SEED;
    let mut prev = s;
    for _ in 0..1000 {
        let r = random(&mut s);
        assert_ne!(r, 0);
        assert_ne!(r, prev);
        prev = r;
    }
    let mut zero = 0u32;
    assert_eq!(random(&mut zero), 0);
}

#[test]
fn chunks_cover_range() {
    assert_eq!(chunk_indices(10, 3), vec![(0, 4), (4, 8), (8, 10)]);
    assert_eq!(chunk_indices(10, 5), vec![(0, 2), (2, 4), (4, 6), (6, 8), (8, 10)]);
    assert_eq!(chunk_indices(2, 4), vec![(0, 1), (1, 2)]);
    assert_eq!(chunk_indices(0, 4), vec![]);
    assert_eq!(chunk_indices(7, 1), vec![(0, 7)]);
    let big = chunk_indices(3 * CHUNK_SIZE + 1, 4);
    assert_eq!(big.first().unwrap().0, 0);
    assert_eq!(big.last().unwrap().1, 3 * CHUNK_SIZE + 1);
    for w in big.windows(2) {
        assert_eq!(w[0].1, w[1].0);
    }
}

#[test]
fn lod_levels_render() {
    assert!(LODLevel::High.should_render());
    assert!(LODLevel::VeryLow.should_render());
    assert!(!LODLevel::Culled.should_render());
}

#[test]
fn lod_stats_record() {
    let mut stats = LODStats::default();
    assert_eq!(stats.record(false, LODLevel::High), LODLevel::Culled);
    assert_eq!(stats.record(true, LODLevel::Culled), LODLevel::Culled);
    assert_eq!(stats.record(true, LODLevel::Medium), LODLevel::Medium);
    assert_eq!(stats.record(true, LODLevel::Medium), LODLevel::Medium);
    assert_eq!(stats.record(true, LODLevel::High), LODLevel::High);
    assert_eq!(stats.total_objects, 5);
    assert_eq!(stats.culled_by_frustum, 1);
    assert_eq!(stats.culled_by_distance, 1);
    assert_eq!(stats.visible_objects, 3);
    assert_eq!(stats.medium_lod, 2);
    assert_eq!(stats.high_lod, 1);
    assert_eq!(stats.low_lod + stats.very_low_lod, 0);
}

#[test]
fn sphere_index_pattern() {
    let idx = sphere_indices(2, 3);
    assert_eq!(idx.len(), 36);
    assert_eq!(&idx[0..6], &[0, 4, 1, 4, 5, 1]);
    assert_eq!(&idx[6..12], &[1, 5, 2, 5, 6, 2]);
    assert_eq!(&idx[18..24], &[4, 8, 5, 8, 9, 5]);
    assert!(idx.iter().all(|&i| i < 12));
    assert!(sphere_indices(0, 10).is_empty());
    let sun = sphere_indices(16, 16);
    assert_eq!(sun.len(), 16 * 16 * 6);
    assert_eq!(*sun.iter().max().unwrap(), 17 * 17 - 1);
}

#[test]
fn capsule_index_pattern() {
    let idx = capsule_indices(2, 1);
    // 1 top row, 1 cylinder row, 1 bottom row of 2 cells each.
    assert_eq!(idx.len(), 36);
    assert_eq!(&idx[0..6], &[0, 3, 1, 1, 3, 4]);
    // Cylinder starts after 2 * 3 top vertices.
    assert_eq!(&idx[12..18], &[6, 7, 9, 7, 10, 9]);
    // Bottom starts after the 6 cylinder vertices.
    assert_eq!(&idx[24..30], &[15, 12, 13, 15, 13, 16]);
    let player = capsule_indices(16, 8);
    assert_eq!(player.len(), 6 * 17 * 16);
    assert_eq!(*player.iter().max().unwrap() as usize, 2 * 9 * 17 + 2 * 17 - 1);
    assert!(capsule_indices(0, 8).is_empty());
}

#[test]
fn mesh_construction() {
    let m = Mesh::new(vec![[0.0f32; 3]; 4], vec![0, 1, 2, 0, 2, 3]);
    assert_eq!(m.vertices.len(), 4);
    assert_eq!(m.indices, vec![0, 1, 2, 0, 2, 3]);
    let _p = PlayerMesh;
    let _s = SunMesh;
}

#[test]
fn decode_garbage_fails_with_message() {
    let r = decode_to_rgba(&[1, 2, 3, 4]);
    match r {
        Err(msg) => {
            assert!(msg.starts_with("Failed to decode texture: "));
            assert!(msg.len() > "Failed to decode texture: ".len());
        }
        Ok(_) => panic!("garbage decoded"),
    }
}

#[test]
fn decode_jpeg() {
    let mut bytes: Vec<u8> = Vec::new();
    let pixels = [255u8, 0, 0, 0, 255, 0, 0, 0, 255, 255, 255, 255];
    let mut enc = image::codecs::jpeg::JpegEncoder::new_with_quality(&mut bytes, 90);
    enc.encode(&pixels, 2, 2, image::ExtendedColorType::Rgb8).unwrap();
    let tex = decode_to_rgba(&bytes).unwrap();
    assert_eq!(tex.width, 2);
    assert_eq!(tex.height, 2);
    assert_eq!(tex.pixels.len(), 16);
    assert!(tex.pixels.chunks(4).all(|p| p[3] == 255));
}

#[test]
fn texture_from_decoded_outcomes() {
    let ok = texture_from_decoded(Ok((1, 2, vec![1, 2, 3, 4, 5, 6, 7, 8]))).unwrap();
    assert_eq!((ok.width, ok.height), (1, 2));
    assert_eq!(ok.pixels, vec![1, 2, 3, 4, 5, 6, 7, 8]);
    match texture_from_decoded(Err("bad".to_string())) {
        Err(e) => assert_eq!(e, "Failed to decode texture: bad"),
        Ok(_) => panic!(),
    }
}

#[test]
fn lod_visibility_grace_period() {
    let mut v = LODVisibility::new();
    assert_eq!(v.current_lod, LODLevel::High);
    assert!(!v.was_visible_last_frame);
    assert!(v.should_simulate_physics());
    assert!(v.update(LODLevel::Low));
    assert!(v.was_visible_last_frame);
    for frame in 1..=60u32 {
        assert!(!v.update(LODLevel::Culled));
        assert_eq!(v.frames_invisible, frame);
        assert_eq!(v.should_simulate_physics(), frame < 60);
    }
    assert!(v.update(LODLevel::High));
    assert_eq!(v.frames_invisible, 0);
    assert!(v.should_simulate_physics());
}

#[test]
fn grid_indices_stay_within_vertex_grid() {
    for (stacks, slices) in [(1u32, 1u32), (3, 5), (16, 16), (7, 2)] {
        let idx = sphere_indices(stacks, slices);
        let vertices = (stacks + 1) * (slices + 1);
        assert!(idx.iter().all(|&i| (i as u32) < vertices));
    }
    for (segments, rings) in [(1u32, 1u32), (4, 3), (16, 8)] {
        let idx = capsule_indices(segments, rings);
        let vertices = 2 * (rings + 1) * (segments + 1) + 2 * (segments + 1);
        assert!(idx.iter().all(|&i| (i as u32) < vertices));
    }
}

#[test]
fn worker_count_is_clamped() {
    assert_eq!(WorkerPool::optimal_worker_count_for(None), 4);
    assert_eq!(WorkerPool::optimal_worker_count_for(Some(0)), 2);
    assert_eq!(WorkerPool::optimal_worker_count_for(Some(1)), 2);
    assert_eq!(WorkerPool::optimal_worker_count_for(Some(6)), 6);
    assert_eq!(WorkerPool::optimal_worker_count_for(Some(32)), 8);
    let pool = WorkerPool::new(3);
    assert_eq!(pool.worker_count, 3);
    assert!(!pool.enabled);
}

#[test]
fn chunk_indices_at_the_usize_limit() {
    let total = usize::MAX - 1;
    let chunks = chunk_indices(total, 2);
    let half = usize::MAX / 2;
    assert_eq!(chunks, vec![(0, half), (half, total)]);
}

#[test]
fn chunk_lengths_are_bounded_by_chunk_size() {
    let chunks = chunk_indices(10, 3);
    assert_eq!(chunks, vec![(0, 4), (4, 8), (8, 10)]);
    for (s, e) in &chunks {
        assert!(e - s <= 4);
    }
}

#[test]
fn lod_stats_stay_balanced() {
    let mut stats = LODStats::default();
    let outcomes = [
        (true, LODLevel::High),
        (false, LODLevel::High),
        (true, LODLevel::Culled),
        (true, LODLevel::VeryLow),
        (false, LODLevel::Culled),
        (true, LODLevel::Medium),
    ];
    for (in_frustum, lod) in outcomes {
        let before = stats;
        let r = stats.record(in_frustum, lod);
        assert_eq!(stats.total_objects, before.total_objects + 1);
        assert_eq!(r == LODLevel::Culled, !in_frustum || lod == LODLevel::Culled);
        assert_eq!(
            stats.total_objects,
            stats.visible_objects + stats.culled_by_distance + stats.culled_by_frustum
        );
        assert_eq!(
            stats.visible_objects,
            stats.high_lod + stats.medium_lod + stats.low_lod + stats.very_low_lod
        );
    }
    assert_eq!(stats.culled_by_frustum, 2);
    assert_eq!(stats.culled_by_distance, 1);
    assert_eq!(stats.visible_objects, 3);
}

#[test]
fn cube_and_quad_index_patterns() {
    assert_eq!(quad_indices(), vec![0u16, 1, 2, 0, 2, 3]);
    let cube = cube_indices();
    assert_eq!(cube.len(), 36);
    assert_eq!(&cube[..12], &[0u16, 1, 2, 0, 2, 3, 4, 5, 6, 4, 6, 7]);
    assert_eq!(&cube[30..], &[20u16, 21, 22, 20, 22, 23]);
}

#[test]
fn particle_spawn_limit() {
    assert_eq!(MAX_PARTICLES, 10_000_000);
    assert!(spawn_within_limit(0, 10));
    assert!(spawn_within_limit(9_999_990, 10));
    assert!(!spawn_within_limit(9_999_991, 10));
    assert!(!spawn_within_limit(0, 10_000_001));
    assert!(!spawn_within_limit(usize::MAX, usize::MAX));
}
