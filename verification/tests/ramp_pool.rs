use std::collections::HashMap;
use tunnelclient::ramp_pool::{RampPool, FRAMES_IN_FLIGHT};

const CYCLE: u32 = 1024;
const FIGURE: u32 = 4096;

/// Hand out a texture for one ramp the way a draw does. Textures are
/// numbered as they are made.
fn texture_for(pool: &mut RampPool<usize>, texels: u32, made: &mut usize) -> usize {
    let next = *made;
    let i = pool.slot_for(texels, || Some(next)).expect("a texture");
    if *pool.texture(i) == next {
        *made += 1;
    }
    *pool.texture(i)
}

#[test]
fn a_texture_is_not_written_again_while_a_draw_may_be_reading_it() {
    let mut pool = RampPool::new();
    let mut made = 0;
    let mut last_written: HashMap<usize, u64> = HashMap::new();
    for frame in 1..40u64 {
        pool.begin_frame();
        assert_eq!(pool.frame, frame);
        let id = texture_for(&mut pool, CYCLE, &mut made);
        if let Some(previous) = last_written.insert(id, frame) {
            assert!(frame - previous >= FRAMES_IN_FLIGHT);
        }
    }
    assert_eq!(last_written.len(), FRAMES_IN_FLIGHT as usize);
}

#[test]
fn figures_drawn_together_never_share_a_texture() {
    let mut pool = RampPool::new();
    let mut made = 0;
    pool.begin_frame();
    let mut ids: Vec<usize> = (0..4).map(|_| texture_for(&mut pool, CYCLE, &mut made)).collect();
    ids.sort_unstable();
    ids.dedup();
    assert_eq!(ids.len(), 4);
}

#[test]
fn the_pool_settles_at_frames_in_flight_per_layer() {
    for layers in [1usize, 3] {
        let mut pool = RampPool::new();
        let mut made = 0;
        for _ in 1..500u64 {
            pool.begin_frame();
            for _ in 0..layers {
                texture_for(&mut pool, CYCLE, &mut made);
            }
        }
        assert_eq!(pool.len(), FRAMES_IN_FLIGHT as usize * layers);
    }
}

#[test]
fn a_texture_is_only_taken_back_at_its_own_width() {
    let mut pool = RampPool::new();
    let mut made = 0;
    for _ in 1..20u64 {
        pool.begin_frame();
        texture_for(&mut pool, CYCLE, &mut made);
        texture_for(&mut pool, FIGURE, &mut made);
    }
    assert_eq!(pool.len(), 2 * FRAMES_IN_FLIGHT as usize);
    assert!(pool.entries.iter().filter(|e| e.texels == FIGURE).count() == FRAMES_IN_FLIGHT as usize);
}

#[test]
fn a_texture_that_cannot_be_made_is_reported_and_nothing_changes() {
    let mut pool: RampPool<usize> = RampPool::new();
    pool.begin_frame();
    assert_eq!(pool.slot_for(CYCLE, || None), None);
    assert_eq!(pool.len(), 0);
    assert_eq!(pool.slot_for(CYCLE, || Some(7)), Some(0));
    // Still in flight: a second ramp this frame needs a texture of its own.
    assert_eq!(pool.slot_for(CYCLE, || None), None);
    assert_eq!(pool.len(), 1);
    for _ in 0..FRAMES_IN_FLIGHT {
        pool.begin_frame();
    }
    // Rested: taken back without asking for a new one.
    assert_eq!(pool.slot_for(CYCLE, || panic!("no new texture is needed")), Some(0));
    assert_eq!(pool.entries[0].last_used, pool.frame);
}
