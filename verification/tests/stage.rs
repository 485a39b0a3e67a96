use cusk::foreign_toplevel::ToplevelId;
use cusk::stage::{downscale, thumbnail_size, Stage, MAX_EDGE};

fn solid(width: u32, height: u32, colour: [u8; 4]) -> Vec<u8> {
    colour
        .iter()
        .copied()
        .cycle()
        .take((width as usize) * (height as usize) * 4)
        .collect()
}

#[test]
fn a_small_window_is_stored_as_it_is() {
    // Upscaling spends memory to add no detail.
    assert_eq!(thumbnail_size(100, 80), (100, 80));
    let snapshot = downscale(&solid(100, 80, [1, 2, 3, 255]), 100, 80).expect("downscales");
    assert_eq!((snapshot.width, snapshot.height), (100, 80));
    assert!(snapshot.is_consistent());
}

#[test]
fn aspect_ratio_survives_the_cap() {
    // A 16:9 window is the common case and must not come back square.
    let (w, h) = thumbnail_size(1920, 1080);
    assert_eq!(w, MAX_EDGE);
    assert!(h > 140 && h < 150, "1080/1920 * 256 is about 144, got {h}");
}

#[test]
fn an_extreme_ratio_never_produces_a_zero_edge() {
    // 4000x3 scaled by 256/4000 is 0.19 pixels tall. A zero-height buffer
    // is one nothing can draw, so the floor is 1.
    let (w, h) = thumbnail_size(4000, 3);
    assert_eq!(w, MAX_EDGE);
    assert_eq!(h, 1);
    let snapshot = downscale(&solid(4000, 3, [9, 9, 9, 255]), 4000, 3).expect("downscales");
    assert!(snapshot.is_consistent());
    assert!(snapshot.height >= 1);
}

#[test]
fn a_solid_image_downscales_to_the_same_colour() {
    // Box averaging over identical pixels must be exact — any drift here is
    // an arithmetic bug that would show as a thumbnail tinted differently
    // from the window it came from.
    let snapshot = downscale(&solid(1000, 1000, [40, 80, 120, 255]), 1000, 1000).unwrap();
    assert!(snapshot.is_consistent());
    for chunk in snapshot.pixels.chunks_exact(4) {
        assert_eq!(chunk, [40, 80, 120, 255]);
    }
}

#[test]
fn every_output_pixel_is_written() {
    // The bug this catches: a sampling loop whose ranges leave the last row
    // or column untouched, producing a thumbnail with a black edge that
    // looks like a border the window did not have.
    let src = solid(999, 501, [255, 255, 255, 255]);
    let snapshot = downscale(&src, 999, 501).unwrap();
    assert!(
        snapshot.pixels.chunks_exact(4).all(|p| p == [255, 255, 255, 255]),
        "an output pixel was never sampled"
    );
}

#[test]
fn averaging_actually_averages() {
    // Two rows, black over white, scaled to one row: the result is the mean
    // and not either input. Nearest-neighbour would return one of them,
    // which is the distinction this function exists to make.
    let mut src = vec![0u8; 2 * 512 * 4];
    for x in 0..512 {
        let at = (512 + x) * 4;
        src[at..at + 4].copy_from_slice(&[255, 255, 255, 255]);
    }
    let snapshot = downscale(&src, 512, 2).unwrap();
    assert_eq!(snapshot.height, 1, "512x2 capped at 256 is 256x1");
    for chunk in snapshot.pixels.chunks_exact(4) {
        assert_eq!(chunk[0], 127, "expected the mean of 0 and 255");
    }
}

#[test]
fn a_short_buffer_is_refused_rather_than_read_past() {
    // The caller is a render loop reading back from the GPU; a download
    // that returned less than advertised must not become an out-of-bounds
    // read in the scaler.
    assert!(downscale(&[0u8; 16], 100, 100).is_none());
    assert!(downscale(&[], 0, 0).is_none());
}

#[test]
fn an_empty_render_is_recognisable_as_empty() {
    // The failure this names: correct dimensions, correct buffer length,
    // and nothing in it. Without the check it surfaces as a blank tile in
    // the dock, a process away from the cause.
    let blank = downscale(&vec![0u8; 64 * 64 * 4], 64, 64).unwrap();
    assert!(blank.is_blank());

    let drawn = downscale(&solid(64, 64, [10, 20, 30, 255]), 64, 64).unwrap();
    assert!(!drawn.is_blank());

    // A single opaque pixel is enough — the window drew *something*.
    let mut mostly_empty = vec![0u8; 64 * 64 * 4];
    mostly_empty[3] = 255;
    assert!(!downscale(&mostly_empty, 64, 64).unwrap().is_blank());
}

#[test]
fn snapshots_are_dropped_on_restore_and_on_close() {
    let mut stage = Stage::default();
    let snapshot = downscale(&solid(8, 8, [1, 1, 1, 255]), 8, 8).unwrap();
    stage.insert(ToplevelId(1), snapshot.clone());
    stage.insert(ToplevelId(2), snapshot);
    assert_eq!(stage.len(), 2);

    stage.forget(ToplevelId(1));
    assert!(stage.get(ToplevelId(1)).is_none());
    assert!(stage.get(ToplevelId(2)).is_some());

    // The sweep is the backstop for a window that vanished without either
    // path being taken — what a client crash looks like from here.
    stage.retain_only(&[]);
    assert!(stage.is_empty(), "the sweep must drop what nothing claims");
}

#[test]
fn a_consistent_snapshot_is_distinguishable_from_a_broken_one() {
    let mut snapshot = downscale(&solid(4, 4, [1, 2, 3, 4]), 4, 4).unwrap();
    assert!(snapshot.is_consistent());
    snapshot.pixels.truncate(3);
    assert!(!snapshot.is_consistent());
}
