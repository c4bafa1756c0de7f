use path_tracer::schedule::{batch_bounds, batch_count, pool_size, pool_size_for, unit_pixel};
use path_tracer::settings::{RenderSettings, SettingsError};

#[test]
fn pool_has_at_least_one_worker() {
    assert!(pool_size() >= 1);
    assert_eq!(pool_size_for(0), 1);
    assert_eq!(pool_size_for(8), 8);
}

#[test]
fn units_are_taken_row_by_row() {
    assert_eq!(unit_pixel(600, 400, 0), (0, 0));
    assert_eq!(unit_pixel(600, 400, 599), (599, 0));
    assert_eq!(unit_pixel(600, 400, 600), (0, 1));
    assert_eq!(unit_pixel(600, 400, 239_999), (599, 399));
}

#[test]
fn batches_cover_all_units_once() {
    let (total, pool) = (10usize, 4usize);
    assert_eq!(batch_count(total, pool), 3);
    assert_eq!(batch_bounds(total, pool, 0), (0, 4));
    assert_eq!(batch_bounds(total, pool, 1), (4, 8));
    assert_eq!(batch_bounds(total, pool, 2), (8, 10));
    assert_eq!(batch_count(12, 4), 3);
    assert_eq!(batch_bounds(12, 4, 2), (8, 12));
    assert_eq!(batch_count(0, 4), 0);
    assert_eq!(batch_count(3, 1), 3);
    let mut seen = vec![0u32; total];
    for b in 0..batch_count(total, pool) {
        let (s, e) = batch_bounds(total, pool, b);
        assert!(e - s <= pool);
        for u in s..e {
            seen[u] += 1;
        }
    }
    assert!(seen.iter().all(|c| *c == 1));
}

#[test]
fn settings_are_checked() {
    let s = RenderSettings::new(600, 400, 50, 50).unwrap();
    assert_eq!(s.pixel_count(), 240_000);
    assert_eq!(s.max_depth, 50);
    assert_eq!(RenderSettings::new(1, 400, 50, 50), Err(SettingsError::ImageTooSmall));
    assert_eq!(RenderSettings::new(600, 0, 50, 50), Err(SettingsError::ImageTooSmall));
    assert_eq!(RenderSettings::new(600, 400, 0, 50), Err(SettingsError::NoSamples));
    assert_eq!(RenderSettings::new(2, 2, 1, 0).map(|s| s.max_depth), Ok(0));
}
