use path_tracer::scene::closest_hit;

fn key(t: f32) -> u32 {
    t.to_bits()
}

#[test]
fn two_overlapping_spheres_give_the_nearer_hit() {
    let t_min = key(0.001);
    let t_max = key(f32::INFINITY);
    let hits = vec![Some(key(2.5)), Some(key(1.5))];
    assert_eq!(closest_hit(&hits, t_min, t_max), Some(1));
    let hits = vec![Some(key(1.5)), Some(key(2.5))];
    assert_eq!(closest_hit(&hits, t_min, t_max), Some(0));
}

#[test]
fn equal_distances_keep_the_first_object() {
    let hits = vec![None, Some(key(3.0)), Some(key(3.0)), Some(key(4.0))];
    assert_eq!(closest_hit(&hits, key(0.001), key(f32::INFINITY)), Some(1));
}

#[test]
fn empty_scene_has_no_hit() {
    let hits: Vec<Option<u32>> = vec![];
    assert_eq!(closest_hit(&hits, key(0.001), key(f32::INFINITY)), None);
    assert_eq!(closest_hit(&vec![None, None], key(0.001), key(f32::INFINITY)), None);
}

#[test]
fn window_is_open_below_and_closed_above() {
    let t_min = key(0.001);
    let t_max = key(5.0);
    assert_eq!(closest_hit(&vec![Some(key(0.001))], t_min, t_max), None);
    assert_eq!(closest_hit(&vec![Some(key(5.0))], t_min, t_max), Some(0));
    assert_eq!(closest_hit(&vec![Some(key(5.5)), Some(key(0.0005))], t_min, t_max), None);
    assert_eq!(closest_hit(&vec![Some(key(5.5)), Some(key(4.0))], t_min, t_max), Some(1));
}

#[test]
fn nan_distances_are_never_chosen() {
    let hits = vec![Some(key(f32::NAN)), Some(key(7.0))];
    assert_eq!(closest_hit(&hits, key(0.001), key(f32::INFINITY)), Some(1));
}

#[test]
fn keys_order_like_distances() {
    let ts = [0.002f32, 0.5, 1.0, 1.0001, 3.0, 1000.0];
    for w in ts.windows(2) {
        assert!(key(w[0]) < key(w[1]));
    }
    let hits: Vec<Option<u32>> = ts.iter().rev().map(|t| Some(key(*t))).collect();
    assert_eq!(closest_hit(&hits, key(0.001), key(f32::INFINITY)), Some(ts.len() - 1));
}
