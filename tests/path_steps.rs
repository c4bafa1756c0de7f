use path_tracer::path::{may_trace, next_step, PathStep, SurfaceResponse};

#[test]
fn spent_budget_is_black_whatever_the_scene() {
    assert!(!may_trace(0));
    assert!(!may_trace(-3));
    for r in [SurfaceResponse::Missed, SurfaceResponse::Absorbed, SurfaceResponse::Scattered] {
        assert_eq!(next_step(0, r), PathStep::Black);
        assert_eq!(next_step(-1, r), PathStep::Black);
    }
}

#[test]
fn miss_gives_background() {
    assert!(may_trace(1));
    assert_eq!(next_step(1, SurfaceResponse::Missed), PathStep::Background);
    assert_eq!(next_step(50, SurfaceResponse::Missed), PathStep::Background);
}

#[test]
fn absorbed_ray_is_black() {
    assert_eq!(next_step(10, SurfaceResponse::Absorbed), PathStep::Black);
}

#[test]
fn scattered_ray_bounces_with_one_less() {
    assert_eq!(next_step(50, SurfaceResponse::Scattered), PathStep::Bounce { depth: 49 });
    assert_eq!(next_step(1, SurfaceResponse::Scattered), PathStep::Bounce { depth: 0 });
}

#[test]
fn bounce_chain_stops_at_the_budget() {
    let mut depth: i32 = 4;
    let mut bounces = 0;
    loop {
        if !may_trace(depth) {
            break;
        }
        match next_step(depth, SurfaceResponse::Scattered) {
            PathStep::Bounce { depth: d } => {
                bounces += 1;
                depth = d;
            }
            other => panic!("unexpected {:?}", other),
        }
    }
    assert_eq!(bounces, 4);
    assert_eq!(next_step(depth, SurfaceResponse::Scattered), PathStep::Black);
}
