use path_tracer::frame::{assemble, FrameError, ImageGrid};
use path_tracer::pixel::{Pixel, RBG};

#[test]
fn new_grid_is_empty() {
    let g = ImageGrid::new(3, 2);
    assert_eq!(g.width(), 3);
    assert_eq!(g.height(), 2);
    assert_eq!(g.filled(), 0);
    assert!(!g.is_complete());
    assert_eq!(g.get(0, 0), None);
    assert_eq!(g.get(2, 1), None);
}

#[test]
fn accepted_pixel_is_stored_at_its_coordinates() {
    let mut g = ImageGrid::new(3, 2);
    assert_eq!(g.accept(Pixel::new(2, 1, 10, 20, 30)), Ok(()));
    assert_eq!(g.get(2, 1), Some(RBG::new(10, 20, 30)));
    assert_eq!(g.get(1, 2), None);
    assert_eq!(g.get(1, 1), None);
    assert_eq!(g.filled(), 1);
}

#[test]
fn out_of_bounds_pixel_is_refused() {
    let mut g = ImageGrid::new(3, 2);
    assert_eq!(g.accept(Pixel::new(3, 0, 1, 1, 1)), Err(FrameError::OutOfBounds));
    assert_eq!(g.accept(Pixel::new(0, 2, 1, 1, 1)), Err(FrameError::OutOfBounds));
    assert_eq!(g.filled(), 0);
}

#[test]
fn second_result_for_a_pixel_is_refused() {
    let mut g = ImageGrid::new(2, 2);
    assert_eq!(g.accept(Pixel::new(1, 0, 5, 5, 5)), Ok(()));
    assert_eq!(g.accept(Pixel::new(1, 0, 9, 9, 9)), Err(FrameError::AlreadyWritten));
    assert_eq!(g.get(1, 0), Some(RBG::new(5, 5, 5)));
    assert_eq!(g.filled(), 1);
}

#[test]
fn grid_completes_after_every_pixel_once() {
    let (w, h) = (4u32, 3u32);
    let mut g = ImageGrid::new(w, h);
    for y in 0..h {
        for x in 0..w {
            assert!(!g.is_complete());
            assert_eq!(g.accept(Pixel::new(x, y, x as u8, y as u8, 7)), Ok(()));
        }
    }
    assert!(g.is_complete());
    assert_eq!(g.filled(), 12);
    assert_eq!(g.get(3, 2), Some(RBG::new(3, 2, 7)));
    assert_eq!(RBG::black(), RBG::new(0, 0, 0));
}

#[test]
fn assemble_builds_the_complete_grid() {
    let results = vec![
        Pixel::new(1, 1, 4, 4, 4),
        Pixel::new(0, 0, 1, 1, 1),
        Pixel::new(1, 0, 2, 2, 2),
        Pixel::new(0, 1, 3, 3, 3),
    ];
    let g = assemble(2, 2, &results).unwrap();
    assert!(g.is_complete());
    assert_eq!(g.get(0, 0), Some(RBG::new(1, 1, 1)));
    assert_eq!(g.get(1, 0), Some(RBG::new(2, 2, 2)));
    assert_eq!(g.get(0, 1), Some(RBG::new(3, 3, 3)));
    assert_eq!(g.get(1, 1), Some(RBG::new(4, 4, 4)));
}

#[test]
fn assemble_reports_the_first_refused_result() {
    let dup = vec![Pixel::new(0, 0, 1, 1, 1), Pixel::new(0, 0, 2, 2, 2), Pixel::new(5, 0, 0, 0, 0)];
    assert_eq!(assemble(2, 2, &dup).err(), Some(FrameError::AlreadyWritten));
    let out = vec![Pixel::new(0, 0, 1, 1, 1), Pixel::new(2, 0, 0, 0, 0), Pixel::new(0, 0, 2, 2, 2)];
    assert_eq!(assemble(2, 2, &out).err(), Some(FrameError::OutOfBounds));
}

#[test]
fn assemble_reports_missing_pixels() {
    let partial = vec![Pixel::new(0, 0, 1, 1, 1), Pixel::new(1, 1, 1, 1, 1)];
    assert_eq!(assemble(2, 2, &partial).err(), Some(FrameError::Incomplete));
    assert_eq!(assemble(2, 2, &vec![]).err(), Some(FrameError::Incomplete));
}
