use all_colors::color::Color;
use all_colors::config::ColorPlacerConfig;
use all_colors::engine::GridFiller;
use all_colors::fitness::{ColorDistPixelFitter, FitPolicy};
use all_colors::geometry::{Point, Size};
use all_colors::grid::Grid;
use all_colors::neighbors::{NeighborManager, OffsetNeighborComponent, RandNeighborManager};
use all_colors::palette::TestColorSpace;

fn sorted(v: &[Color]) -> Vec<(u8, u8, u8)> {
    let mut out: Vec<(u8, u8, u8)> = v.iter().map(|c| (c.red, c.green, c.blue)).collect();
    out.sort();
    out
}

#[test]
fn random_shapes_stay_within_the_standard_offsets() {
    let size = Size::new(6, 5);
    let mut g = Grid::new(size);
    RandNeighborManager::new(555, false).set_neighbors(&mut g);
    let std_nbrs = OffsetNeighborComponent::new(&NeighborManager::standard_offsets(), false);
    for y in 0..5 {
        for x in 0..6 {
            let p = Point::new(x, y);
            let mine = g.get_neighbors(&p);
            assert!(mine.len() <= 8);
            let all = std_nbrs.get_pos_neighbors(size, p);
            for n in mine {
                assert!(all.contains(n));
            }
        }
    }
    let mut h = Grid::new(size);
    RandNeighborManager::new(555, false).set_neighbors(&mut h);
    for i in 0..30 {
        let p = Point::new(i % 6, i / 6);
        assert_eq!(g.get_neighbors(&p), h.get_neighbors(&p));
    }
    let mut w = Grid::new(size);
    RandNeighborManager::new(7, true).set_neighbors(&mut w);
    for i in 0..30 {
        let n = w.get_neighbors(&Point::new(i % 6, i / 6)).len();
        assert!((1..=8).contains(&n));
    }
}

#[test]
fn fill_on_random_shape() {
    let size = Size::new(6, 5);
    let colors = TestColorSpace { pixel_count: 30 }.get_colors();
    let cfg = ColorPlacerConfig::new(
        555,
        size,
        colors.clone(),
        vec![Point::new(0, 0)],
        OffsetNeighborComponent::new(&[], false),
        FitPolicy::ColorDist(ColorDistPixelFitter),
    )
    .unwrap();
    let mut g = Grid::new(size);
    RandNeighborManager::new(3, false).set_neighbors(&mut g);
    let out = GridFiller::fill(g, &cfg);
    let placed = out.grid.to_colors().unwrap();
    assert_eq!(sorted(&placed), sorted(&colors));
    assert!(out.frontier.is_empty());
    assert_eq!(out.scans + out.fallbacks, 29);
}

#[test]
fn test_palette() {
    let c = TestColorSpace { pixel_count: 7 }.get_colors();
    assert_eq!(
        c,
        vec![
            Color::new(0, 0, 0),
            Color::new(0, 0, 0),
            Color::new(0, 0, 0),
            Color::new(1, 0, 0),
            Color::new(0, 1, 0),
            Color::new(0, 0, 1),
            Color::new(2, 0, 0)
        ]
    );
    let long = TestColorSpace { pixel_count: 800 }.get_colors();
    assert_eq!(long[768], Color::new(0, 0, 0));
    assert_eq!(long[767], Color::new(0, 0, 255));
}

#[test]
fn grid_validate_xy() {
    let g = Grid::new(Size::new(4, 3));
    assert_eq!(g.validate_xy(-1, -1, true), Some(Point::new(3, 2)));
    assert_eq!(g.validate_xy(-1, -1, false), None);
    assert_eq!(g.validate_xy(3, 2, false), Some(Point::new(3, 2)));
    assert_eq!(g.validate_xy(4, 1, true), Some(Point::new(0, 1)));
    assert_eq!(g.validate_xy(4, 1, false), None);
}

#[test]
fn seeded_shapes_depend_on_the_seed() {
    let size = Size::new(8, 8);
    let mut a = Grid::new(size);
    RandNeighborManager::new(1, true).set_neighbors(&mut a);
    let mut b = Grid::new(size);
    RandNeighborManager::new(2, true).set_neighbors(&mut b);
    let differs = (0..64).any(|i| {
        let p = Point::new(i % 8, i / 8);
        a.get_neighbors(&p) != b.get_neighbors(&p)
    });
    assert!(differs);
}
