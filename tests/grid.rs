use all_colors::color::Color;
use all_colors::errors::AllColorsError;
use all_colors::fitness::{color_distance, point_distance, ColorAndPixelDistPixelFitter, ColorDistPixelFitter, PixelFitter};
use all_colors::frontier::Frontier;
use all_colors::engine::GridFiller;
use all_colors::geometry::{Point, Size};
use all_colors::grid::Grid;
use all_colors::neighbors::NeighborManager;

#[test]
fn grid_colors_and_neighbors() {
    let mut g = Grid::new(Size::new(3, 2));
    assert_eq!(g.area(), 6);
    assert_eq!(g.get_color(&Point::new(2, 1)), None);
    NeighborManager::set_neighbors(&mut g, NeighborManager::plus_offsets(), false);
    assert_eq!(g.get_neighbors(&Point::new(0, 0)), &[Point::new(1, 0), Point::new(0, 1)]);
    g.set_color(&Point::new(1, 0), &Color::new(1, 2, 3));
    assert_eq!(g.get_color(&Point::new(1, 0)), Some(Color::new(1, 2, 3)));
    assert_eq!(g.get_neighbor_colors(&Point::new(0, 0)), vec![Color::new(1, 2, 3)]);
    assert_eq!(g.get_neighbor_colors(&Point::new(2, 1)), vec![]);
    assert_eq!(g.get_uncolored_points().len(), 5);
    assert_eq!(g.get_uncolored_points()[1], Point::new(2, 0));
    assert_eq!(g.to_colors(), Err(AllColorsError::MissingColor(Point::new(0, 0))));
}

#[test]
fn distances() {
    assert_eq!(color_distance(&Color::new(255, 0, 0), &Color::new(255, 255, 255)), 130050);
    assert_eq!(Color::new(0, 0, 0).dist(&Color::new(255, 255, 255)), 195075);
    assert_eq!(Color::new(10, 20, 30).dist(&Color::new(13, 16, 30)), 25);
    assert_eq!(point_distance(&Point::new(0, 0), &Point::new(3, 4)), 25);
    assert_eq!(point_distance(&Point::new(usize::MAX, 0), &Point::new(0, 0)), usize::MAX);
}

#[test]
fn fitness_scores() {
    let mut g = Grid::new(Size::new(2, 1));
    NeighborManager::set_neighbors(&mut g, NeighborManager::plus_offsets(), false);
    let white = Color::new(255, 255, 255);
    assert_eq!(ColorDistPixelFitter.calculate_fit(&g, &Point::new(1, 0), &white), usize::MAX);
    g.set_color(&Point::new(0, 0), &Color::new(255, 0, 0));
    assert_eq!(ColorDistPixelFitter.calculate_fit(&g, &Point::new(1, 0), &white), 130050);
    let far = ColorAndPixelDistPixelFitter::new(Point::new(0, 0));
    assert_eq!(far.calculate_fit(&g, &Point::new(1, 0), &white), 130051);
    let near = ColorAndPixelDistPixelFitter::new(Point::new(1, 0));
    assert_eq!(near.calculate_fit(&g, &Point::new(1, 0), &white), 130050);
}

#[test]
fn position_term_uses_the_candidate() {
    let mut g = Grid::new(Size::new(2, 1));
    NeighborManager::set_neighbors(&mut g, NeighborManager::plus_offsets(), false);
    let black = Color::new(0, 0, 0);
    let fit = ColorAndPixelDistPixelFitter::new(Point::new(0, 0));
    assert_eq!(fit.calculate_fit(&g, &Point::new(0, 0), &black), usize::MAX);
    g.set_color(&Point::new(1, 0), &black);
    assert_eq!(fit.calculate_fit(&g, &Point::new(0, 0), &black), 0);
    let mut h = Grid::new(Size::new(3, 3));
    NeighborManager::set_neighbors(&mut h, NeighborManager::plus_offsets(), false);
    h.set_color(&Point::new(1, 0), &Color::new(10, 0, 0));
    h.set_color(&Point::new(0, 1), &Color::new(0, 0, 0));
    let far = ColorAndPixelDistPixelFitter::new(Point::new(2, 2));
    assert_eq!(far.calculate_fit(&h, &Point::new(0, 0), &Color::new(3, 0, 0)), 9 + 8);
}

#[test]
fn frontier_set_operations() {
    let mut f = Frontier::new();
    assert!(f.is_empty());
    f.insert(3);
    f.insert(3);
    assert!(f.contains(3));
    assert!(!f.contains(4));
    f.remove(3);
    assert!(f.is_empty());
}

#[test]
fn placement_step_grows_frontier() {
    let mut g = Grid::new(Size::new(3, 3));
    NeighborManager::set_neighbors(&mut g, NeighborManager::plus_offsets(), false);
    let mut f = Frontier::new();
    GridFiller::place(&mut g, &mut f, 4, &Color::new(9, 9, 9));
    for i in [1usize, 3, 5, 7] {
        assert!(f.contains(i));
    }
    assert!(!f.contains(4));
    assert!(!f.contains(0));
    GridFiller::place(&mut g, &mut f, 1, &Color::new(8, 8, 8));
    assert!(!f.contains(1));
    assert!(f.contains(0) && f.contains(2));
    assert!(f.contains(3) && f.contains(5) && f.contains(7));
}

#[test]
fn best_position_prefers_low_score_then_low_index() {
    let mut g = Grid::new(Size::new(3, 1));
    NeighborManager::set_neighbors(&mut g, NeighborManager::plus_offsets(), false);
    let mut f = Frontier::new();
    GridFiller::place(&mut g, &mut f, 1, &Color::new(0, 0, 0));
    let fit = all_colors::fitness::FitPolicy::ColorDist(ColorDistPixelFitter);
    assert_eq!(f.best_position(&g, &fit, &Color::new(5, 5, 5)), Some(0));
    let empty = Frontier::new();
    assert_eq!(empty.best_position(&g, &fit, &Color::new(5, 5, 5)), None);
}
