use all_colors::color::Color;
use all_colors::config::ColorPlacerConfig;
use all_colors::engine::GridFiller;
use all_colors::errors::AllColorsError;
use all_colors::fitness::{ColorAndPixelDistPixelFitter, ColorDistPixelFitter, FitPolicy};
use all_colors::geometry::{Point, Size};
use all_colors::neighbors::{NeighborManager, OffsetNeighborComponent};

fn red() -> Color {
    Color::new(255, 0, 0)
}
fn black() -> Color {
    Color::new(0, 0, 0)
}
fn white() -> Color {
    Color::new(255, 255, 255)
}
fn green() -> Color {
    Color::new(0, 255, 0)
}

fn config(
    size: Size,
    colors: Vec<Color>,
    points: Vec<Point>,
    offsets: Vec<(isize, isize)>,
    wrap: bool,
) -> ColorPlacerConfig {
    ColorPlacerConfig::new(
        555,
        size,
        colors,
        points,
        OffsetNeighborComponent::new(&offsets, wrap),
        FitPolicy::ColorDist(ColorDistPixelFitter),
    )
    .unwrap()
}

fn sample_colors(n: usize) -> Vec<Color> {
    let mut v = Vec::new();
    let mut s: u32 = 12345;
    for _ in 0..n {
        s = s.wrapping_mul(1103515245).wrapping_add(12345);
        v.push(Color::new((s >> 16) as u8, (s >> 8) as u8, s as u8));
    }
    v
}

fn sorted(mut v: Vec<Color>) -> Vec<(u8, u8, u8)> {
    let mut out: Vec<(u8, u8, u8)> = v.drain(..).map(|c| (c.red, c.green, c.blue)).collect();
    out.sort();
    out
}

#[test]
fn two_by_two_scenario() {
    let cfg = config(
        Size::new(2, 2),
        vec![red(), black(), white(), green()],
        vec![Point::new(0, 0)],
        NeighborManager::standard_offsets(),
        false,
    );
    let out = GridFiller::create_grid(&cfg);
    assert_eq!(out.grid.get_color(&Point::new(0, 0)), Some(red()));
    assert_eq!(out.grid.get_color(&Point::new(1, 0)), Some(black()));
    assert_eq!(out.grid.get_color(&Point::new(0, 1)), Some(white()));
    assert_eq!(out.grid.get_color(&Point::new(1, 1)), Some(green()));
    assert_eq!(out.order, vec![0, 1, 2, 3]);
    assert_eq!(out.scans, 3);
    assert_eq!(out.fallbacks, 0);
    assert!(out.frontier.is_empty());
}

#[test]
fn single_cell_scenario() {
    let cfg = config(Size::new(1, 1), vec![green()], vec![], NeighborManager::standard_offsets(), false);
    assert_eq!(cfg.initial_points, vec![Point::new(0, 0)]);
    let out = GridFiller::create_grid(&cfg);
    assert_eq!(out.grid.get_color(&Point::new(0, 0)), Some(green()));
    assert_eq!(out.scans, 0);
    assert_eq!(out.fallbacks, 0);
    assert!(out.frontier.is_empty());
}

#[test]
fn completion_and_conservation() {
    let colors = sample_colors(48);
    let cfg = config(Size::new(8, 6), colors.clone(), vec![Point::new(4, 3)], NeighborManager::plus_offsets(), true);
    let out = GridFiller::create_grid(&cfg);
    let placed = out.grid.to_colors().unwrap();
    assert_eq!(placed.len(), 48);
    assert_eq!(sorted(placed.clone()), sorted(colors.clone()));
    assert!(out.frontier.is_empty());
    let mut seen = out.order.clone();
    seen.sort();
    seen.dedup();
    assert_eq!(seen.len(), 48);
    for (k, idx) in out.order.iter().enumerate() {
        assert_eq!(placed[*idx], colors[k]);
    }
}

#[test]
fn determinism_of_two_runs() {
    let colors = sample_colors(100);
    let a = GridFiller::create_grid(&config(
        Size::new(10, 10),
        colors.clone(),
        vec![Point::new(5, 5), Point::new(1, 1)],
        NeighborManager::standard_offsets(),
        false,
    ));
    let b = GridFiller::create_grid(&config(
        Size::new(10, 10),
        colors,
        vec![Point::new(5, 5), Point::new(1, 1)],
        NeighborManager::standard_offsets(),
        false,
    ));
    assert_eq!(a.grid.to_colors().unwrap(), b.grid.to_colors().unwrap());
    assert_eq!(a.order, b.order);
}

#[test]
fn disconnected_shape_falls_back() {
    let colors = sample_colors(6);
    let cfg = config(Size::new(3, 2), colors.clone(), vec![Point::new(0, 0)], vec![], false);
    let out = GridFiller::create_grid(&cfg);
    assert_eq!(out.fallbacks, 5);
    assert_eq!(out.scans, 0);
    let placed = out.grid.to_colors().unwrap();
    assert_eq!(sorted(placed), sorted(colors));
    assert!(out.frontier.is_empty());
}

#[test]
fn position_fitter_run() {
    let colors = sample_colors(16);
    let cfg = ColorPlacerConfig::new(
        7,
        Size::new(4, 4),
        colors.clone(),
        vec![Point::new(2, 2)],
        OffsetNeighborComponent::new(&NeighborManager::x_offsets(), false),
        FitPolicy::ColorAndPixelDist(ColorAndPixelDistPixelFitter::new(Point::new(2, 2))),
    )
    .unwrap();
    let out = GridFiller::create_grid(&cfg);
    assert_eq!(sorted(out.grid.to_colors().unwrap()), sorted(colors));
    assert_eq!(out.scans + out.fallbacks + 1, 16);
    assert!(out.fallbacks >= 1);
}

#[test]
fn config_errors() {
    let comp = || OffsetNeighborComponent::new(&NeighborManager::plus_offsets(), false);
    let fit = FitPolicy::ColorDist(ColorDistPixelFitter);
    assert_eq!(
        ColorPlacerConfig::new(1, Size::new(0, 3), vec![], vec![], comp(), fit).err(),
        Some(AllColorsError::InvalidSize)
    );
    assert_eq!(
        ColorPlacerConfig::new(1, Size::new(usize::MAX, 2), vec![], vec![], comp(), fit).err(),
        Some(AllColorsError::InvalidSize)
    );
    assert_eq!(
        ColorPlacerConfig::new(1, Size::new(2, 2), sample_colors(3), vec![], comp(), fit).err(),
        Some(AllColorsError::ColorCountMismatch)
    );
    assert_eq!(
        ColorPlacerConfig::new(1, Size::new(1, 1), sample_colors(1), vec![Point::new(0, 0), Point::new(0, 0)], comp(), fit)
            .err(),
        Some(AllColorsError::TooManyInitialPoints)
    );
    assert_eq!(
        ColorPlacerConfig::new(1, Size::new(2, 2), sample_colors(4), vec![Point::new(0, 0), Point::new(2, 0)], comp(), fit)
            .err(),
        Some(AllColorsError::InvalidPoint(Point::new(2, 0)))
    );
    assert_eq!(
        ColorPlacerConfig::new(
            1,
            Size::new(2, 2),
            sample_colors(4),
            vec![Point::new(1, 1), Point::new(0, 1), Point::new(1, 1)],
            comp(),
            fit
        )
        .err(),
        Some(AllColorsError::DuplicateInitialPoint(Point::new(1, 1)))
    );
    let ok = ColorPlacerConfig::new(9, Size::new(4, 3), sample_colors(12), vec![], comp(), fit).unwrap();
    assert_eq!(ok.initial_points, vec![Point::new(2, 1)]);
    assert_eq!(ok.seed, 9);
}
