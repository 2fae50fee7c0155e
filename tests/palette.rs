use all_colors::color::Color;
use all_colors::geometry::{Point, Size};
use all_colors::grid::{Cell, Grid};
use all_colors::math::{closest_square, get_factors, get_squared_up_factors};
use all_colors::neighbors::NeighborManager;
use all_colors::palette::{ColorChannelSpread, ColorChannels, ColorRange, ColorSelection, ColorSpace};
use all_colors::sorters::{ColorSorter, HueColorSorter, NoSorter, RandColorSorter};

#[test]
fn factors_of_numbers() {
    assert_eq!(get_factors(12), vec![(1, 12), (2, 6), (3, 4)]);
    assert_eq!(get_factors(16), vec![(1, 16), (2, 8), (4, 4)]);
    assert_eq!(get_factors(1), vec![(1, 1)]);
    assert_eq!(get_factors(0), vec![]);
    assert_eq!(get_factors(13), vec![(1, 13)]);
}

#[test]
fn squared_up_factors_and_closest_square() {
    assert_eq!(get_squared_up_factors(12), vec![(3, 4), (2, 6), (1, 12)]);
    assert_eq!(closest_square(12), Some(Size::new(3, 4)));
    assert_eq!(closest_square(65536), Some(Size::new(256, 256)));
    assert_eq!(closest_square(7), Some(Size::new(1, 7)));
    assert_eq!(closest_square(0), None);
}

#[test]
fn channel_values() {
    assert_eq!(ColorSelection::new(4, ColorRange::Spaced).get_values(), vec![0, 63, 127, 191]);
    assert_eq!(ColorSelection::new(3, ColorRange::Dark).get_values(), vec![0, 1, 2]);
    assert_eq!(ColorSelection::new(3, ColorRange::Light).get_values(), vec![255, 254, 253]);
    let all = ColorSelection::new(256, ColorRange::Spaced).get_values();
    assert_eq!(all.len(), 256);
    assert_eq!(all[255], 254);
    assert_eq!(ColorSelection::new(1, ColorRange::Spaced).get_values(), vec![0]);
}

#[test]
fn closest_equal_counts() {
    assert_eq!(ColorChannels::find_closest_equal_counts(Size::new(16, 16)), Some((Size::new(4, 16), 4)));
    assert_eq!(ColorChannels::find_closest_equal_counts(Size::new(8, 2)), Some((Size::new(8, 1), 2)));
    assert_eq!(ColorChannels::find_closest_equal_counts(Size::new(0, 5)), None);
    assert_eq!(ColorChannels::find_closest_equal_counts(Size::new(64, 64)), Some((Size::new(64, 64), 16)));
}

#[test]
fn hues() {
    assert_eq!(Color::new(255, 0, 0).hue(), 0);
    assert_eq!(Color::new(0, 255, 0).hue(), 120);
    assert_eq!(Color::new(0, 0, 255).hue(), 240);
    assert_eq!(Color::new(255, 255, 0).hue(), 60);
    assert_eq!(Color::new(0, 255, 255).hue(), 180);
    assert_eq!(Color::new(255, 0, 255).hue(), 300);
    assert_eq!(Color::new(7, 7, 7).hue(), 0);
    assert_eq!(Color::new(40, 21, 0).hue(), 32);
    assert_eq!(Color::new(255, 0, 1).hue(), 360);
    assert_eq!(HueColorSorter::fast_hue(&Color::new(0, 255, 0)), 120);
}

#[test]
fn sorters_keep_the_colors() {
    let colors = vec![Color::new(0, 0, 255), Color::new(255, 0, 0), Color::new(0, 255, 0), Color::new(255, 255, 0)];
    let mut by_hue = colors.clone();
    HueColorSorter.sort_colors(&mut by_hue);
    assert_eq!(
        by_hue,
        vec![Color::new(255, 0, 0), Color::new(255, 255, 0), Color::new(0, 255, 0), Color::new(0, 0, 255)]
    );
    let mut same = colors.clone();
    NoSorter.sort_colors(&mut same);
    assert_eq!(same, colors);
    let mut many: Vec<Color> = (0..64u8).map(|i| Color::new(i, 255 - i, i / 2)).collect();
    let before = many.clone();
    RandColorSorter::new(555).sort_colors(&mut many);
    assert_ne!(many, before);
    let mut again = before.clone();
    RandColorSorter::new(555).sort_colors(&mut again);
    assert_eq!(many, again);
    let key = |c: &Color| (c.red, c.green, c.blue);
    let mut a = many.clone();
    let mut b = before.clone();
    a.sort_by_key(key);
    b.sort_by_key(key);
    assert_eq!(a, b);
}

#[test]
fn cell_copies() {
    let mut g = Grid::new(Size::new(2, 2));
    NeighborManager::set_neighbors(&mut g, NeighborManager::plus_offsets(), true);
    g.set_color(&Point::new(1, 1), &Color::new(1, 1, 1));
    let c = g.get_cell(&Point::new(1, 1));
    assert_eq!(c.position, Point::new(1, 1));
    assert_eq!(c.color, Some(Color::new(1, 1, 1)));
    assert_eq!(c.neighbors, vec![Point::new(1, 0), Point::new(0, 1), Point::new(0, 1), Point::new(1, 0)]);
    let fresh = Cell::new(Point::new(0, 1));
    assert_eq!(fresh.color, None);
    assert!(fresh.neighbors.is_empty());
}

#[test]
fn color_space_product() {
    let cs = ColorSpace::new(
        ColorSelection::new(2, ColorRange::Spaced),
        ColorSelection::new(1, ColorRange::Dark),
        ColorSelection::new(3, ColorRange::Light),
    );
    assert_eq!(cs.color_count(), 6);
    assert_eq!(
        cs.get_colors(),
        vec![
            Color::new(0, 0, 255),
            Color::new(0, 0, 254),
            Color::new(0, 0, 253),
            Color::new(127, 0, 255),
            Color::new(127, 0, 254),
            Color::new(127, 0, 253)
        ]
    );
}

#[test]
fn spread_to_range() {
    let light = ColorSelection::new(2, ColorChannelSpread::Light.range()).get_values();
    assert_eq!(light, vec![255, 254]);
    assert_eq!(ColorChannelSpread::Dark.range(), ColorRange::Dark);
    assert_eq!(ColorChannelSpread::Spaced.range(), ColorRange::Spaced);
}
