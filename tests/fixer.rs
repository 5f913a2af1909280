use alpha_fill::{fix_transparent_pixels, interpolate_nearby_non_transparent_pixels, Grid, Pixel};

fn px(r: u8, g: u8, b: u8, a: u8) -> Pixel {
    Pixel::new(r, g, b, a)
}

fn grid(width: u32, height: u32, pixels: Vec<Pixel>) -> Grid {
    Grid::new(width, height, pixels).expect("pixel count matches the size")
}

const SENTINEL: Pixel = Pixel { r: 255, g: 255, b: 255, a: 0 };

#[test]
fn center_surrounded_by_one_color() {
    let c = px(10, 20, 30, 255);
    let mut pixels = vec![c; 9];
    pixels[4] = SENTINEL;
    let g = grid(3, 3, pixels);
    let (out, modified) = fix_transparent_pixels(&g);
    assert!(modified);
    assert_eq!(out.pixel(1, 1), px(10, 20, 30, 0));
    for y in 0..3 {
        for x in 0..3 {
            if (x, y) != (1, 1) {
                assert_eq!(out.pixel(x, y), c);
            }
        }
    }
}

#[test]
fn center_with_only_top_left_neighbor() {
    let mut pixels = vec![SENTINEL; 9];
    pixels[0] = px(10, 20, 30, 255);
    let g = grid(3, 3, pixels);
    let (out, modified) = fix_transparent_pixels(&g);
    assert!(modified);
    assert_eq!(out.pixel(1, 1), px(10, 20, 30, 0));
    assert_eq!(
        interpolate_nearby_non_transparent_pixels(&g, (1, 1)),
        Some(px(10, 20, 30, 0))
    );
}

#[test]
fn single_transparent_pixel_is_kept() {
    let g = grid(1, 1, vec![SENTINEL]);
    assert_eq!(interpolate_nearby_non_transparent_pixels(&g, (0, 0)), None);
    let (out, modified) = fix_transparent_pixels(&g);
    assert!(!modified);
    assert_eq!(out.pixels, vec![SENTINEL]);
}

#[test]
fn mean_is_floored_per_channel() {
    // Neighbours (10, 20, 30), (11, 21, 31) and (0, 0, 255) around (1, 0).
    let g = grid(
        3,
        2,
        vec![
            px(10, 20, 30, 255),
            SENTINEL,
            px(11, 21, 31, 255),
            SENTINEL,
            px(0, 0, 255, 255),
            SENTINEL,
        ],
    );
    // Sums 21, 41, 316 over three samples.
    let expected = px(7, 13, 105, 0);
    assert_eq!(interpolate_nearby_non_transparent_pixels(&g, (1, 0)), Some(expected));
    let (out, modified) = fix_transparent_pixels(&g);
    assert!(modified);
    assert_eq!(out.pixel(1, 0), expected);
    // (0, 1) sees (10, 20, 30) and (0, 0, 255): sums 10, 20, 285 over two.
    assert_eq!(out.pixel(0, 1), px(5, 10, 142, 0));
    // (2, 1) sees (11, 21, 31) and (0, 0, 255).
    assert_eq!(out.pixel(2, 1), px(5, 10, 143, 0));
}

#[test]
fn single_neighbor_color_is_copied() {
    // Only (2, 2) is opaque; (1, 1) has it as its one neighbour.
    let mut pixels = vec![px(1, 2, 3, 0); 16];
    pixels[2 * 4 + 2] = px(200, 100, 50, 255);
    let g = grid(4, 4, pixels);
    let (out, _) = fix_transparent_pixels(&g);
    assert_eq!(out.pixel(1, 1), px(200, 100, 50, 0));
    assert_eq!(out.pixel(3, 3), px(200, 100, 50, 0));
    // (0, 0) is two cells away: it keeps its color.
    assert_eq!(out.pixel(0, 0), px(1, 2, 3, 0));
}

#[test]
fn isolated_pixel_keeps_its_color() {
    let mut pixels = vec![px(9, 8, 7, 0); 25];
    pixels[0] = px(100, 100, 100, 255);
    let g = grid(5, 5, pixels);
    let (out, modified) = fix_transparent_pixels(&g);
    assert!(modified);
    assert_eq!(out.pixel(2, 2), px(9, 8, 7, 0));
    assert_eq!(out.pixel(1, 1), px(100, 100, 100, 0));
}

#[test]
fn opaque_grid_is_not_modified() {
    let pixels = vec![px(1, 2, 3, 255), px(4, 5, 6, 128), px(7, 8, 9, 1), px(0, 0, 0, 255)];
    let g = grid(2, 2, pixels.clone());
    let (out, modified) = fix_transparent_pixels(&g);
    assert!(!modified);
    assert_eq!(out.pixels, pixels);
}

#[test]
fn alpha_is_preserved() {
    let pixels = vec![
        px(0, 0, 0, 0),
        px(50, 60, 70, 255),
        px(1, 1, 1, 0),
        px(90, 80, 70, 128),
        px(255, 255, 255, 0),
        px(2, 2, 2, 0),
    ];
    let g = grid(3, 2, pixels.clone());
    let (out, _) = fix_transparent_pixels(&g);
    assert_eq!(out.width(), 3);
    assert_eq!(out.height(), 2);
    for (before, after) in pixels.iter().zip(out.pixels.iter()) {
        assert_eq!(before.a, after.a);
        if before.a != 0 {
            assert_eq!(before, after);
        }
    }
}

#[test]
fn second_pass_changes_nothing() {
    let pixels = vec![
        px(255, 255, 255, 0),
        px(50, 60, 70, 255),
        px(255, 255, 255, 0),
        px(255, 255, 255, 0),
        px(255, 255, 255, 0),
        px(255, 255, 255, 0),
        px(255, 255, 255, 0),
        px(255, 255, 255, 0),
        px(10, 0, 200, 255),
    ];
    let g = grid(3, 3, pixels);
    let (once, first) = fix_transparent_pixels(&g);
    let (twice, second) = fix_transparent_pixels(&once);
    assert!(first);
    assert!(second);
    assert_eq!(twice.pixels, once.pixels);
    assert_eq!(once.pixel(1, 1), px(30, 30, 135, 0));
}

#[test]
fn edge_pixels_clip_the_neighbourhood() {
    let g = grid(
        4,
        1,
        vec![px(0, 0, 0, 0), px(40, 80, 120, 255), px(0, 0, 0, 0), px(7, 7, 7, 0)],
    );
    let (out, modified) = fix_transparent_pixels(&g);
    assert!(modified);
    assert_eq!(out.pixels[0], px(40, 80, 120, 0));
    assert_eq!(out.pixels[2], px(40, 80, 120, 0));
    assert_eq!(out.pixels[3], px(7, 7, 7, 0));
}

#[test]
fn center_pixel_is_not_its_own_neighbor() {
    let mut pixels = vec![px(0, 0, 0, 0); 9];
    pixels[4] = px(99, 99, 99, 255);
    let g = grid(3, 3, pixels);
    assert_eq!(interpolate_nearby_non_transparent_pixels(&g, (1, 1)), None);
}

#[test]
fn empty_grid() {
    let g = grid(0, 0, vec![]);
    let (out, modified) = fix_transparent_pixels(&g);
    assert!(!modified);
    assert!(out.pixels.is_empty());
}
