use torus_life::grid::Grid;
use torus_life::render::{
    get_cell_color, make_palette, render_cells, render_pixel, render_rows, scale_by_mode,
    shrink_by_majority, RenderMode, ViewError, Viewport, ALIVE_COLOR, DEAD_COLOR,
};
use torus_life::scheduler::do_step;
use torus_life::seed::random_seed;

const B: u32 = 0x0000_0000;
const W: u32 = 0xFFFF_FFFF;

fn grid_from(rows: usize, cols: usize, chunk: usize, alive: &[(usize, usize)]) -> Grid {
    let mut g = Grid::new(rows, cols, chunk).unwrap();
    for &(r, c) in alive {
        g.set(r, c, true);
    }
    g
}

fn paint(g: &Grid, mode: RenderMode, def_w: usize, def_h: usize) -> (Vec<u32>, usize, usize) {
    let view = Viewport::new(g.rows(), g.cols(), mode, def_w, def_h).unwrap();
    let mut buffer = vec![0x1234_5678u32; view.width * view.height];
    render_cells(g, &mut buffer, &view);
    (buffer, view.width, view.height)
}

#[test]
fn cell_colours() {
    assert_eq!(get_cell_color(true), 0x0000_0000);
    assert_eq!(get_cell_color(false), 0xFFFF_FFFF);
    assert_eq!(ALIVE_COLOR, 0x0000_0000);
    assert_eq!(DEAD_COLOR, 0xFFFF_FFFF);
}

#[test]
fn output_dimension_by_mode() {
    assert_eq!(scale_by_mode(RenderMode::OneToOne, 1280, 720), 1280);
    assert_eq!(scale_by_mode(RenderMode::Crop, 1280, 720), 720);
    assert_eq!(scale_by_mode(RenderMode::Enlarge { scale: 3 }, 1280, 720), 3840);
    assert_eq!(scale_by_mode(RenderMode::Reduce { scale: 4 }, 1280, 720), 320);
    assert_eq!(scale_by_mode(RenderMode::Reduce { scale: 3 }, 1280, 720), 426);
    assert_eq!(scale_by_mode(RenderMode::Enlarge { scale: 1 }, 7, 0), 7);
    assert_eq!(scale_by_mode(RenderMode::Reduce { scale: 8 }, 7, 9), 0);
}

#[test]
fn grey_palette_values() {
    assert_eq!(make_palette(1), vec![0xFFFF_FFFF, 0x0000_0000]);
    assert_eq!(
        make_palette(4),
        vec![0xFFFF_FFFF, 0xC0C0_C0C0, 0x8080_8080, 0x4040_4040, 0x0000_0000]
    );
    let nine = make_palette(9);
    assert_eq!(nine.len(), 10);
    assert_eq!(nine[1], 0xE3E3_E3E3);
    assert_eq!(nine[8], 0x1D1D_1D1D);
}

#[test]
fn grey_palette_darkens_with_density() {
    for n in [1usize, 4, 9, 16, 100, 255, 256, 1000] {
        let palette = make_palette(n);
        assert_eq!(palette.len(), n + 1);
        assert_eq!(palette[0], DEAD_COLOR);
        assert_eq!(palette[n], ALIVE_COLOR);
        for k in 1..=n {
            assert!(palette[k] <= palette[k - 1]);
        }
    }
}

#[test]
fn viewport_dimensions() {
    let v = Viewport::new(9, 16, RenderMode::OneToOne, 3, 3).unwrap();
    assert_eq!((v.width, v.height, v.palette.len()), (16, 9, 0));
    let v = Viewport::new(9, 16, RenderMode::Crop, 5, 4).unwrap();
    assert_eq!((v.width, v.height, v.palette.len()), (5, 4, 0));
    let v = Viewport::new(9, 16, RenderMode::Enlarge { scale: 3 }, 5, 4).unwrap();
    assert_eq!((v.width, v.height, v.palette.len()), (48, 27, 0));
    let v = Viewport::new(9, 16, RenderMode::Reduce { scale: 3 }, 5, 4).unwrap();
    assert_eq!((v.width, v.height, v.palette.len()), (5, 3, 10));
    assert_eq!(v.mode, RenderMode::Reduce { scale: 3 });
}

#[test]
fn viewport_zero_scale_is_refused() {
    assert_eq!(Viewport::new(8, 8, RenderMode::Enlarge { scale: 0 }, 1, 1).err(), Some(ViewError::ZeroScale));
    assert_eq!(Viewport::new(8, 8, RenderMode::Reduce { scale: 0 }, 1, 1).err(), Some(ViewError::ZeroScale));
    assert_eq!(Viewport::new(0, 0, RenderMode::Reduce { scale: 0 }, 1, 1).err(), Some(ViewError::ZeroScale));
}

#[test]
fn viewport_without_pixels_is_refused() {
    assert_eq!(Viewport::new(8, 8, RenderMode::Crop, 0, 4).err(), Some(ViewError::Empty));
    assert_eq!(Viewport::new(8, 8, RenderMode::Crop, 4, 0).err(), Some(ViewError::Empty));
    assert_eq!(Viewport::new(8, 8, RenderMode::Reduce { scale: 9 }, 1, 1).err(), Some(ViewError::Empty));
    assert_eq!(Viewport::new(0, 8, RenderMode::OneToOne, 1, 1).err(), Some(ViewError::Empty));
    assert_eq!(Viewport::new(8, 0, RenderMode::Enlarge { scale: 2 }, 1, 1).err(), Some(ViewError::Empty));
}

#[test]
fn viewport_outside_the_grid_is_refused() {
    assert_eq!(Viewport::new(8, 8, RenderMode::Crop, 9, 4).err(), Some(ViewError::Outside));
    assert_eq!(Viewport::new(8, 8, RenderMode::Crop, 4, 9).err(), Some(ViewError::Outside));
    assert!(Viewport::new(8, 8, RenderMode::Crop, 8, 8).is_ok());
}

#[test]
fn viewport_too_large_is_refused() {
    let big = usize::MAX / 2;
    assert_eq!(Viewport::new(big, big, RenderMode::OneToOne, 1, 1).err(), Some(ViewError::TooLarge));
    assert_eq!(Viewport::new(8, 8, RenderMode::Enlarge { scale: big }, 1, 1).err(), Some(ViewError::TooLarge));
    assert_eq!(Viewport::new(usize::MAX, usize::MAX, RenderMode::Reduce { scale: big }, 1, 1).err(), Some(ViewError::TooLarge));
    assert_eq!(Viewport::new(4, usize::MAX, RenderMode::Crop, 64, 4).err(), None);
}

#[test]
fn one_to_one_paints_each_cell() {
    let g = grid_from(3, 4, 1, &[(0, 1), (1, 3), (2, 0), (2, 2)]);
    let (buffer, w, h) = paint(&g, RenderMode::OneToOne, 0, 0);
    assert_eq!((w, h), (4, 3));
    assert_eq!(buffer, vec![W, B, W, W, W, W, W, B, B, W, B, W]);
}

#[test]
fn crop_paints_the_top_left_corner() {
    let g = grid_from(4, 6, 2, &[(0, 0), (1, 2), (2, 1), (3, 5), (0, 4), (1, 1)]);
    let (buffer, w, h) = paint(&g, RenderMode::Crop, 3, 2);
    assert_eq!((w, h), (3, 2));
    assert_eq!(buffer, vec![B, W, W, W, B, B]);
}

#[test]
fn enlarge_paints_a_block_per_cell() {
    let g = grid_from(2, 3, 1, &[(0, 1), (1, 0)]);
    let (buffer, w, h) = paint(&g, RenderMode::Enlarge { scale: 2 }, 0, 0);
    assert_eq!((w, h), (6, 4));
    assert_eq!(
        buffer,
        vec![
            W, W, B, B, W, W, //
            W, W, B, B, W, W, //
            B, B, W, W, W, W, //
            B, B, W, W, W, W,
        ]
    );
}

#[test]
fn reduce_shades_by_the_count_of_living_cells() {
    let g = grid_from(4, 6, 2, &[(0, 0), (0, 2), (1, 2), (0, 4), (0, 5), (1, 5), (2, 0), (2, 1), (3, 0), (3, 1)]);
    let (buffer, w, h) = paint(&g, RenderMode::Reduce { scale: 2 }, 0, 0);
    assert_eq!((w, h), (3, 2));
    assert_eq!(
        buffer,
        vec![0xC0C0_C0C0, 0x8080_8080, 0x4040_4040, 0x0000_0000, 0xFFFF_FFFF, 0xFFFF_FFFF]
    );
}

#[test]
fn reduce_drops_the_cells_beyond_the_last_whole_block() {
    let g = grid_from(5, 7, 1, &[(0, 0), (4, 6), (4, 0), (0, 6), (3, 5)]);
    let (buffer, w, h) = paint(&g, RenderMode::Reduce { scale: 2 }, 0, 0);
    assert_eq!((w, h), (3, 2));
    assert_eq!(buffer, vec![0xC0C0_C0C0, W, W, W, W, 0xC0C0_C0C0]);
}

#[test]
fn reduce_by_one_is_one_to_one() {
    for (rows, cols, chunk) in [(8, 8, 4), (5, 9, 1), (16, 4, 4)] {
        let mut g = Grid::new(rows, cols, chunk).unwrap();
        g.seed(&random_seed(3));
        let plain = paint(&g, RenderMode::OneToOne, 0, 0);
        assert_eq!(paint(&g, RenderMode::Reduce { scale: 1 }, 0, 0), plain);
        assert_eq!(paint(&g, RenderMode::Enlarge { scale: 1 }, 0, 0), plain);
        assert_eq!(paint(&g, RenderMode::Crop, cols, rows), plain);
    }
}

#[test]
fn enlarge_then_shrink_gives_one_to_one() {
    for scale in [1usize, 2, 3, 5] {
        let mut g = Grid::new(6, 9, 3).unwrap();
        g.seed(&random_seed(2));
        let (plain, _, _) = paint(&g, RenderMode::OneToOne, 0, 0);
        let (big, w, h) = paint(&g, RenderMode::Enlarge { scale }, 0, 0);
        assert_eq!((w, h), (9 * scale, 6 * scale));
        assert_eq!(shrink_by_majority(&big, w, h, scale), plain);
    }
}

#[test]
fn shrink_votes_by_majority() {
    let pixels = vec![
        B, B, W, W, W, B, //
        B, W, W, B, B, B, //
    ];
    assert_eq!(shrink_by_majority(&pixels, 6, 2, 2), vec![B, W, B]);
    // A tie goes to the dead colour.
    assert_eq!(shrink_by_majority(&vec![B, B, W, W], 2, 2, 2), vec![W]);
    assert_eq!(shrink_by_majority(&vec![B, W, B, W, B, W], 3, 2, 1), vec![B, W, B, W, B, W]);
    // Pixels beyond the last whole block are dropped.
    assert_eq!(shrink_by_majority(&vec![B, B, W, B, B, W], 3, 2, 2), vec![B]);
    assert_eq!(shrink_by_majority(&vec![B, B], 2, 1, 2), Vec::<u32>::new());
    // Other colours do not count as living.
    assert_eq!(shrink_by_majority(&vec![1, 2, 3, 0], 2, 2, 2), vec![W]);
}

#[test]
fn one_pixel_at_a_time() {
    let g = grid_from(4, 4, 2, &[(0, 0), (1, 1), (2, 3), (3, 2), (3, 3)]);
    for mode in [
        RenderMode::OneToOne,
        RenderMode::Crop,
        RenderMode::Enlarge { scale: 3 },
        RenderMode::Reduce { scale: 2 },
    ] {
        let (whole, w, h) = paint(&g, mode, 3, 2);
        let view = Viewport::new(4, 4, mode, 3, 2).unwrap();
        for i in 0..w * h {
            assert_eq!(render_pixel(&g, &view, i), whole[i]);
        }
    }
}

#[test]
fn rows_can_be_painted_independently() {
    let g = grid_from(4, 3, 1, &[(0, 0), (1, 1), (2, 2), (3, 0)]);
    let view = Viewport::new(4, 3, RenderMode::OneToOne, 0, 0).unwrap();
    let mut buffer = vec![5u32; 12];
    render_rows(&g, &mut buffer, &view, 1, 3);
    assert_eq!(buffer, vec![5, 5, 5, W, B, W, W, W, B, 5, 5, 5]);
    render_rows(&g, &mut buffer, &view, 2, 2);
    assert_eq!(buffer, vec![5, 5, 5, W, B, W, W, W, B, 5, 5, 5]);
    render_rows(&g, &mut buffer, &view, 3, 4);
    render_rows(&g, &mut buffer, &view, 0, 1);
    let (whole, _, _) = paint(&g, RenderMode::OneToOne, 0, 0);
    assert_eq!(buffer, whole);
}

#[test]
fn rendering_leaves_the_grid_untouched() {
    let cells = [(0, 0), (1, 1), (2, 2), (3, 0)];
    let g = grid_from(4, 4, 2, &cells);
    let _ = paint(&g, RenderMode::Reduce { scale: 2 }, 0, 0);
    for r in 0..4 {
        for c in 0..4 {
            assert_eq!(g.get(r, c), cells.contains(&(r, c)));
        }
    }
}

#[test]
fn a_step_computes_and_paints() {
    let g = grid_from(5, 5, 5, &[(2, 1), (2, 2), (2, 3)]);
    let mut out = Grid::new(5, 5, 5).unwrap();
    let view = Viewport::new(5, 5, RenderMode::OneToOne, 0, 0).unwrap();
    let mut buffer = vec![0u32; 25];
    do_step(&g, &mut out, &mut buffer, &view);
    for r in 0..5 {
        for c in 0..5 {
            let alive = c == 2 && (1..4).contains(&r);
            assert_eq!(out.get(r, c), alive);
            assert_eq!(buffer[r * 5 + c], if alive { B } else { W });
        }
    }
}

#[test]
fn a_viewport_can_test_its_own_invariant() {
    let mut v = Viewport::new(8, 12, RenderMode::Reduce { scale: 2 }, 0, 0).unwrap();
    assert!(v.check(8, 12));
    assert!(v.check(9, 13));
    assert!(!v.check(8, 16));
    assert!(!v.check(12, 12));
    v.palette[2] = 7;
    assert!(!v.check(8, 12));
    v.palette = make_palette(4);
    assert!(v.check(8, 12));
    v.palette.push(0);
    assert!(!v.check(8, 12));
    v.palette = make_palette(4);
    v.width = 5;
    assert!(!v.check(8, 12));
    let mut c = Viewport::new(8, 12, RenderMode::Crop, 6, 4).unwrap();
    assert!(c.check(8, 12));
    assert!(c.check(4, 6));
    assert!(!c.check(3, 6));
    c.palette.push(1);
    assert!(!c.check(8, 12));
    c.palette.clear();
    c.mode = RenderMode::OneToOne;
    assert!(!c.check(8, 12));
    assert!(c.check(4, 6));
}
