use cubes::events::EventQueue;
use cubes::frame::{render_frame, BACKGROUND};
use cubes::grid::{Cube, Grid};
use cubes::render::{draw_face, draw_right_face, draw_sprite, draw_top_face, Face, Sprite};
use cubes::resources::load_cube_sprites;
use cubes::view::{ViewState, WorldPos};
use cubes::{EMPTY_CUBE, GRID_HEIGHT, GRID_WIDTH, SCREEN_HEIGHT, SCREEN_WIDTH, STONE_CUBE};

const LEFT_FACE_PIXELS: [(usize, usize); 156] = [
    (0, 6), (1, 6), (0, 7), (1, 7), (2, 7), (3, 7), (0, 8), (1, 8), (2, 8), (3, 8), (4, 8),
    (5, 8), (0, 9), (1, 9), (2, 9), (3, 9), (4, 9), (5, 9), (6, 9), (7, 9), (0, 10), (1, 10),
    (2, 10), (3, 10), (4, 10), (5, 10), (6, 10), (7, 10), (8, 10), (9, 10), (0, 11), (1, 11),
    (2, 11), (3, 11), (4, 11), (5, 11), (6, 11), (7, 11), (8, 11), (9, 11), (10, 11), (11, 11),
    (0, 12), (1, 12), (2, 12), (3, 12), (4, 12), (5, 12), (6, 12), (7, 12), (8, 12), (9, 12),
    (10, 12), (11, 12), (0, 13), (1, 13), (2, 13), (3, 13), (4, 13), (5, 13), (6, 13), (7, 13),
    (8, 13), (9, 13), (10, 13), (11, 13), (0, 14), (1, 14), (2, 14), (3, 14), (4, 14), (5, 14),
    (6, 14), (7, 14), (8, 14), (9, 14), (10, 14), (11, 14), (0, 15), (1, 15), (2, 15), (3, 15),
    (4, 15), (5, 15), (6, 15), (7, 15), (8, 15), (9, 15), (10, 15), (11, 15), (0, 16), (1, 16),
    (2, 16), (3, 16), (4, 16), (5, 16), (6, 16), (7, 16), (8, 16), (9, 16), (10, 16), (11, 16),
    (0, 17), (1, 17), (2, 17), (3, 17), (4, 17), (5, 17), (6, 17), (7, 17), (8, 17), (9, 17),
    (10, 17), (11, 17), (0, 18), (1, 18), (2, 18), (3, 18), (4, 18), (5, 18), (6, 18), (7, 18),
    (8, 18), (9, 18), (10, 18), (11, 18), (2, 19), (3, 19), (4, 19), (5, 19), (6, 19), (7, 19),
    (8, 19), (9, 19), (10, 19), (11, 19), (4, 20), (5, 20), (6, 20), (7, 20), (8, 20), (9, 20),
    (10, 20), (11, 20), (6, 21), (7, 21), (8, 21), (9, 21), (10, 21), (11, 21), (8, 22),
    (9, 22), (10, 22), (11, 22), (10, 23), (11, 23),
];

const RIGHT_FACE_PIXELS: [(usize, usize); 156] = [
    (23, 6), (22, 6), (23, 7), (22, 7), (21, 7), (20, 7), (23, 8), (22, 8), (21, 8), (20, 8),
    (19, 8), (18, 8), (23, 9), (22, 9), (21, 9), (20, 9), (19, 9), (18, 9), (17, 9), (16, 9),
    (23, 10), (22, 10), (21, 10), (20, 10), (19, 10), (18, 10), (17, 10), (16, 10), (15, 10),
    (14, 10), (23, 11), (22, 11), (21, 11), (20, 11), (19, 11), (18, 11), (17, 11), (16, 11),
    (15, 11), (14, 11), (13, 11), (12, 11), (23, 12), (22, 12), (21, 12), (20, 12), (19, 12),
    (18, 12), (17, 12), (16, 12), (15, 12), (14, 12), (13, 12), (12, 12), (23, 13), (22, 13),
    (21, 13), (20, 13), (19, 13), (18, 13), (17, 13), (16, 13), (15, 13), (14, 13), (13, 13),
    (12, 13), (23, 14), (22, 14), (21, 14), (20, 14), (19, 14), (18, 14), (17, 14), (16, 14),
    (15, 14), (14, 14), (13, 14), (12, 14), (23, 15), (22, 15), (21, 15), (20, 15), (19, 15),
    (18, 15), (17, 15), (16, 15), (15, 15), (14, 15), (13, 15), (12, 15), (23, 16), (22, 16),
    (21, 16), (20, 16), (19, 16), (18, 16), (17, 16), (16, 16), (15, 16), (14, 16), (13, 16),
    (12, 16), (23, 17), (22, 17), (21, 17), (20, 17), (19, 17), (18, 17), (17, 17), (16, 17),
    (15, 17), (14, 17), (13, 17), (12, 17), (23, 18), (22, 18), (21, 18), (20, 18), (19, 18),
    (18, 18), (17, 18), (16, 18), (15, 18), (14, 18), (13, 18), (12, 18), (21, 19), (20, 19),
    (19, 19), (18, 19), (17, 19), (16, 19), (15, 19), (14, 19), (13, 19), (12, 19), (19, 20),
    (18, 20), (17, 20), (16, 20), (15, 20), (14, 20), (13, 20), (12, 20), (17, 21), (16, 21),
    (15, 21), (14, 21), (13, 21), (12, 21), (15, 22), (14, 22), (13, 22), (12, 22), (13, 23),
    (12, 23),
];

const TOP_FACE_PIXELS: [(usize, usize); 144] = [
    (10, 0), (11, 0), (12, 0), (13, 0), (8, 1), (9, 1), (10, 1), (11, 1), (12, 1), (13, 1),
    (14, 1), (15, 1), (6, 2), (7, 2), (8, 2), (9, 2), (10, 2), (11, 2), (12, 2), (13, 2),
    (14, 2), (15, 2), (16, 2), (17, 2), (4, 3), (5, 3), (6, 3), (7, 3), (8, 3), (9, 3),
    (10, 3), (11, 3), (12, 3), (13, 3), (14, 3), (15, 3), (16, 3), (17, 3), (18, 3), (19, 3),
    (2, 4), (3, 4), (4, 4), (5, 4), (6, 4), (7, 4), (8, 4), (9, 4), (10, 4), (11, 4), (12, 4),
    (13, 4), (14, 4), (15, 4), (16, 4), (17, 4), (18, 4), (19, 4), (20, 4), (21, 4), (0, 5),
    (1, 5), (2, 5), (3, 5), (4, 5), (5, 5), (6, 5), (7, 5), (8, 5), (9, 5), (10, 5), (11, 5),
    (12, 5), (13, 5), (14, 5), (15, 5), (16, 5), (17, 5), (18, 5), (19, 5), (20, 5), (21, 5),
    (22, 5), (23, 5), (2, 6), (3, 6), (4, 6), (5, 6), (6, 6), (7, 6), (8, 6), (9, 6), (10, 6),
    (11, 6), (12, 6), (13, 6), (14, 6), (15, 6), (16, 6), (17, 6), (18, 6), (19, 6), (20, 6),
    (21, 6), (4, 7), (5, 7), (6, 7), (7, 7), (8, 7), (9, 7), (10, 7), (11, 7), (12, 7),
    (13, 7), (14, 7), (15, 7), (16, 7), (17, 7), (18, 7), (19, 7), (6, 8), (7, 8), (8, 8),
    (9, 8), (10, 8), (11, 8), (12, 8), (13, 8), (14, 8), (15, 8), (16, 8), (17, 8), (8, 9),
    (9, 9), (10, 9), (11, 9), (12, 9), (13, 9), (14, 9), (15, 9), (10, 10), (11, 10), (12, 10),
    (13, 10),
];

fn screen() -> Vec<u32> {
    vec![0; SCREEN_WIDTH * SCREEN_HEIGHT]
}

fn painted(buffer: &Vec<u32>, base: (usize, usize)) -> Vec<(usize, usize)> {
    let mut r = vec![];
    for y in 0..24 {
        for x in 0..24 {
            if buffer[base.0 + x + (base.1 + y) * SCREEN_WIDTH] != 0 {
                r.push((x, y));
            }
        }
    }
    r
}

fn sorted(mut v: Vec<(usize, usize)>) -> Vec<(usize, usize)> {
    v.sort_by_key(|p| (p.1, p.0));
    v
}

#[test]
fn sprites_pack_rgba_bytes_as_argb() {
    let s = Sprite::new(&[1, 2, 3, 4, 0xAA, 0xBB, 0xCC, 0xDD]);
    assert_eq!(s.pixels[0], 0x04010203);
    assert_eq!(s.pixels[1], 0xDDAABBCC);
    assert_eq!(s.pixels[2], 0);
}

#[test]
fn each_face_covers_its_pixels() {
    let sprite = Sprite { pixels: [0xFF80_8080; 576] };
    for (face, table) in [
        (Face::LEFT, LEFT_FACE_PIXELS.to_vec()),
        (Face::RIGHT, RIGHT_FACE_PIXELS.to_vec()),
        (Face::TOP, TOP_FACE_PIXELS.to_vec()),
    ] {
        let mut b = screen();
        draw_face(face, (100, 50), &sprite, &mut b, (255, 255, 255));
        assert_eq!(painted(&b, (100, 50)), sorted(table));
        assert_eq!(b.iter().filter(|v| **v != 0).count(), painted(&b, (100, 50)).len());
    }
}

#[test]
fn faces_are_darkened_by_the_light() {
    let sprite = Sprite { pixels: [0xFF80_40C8; 576] };
    let mut b = screen();
    draw_face(Face::LEFT, (0, 0), &sprite, &mut b, (155, 255, 200));
    assert_eq!(b[6 * SCREEN_WIDTH], 0x001C_4091);
}

#[test]
fn transparent_pixels_are_left_out() {
    let mut pixels = [0xFF11_2233u32; 576];
    pixels[0] = 0x00FF_FFFF;
    let sprite = Sprite { pixels };
    let mut b = vec![7; SCREEN_WIDTH * SCREEN_HEIGHT];
    draw_sprite((10, 10), &sprite, &mut b);
    assert_eq!(b[10 + 10 * SCREEN_WIDTH], 7);
    assert_eq!(b[11 + 10 * SCREEN_WIDTH], 0xFF11_2233);
    assert_eq!(b[33 + 33 * SCREEN_WIDTH], 0xFF11_2233);
    assert_eq!(b[34 + 33 * SCREEN_WIDTH], 7);
}

#[test]
fn highlighted_faces_saturate() {
    let sprite = Sprite { pixels: [0xFFFF_FF00; 576] };
    let mut b = screen();
    draw_top_face((0, 0), &sprite, &mut b, 0x10);
    assert_eq!(b[11], 0xFFFF_FF10);
    draw_right_face((0, 0), &sprite, &mut b, 0x0100_0000);
    assert_eq!(b[23 + 6 * SCREEN_WIDTH], 0xFFFF_FFFF);
}

#[test]
fn pixels_past_the_buffer_are_dropped() {
    let sprite = Sprite { pixels: [0xFF00_0001; 576] };
    let mut b = vec![0; 30];
    draw_sprite((0, 0), &sprite, &mut b);
    assert_eq!(b.len(), 30);
    assert_eq!(b[23], 0xFF00_0001);
    assert_eq!(b[24], 0);
}

#[test]
fn cube_sprites_are_built_from_images() {
    let s = load_cube_sprites(vec![vec![1, 2, 3, 255], vec![]]);
    assert_eq!(s.len(), 2);
    assert_eq!(s[0].pixels[0], 0xFF01_0203);
    assert_eq!(s[1].pixels[0], 0);
}

fn empty_view_world() -> Grid {
    let mut g = Grid::new(GRID_WIDTH, GRID_HEIGHT, EventQueue::new());
    for z in 40..GRID_HEIGHT {
        for y in 240..GRID_WIDTH {
            for x in 240..GRID_WIDTH {
                *g.get_cube_mut((x, y, z)) = Cube::new(EMPTY_CUBE);
            }
        }
    }
    g
}

#[test]
fn an_empty_view_is_background() {
    let g = empty_view_world();
    let sprites = vec![Sprite { pixels: [0xFFFF_FFFF; 576] }];
    let select = Sprite { pixels: [0xFF00_0000; 576] };
    let b = render_frame(&g, &vec![], &sprites, &select, &ViewState::new(), None);
    assert_eq!(b.len(), SCREEN_WIDTH * SCREEN_HEIGHT);
    assert!(b.iter().all(|v| *v == BACKGROUND));
}

#[test]
fn a_lone_cube_shows_its_three_faces_and_the_selection_its_marker() {
    let mut g = empty_view_world();
    *g.get_cube_mut((240, 240, 40)) = Cube::new(STONE_CUBE);
    let sprites = vec![Sprite { pixels: [0xFFFF_FFFF; 576] }];
    let select = Sprite { pixels: [0xFF00_0000; 576] };
    let b = render_frame(&g, &vec![], &sprites, &select, &ViewState::new(), None);
    let base = 1000 + 300 * SCREEN_WIDTH;
    assert_eq!(b[base + 6 * SCREEN_WIDTH], 0xDCDCDC);
    assert_eq!(b[base + 23 + 6 * SCREEN_WIDTH], 0xF5F5F5);
    assert_eq!(b[base + 11 + 5 * SCREEN_WIDTH], 0xFFFFFF);
    assert_eq!(b[base + 23], BACKGROUND);
    let c = render_frame(&g, &vec![], &sprites, &select, &ViewState::new(), Some(WorldPos::new(0, 0, 0)));
    assert_eq!(c[base], 0xFF00_0000);
    assert_eq!(c[base + 23 + 23 * SCREEN_WIDTH], 0xFF00_0000);
}

#[test]
fn a_view_naming_a_missing_sprite_cannot_be_drawn() {
    let mut g = empty_view_world();
    *g.get_cube_mut((240, 240, 40)) = Cube::new(5);
    let v = ViewState::new();
    assert!(!cubes::frame::is_view_drawable(&g, &vec![], 1, &v, None));
    assert!(cubes::frame::is_view_drawable(&g, &vec![], 6, &v, None));
    assert!(cubes::frame::is_view_drawable(&g, &vec![], 1, &v, Some(WorldPos::new(0, 0, 0))));
}
