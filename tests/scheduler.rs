use raytracer::tiles::{HORIZONTAL_PARTITION, VERTICAL_PARTITION};
use raytracer::{Chunk, Color};

#[test]
fn layout_of_first_chunk() {
    let c = Chunk::layout(800, 800, 0, 0);
    assert_eq!(c.num, 0);
    assert_eq!((c.x, c.y), (800, 800));
    assert_eq!((c.start_x, c.start_y), (0, 0));
    // 800 / 30 = 26
    assert_eq!((c.nx, c.ny), (26, 26));
    assert_eq!(c.buffer.len(), 26 * 26 * 4);
    assert!(c.buffer.iter().all(|&b| b == 0));
}

#[test]
fn last_column_and_row_take_the_remainder() {
    // 800 % 30 = 20
    let c = Chunk::layout(800, 800, 29, 29);
    assert_eq!(c.num, 29 * 30 + 29);
    assert_eq!((c.start_x, c.start_y), (29 * 26, 29 * 26));
    assert_eq!((c.nx, c.ny), (46, 46));
    let right = Chunk::layout(800, 600, 29, 3);
    assert_eq!((right.nx, right.ny), (46, 20));
    assert_eq!(right.start_y, 60);
    let top = Chunk::layout(800, 610, 4, 29);
    assert_eq!((top.nx, top.ny), (26, 30));
}

#[test]
fn small_canvas_lands_in_last_chunk() {
    let c = Chunk::layout(10, 7, 29, 29);
    assert_eq!((c.start_x, c.start_y, c.nx, c.ny), (0, 0, 10, 7));
    let empty = Chunk::layout(10, 7, 3, 5);
    assert_eq!((empty.nx, empty.ny), (0, 0));
    assert!(empty.buffer.is_empty());
}

#[test]
fn chunks_cover_every_pixel_once() {
    for &(w, h) in &[(800usize, 800usize), (61, 95), (31, 30), (7, 45)] {
        let mut count = vec![0u32; w * h];
        for j in 0..VERTICAL_PARTITION {
            for i in 0..HORIZONTAL_PARTITION {
                let c = Chunk::layout(w, h, i, j);
                for py in c.start_y..c.start_y + c.ny {
                    for px in c.start_x..c.start_x + c.nx {
                        count[py * w + px] += 1;
                    }
                }
            }
        }
        assert!(count.iter().all(|&n| n == 1));
    }
}

#[test]
fn copy_into_flips_rows() {
    // a 4 x 3 canvas; this chunk covers columns 1..3 and rows 0..2 from the bottom
    let mut c = Chunk {
        num: 0,
        x: 4,
        y: 3,
        nx: 2,
        ny: 2,
        start_x: 1,
        start_y: 0,
        buffer: (1..=16).collect(),
    };
    let mut fb = vec![0u8; 4 * 3 * 4];
    c.copy_into(&mut fb);
    let mut expected = vec![0u8; 48];
    // chunk row 0 (bottom of the image) goes to framebuffer row 2
    expected[(2 * 4 + 1) * 4..(2 * 4 + 3) * 4].copy_from_slice(&(1..=8).collect::<Vec<u8>>());
    // chunk row 1 goes to framebuffer row 1
    expected[(4 + 1) * 4..(4 + 3) * 4].copy_from_slice(&(9..=16).collect::<Vec<u8>>());
    assert_eq!(fb, expected);
    c.buffer = vec![7; 16];
    let mut fb2 = vec![200u8; 48];
    c.copy_into(&mut fb2);
    assert_eq!(&fb2[0..16], &[200u8; 16][..]);
    assert_eq!(fb2[20], 7);
    assert_eq!(fb2[16], 200);
}

#[test]
fn update_rgb_writes_three_bytes() {
    let mut c = Chunk::layout(30, 30, 0, 0);
    assert_eq!(c.buffer.len(), 4);
    c.update_rgb(Color(10, 20, 30), 0);
    assert_eq!(c.buffer, vec![10, 20, 30, 0]);
    c.update_rgb(Color(1, 2, 3), 2);
    assert_eq!(c.buffer, vec![10, 20, 1, 2]);
    c.update_rgb(Color(9, 9, 9), 100);
    assert_eq!(c.buffer, vec![10, 20, 1, 2]);
}
