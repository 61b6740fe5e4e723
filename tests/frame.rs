use splash::frame::{Color, Coordinate, Frame, FrameError, Pixel, Shape};

fn image(w: u32, h: u32) -> bmp::Image {
    bmp::Image::new(w, h)
}

#[test]
fn new_frame_is_zero_filled() {
    let f = Frame::new(None, None, 16, 2, 4);
    assert_eq!(f.buffer().len(), 32);
    assert!(f.buffer().iter().all(|b| *b == 0));
    assert_eq!(f.width(), 16);
    assert_eq!(f.height(), 2);
    assert_eq!(f.bytes_per_pixel(), 4);
}

#[test]
fn centered_image_lands_at_computed_offset() {
    let mut f = Frame::new(None, None, 800, 600, 4);
    let mut img = image(200, 100);
    img.set_pixel(0, 0, bmp::Pixel::new(1, 2, 3));
    img.set_pixel(199, 99, bmp::Pixel::new(7, 8, 9));
    assert_eq!(f.draw_image(&img), Ok(()));
    // x offset (800 / 4) / 2 - 200 / 2 = 0, y offset 600 / 2 - 100 / 2 = 250
    let first = 250 * 800;
    assert_eq!(&f.buffer()[first..first + 4], &[3, 2, 1, 0]);
    let last = (250 + 99) * 800 + 199 * 4;
    assert_eq!(&f.buffer()[last..last + 4], &[9, 8, 7, 0]);
    assert!(f.buffer()[..first].iter().all(|b| *b == 0));
}

#[test]
fn centering_truncates_toward_top_left() {
    let mut f = Frame::new(None, None, 40, 7, 4);
    let mut img = image(3, 3);
    img.set_pixel(0, 0, bmp::Pixel::new(10, 20, 30));
    assert_eq!(f.draw_image(&img), Ok(()));
    // x offset (40 / 4) / 2 - 3 / 2 = 4, y offset 7 / 2 - 3 / 2 = 2
    let idx = 2 * 40 + 4 * 4;
    assert_eq!(&f.buffer()[idx..idx + 3], &[30, 20, 10]);
}

#[test]
fn explicit_offset_is_used() {
    let mut f = Frame::new(Some(2), Some(1), 32, 4, 4);
    let mut img = image(2, 2);
    img.set_pixel(1, 1, bmp::Pixel::new(5, 6, 7));
    assert_eq!(f.draw_image(&img), Ok(()));
    let idx = (1 + 1) * 32 + (1 + 2) * 4;
    assert_eq!(&f.buffer()[idx..idx + 4], &[7, 6, 5, 0]);
}

#[test]
fn oversized_image_is_refused_and_frame_kept() {
    let mut f = Frame::new(None, None, 16, 4, 4);
    let mut img = image(8, 2);
    img.set_pixel(0, 0, bmp::Pixel::new(1, 1, 1));
    assert_eq!(f.draw_image(&img), Err(FrameError::OutOfBoundsWrite));
    assert!(f.buffer().iter().all(|b| *b == 0));
}

#[test]
fn explicit_offset_past_the_edge_is_refused() {
    let mut f = Frame::new(Some(3), Some(0), 16, 4, 4);
    let img = image(2, 2);
    assert_eq!(f.draw_image(&img), Err(FrameError::OutOfBoundsWrite));
}

#[test]
fn image_filling_the_surface_fits() {
    let mut f = Frame::new(Some(0), Some(0), 12, 2, 3);
    let mut img = image(4, 2);
    img.set_pixel(3, 1, bmp::Pixel::new(1, 2, 3));
    assert_eq!(f.draw_image(&img), Ok(()));
    assert_eq!(&f.buffer()[21..24], &[3, 2, 1]);
}

#[test]
fn point_sets_three_bytes_in_blue_green_red_order() {
    let mut f = Frame::new(None, None, 16, 2, 4);
    let shape = Shape { pixels: vec![Pixel(Coordinate(1, 1), Color(10, 20, 30))] };
    assert_eq!(f.draw(shape), Ok(()));
    let mut expected = vec![0u8; 32];
    expected[20] = 30;
    expected[21] = 20;
    expected[22] = 10;
    assert_eq!(f.buffer(), &expected);
}

#[test]
fn later_point_wins_over_earlier() {
    let mut f = Frame::new(None, None, 8, 1, 4);
    let shape = Shape {
        pixels: vec![
            Pixel(Coordinate(0, 0), Color(1, 1, 1)),
            Pixel(Coordinate(0, 0), Color(2, 3, 4)),
        ],
    };
    assert_eq!(f.draw(shape), Ok(()));
    assert_eq!(&f.buffer()[0..3], &[4, 3, 2]);
}

#[test]
fn two_draws_apply_in_order() {
    let mut f = Frame::new(None, None, 8, 1, 4);
    let a = Shape { pixels: vec![Pixel(Coordinate(1, 0), Color(1, 1, 1))] };
    let b = Shape { pixels: vec![Pixel(Coordinate(1, 0), Color(9, 9, 9))] };
    assert_eq!(f.draw(a), Ok(()));
    assert_eq!(f.draw(b), Ok(()));
    assert_eq!(&f.buffer()[4..7], &[9, 9, 9]);
}

#[test]
fn shape_outside_the_surface_is_refused_whole() {
    let mut f = Frame::new(None, None, 8, 2, 4);
    let shape = Shape {
        pixels: vec![
            Pixel(Coordinate(0, 0), Color(1, 1, 1)),
            Pixel(Coordinate(0, 2), Color(1, 1, 1)),
        ],
    };
    assert_eq!(f.draw(shape), Err(FrameError::OutOfBoundsWrite));
    assert!(f.buffer().iter().all(|b| *b == 0));
}

#[test]
fn point_whose_bytes_cross_the_row_end_is_refused() {
    let mut f = Frame::new(None, None, 10, 2, 4);
    let shape = Shape { pixels: vec![Pixel(Coordinate(2, 0), Color(1, 1, 1))] };
    assert_eq!(f.draw(shape), Err(FrameError::OutOfBoundsWrite));
}

#[test]
fn draw_uses_the_explicit_offset() {
    let mut f = Frame::new(Some(1), Some(1), 16, 3, 4);
    let shape = Shape { pixels: vec![Pixel(Coordinate(0, 0), Color(10, 20, 30))] };
    assert_eq!(f.draw(shape), Ok(()));
    let idx = (0 + 1) * 16 + (0 + 1) * 4;
    let mut expected = vec![0u8; 48];
    expected[idx] = 30;
    expected[idx + 1] = 20;
    expected[idx + 2] = 10;
    assert_eq!(f.buffer(), &expected);
}

#[test]
fn draw_refuses_a_point_pushed_out_by_the_offset() {
    let mut f = Frame::new(Some(3), None, 16, 2, 4);
    let shape = Shape { pixels: vec![Pixel(Coordinate(1, 0), Color(1, 1, 1))] };
    assert_eq!(f.draw(shape), Err(FrameError::OutOfBoundsWrite));
    assert!(f.buffer().iter().all(|b| *b == 0));
}

#[test]
fn image_leaves_other_bytes_alone() {
    let mut f = Frame::new(Some(1), Some(1), 16, 3, 4);
    let shape = Shape {
        pixels: vec![
            Pixel(Coordinate(0, 0), Color(9, 9, 9)),
            Pixel(Coordinate(2, 1), Color(9, 9, 9)),
        ],
    };
    assert_eq!(f.draw(shape), Ok(()));
    let before = f.buffer().clone();
    let mut img = image(1, 1);
    img.set_pixel(0, 0, bmp::Pixel::new(1, 2, 3));
    assert_eq!(f.draw_image(&img), Ok(()));
    let idx = 16 + 4;
    for (j, b) in f.buffer().iter().enumerate() {
        if j < idx || j >= idx + 3 {
            assert_eq!(*b, before[j]);
        }
    }
    assert_eq!(&f.buffer()[idx..idx + 3], &[3, 2, 1]);
}
