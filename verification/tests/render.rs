use raytracer::color::Triplet;
use raytracer::image::Image;
use raytracer::render::{Pixel, Renderer, Schedule, Step, MAGIC};

fn text_with_magic(rest: &[u8]) -> Vec<u8> {
    let mut text = vec![b'P', b'3'];
    text.extend_from_slice(rest);
    text
}

#[test]
fn magic_is_the_plain_pixmap_signature() {
    assert_eq!(MAGIC, [b'P', b'3']);
}

#[test]
fn header_has_three_lines() {
    let image = Image::new(1000, 562, 100, 25);
    assert_eq!(image.header(), text_with_magic(b"\n1000 562\n255\n"));
}

#[test]
fn header_of_a_single_pixel() {
    let image = Image::new(1, 1, 1, 1);
    assert_eq!(image.header(), text_with_magic(b"\n1 1\n255\n"));
}

#[test]
fn header_gives_width_before_height() {
    let image = Image::new(3, 20, 1, 1);
    assert_eq!(image.header(), text_with_magic(b"\n3 20\n255\n"));
}

#[test]
fn schedule_walks_rows_from_the_top_and_columns_from_the_left() {
    let image = Image::new(3, 2, 2, 5);
    let mut schedule = Schedule::new(&image);
    let mut expected = Vec::new();
    for row in [1usize, 0] {
        for column in 0..3usize {
            let pixel = Pixel { column, row };
            expected.push(Step::Sample(pixel));
            expected.push(Step::Sample(pixel));
            expected.push(Step::Emit(pixel));
        }
    }
    for step in expected {
        assert_eq!(schedule.next(), step);
    }
    assert_eq!(schedule.next(), Step::Done);
}

#[test]
fn schedule_stays_done() {
    let image = Image::new(1, 1, 1, 1);
    let mut schedule = Schedule::new(&image);
    assert_eq!(schedule.next(), Step::Sample(Pixel { column: 0, row: 0 }));
    assert_eq!(schedule.next(), Step::Emit(Pixel { column: 0, row: 0 }));
    for _ in 0..10 {
        assert_eq!(schedule.next(), Step::Done);
    }
}

#[test]
fn schedule_emits_one_line_for_each_pixel() {
    let image = Image::new(7, 5, 3, 1);
    let mut schedule = Schedule::new(&image);
    let mut samples = 0usize;
    let mut lines = Vec::new();
    loop {
        match schedule.next() {
            Step::Sample(_) => samples += 1,
            Step::Emit(pixel) => lines.push(pixel),
            Step::Done => break,
        }
    }
    assert_eq!(lines.len(), 7 * 5);
    assert_eq!(samples, 7 * 5 * 3);
    for (k, pixel) in lines.iter().enumerate() {
        assert_eq!(pixel.column, k % 7);
        assert_eq!(pixel.row, 5 - 1 - k / 7);
    }
    assert_eq!(lines[0], Pixel { column: 0, row: 4 });
    assert_eq!(lines[34], Pixel { column: 6, row: 0 });
}

#[test]
fn schedule_draws_every_sample_of_a_pixel_before_its_line() {
    let image = Image::new(2, 2, 4, 1);
    let mut schedule = Schedule::new(&image);
    let mut drawn = 0usize;
    loop {
        match schedule.next() {
            Step::Sample(_) => drawn += 1,
            Step::Emit(_) => {
                assert_eq!(drawn, 4);
                drawn = 0;
            }
            Step::Done => break,
        }
    }
    assert_eq!(drawn, 0);
}

#[test]
fn schedule_of_a_single_column_and_of_a_single_row() {
    let tall = Image::new(1, 3, 1, 1);
    let mut schedule = Schedule::new(&tall);
    let mut rows = Vec::new();
    loop {
        match schedule.next() {
            Step::Emit(pixel) => rows.push(pixel.row),
            Step::Sample(_) => {}
            Step::Done => break,
        }
    }
    assert_eq!(rows, vec![2, 1, 0]);

    let wide = Image::new(3, 1, 1, 1);
    let mut schedule = Schedule::new(&wide);
    let mut columns = Vec::new();
    loop {
        match schedule.next() {
            Step::Emit(pixel) => columns.push(pixel.column),
            Step::Sample(_) => {}
            Step::Done => break,
        }
    }
    assert_eq!(columns, vec![0, 1, 2]);
}

struct Flat {
    image: Image,
    colour: Triplet,
    out: std::cell::RefCell<Vec<u8>>,
}

impl Renderer for Flat {
    fn render(&self) {
        let mut out = self.out.borrow_mut();
        out.extend(self.image.header());
        let mut schedule = Schedule::new(&self.image);
        loop {
            match schedule.next() {
                Step::Sample(_) => {}
                Step::Emit(_) => out.extend(self.colour.line()),
                Step::Done => break,
            }
        }
    }
}

struct Idle;

impl Renderer for Idle {}

#[test]
fn a_render_is_a_header_and_one_line_for_each_pixel() {
    let flat = Flat {
        image: Image::new(2, 2, 1, 1),
        colour: Triplet { r: 0, g: 0, b: 0 },
        out: std::cell::RefCell::new(Vec::new()),
    };
    flat.render();
    assert_eq!(*flat.out.borrow(), text_with_magic(b"\n2 2\n255\n0 0 0\n0 0 0\n0 0 0\n0 0 0\n"));
}

#[test]
fn a_renderer_may_do_nothing() {
    Idle.render();
}
