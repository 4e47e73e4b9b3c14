use raytracer::canvas::Canvas;
use raytracer::color::Color;

fn color(r: f32, g: f32, b: f32) -> Color {
    Color::new(r.to_bits(), g.to_bits(), b.to_bits())
}

fn bits(c: Color) -> (u32, u32, u32) {
    (c.r, c.g, c.b)
}

#[test]
fn creating_a_canvas() {
    let c = Canvas::new(10, 20);

    assert_eq!(c.width(), 10);
    assert_eq!(c.height(), 20);

    let first = c.get_pixel(0, 0);
    for y in 0..20 {
        for x in 0..10 {
            assert!(c.get_pixel(x, y) == first);
        }
    }
}

#[test]
fn a_new_canvas_is_black_everywhere() {
    let c = Canvas::new(10, 20);
    for y in 0..20 {
        for x in 0..10 {
            assert_eq!(c.get_pixel(x, y), color(0., 0., 0.));
            assert_eq!(bits(c.get_pixel(x, y)), (0, 0, 0));
            assert_eq!(bits(c.get_pixel(x, y)), bits(Color::black()));
        }
    }
}

#[test]
fn writing_pixels_to_a_canvas() {
    let mut c = Canvas::new(10, 20);
    let red = color(1., 0., 0.);

    c.set_pixel(2, 3, red);

    assert_eq!(c.get_pixel(2, 3), red);
    assert_eq!(bits(c.get_pixel(2, 3)), bits(red));
}

#[test]
fn writing_a_pixel_leaves_the_others() {
    let mut c = Canvas::new(10, 20);
    let red = color(1., 0., 0.);

    c.set_pixel(2, 3, red);

    for y in 0..20 {
        for x in 0..10 {
            if (x, y) != (2, 3) {
                assert_eq!(bits(c.get_pixel(x, y)), (0, 0, 0));
            }
        }
    }
}

#[test]
fn pixels_are_stored_row_by_row() {
    let mut c = Canvas::new(3, 2);
    let mut n: u32 = 1;
    for y in 0..2 {
        for x in 0..3 {
            c.set_pixel(x, y, Color::new(n, n + 100, n + 200));
            n += 1;
        }
    }
    assert_eq!(bits(c.get_pixel(0, 0)), (1, 101, 201));
    assert_eq!(bits(c.get_pixel(2, 0)), (3, 103, 203));
    assert_eq!(bits(c.get_pixel(0, 1)), (4, 104, 204));
    assert_eq!(bits(c.get_pixel(2, 1)), (6, 106, 206));
}

#[test]
fn a_stored_colour_comes_back_bit_for_bit() {
    let mut c = Canvas::new(2, 2);
    let odd = Color::new(f32::NAN.to_bits(), (-0.0f32).to_bits(), f32::INFINITY.to_bits());
    c.set_pixel(1, 1, odd);
    assert_eq!(bits(c.get_pixel(1, 1)), bits(odd));
    assert_eq!(c.get_pixel(1, 1).g, 0x8000_0000);
}

#[test]
fn constructing_the_ppm_header() {
    let c = Canvas::new(5, 3);
    let header = c.ppm_header();

    assert_eq!(header, "P3\n5 3\n255");
}

#[test]
fn the_header_prints_large_dimensions() {
    assert_eq!(Canvas::new(1000, 1000).ppm_header(), "P3\n1000 1000\n255");
    assert_eq!(Canvas::new(0, 0).ppm_header(), "P3\n0 0\n255");
    assert_eq!(Canvas::new(65536, 12).ppm_header(), "P3\n65536 12\n255");
}

#[test]
fn constructing_the_ppm_pixel_data() {
    let mut c = Canvas::new(5, 3);

    let p1 = color(1.5, 0., 0.);
    let p2 = color(0., 0.5, 0.);
    let p3 = color(-0.5, 0., 1.);

    c.set_pixel(0, 0, p1);
    c.set_pixel(2, 1, p2);
    c.set_pixel(4, 2, p3);

    let contents =
"255 0 0 0 0 0 0 0 0 0 0 0 0 0 0
0 0 0 0 0 0 0 128 0 0 0 0 0 0 0
0 0 0 0 0 0 0 0 0 0 0 0 0 0 255";

    let body = c.ppm_body();

    assert_eq!(body, contents);
}

#[test]
fn the_whole_document_has_a_blank_line_and_ends_with_a_line_break() {
    let mut c = Canvas::new(2, 2);
    c.set_pixel(0, 0, color(1., 0.5, 0.));
    c.set_pixel(1, 1, color(0.25, 0., 1.));

    assert_eq!(c.to_ppm(), "P3\n2 2\n255\n\n255 128 0 0 0 0\n0 0 0 64 0 255\n");
    assert_eq!(c.to_ppm(), format!("{}\n\n{}\n", c.ppm_header(), c.ppm_body()));
}

#[test]
fn empty_canvases_have_empty_rows() {
    assert_eq!(Canvas::new(0, 0).ppm_body(), "");
    assert_eq!(Canvas::new(3, 0).ppm_body(), "");
    assert_eq!(Canvas::new(0, 3).ppm_body(), "\n\n");
    assert_eq!(Canvas::new(1, 1).ppm_body(), "0 0 0");
    assert_eq!(Canvas::new(0, 2).to_ppm(), "P3\n0 2\n255\n\n\n\n");
}
