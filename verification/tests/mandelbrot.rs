use mandelbrot::bands::{plan_bands, Band};
use mandelbrot::complex::Cx;
use mandelbrot::escape::approx_mandelbrot_test;
use mandelbrot::fixed::Fx;
use mandelbrot::mapper::pixel_to_point;
use mandelbrot::params::{build_params, handle_render, ParamError};
use mandelbrot::parse::{parse_complex, parse_fx_pair, parse_pair};
use mandelbrot::png::{encode_rendered, render_png};
use mandelbrot::render::{render, render_image};

fn fx(neg: bool, mag: u64) -> Fx {
    Fx::from_raw(neg, mag)
}

fn cx(neg_re: bool, mag_re: u64, neg_im: bool, mag_im: u64) -> Cx {
    Cx::new(fx(neg_re, mag_re), fx(neg_im, mag_im))
}

#[test]
fn test_parse_pair() {
    assert_eq!(parse_pair("", b','), None);
    assert_eq!(parse_pair("10,", b','), None);
    assert_eq!(parse_pair(",10", b','), None);
    assert_eq!(parse_pair("10,20", b','), Some((10, 20)));
    assert_eq!(parse_pair("10,20xy", b','), None);
    assert_eq!(parse_fx_pair("0.5x", b'x'), None);
    assert_eq!(
        parse_fx_pair("0.5x1.5", b'x'),
        Some((fx(false, 500_000), fx(false, 1_500_000)))
    );
    assert_eq!(parse_fx_pair("0.5 x 1.5", b'x'), None);
}

#[test]
fn test_parse_complex() {
    assert_eq!(
        parse_complex("1.25,-0.0625"),
        Some(cx(false, 1_250_000, true, 62_500))
    );
    assert_eq!(parse_complex(",-0.0625"), None);
}

#[test]
fn test_pixel_to_point() {
    assert_eq!(
        pixel_to_point(
            (100, 100),
            (25, 75),
            cx(true, 1_000_000, false, 1_000_000),
            cx(false, 1_000_000, true, 1_000_000)
        ),
        cx(true, 500_000, true, 500_000)
    );
}

#[test]
fn parse_pair_rejects_overflow_and_signs() {
    assert_eq!(parse_pair("99999999999999999999,1", b','), None);
    assert_eq!(parse_pair("-1,2", b','), None);
    assert_eq!(parse_pair("1 ,2", b','), None);
    assert_eq!(parse_pair("1000x750", b'x'), Some((1000, 750)));
}

#[test]
fn parse_complex_grammar_edges() {
    assert_eq!(parse_complex("10,20"), Some(cx(false, 10_000_000, false, 20_000_000)));
    assert_eq!(parse_complex("-0.0000001,0"), Some(cx(false, 0, false, 0)));
    assert_eq!(parse_complex("1.,2"), None);
    assert_eq!(parse_complex(".5,2"), None);
    assert_eq!(parse_complex("1.2.3,0"), None);
    assert_eq!(parse_complex("+1,2"), None);
    // beyond the coordinate range
    assert_eq!(parse_complex("2000000,0"), None);
    assert_eq!(parse_complex("1000000,0"), Some(cx(false, 1_000_000_000_000, false, 0)));
}

#[test]
fn zero_is_in_the_set() {
    assert_eq!(approx_mandelbrot_test(cx(false, 0, false, 0), 1), None);
    assert_eq!(approx_mandelbrot_test(cx(false, 0, false, 0), 255), None);
    assert_eq!(approx_mandelbrot_test(cx(false, 0, false, 0), 10_000), None);
}

#[test]
fn far_points_escape_at_once() {
    assert_eq!(approx_mandelbrot_test(cx(false, 3_000_000, false, 0), 255), Some(0));
    assert_eq!(approx_mandelbrot_test(cx(false, 0, true, 2_500_000), 255), Some(0));
    // barely outside the disk: |c|^2 = 4.00000001 > 4
    assert_eq!(approx_mandelbrot_test(cx(false, 2_000_000, false, 100), 255), Some(0));
}

#[test]
fn escape_counts_are_exact() {
    // c = 2: |c| is exactly two, so the first iterate does not escape;
    // the second is z = 4 + 2 = 6, which does.
    assert_eq!(approx_mandelbrot_test(cx(false, 2_000_000, false, 0), 255), Some(1));
}

#[test]
fn bands_cover_rows_exactly_once() {
    assert_eq!(
        plan_bands(10, 3),
        vec![
            Band { top: 0, height: 4 },
            Band { top: 4, height: 4 },
            Band { top: 8, height: 2 }
        ]
    );
    assert_eq!(
        plan_bands(8, 4),
        vec![
            Band { top: 0, height: 2 },
            Band { top: 2, height: 2 },
            Band { top: 4, height: 2 },
            Band { top: 6, height: 2 }
        ]
    );
    // a raster shorter than the worker count yields fewer bands
    assert_eq!(
        plan_bands(2, 8),
        vec![Band { top: 0, height: 1 }, Band { top: 1, height: 1 }]
    );
    for (h, workers) in [(1usize, 1usize), (7, 3), (100, 8), (5, 9)] {
        let bands = plan_bands(h, workers);
        let mut row = 0;
        for b in &bands {
            assert_eq!(b.top, row);
            assert!(b.height >= 1);
            row += b.height;
        }
        assert_eq!(row, h);
    }
}

#[test]
fn render_fills_every_pixel() {
    let ul = cx(true, 2_000_000, false, 1_500_000);
    let lr = cx(false, 1_000_000, true, 1_500_000);
    let out = render_image((8, 5), ul, lr, 3);
    assert_eq!(out.len(), 40);
}

#[test]
fn render_is_deterministic_across_worker_counts() {
    let ul = cx(true, 2_000_000, false, 1_500_000);
    let lr = cx(false, 1_000_000, true, 1_500_000);
    let one = render_image((8, 5), ul, lr, 1);
    let three = render_image((8, 5), ul, lr, 3);
    let eight = render_image((8, 5), ul, lr, 8);
    assert_eq!(one, three);
    assert_eq!(one, eight);
    let mut buf = vec![0u8; 40];
    render(&mut buf, (8, 5), ul, lr);
    assert_eq!(buf, one);
}

#[test]
fn shade_of_inside_and_outside_points() {
    // a one-pixel raster maps its single pixel to the upper-left corner
    let mut inside = vec![7u8; 1];
    render(&mut inside, (1, 1), cx(false, 0, false, 0), cx(false, 1_000_000, true, 1_000_000));
    assert_eq!(inside, vec![0u8]);
    let mut outside = vec![7u8; 1];
    render(
        &mut outside,
        (1, 1),
        cx(false, 10_000_000, false, 10_000_000),
        cx(false, 11_000_000, false, 9_000_000),
    );
    assert_eq!(outside, vec![255u8]);
}

#[test]
fn build_params_reports_each_error() {
    assert_eq!(build_params("ax5", "0,0", "1,1"), Err(ParamError::BadBounds));
    assert_eq!(build_params("0x5", "0,0", "1,1"), Err(ParamError::BadBounds));
    assert_eq!(build_params("10x0", "0,0", "1,1"), Err(ParamError::BadBounds));
    assert_eq!(
        build_params("5000000000x2", "0,0", "1,1"),
        Err(ParamError::BoundsTooLarge)
    );
    assert_eq!(
        build_params("10x5", "zero,0", "1,1"),
        Err(ParamError::BadUpperLeft)
    );
    assert_eq!(
        build_params("10x5", "0,0", "1,"),
        Err(ParamError::BadLowerRight)
    );
    assert_eq!(
        build_params("10x5", "0,0", "0,1"),
        Err(ParamError::EmptyWindow)
    );
    assert_eq!(
        build_params("10x5", "0,1", "1,1"),
        Err(ParamError::EmptyWindow)
    );
    let p = build_params("1000x750", "-1.20,0.35", "-1,0.20").unwrap();
    assert_eq!(p.width, 1000);
    assert_eq!(p.height, 750);
    assert_eq!(p.upper_left, cx(true, 1_200_000, false, 350_000));
    assert_eq!(p.lower_right, cx(true, 1_000_000, false, 200_000));
}

#[test]
fn handle_render_returns_png_bytes() {
    let r = handle_render("4x3", "-1.0,1.0", "1.0,-1.0", 2);
    let bytes = r.expect("a valid request renders");
    assert_eq!(&bytes[0..8], &[0x89, 0x50, 0x4E, 0x47, 0x0D, 0x0A, 0x1A, 0x0A]);
    assert_eq!(handle_render("x", "0,0", "1,1", 2), Err(ParamError::BadBounds));
}

#[test]
fn encode_rendered_writes_a_png_stream() {
    let pixels = vec![0u8, 128, 255, 64];
    let bytes = encode_rendered(&pixels, 2, 2);
    assert_eq!(&bytes[0..8], &[0x89, 0x50, 0x4E, 0x47, 0x0D, 0x0A, 0x1A, 0x0A]);
    assert!(bytes.len() != pixels.len());
    // the stream is a function of the dimensions and pixels alone
    assert_eq!(bytes, encode_rendered(&pixels, 2, 2));
    assert_ne!(bytes, encode_rendered(&pixels, 4, 1));
}

#[test]
fn render_png_encodes_the_buffer() {
    let ul = cx(true, 1_000_000, false, 1_000_000);
    let lr = cx(false, 1_000_000, true, 1_000_000);
    let bytes = render_png((4, 3), ul, lr, 1);
    assert_eq!(&bytes[0..4], &[0x89, 0x50, 0x4E, 0x47]);
    assert!(bytes.len() != 12);
}
