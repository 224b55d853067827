use expsum_wallpaper::bounds::{bounding_box, BoundingBox, ComplexBits};
use expsum_wallpaper::config::{Config, Rgb};
use expsum_wallpaper::date::CalendarDate;
use expsum_wallpaper::raster::{render, Canvas, Pixel};
use expsum_wallpaper::sequence::term_indices;
use num_complex::Complex64;
use plotters::prelude::{
    BitMapBackend, ChartBuilder, IntoDrawingArea, LineSeries, RGBColor, BLACK,
};
use plotters::style::Color;
use std::f64::consts::PI;

fn term(n: u64, date: &CalendarDate) -> Complex64 {
    let idx = n as f64;
    let year = date.year_offset() as f64;
    let month = date.month() as f64;
    let day = date.day() as f64;
    let p = idx / month + idx.powi(2) / day + idx.powi(3) / year;
    Complex64::new(0.0, 2.0 * PI * p).exp()
}

fn partial_sums(date: &CalendarDate, config: &Config) -> Vec<Complex64> {
    let mut sum = Complex64::new(0.0, 0.0);
    term_indices(config)
        .into_iter()
        .map(|n| {
            sum += term(n, date);
            sum
        })
        .collect()
}

fn bits(sums: &[Complex64]) -> Vec<ComplexBits> {
    sums.iter().map(|c| ComplexBits { re: c.re.to_bits(), im: c.im.to_bits() }).collect()
}

fn ranges(b: &BoundingBox) -> (std::ops::Range<f64>, std::ops::Range<f64>) {
    (
        f64::from_bits(b.min_re)..f64::from_bits(b.max_re),
        f64::from_bits(b.min_im)..f64::from_bits(b.max_im),
    )
}

fn pixels(sums: &[Complex64], b: &BoundingBox, config: &Config) -> Vec<Pixel> {
    let size = (config.width(), config.height());
    let mut scratch = vec![0u8; 3 * size.0 as usize * size.1 as usize];
    let root = BitMapBackend::with_buffer(&mut scratch, size).into_drawing_area();
    let (xs, ys) = ranges(b);
    let chart = ChartBuilder::on(&root).build_cartesian_2d(xs, ys).unwrap();
    sums.iter()
        .map(|c| chart.backend_coord(&(c.re, c.im)))
        .map(|(x, y)| Pixel { x, y })
        .collect()
}

fn through_the_library(sums: &[Complex64], config: &Config) -> Canvas {
    let b = bounding_box(&bits(sums)).unwrap();
    render(&pixels(sums, &b, config), config).unwrap()
}

fn through_a_line_series(sums: &[Complex64], config: &Config) -> Vec<u8> {
    let size = (config.width(), config.height());
    let mut buffer = vec![0u8; 3 * size.0 as usize * size.1 as usize];
    {
        let root = BitMapBackend::with_buffer(&mut buffer, size).into_drawing_area();
        root.fill(&BLACK).unwrap();
        let min_x = sums.iter().map(|c| c.re).fold(f64::INFINITY, f64::min);
        let max_x = sums.iter().map(|c| c.re).fold(f64::NEG_INFINITY, f64::max);
        let min_y = sums.iter().map(|c| c.im).fold(f64::INFINITY, f64::min);
        let max_y = sums.iter().map(|c| c.im).fold(f64::NEG_INFINITY, f64::max);
        let mut chart =
            ChartBuilder::on(&root).build_cartesian_2d(min_x..max_x, min_y..max_y).unwrap();
        chart.configure_mesh().disable_mesh().disable_axes();
        chart
            .draw_series(LineSeries::new(
                sums.iter().map(|c| (c.re, c.im)),
                RGBColor(255, 215, 0).stroke_width(1),
            ))
            .unwrap();
        root.present().unwrap();
    }
    buffer
}

#[test]
fn first_sum_of_a_summer_day_is_its_first_term() {
    let date = CalendarDate::new(2024, 6, 15).unwrap();
    assert_eq!((date.month(), date.day(), date.year_offset()), (6, 15, 24));
    let sums = partial_sums(&date, &Config::standard());
    assert_eq!(sums.len(), 10000);
    let expected = Complex64::new(0.0, 2.0 * PI * (3.0 / 6.0 + 9.0 / 15.0 + 27.0 / 24.0)).exp();
    assert_eq!(sums[0], expected);
    assert!((sums[0].norm() - 1.0).abs() < 1e-12);
}

#[test]
fn summer_day_fills_the_picture_from_edge_to_edge() {
    let date = CalendarDate::new(2024, 6, 15).unwrap();
    let config = Config::standard();
    let sums = partial_sums(&date, &config);
    let b = bounding_box(&bits(&sums)).unwrap();
    let (xs, ys) = ranges(&b);
    assert!(xs.start < xs.end);
    assert!(ys.start < ys.end);

    let path = pixels(&sums, &b, &config);
    assert_eq!(path.iter().map(|p| p.x).min(), Some(0));
    assert_eq!(path.iter().map(|p| p.x).max(), Some(899));
    assert_eq!(path.iter().map(|p| p.y).min(), Some(0));
    assert_eq!(path.iter().map(|p| p.y).max(), Some(899));

    let canvas = render(&path, &config).unwrap();
    assert_eq!((canvas.width(), canvas.height()), (900, 900));
    let gold = Some(Rgb::gold());
    let black = Some(Rgb::black());
    assert!((0..900).any(|y| canvas.pixel(0, y) != black));
    assert!((0..900).any(|y| canvas.pixel(899, y) != black));
    assert!((0..900).any(|x| canvas.pixel(x, 0) != black));
    assert!((0..900).any(|x| canvas.pixel(x, 899) != black));
    assert!((0..900).any(|y| (0..900).any(|x| canvas.pixel(x, y) == gold)));
}

#[test]
fn library_draws_what_a_line_series_draws() {
    let config = Config::standard();
    for (year, month, day) in [(2024, 6, 15), (2023, 1, 1), (1987, 12, 31), (2031, 2, 7)] {
        let date = CalendarDate::new(year, month, day).unwrap();
        let sums = partial_sums(&date, &config);
        let canvas = through_the_library(&sums, &config);
        assert!(canvas.bytes() == &through_a_line_series(&sums, &config), "{}-{}-{}", year, month, day);
    }
}

fn agree_on_the_first_of_each_quarter(year: i32) {
    let config = Config::standard();
    for month in [1, 4, 7, 10] {
        let date = CalendarDate::new(year, month, 1).unwrap();
        let sums = partial_sums(&date, &config);
        let canvas = through_the_library(&sums, &config);
        assert!(canvas.bytes() == &through_a_line_series(&sums, &config), "{}-{}-1", year, month);
    }
}

#[test]
fn library_draws_what_a_line_series_draws_before_the_baseline_year() {
    agree_on_the_first_of_each_quarter(1970);
    agree_on_the_first_of_each_quarter(1999);
}

#[test]
fn library_draws_what_a_line_series_draws_after_the_baseline_year() {
    agree_on_the_first_of_each_quarter(2001);
    agree_on_the_first_of_each_quarter(2025);
}

#[test]
fn same_date_gives_the_same_picture() {
    let config = Config::new(500, 120, 90, Rgb::gold(), Rgb::black()).unwrap();
    let date = CalendarDate::new(2024, 6, 15).unwrap();
    let first = partial_sums(&date, &config);
    let second = partial_sums(&date, &config);
    assert_eq!(bits(&first), bits(&second));
    assert_eq!(through_the_library(&first, &config).bytes(), through_the_library(&second, &config).bytes());
}

#[test]
fn identical_points_do_not_break_the_renderer() {
    let config = Config::standard();
    let sums = vec![Complex64::new(0.25, -3.0); 50];
    let b = bounding_box(&bits(&sums)).unwrap();
    assert_eq!((b.min_re, b.min_im), (b.max_re, b.max_im));
    let path = pixels(&sums, &b, &config);
    assert!(path.iter().all(|p| *p == path[0]));
    let canvas = render(&path, &config).unwrap();
    assert!(canvas.bytes() == &through_a_line_series(&sums, &config));
    let inked = canvas.bytes().chunks(3).filter(|c| *c != [0u8, 0, 0]).count();
    assert!(inked <= 1);
}

#[test]
fn three_identical_points_give_a_picture() {
    let config = Config::standard();
    let sums = vec![Complex64::new(1.5, -2.0); 3];
    let b = bounding_box(&bits(&sums)).unwrap();
    assert_eq!((b.min_re, b.max_re), (1.5f64.to_bits(), 1.5f64.to_bits()));
    assert_eq!((b.min_im, b.max_im), ((-2.0f64).to_bits(), (-2.0f64).to_bits()));
    let path = pixels(&sums, &b, &config);
    assert_eq!(path.len(), 3);
    assert!(path[0] == path[1] && path[1] == path[2]);
    let canvas = render(&path, &config);
    assert!(canvas.is_ok());
    let canvas = canvas.unwrap();
    assert_eq!((canvas.width(), canvas.height()), (900, 900));
    assert!(canvas.bytes() == &through_a_line_series(&sums, &config));
}

#[test]
fn baseline_year_gives_sums_that_are_no_numbers() {
    let config = Config::new(200, 900, 900, Rgb::gold(), Rgb::black()).unwrap();
    let date = CalendarDate::new(2000, 6, 15).unwrap();
    assert!(date.is_in_baseline_year());
    assert_eq!(date.year_offset(), 0);
    let sums = partial_sums(&date, &config);
    assert_eq!(sums.len(), 200);
    assert!(sums.iter().all(|c| c.re.is_nan() && c.im.is_nan()));
    let b = bounding_box(&bits(&sums)).unwrap();
    assert_eq!(b.min_re, f64::INFINITY.to_bits());
    assert_eq!(b.max_re, f64::NEG_INFINITY.to_bits());
    assert_eq!(b.min_im, f64::INFINITY.to_bits());
    assert_eq!(b.max_im, f64::NEG_INFINITY.to_bits());
    let canvas = through_the_library(&sums, &config);
    assert!(canvas.bytes() == &through_a_line_series(&sums, &config));
}

#[test]
fn each_sum_adds_one_term_of_unit_length() {
    let config = Config::new(300, 10, 10, Rgb::gold(), Rgb::black()).unwrap();
    let date = CalendarDate::new(2024, 6, 15).unwrap();
    let sums = partial_sums(&date, &config);
    let indices = term_indices(&config);
    for i in 1..sums.len() {
        let step = sums[i] - sums[i - 1];
        let alone = term(indices[i], &date);
        assert!((step - alone).norm() < 1e-9);
        assert!((alone.norm() - 1.0).abs() < 1e-12);
    }
}
