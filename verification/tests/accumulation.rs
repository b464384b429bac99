use path_tracer::image::{merge, render, render_step, Image};

#[derive(Clone, Copy, Debug, PartialEq)]
struct Vec3 {
    x: f32,
    y: f32,
    z: f32,
}

fn vec3(x: f32, y: f32, z: f32) -> Vec3 {
    Vec3 { x, y, z }
}

fn plus(a: Vec3, b: Vec3) -> Vec3 {
    vec3(a.x + b.x, a.y + b.y, a.z + b.z)
}

fn black() -> Vec3 {
    vec3(0.0, 0.0, 0.0)
}

fn approx_eq(a: f32, b: f32, epsilon: f32) -> bool {
    (a - b).abs() < epsilon
}

/// Mean over the passes, then gamma 2.
fn gamma(sum: Vec3, samples: u32) -> Vec3 {
    let n = samples as f32;
    vec3((sum.x / n).sqrt(), (sum.y / n).sqrt(), (sum.z / n).sqrt())
}

fn tone(sum: Vec3, samples: u32) -> (u8, u8, u8) {
    let v = gamma(sum, samples);
    ((v.x * 255.99) as u8, (v.y * 255.99) as u8, (v.z * 255.99) as u8)
}

/// The background gradient seen through pixel (i, j) of a 10 by 10 image.
fn sky(_i: u32, j: u32, sum: Vec3) -> Vec3 {
    let t = 0.5 * ((j as f32 + 0.5) / 10.0 + 1.0) * 0.5;
    plus(sum, vec3(1.0 - 0.5 * t, 1.0 - 0.3 * t, 1.0))
}

#[test]
fn image_creation() {
    let width = 100;
    let height = 50;
    let image = Image::new(width, height, black());

    assert_eq!(image.width, 100);
    assert_eq!(image.height, 50);
    assert_eq!(image.data.len(), 5000);
    assert_eq!(image.samples, 0);

    for pixel in &image.data {
        assert_eq!(pixel.x, 0.0);
        assert_eq!(pixel.y, 0.0);
        assert_eq!(pixel.z, 0.0);
    }
}

#[test]
fn image_val() {
    let mut image = Image::new(10, 10, black());

    image.data[0] = vec3(4.0, 9.0, 16.0);
    image.samples = 1;

    let val = image.val(0, gamma);

    assert_eq!(val.x, 2.0);
    assert_eq!(val.y, 3.0);
    assert_eq!(val.z, 4.0);
}

#[test]
fn image_val_with_samples() {
    let mut image = Image::new(10, 10, black());

    image.data[0] = vec3(4.0, 4.0, 4.0);
    image.samples = 4;

    let val = image.val(0, gamma);

    assert_eq!(val.x, 1.0);
    assert_eq!(val.y, 1.0);
    assert_eq!(val.z, 1.0);
}

#[test]
fn image_val_rgb() {
    let mut image = Image::new(10, 10, black());

    // display pixel (5, 9) is stored at (10 - 9 - 1) * 10 + 5 = 5
    image.data[5] = vec3(1.0, 0.25, 0.0625);
    image.samples = 1;

    let (r, g, b) = image.val_rgb(5, 9, tone);

    assert_eq!(r, 255);
    assert!(g > 125 && g < 130);
    assert!(b > 60 && b < 70);
}

#[test]
fn image_gamma_correction() {
    let mut image = Image::new(1, 1, black());

    image.data[0] = vec3(0.25, 0.5, 1.0);
    image.samples = 1;

    let val = image.val(0, gamma);

    assert!(approx_eq(val.x, 0.5, 0.001));
    assert!(approx_eq(val.y, 0.707, 0.001));
    assert!(approx_eq(val.z, 1.0, 0.001));
}

#[test]
fn render_step_updates_samples() {
    let mut image = Image::new(10, 10, black());

    assert_eq!(image.samples, 0);

    render_step(&mut image, sky);

    assert_eq!(image.samples, 1);
}

#[test]
fn render_step_accumulates_color() {
    let mut image = Image::new(10, 10, black());

    render_step(&mut image, sky);

    let has_color = image
        .data
        .iter()
        .any(|&pixel| pixel.x > 0.0 || pixel.y > 0.0 || pixel.z > 0.0);
    assert!(has_color);
}

#[test]
fn render_step_visits_every_pixel_once_with_its_coordinates() {
    let mut image = Image::new(4, 3, (0u32, 0u32, 0u32));
    render_step(&mut image, |i, j, seen: (u32, u32, u32)| (i, j, seen.2 + 1));
    assert_eq!(image.data.len(), 12);
    for j in 0..3u32 {
        for i in 0..4u32 {
            assert_eq!(image.data[(j * 4 + i) as usize], (i, j, 1));
        }
    }
    assert_eq!(image.samples, 1);
}

#[test]
fn samples_count_the_passes() {
    let mut image = Image::new(3, 2, black());
    for k in 1..=5u32 {
        render_step(&mut image, |i, j, sum| plus(sum, vec3(i as f32, j as f32, 1.0)));
        assert_eq!(image.samples, k);
    }
    // pixel (2, 1) received (2, 1, 1) five times
    assert_eq!(image.data[5], vec3(10.0, 5.0, 5.0));
    let shown = image.val(5, gamma);
    assert_eq!(shown, vec3((10.0f32 / 5.0).sqrt(), 1.0, 1.0));
}

#[test]
fn render_runs_the_given_number_of_passes() {
    let mut image = Image::new(2, 2, black());
    image.samples = 7;
    render(&mut image, 3, &|_i, _j, sum| plus(sum, vec3(0.5, 0.25, 2.0)));
    assert_eq!(image.samples, 10);
    for pixel in &image.data {
        assert_eq!(*pixel, vec3(1.5, 0.75, 6.0));
    }
    render(&mut image, 0, &|_i, _j, _sum| vec3(9.0, 9.0, 9.0));
    assert_eq!(image.samples, 10);
    assert_eq!(image.data[0], vec3(1.5, 0.75, 6.0));
}

#[test]
fn gamma_of_the_mean_after_k_passes() {
    let mut image = Image::new(1, 1, black());
    let contributions = [0.25f32, 1.0, 0.0, 0.75];
    for c in contributions {
        render_step(&mut image, |_i, _j, sum| plus(sum, vec3(c, c, c)));
    }
    assert_eq!(image.samples, 4);
    let shown = image.val(0, gamma);
    assert_eq!(shown.x, (2.0f32 / 4.0).sqrt());
    assert_eq!(image.val_rgb(0, 0, tone), (181, 181, 181));
}

#[test]
fn display_before_the_first_pass_divides_by_one() {
    let mut image = Image::new(2, 1, black());
    image.data[1] = vec3(0.25, 0.25, 0.25);
    assert_eq!(image.samples, 0);
    assert_eq!(image.divisor(), 1);
    let shown = image.val(1, gamma);
    assert_eq!(shown, vec3(0.5, 0.5, 0.5));
    let dividers: Vec<u32> = vec![image.val(0, |_p, n| n), image.val_rgb(0, 0, |_p, n| (n as u8, 0, 0)).0 as u32];
    assert_eq!(dividers, vec![1, 1]);
    image.samples = 6;
    assert_eq!(image.divisor(), 6);
}

#[test]
fn indices_run_rows_from_the_bottom_and_display_rows_from_the_top() {
    let image = Image::new(10, 4, 0u8);
    assert_eq!(image.index_of(0, 0), 0);
    assert_eq!(image.index_of(9, 0), 9);
    assert_eq!(image.index_of(3, 2), 23);
    assert_eq!(image.index_of(9, 3), 39);
    assert_eq!(image.shown_index(0, 0), 30);
    assert_eq!(image.shown_index(3, 1), 23);
    assert_eq!(image.shown_index(9, 3), 9);
    for j in 0..4u32 {
        for i in 0..10u32 {
            assert_eq!(image.shown_index(i, j), image.index_of(i, 3 - j));
        }
    }
}

#[test]
fn snapshot_is_row_major_from_the_top() {
    let mut image = Image::new(2, 3, 0u8);
    for k in 0..6u8 {
        image.data[k as usize] = 10 * k;
    }
    let bytes = image.snapshot_rgb8(|p, n| (p, p + 1, n as u8));
    assert_eq!(
        bytes,
        vec![40, 41, 1, 50, 51, 1, 20, 21, 1, 30, 31, 1, 0, 1, 1, 10, 11, 1]
    );
    image.samples = 3;
    let bytes = image.snapshot_rgb8(|p, _n| (p, p, p));
    for j in 0..3u32 {
        for i in 0..2u32 {
            let at = 3 * (j * 2 + i) as usize;
            let rgb = image.val_rgb(i, j, |p, _n| (p, p, p));
            assert_eq!((bytes[at], bytes[at + 1], bytes[at + 2]), rgb);
        }
    }
}

#[test]
fn snapshot_of_an_image_without_pixels_is_empty() {
    let image = Image::new(0, 7, black());
    assert_eq!(image.data.len(), 0);
    assert_eq!(image.snapshot_rgb8(tone), Vec::<u8>::new());
    let image = Image::new(7, 0, black());
    assert_eq!(image.snapshot_rgb8(tone), Vec::<u8>::new());
}

#[test]
fn merge_adds_pixels_and_pass_counts() {
    let mut shared = Image::new(2, 2, black());
    let mut worker = Image::new(2, 2, black());
    render(&mut worker, 2, &|i, j, sum| plus(sum, vec3(i as f32, j as f32, 1.0)));
    render_step(&mut shared, |_i, _j, sum| plus(sum, vec3(1.0, 1.0, 1.0)));
    merge(&mut shared, &worker, plus);
    assert_eq!(shared.samples, 3);
    assert_eq!(shared.width, 2);
    assert_eq!(shared.height, 2);
    assert_eq!(
        shared.data,
        vec![vec3(1.0, 1.0, 3.0), vec3(3.0, 1.0, 3.0), vec3(1.0, 3.0, 3.0), vec3(3.0, 3.0, 3.0)]
    );
    assert_eq!(worker.samples, 2);
    merge(&mut shared, &worker, plus);
    assert_eq!(shared.samples, 5);
    assert_eq!(shared.data[3], vec3(5.0, 5.0, 5.0));
}
