use modscope::icon::{
    CORE_RADIUS, FAINTEST_RAY, GLOW_RADIUS, ICON_SIZE, IconBand, IconPixel, IconShade, PNG_SIZE,
    RING_RADIUS, RayColor, RingColor, TRACE_RADIUS, create_icon, create_icon_rgba, icon_band,
};

/// A pixel whose channels all lie inside their bands' ranges.
fn pixel(distance: f32, ray: f32) -> IconPixel {
    IconPixel {
        distance: distance.to_bits(),
        core: 240,
        ring: RingColor { r: 150, g: 225, b: 251, a: 241 },
        glow: RayColor { g: 100, b: 127, a: 110 },
        ray: ray.to_bits(),
        trace: RayColor { g: 24, b: 36, a: 45 },
    }
}

/// A pixel with every channel at `channel`.
fn plain(distance: f32, channel: u8) -> IconPixel {
    IconPixel {
        distance: distance.to_bits(),
        core: channel,
        ring: RingColor { r: channel, g: channel, b: channel, a: channel },
        glow: RayColor { g: channel, b: channel, a: channel },
        ray: 0.5f32.to_bits(),
        trace: RayColor { g: channel, b: channel, a: channel },
    }
}

#[test]
fn thresholds_are_the_numbers_they_name() {
    assert_eq!(CORE_RADIUS, 3.0f32.to_bits());
    assert_eq!(RING_RADIUS, 7.0f32.to_bits());
    assert_eq!(GLOW_RADIUS, 14.0f32.to_bits());
    assert_eq!(TRACE_RADIUS, 18.0f32.to_bits());
    assert_eq!(FAINTEST_RAY, 0.05f32.to_bits());
    assert_eq!(ICON_SIZE, 32);
    assert_eq!(PNG_SIZE, 256);
}

#[test]
fn bands_follow_the_distance() {
    for (distance, band) in [
        (0.0f32, IconBand::Core),
        (2.9999, IconBand::Core),
        (3.0, IconBand::Ring),
        (6.9999, IconBand::Ring),
        (7.0, IconBand::Glow),
        (13.9999, IconBand::Glow),
        (14.0, IconBand::Background),
        (22.0, IconBand::Background),
        (f32::NAN, IconBand::Background),
    ] {
        assert_eq!(icon_band(distance.to_bits()), band, "{distance}");
    }
}

#[test]
fn the_distance_chooses_the_shade() {
    let rgba = |distance, ray| pixel(distance, ray).shade().to_rgba();
    assert_eq!(rgba(0.0, 0.5), [240, 240, 240, 255]);
    assert_eq!(rgba(3.0, 0.5), [150, 225, 251, 241]);
    assert_eq!(rgba(7.0, 0.5), [0, 100, 127, 110]);
    assert_eq!(rgba(14.0, 0.06), [0, 24, 36, 45]);
    assert_eq!(rgba(14.0, 0.05), [0, 0, 0, 0]);
    assert_eq!(rgba(17.9, -1.0), [0, 0, 0, 0]);
    assert_eq!(rgba(18.0, 0.5), [0, 0, 0, 0]);
    assert_eq!(pixel(20.0, 0.5).shade(), IconShade::Clear);
}

#[test]
fn channels_stay_in_the_range_of_their_band() {
    let low = |distance| plain(distance, 0).shade().to_rgba();
    let high = |distance| plain(distance, 255).shade().to_rgba();
    assert_eq!((low(1.0), high(1.0)), ([225, 225, 225, 255], [255, 255, 255, 255]));
    assert_eq!((low(5.0), high(5.0)), ([0, 180, 240, 200], [200, 240, 255, 255]));
    assert_eq!((low(9.0), high(9.0)), ([0, 0, 0, 1], [0, 200, 255, 220]));
    assert_eq!((low(15.0), high(15.0)), ([0, 0, 0, 7], [0, 80, 120, 150]));
}

#[test]
fn images_hold_their_pixels_row_by_row() {
    let size = 3u32;
    let pixels: Vec<IconPixel> = (0..9).map(|i| pixel(2.2 * i as f32, 0.5)).collect();
    let rgba = create_icon_rgba(size, &pixels);
    assert_eq!(rgba.len(), 36);
    for y in 0..3usize {
        for x in 0..3usize {
            let idx = (y * 3 + x) * 4;
            assert_eq!(rgba[idx..idx + 4], pixels[y * 3 + x].shade().to_rgba());
        }
    }
    assert!(create_icon_rgba(0, &[]).is_empty());
}

fn lerp(a: f32, b: f32, t: f32) -> f32 {
    a + (b - a) * t
}

/// The strength of the star's rays at an angle.
fn ray_intensity(angle: f32, dist: f32) -> f32 {
    let primary = (angle * 4.0).cos().abs().powf(8.0);
    let secondary = (angle * 4.0 + std::f32::consts::FRAC_PI_4).cos().abs().powf(16.0) * 0.4;
    (primary + secondary) * (1.0 / (1.0 + dist * 0.05))
}

/// Where a pixel lies: its distance from the center, and the ray through it.
fn place(size: u32, x: u32, y: u32) -> (f32, f32) {
    let center = (size as f32 - 1.0) / 2.0;
    let scale = size as f32 / 32.0;
    let dx = (x as f32 - center) / scale;
    let dy = (y as f32 - center) / scale;
    let dist = (dx * dx + dy * dy).sqrt();
    (dist, ray_intensity(dy.atan2(dx), dist))
}

fn faint_ray(dist: f32, ray: f32) -> f32 {
    ray * (1.0 - ((dist - 14.0) / 4.0).min(1.0))
}

fn measured(size: u32, x: u32, y: u32) -> IconPixel {
    let (dist, ray) = place(size, x, y);
    let ring = (dist - 3.0) / 4.0;
    let fade = (dist - 7.0) / 7.0;
    let glow = ((1.0 - fade) * (1.0 - fade) + ray * 1.5 * (1.0 - fade * 0.5)).min(1.0);
    let faint = faint_ray(dist, ray);
    IconPixel {
        distance: dist.to_bits(),
        core: (255.0 - dist / 3.0 * 30.0) as u8,
        ring: RingColor {
            r: lerp(200.0, 0.0, ring) as u8,
            g: lerp(240.0, 180.0, ring) as u8,
            b: lerp(255.0, 240.0, ring) as u8,
            a: lerp(255.0, 200.0, ring) as u8,
        },
        glow: RayColor {
            g: (glow * 200.0) as u8,
            b: (glow * 255.0) as u8,
            a: (glow * 220.0) as u8,
        },
        ray: faint.to_bits(),
        trace: RayColor {
            g: (faint * 80.0) as u8,
            b: (faint * 120.0) as u8,
            a: (faint * 150.0) as u8,
        },
    }
}

/// The pixel as the star is described: band by band, with nothing limited.
fn drawn(size: u32, x: u32, y: u32) -> [u8; 4] {
    let (dist, ray) = place(size, x, y);
    if dist < 3.0 {
        let v = 255.0 - dist / 3.0 * 30.0;
        [v as u8, v as u8, v as u8, 255]
    } else if dist < 7.0 {
        let t = (dist - 3.0) / 4.0;
        [
            lerp(200.0, 0.0, t) as u8,
            lerp(240.0, 180.0, t) as u8,
            lerp(255.0, 240.0, t) as u8,
            lerp(255.0, 200.0, t) as u8,
        ]
    } else if dist < 14.0 {
        let t = (dist - 7.0) / 7.0;
        let intensity = ((1.0 - t) * (1.0 - t) + ray * 1.5 * (1.0 - t * 0.5)).min(1.0);
        let a = (intensity * 220.0) as u8;
        [0, (intensity * 200.0) as u8, (intensity * 255.0) as u8, a.max(1)]
    } else {
        let faint = faint_ray(dist, ray);
        if faint > 0.05 {
            [0, (faint * 80.0) as u8, (faint * 120.0) as u8, (faint * 150.0) as u8]
        } else {
            [0, 0, 0, 0]
        }
    }
}

#[test]
fn the_star_is_drawn_as_measured() {
    for size in [1, 2, 3, 16, 31, 32, 33, 64, 100, 256] {
        let pixels: Vec<IconPixel> = (0..size)
            .flat_map(|y| (0..size).map(move |x| measured(size, x, y)))
            .collect();
        let rgba = create_icon_rgba(size, &pixels);
        for y in 0..size {
            for x in 0..size {
                let idx = ((y * size + x) * 4) as usize;
                assert_eq!(rgba[idx..idx + 4], drawn(size, x, y), "{size}: {x}, {y}");
            }
        }
    }
}

#[test]
fn colors_follow_the_distance() {
    let size = 256;
    for y in 0..size {
        for x in 0..size {
            let (d, _) = place(size, x, y);
            let [r, g, b, a] = measured(size, x, y).shade().to_rgba();
            assert!(d >= 3.0 || (a == 255 && r == g && g == b && r >= 225));
            assert!(
                !(3.0..7.0).contains(&d)
                    || (r <= 200 && (180..=240).contains(&g) && b >= 240 && a >= 200)
            );
            assert!(d < 7.0 || r == 0);
            assert!(d >= 14.0 || a >= 1);
            assert!(d < 18.0 || a == 0);
            assert!(a != 0 || (r, g, b) == (0, 0, 0));
        }
    }
}

#[test]
fn the_window_icon_holds_the_image() {
    let pixels: Vec<IconPixel> = (0..32)
        .flat_map(|y| (0..32).map(move |x| measured(32, x, y)))
        .collect();
    let (bytes, size) = create_icon(&pixels).into_raw();
    assert_eq!(bytes, create_icon_rgba(32, &pixels));
    assert_eq!((size.width, size.height), (32, 32));
}
