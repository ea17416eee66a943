use voice_inputter::ico::{bitmap_of_size, bmp_entry, build_ico, entry, Entry};
use voice_inputter::icons::{
    common_frame, frame, icon_pixels, icon_size, tint, tray_glyph, tray_picture, unpremultiply,
    Tray, INK_B, INK_G, INK_R,
};
use voice_inputter::image::{centre, content_box, crop, resize, spans, union_box, Image};
use voice_inputter::paint::{blur, box_pass, smooth_line};
use voice_inputter::pixels::{
    overlay_pixels, pack, restore_opacity, straight, window_pixels, with_opacity,
};
use voice_inputter::rounding::{divide_down, divide_up, nearest_single, round_to_even};

fn image(w: usize, h: usize, f: impl Fn(usize, usize) -> [u8; 4]) -> Image {
    let mut data = Vec::new();
    for y in 0..h {
        for x in 0..w {
            data.extend_from_slice(&f(x, y));
        }
    }
    Image { w, h, data }
}

fn png(w: u32, h: u32, f: impl Fn(u32, u32) -> u8) -> Vec<u8> {
    let mut pm = tiny_skia::Pixmap::new(w, h).unwrap();
    for y in 0..h {
        for x in 0..w {
            let a = f(x, y);
            let at = ((y * w + x) * 4) as usize;
            pm.data_mut()[at..at + 4].copy_from_slice(&[a, a, a, a]);
        }
    }
    pm.encode_png().unwrap()
}

#[test]
fn the_box_around_the_content() {
    let img = image(5, 4, |x, y| if (x == 1 && y == 2) || (x == 3 && y == 1) { [0, 0, 0, 9] } else { [9, 9, 9, 8] });
    assert_eq!(content_box(&img), (1, 1, 3, 2));
    let empty = image(5, 4, |_, _| [0; 4]);
    assert_eq!(content_box(&empty), (0, 0, 4, 3));
    assert_eq!(union_box((1, 5, 3, 6), (2, 1, 7, 4)), (1, 1, 7, 6));
    let cut = crop(&img, (1, 1, 3, 2));
    assert_eq!((cut.w, cut.h), (3, 2));
    assert_eq!(cut.data[2 * 4 + 3], 9);
    assert_eq!(cut.data[3 * 4 + 3], 9);
}

/// Where the parts of an equal division begin and end, by single precision.
fn spans_by_floats(n: u32, to: u32) -> Vec<(usize, usize)> {
    (0..to)
        .map(|i| {
            let a = (i as f32 * n as f32 / to as f32).floor() as u32;
            let b = ((((i + 1) as f32 * n as f32 / to as f32).ceil() as u32).min(n)).max(a + 1);
            (a as usize, b as usize)
        })
        .collect()
}

#[test]
fn spans_agree_with_single_precision() {
    for n in [1u32, 2, 3, 7, 16, 63, 100, 255, 256, 1000, 4093] {
        for to in [1u32, 2, 3, 5, 16, 20, 32, 40, 48, 255, 256] {
            assert_eq!(spans(n as usize, to as usize), spans_by_floats(n, to), "{n} to {to}");
        }
    }
    // and where single precision holds neither the products nor the lengths themselves
    for n in [70_000u32, 16_777_217, 33_554_435, 99_999_999, 536_870_911, u32::MAX] {
        for to in [1u32, 3, 7, 48, 255, 257, 1000, 32_767] {
            assert_eq!(spans(n as usize, to as usize), spans_by_floats(n, to), "{n} to {to}");
        }
    }
}

#[test]
fn single_precision_of_whole_numbers() {
    assert_eq!((round_to_even(5, 2), round_to_even(7, 2), round_to_even(8, 3)), (2, 4, 3));
    for u in [0u64, 1, 16_777_215, 16_777_216, 16_777_217, 16_777_219, u32::MAX as u64, 1 << 40,
        123_456_789_012_345, u64::MAX]
    {
        assert_eq!(nearest_single(u as u128), u as f32 as u128);
        for d in [1u64, 3, 7, 48, 1 << 20, 16_777_213] {
            let (p, q) = (nearest_single(u as u128), nearest_single(d as u128));
            let quotient = u as f32 / d as f32;
            assert_eq!(divide_down(p, q), quotient.floor() as u128);
            assert_eq!(divide_up(p, q), quotient.ceil() as u128);
        }
    }
}

#[test]
fn shrinking_takes_means() {
    let img = image(4, 2, |x, _| [x as u8 * 10, 0, 0, 255]);
    let small = resize(&img, 2, 1);
    assert_eq!(small.data, vec![5, 0, 0, 255, 25, 0, 0, 255]);
    assert_eq!(resize(&img, 4, 2).data, img.data);
    let big = centre(&small, 4);
    assert_eq!((big.w, big.h), (4, 4));
    assert_eq!(big.data[(4 + 1) * 4], 5);
    assert_eq!(big.data[(4 + 2) * 4], 25);
    assert_eq!(big.data.iter().filter(|b| **b != 0).count(), 4);
}

#[test]
fn both_states_are_framed_alike() {
    let rest = png(8, 8, |x, y| if x == 2 && y == 3 { 255 } else { 0 });
    let rec = png(8, 8, |x, y| if x == 5 && y == 4 { 255 } else { 0 });
    for state in [Tray::Idle, Tray::Off, Tray::Rec] {
        let g = tray_glyph(state, &rest, &rec).unwrap();
        assert_eq!((g.w, g.h), (4, 2));
        let at = if state == Tray::Rec { 4 + 3 } else { 0 };
        for i in 0..8 {
            assert_eq!(g.data[i * 4 + 3], if i == at { 255 } else { 0 });
        }
    }
    assert!(tray_glyph(Tray::Idle, b"no picture", &rec).is_none());
    assert!(tray_glyph(Tray::Idle, &rest, &[]).is_none());
    let wide = png(16, 8, |x, _| if x == 15 { 255 } else { 0 });
    assert!(tray_glyph(Tray::Idle, &rest, &wide).is_none());
    assert!(tray_glyph(Tray::Rec, &rest, &wide).is_some());
}

#[test]
fn frames_of_two_pictures() {
    let a = image(4, 4, |x, y| if x == 1 && y == 1 { [255; 4] } else { [0; 4] });
    let b = image(4, 4, |x, y| if x == 2 && y == 3 { [255; 4] } else { [0; 4] });
    assert_eq!(common_frame(&a, &b), (1, 1, 2, 3));
    let f = frame(&a, &b).unwrap();
    assert_eq!((f.w, f.h), (2, 3));
}

#[test]
fn icons_are_coloured_and_dimmed() {
    assert_eq!([icon_size(1), icon_size(16), icon_size(999), icon_size(-5)], [8, 16, 256, 8]);
    let mut img = image(1, 1, |_, _| [200, 200, 200, 200]);
    tint(&mut img, 255, 51, 0);
    assert_eq!(img.data, vec![200, 40, 0, 200]);
    let white = image(1, 1, |_, _| [255; 4]);
    let dark = tray_picture(Tray::Idle, true, &white, 1);
    assert_eq!(dark.data, vec![INK_R, INK_G, INK_B, 255]);
    assert_eq!(tray_picture(Tray::Idle, false, &white, 1).data, white.data);
    assert_eq!(tray_picture(Tray::Rec, true, &white, 1).data, white.data);
    assert_eq!(icon_pixels(&white, Tray::Idle), vec![0xFFFF_FFFF]);
    for a in 0..=255u8 {
        let img = image(1, 1, |_, _| [a, a, a, a]);
        let p = icon_pixels(&img, Tray::Off)[0];
        assert_eq!((p >> 24) as u8, (a as f32 * 0.45) as u8, "{a}");
        assert_eq!((icon_pixels(&img, Tray::Rec)[0] >> 24) as u8, a);
    }
    assert_eq!(unpremultiply(100, 200), 127);
    assert_eq!(unpremultiply(200, 100), 255);
    assert_eq!(unpremultiply(200, 0), 0);
}

#[test]
fn pixels_of_windows() {
    assert_eq!(pack(1, 2, 3, 4), 0x0102_0304);
    let data = vec![10, 20, 30, 40, 0, 0, 0, 0];
    assert_eq!(window_pixels(&data), vec![0x280A_141E, 0]);
    let mut px = vec![0x0012_3456, 0xFF00_0001];
    restore_opacity(&mut px, &data);
    assert_eq!(px, vec![0x2812_3456, 0x0000_0001]);
    assert_eq!(with_opacity(0xAABB_CCDD, 1), 0x01BB_CCDD);
    assert_eq!(straight(&data), vec![64, 128, 191, 40, 0, 0, 0, 0]);
    assert_eq!(overlay_pixels(&straight(&data)), vec![0x280A_141D, 0]);
}

#[test]
fn blurring() {
    assert_eq!(smooth_line(&vec![0, 0, 90, 0, 0], 1), vec![0, 30, 30, 30, 0]);
    let mut data = vec![7u8; 5 * 4 * 4];
    blur(&mut data, 5, 4, 1);
    assert_eq!(data, vec![7u8; 5 * 4 * 4]);
    let mut row = vec![0u8; 3 * 4];
    row[4] = 90;
    box_pass(&mut row, 3, 1, 1, true);
    assert_eq!([row[0], row[4], row[8]], [30, 30, 30]);
}

#[test]
fn icon_files() {
    let img = image(2, 2, |x, y| [x as u8, y as u8, 9, 255]);
    let bmp = bmp_entry(&img);
    assert_eq!(&bmp[0..4], &[40, 0, 0, 0]);
    assert_eq!(bmp.len(), 40 + 2 * 2 * 4 + 2 * 4);
    let file = build_ico(&vec![
        Entry { size: 256, data: vec![1, 2, 3] },
        Entry { size: 16, data: vec![4, 5] },
    ]);
    assert_eq!(&file[0..6], &[0, 0, 1, 0, 2, 0]);
    assert_eq!(file[6], 0);
    assert_eq!(file[6 + 16], 16);
    assert_eq!(file.len(), 6 + 32 + 5);
    assert_eq!(&file[6 + 12..6 + 16], &[38, 0, 0, 0]);
    assert_eq!(&file[38..], &[1, 2, 3, 4, 5]);
}

#[test]
fn parts_of_an_icon_file() {
    let p = png(64, 64, |_, _| 255);
    let whole = entry(&p, 256).unwrap();
    assert_eq!(whole.data, p);
    let part = entry(&p, 16).unwrap();
    assert_eq!(part.size, 16);
    assert_eq!(part.data.len(), 40 + 16 * 16 * 4 + 16 * 4);
    assert!(entry(&b"no picture".to_vec(), 16).is_none());
    let img = image(64, 64, |_, _| [255; 4]);
    assert_eq!(bitmap_of_size(&img, 16), part.data);
    // the largest size is taken as it came, whatever it is
    assert_eq!(entry(&b"no picture".to_vec(), 256).unwrap().data, b"no picture");
    // larger sizes are bitmaps too
    let big = entry(&p, 300).unwrap();
    assert_eq!((big.size, big.data.len()), (300, 40 + 300 * 300 * 4 + 40 * 300));
    // a very wide picture is shrunk like any other
    let wide = entry(&png(70_000, 1, |x, _| if x < 35_000 { 255 } else { 0 }), 255).unwrap();
    assert_eq!(wide.data.len(), 40 + 255 * 255 * 4 + 32 * 255);
    assert_eq!(wide.data[40 + 3], 255);
    assert_eq!(wide.data[40 + 254 * 4 + 3], 0);
}
