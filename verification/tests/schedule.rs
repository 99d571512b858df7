use noise_road::config::{FrameConfig, HEIGHT, SCALE, WIDTH};
use noise_road::roots::ceil_sqrt_u64;
use noise_road::schedule::RenderRow;

/// The bands of a frame as (start row, horizontal, vertical magnification),
/// and the start row of the row state that ended the schedule.
fn bands(cfg: &FrameConfig) -> (Vec<(i32, i32, i32)>, i32) {
    let mut out = Vec::new();
    let mut row = RenderRow::first(cfg);
    while row.is_live() {
        out.push((row.y_screen(), row.h_mag(), row.v_mag()));
        row = row.advance();
    }
    (out, row.y_screen())
}

#[test]
fn ceil_sqrt_of_small_numbers() {
    assert_eq!(ceil_sqrt_u64(0), 0);
    assert_eq!(ceil_sqrt_u64(1), 1);
    assert_eq!(ceil_sqrt_u64(2), 2);
    assert_eq!(ceil_sqrt_u64(3), 2);
    assert_eq!(ceil_sqrt_u64(4), 2);
    assert_eq!(ceil_sqrt_u64(5), 3);
    assert_eq!(ceil_sqrt_u64(196), 14);
    assert_eq!(ceil_sqrt_u64(197), 15);
    assert_eq!(ceil_sqrt_u64(321), 18);
}

#[test]
fn ceil_sqrt_of_large_numbers() {
    assert_eq!(ceil_sqrt_u64(0xffff_ffff * 0xffff_ffff), 0xffff_ffff);
    assert_eq!(ceil_sqrt_u64(0xffff_ffff * 0xffff_ffff + 1), 0x1_0000_0000);
    assert_eq!(ceil_sqrt_u64(u64::MAX), 0x1_0000_0000);
}

#[test]
fn ceil_sqrt_is_least_root() {
    for n in 0..5000u64 {
        let r = ceil_sqrt_u64(n);
        assert!(r * r >= n);
        assert!(r == 0 || (r - 1) * (r - 1) < n);
    }
}

#[test]
fn config_rejects_zero_scale() {
    assert!(FrameConfig::new(640, 480, 0).is_none());
    assert!(FrameConfig::new(0, 0, 1).is_some());
}

#[test]
fn standard_config_is_640_by_480() {
    let cfg = FrameConfig::standard();
    assert_eq!((cfg.width(), cfg.height(), cfg.base_scale()), (640, 480, 1));
    assert_eq!((WIDTH, HEIGHT, SCALE), (640, 480, 1));
}

#[test]
fn first_row_lies_two_thirds_down() {
    let row = RenderRow::first(&FrameConfig::standard());
    assert_eq!(row.y_screen(), 320);
    assert_eq!(row.x_progress(), 0);
    assert_eq!(row.last_y(), 0);
    assert_eq!(row.h_mag(), 1);
    assert_eq!(row.v_mag(), 0);
    assert_eq!(row.block_width(), 2);
    assert_eq!(row.block_height(), 1);
    assert!(row.is_live());
    let odd = RenderRow::first(&FrameConfig::new(10, 100, 1).unwrap());
    assert_eq!(odd.y_screen(), 67);
}

#[test]
fn second_row_takes_roots() {
    let row = RenderRow::first(&FrameConfig::standard()).advance();
    assert_eq!(row.y_screen(), 321);
    assert_eq!(row.x_progress(), 2);
    assert_eq!(row.last_y(), 320);
    assert_eq!(row.h_mag(), 2);
    assert_eq!(row.v_mag(), 3);
    assert_eq!(row.block_width(), 3);
    assert_eq!(row.block_height(), 4);
}

#[test]
fn standard_frame_schedule() {
    let (rows, end) = bands(&FrameConfig::standard());
    let expected = vec![
        (320, 1, 0), (321, 2, 3), (325, 2, 4), (330, 3, 4), (335, 3, 4), (340, 4, 4),
        (345, 4, 4), (350, 4, 4), (355, 4, 4), (360, 5, 4), (365, 5, 5), (371, 5, 5),
        (377, 5, 5), (383, 6, 5), (389, 6, 5), (395, 6, 5), (401, 6, 6), (408, 6, 6),
        (415, 6, 6), (422, 7, 6), (429, 7, 6), (436, 7, 6), (443, 7, 7), (451, 7, 7),
        (459, 7, 7), (467, 8, 7), (475, 8, 7),
    ];
    assert_eq!(rows, expected);
    assert_eq!(end, 483);
}

#[test]
fn schedule_ends_within_bound() {
    for height in [0u16, 1, 2, 30, 100, 270, 300, 480, 1000, 4000, u16::MAX] {
        for scale in [1u16, 2, 3, 7, 20, 300, u16::MAX] {
            let cfg = FrameConfig::new(640, height, scale).unwrap();
            let (rows, _) = bands(&cfg);
            assert!(rows.len() <= (height / 3) as usize + 1);
        }
    }
}

#[test]
fn steady_frame_steps_by_at_least_scale() {
    for (height, scale) in [(480u16, 1u16), (1000, 1), (300, 1), (480, 4), (60, 20), (9000, 3)] {
        let cfg = FrameConfig::new(640, height, scale).unwrap();
        let (rows, end) = bands(&cfg);
        assert!(rows[1].2 >= 0);
        for pair in rows.windows(2) {
            assert!(pair[1].0 - pair[0].0 >= scale as i32);
            assert_eq!(pair[1].0, pair[0].0 + scale as i32 + pair[0].2);
        }
        assert!(end > height as i32);
        assert!(rows.len() <= ((height / 3) / scale) as usize + 1);
    }
}

#[test]
fn band_without_height_ends_schedule() {
    let cfg = FrameConfig::new(640, 270, 1).unwrap();
    let (rows, end) = bands(&cfg);
    assert_eq!(rows, vec![(180, 1, 0)]);
    assert_eq!(end, 181);
    let stalled = RenderRow::first(&cfg).advance();
    assert_eq!(stalled.v_mag(), -1);
    assert_eq!(stalled.block_height(), 0);
    assert!(!stalled.is_live());
}

#[test]
fn empty_frame_has_one_band() {
    let cfg = FrameConfig::new(640, 0, 1).unwrap();
    let (rows, end) = bands(&cfg);
    assert_eq!(rows, vec![(0, 1, 0)]);
    assert_eq!(end, 1);
}

#[test]
fn tall_frame_schedule() {
    let cfg = FrameConfig::new(640, 1000, 1).unwrap();
    let (rows, end) = bands(&cfg);
    assert_eq!(rows.len(), 24);
    assert_eq!(&rows[..4], &[(667, 1, 0), (668, 2, 11), (680, 2, 12), (693, 3, 12)]);
    assert_eq!(end, 1017);
}

#[test]
fn thin_bands_schedule() {
    let cfg = FrameConfig::new(640, 300, 1).unwrap();
    let (rows, end) = bands(&cfg);
    assert_eq!(rows.len(), 56);
    assert_eq!(&rows[..4], &[(200, 1, 0), (201, 2, 0), (202, 2, 0), (203, 3, 0)]);
    assert_eq!(end, 303);
}

/// The schedule computed in single-precision floating point, for frames on
/// which every band has a height.
fn float_bands(height: u16, scale: u16) -> (Vec<(i32, i32, i32)>, i32) {
    let height = height as i32;
    let scale = scale as i32;
    let mut out = Vec::new();
    let mut x_pos: f32 = 0.0;
    let mut y_pos: f32 = (height - height / 3) as f32;
    let mut h_mul: f32 = 1.0;
    let mut v_mul: f32 = 0.0;
    while y_pos <= height as f32 {
        out.push((y_pos as i32, h_mul as i32, v_mul as i32));
        x_pos += scale as f32 * 2.0;
        y_pos += scale as f32 + v_mul;
        h_mul = x_pos.sqrt().ceil();
        v_mul = ((y_pos * scale as f32).sqrt() - 15.0).ceil();
    }
    (out, y_pos as i32)
}

#[test]
fn schedule_agrees_with_float_arithmetic() {
    let mut compared = 0;
    for height in (0u16..=2400).step_by(7).chain([480, 1000, 20000, u16::MAX]) {
        for scale in [1u16, 2, 3, 5, 16, 40] {
            let start = (height - height / 3) as i64;
            let steady = (start + scale as i64) * scale as i64 > 196;
            if !steady {
                continue;
            }
            let cfg = FrameConfig::new(640, height, scale).unwrap();
            assert_eq!(bands(&cfg), float_bands(height, scale));
            compared += 1;
        }
    }
    assert!(compared > 1000);
}
