use noise_road::camera::GameObject;
use noise_road::config::FrameConfig;
use noise_road::noise_field::{OurNoise, SAMPLE_ONE};
use noise_road::paint::DrawCall;
use noise_road::raster::{draw_road, Block};
use noise_road::shade::noise_val_to_u8;

#[test]
fn first_blocks_of_standard_frame() {
    let blocks = draw_road(&FrameConfig::standard(), &GameObject::new());
    assert_eq!(
        blocks[0],
        Block { x: 0, y: 320, width: 2, height: 1, sample_x: 2, sample_y: 3202 }
    );
    assert_eq!(
        blocks[1],
        Block { x: 2, y: 320, width: 2, height: 1, sample_x: 22, sample_y: 3202 }
    );
    assert_eq!(
        blocks[319],
        Block { x: 638, y: 320, width: 2, height: 1, sample_x: 6382, sample_y: 3202 }
    );
    assert_eq!(
        blocks[320],
        Block { x: 0, y: 321, width: 3, height: 4, sample_x: 2, sample_y: 3212 }
    );
    assert_eq!(
        blocks[321],
        Block { x: 3, y: 321, width: 3, height: 4, sample_x: 32, sample_y: 3212 }
    );
}

#[test]
fn block_count_of_standard_frame() {
    let blocks = draw_road(&FrameConfig::standard(), &GameObject::new());
    let widths = [
        2, 3, 3, 4, 4, 5, 5, 5, 5, 6, 6, 6, 6, 7, 7, 7, 7, 7, 7, 8, 8, 8, 8, 8, 8, 9, 9,
    ];
    let expected: usize = widths.iter().map(|w| (640 + w - 1) / w).sum();
    assert_eq!(blocks.len(), expected);
    let last = blocks[blocks.len() - 1];
    assert_eq!((last.x, last.y, last.width, last.height), (639, 475, 9, 8));
}

#[test]
fn sample_points_follow_camera() {
    let cfg = FrameConfig::standard();
    let home = draw_road(&cfg, &GameObject::new());
    let away = draw_road(&cfg, &GameObject { x: -41, y: 1_000_006 });
    assert_eq!(home.len(), away.len());
    for (a, b) in home.iter().zip(away.iter()) {
        assert_eq!((a.x, a.y, a.width, a.height), (b.x, b.y, b.width, b.height));
        assert_eq!(b.sample_x, a.sample_x - 42);
        assert_eq!(b.sample_y, a.sample_y + 1_000_005);
    }
    let far = draw_road(&cfg, &GameObject { x: i64::MAX, y: i64::MIN });
    assert_eq!(far[1].sample_x, i64::MAX as i128 + 21);
    assert_eq!(far[1].sample_y, i64::MIN as i128 + 3201);
}

#[test]
fn blocks_tile_each_band() {
    for (width, height, scale) in [(640u16, 480u16, 1u16), (100, 1000, 1), (7, 60, 20), (1, 300, 1)] {
        let cfg = FrameConfig::new(width, height, scale).unwrap();
        let blocks = draw_road(&cfg, &GameObject::new());
        let mut next_x = 0;
        let mut band_y = blocks[0].y;
        let mut band_end = blocks[0].y + blocks[0].height;
        assert_eq!(band_y, (height - height / 3) as i32);
        for b in &blocks {
            if b.y != band_y {
                assert!(next_x >= width as i32);
                assert_eq!(b.y, band_end);
                band_y = b.y;
                band_end = b.y + b.height;
                next_x = 0;
            }
            assert_eq!(b.x, next_x);
            assert!(b.x < width as i32);
            assert_eq!(b.y + b.height, band_end);
            assert!(b.width >= 1 && b.height >= 1);
            next_x = b.x + b.width;
        }
        assert!(next_x >= width as i32);
        assert!(band_end > height as i32);
    }
}

#[test]
fn frame_without_width_has_no_blocks() {
    let cfg = FrameConfig::new(0, 480, 1).unwrap();
    assert!(draw_road(&cfg, &GameObject::new()).is_empty());
}

#[test]
fn frame_without_height_has_no_blocks() {
    let cfg = FrameConfig::new(640, 0, 1).unwrap();
    assert!(draw_road(&cfg, &GameObject::new()).is_empty());
}

#[test]
fn stalled_frame_draws_first_band_only() {
    let cfg = FrameConfig::new(640, 270, 1).unwrap();
    let blocks = draw_road(&cfg, &GameObject::new());
    assert_eq!(blocks.len(), 320);
    assert!(blocks.iter().all(|b| b.y == 180 && b.height == 1 && b.width == 2));
}

#[test]
fn points_run_row_by_row() {
    let block = Block { x: 3, y: 5, width: 2, height: 3, sample_x: 0, sample_y: 0 };
    assert_eq!(block.points(), vec![(3, 5), (4, 5), (3, 6), (4, 6), (3, 7), (4, 7)]);
    let line = Block { x: -2, y: -1, width: 4, height: 1, sample_x: 0, sample_y: 0 };
    assert_eq!(line.points(), vec![(-2, -1), (-1, -1), (0, -1), (1, -1)]);
}

#[test]
fn paint_sets_color_once_then_plots() {
    let block = Block { x: 3, y: 5, width: 2, height: 2, sample_x: 0, sample_y: 0 };
    assert_eq!(
        block.paint(193),
        vec![
            DrawCall::SetColor(193, 193, 193),
            DrawCall::PlotPoint(3, 5),
            DrawCall::PlotPoint(4, 5),
            DrawCall::PlotPoint(3, 6),
            DrawCall::PlotPoint(4, 6),
        ]
    );
    let flat = Block { x: 3, y: 5, width: 2, height: 0, sample_x: 0, sample_y: 0 };
    assert_eq!(flat.paint(7), vec![DrawCall::SetColor(7, 7, 7)]);
}

#[test]
fn paint_sampled_takes_gray_from_mean() {
    let block = Block { x: 3, y: 5, width: 2, height: 1, sample_x: 0, sample_y: 0 };
    let field = OurNoise::with_seeds(vec![1, 2]).unwrap();
    assert_eq!(
        block.paint_sampled(&field, &vec![-SAMPLE_ONE / 2, 0]),
        Some(vec![
            DrawCall::SetColor(193, 193, 193),
            DrawCall::PlotPoint(3, 5),
            DrawCall::PlotPoint(4, 5),
        ])
    );
    assert_eq!(
        block.paint_sampled(&field, &vec![SAMPLE_ONE, 0]),
        Some(vec![
            DrawCall::SetColor(128, 128, 128),
            DrawCall::PlotPoint(3, 5),
            DrawCall::PlotPoint(4, 5),
        ])
    );
    assert_eq!(block.paint_sampled(&field, &vec![0]), None);
    assert_eq!(block.paint_sampled(&field, &vec![0, 0, 0]), None);
}

#[test]
fn block_without_area_has_no_points() {
    let flat = Block { x: 3, y: 5, width: 2, height: 0, sample_x: 0, sample_y: 0 };
    assert!(flat.points().is_empty());
    let thin = Block { x: 3, y: 5, width: 0, height: 4, sample_x: 0, sample_y: 0 };
    assert!(thin.points().is_empty());
    let inverted = Block { x: 3, y: 5, width: -2, height: -3, sample_x: 0, sample_y: 0 };
    assert!(inverted.points().is_empty());
}

#[test]
fn constant_field_paints_frame_in_one_gray() {
    let cfg = FrameConfig::standard();
    let field = OurNoise::with_seeds(vec![7; 50]).unwrap();
    let half = vec![SAMPLE_ONE / 2; field.len()];
    let mut plotted = vec![vec![0u32; 649]; 483];
    assert_eq!(noise_val_to_u8(&field.at(&half).unwrap()), 128);
    for block in draw_road(&cfg, &GameObject::new()) {
        let mut color = None;
        for call in block.paint_sampled(&field, &half).unwrap() {
            match call {
                DrawCall::SetColor(r, g, b) => color = Some((r, g, b)),
                DrawCall::PlotPoint(x, y) => {
                    assert_eq!(color, Some((128, 128, 128)));
                    plotted[y as usize][x as usize] += 1;
                }
            }
        }
    }
    for (y, line) in plotted.iter().enumerate() {
        for (x, count) in line.iter().enumerate() {
            if y < 320 {
                assert_eq!(*count, 0);
            } else if x < 640 {
                assert_eq!(*count, 1);
            }
        }
    }
}
