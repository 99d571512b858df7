use noise::{NoiseFn, Perlin, Seedable};
use noise_road::noise_field::{seed_from_nanos, OurNoise, SAMPLES, SAMPLE_ONE};
use noise_road::shade::noise_val_to_u8;

#[test]
fn seed_is_a_quarter_of_the_reading() {
    assert_eq!(seed_from_nanos(0), 0);
    assert_eq!(seed_from_nanos(3), 0);
    assert_eq!(seed_from_nanos(4), 1);
    assert_eq!(seed_from_nanos(403), 100);
}

#[test]
fn seed_keeps_the_low_32_bits() {
    assert_eq!(seed_from_nanos(4 * 0xffff_ffff), 0xffff_ffff);
    assert_eq!(seed_from_nanos(4 * 0x1_0000_0000), 0);
    assert_eq!(seed_from_nanos(4 * 0x1_0000_0005 + 3), 5);
    assert_eq!(seed_from_nanos(u128::MAX), 0xffff_ffff);
}

#[test]
fn field_from_clock_has_all_generators() {
    let field = OurNoise::new().unwrap();
    assert_eq!(field.len(), SAMPLES);
    assert_eq!(SAMPLES, 50);
    assert!(field.seed(SAMPLES - 1).is_some());
    assert!(field.seed(SAMPLES).is_none());
    assert!(field.generator(SAMPLES - 1).is_some());
    assert!(field.generator(SAMPLES).is_none());
}

#[test]
fn field_needs_a_generator() {
    assert!(OurNoise::with_seeds(vec![]).is_none());
    assert!(OurNoise::with_seeds(vec![0]).is_some());
}

#[test]
fn field_takes_seeds_from_readings() {
    assert!(OurNoise::seeded_from(&vec![]).is_none());
    let field = OurNoise::seeded_from(&vec![0, 4, 403, 4 * 0x1_0000_0005 + 3]).unwrap();
    assert_eq!(field.len(), 4);
    assert_eq!(field.seed(0), Some(0));
    assert_eq!(field.seed(1), Some(1));
    assert_eq!(field.seed(2), Some(100));
    assert_eq!(field.seed(3), Some(5));
    let generator = field.generator(2).unwrap();
    let reference = Perlin::new().set_seed(100);
    assert_eq!(generator.get([0.3, 7.9]), reference.get([0.3, 7.9]));
}

#[test]
fn field_keeps_its_seeds() {
    let field = OurNoise::with_seeds(vec![5, 0, 77]).unwrap();
    assert_eq!(field.len(), 3);
    assert_eq!(field.seed(0), Some(5));
    assert_eq!(field.seed(1), Some(0));
    assert_eq!(field.seed(2), Some(77));
    assert_eq!(field.seed(3), None);
}

#[test]
fn generators_carry_their_seeds() {
    let seeds = vec![5u32, 0, 77, 0xffff_ffff];
    let field = OurNoise::with_seeds(seeds.clone()).unwrap();
    for (i, seed) in seeds.iter().enumerate() {
        let generator = field.generator(i).unwrap();
        assert_eq!(generator.seed(), *seed);
        let reference = Perlin::new().set_seed(*seed);
        for step in 0..40 {
            let point = [0.37 + step as f64 * 0.61, 3.2 - step as f64 * 0.23];
            assert_eq!(generator.get(point), reference.get(point));
        }
    }
    assert!(field.generator(4).is_none());
}

#[test]
fn readings_above_32_bits_give_low_bits_as_seed() {
    let field = OurNoise::seeded_from(&vec![17_179_869_191; 50]).unwrap();
    for i in 0..50 {
        assert_eq!(field.seed(i), Some(1));
        assert_eq!(field.generator(i).unwrap().seed(), 1);
    }
}

#[test]
fn equal_readings_give_equal_fields() {
    let readings = vec![120, 4_000, 4_004, 88];
    let a = OurNoise::seeded_from(&readings).unwrap();
    let b = OurNoise::seeded_from(&readings).unwrap();
    for i in 0..readings.len() {
        assert_eq!(a.seed(i), b.seed(i));
        let (ga, gb) = (a.generator(i).unwrap(), b.generator(i).unwrap());
        for step in 0..20 {
            let point = [1.7 * step as f64 + 0.1, 0.9 * step as f64 + 0.1];
            assert_eq!(ga.get(point).to_bits(), gb.get(point).to_bits());
        }
    }
}

#[test]
fn generators_answer_alike_on_equal_points() {
    let field = OurNoise::with_seeds(vec![9, 10]).unwrap();
    for i in 0..2 {
        let generator = field.generator(i).unwrap();
        let first = generator.get([12.3, 45.6]);
        let second = generator.get([12.3, 45.6]);
        assert_eq!(first.to_bits(), second.to_bits());
        assert!(first.is_finite());
        assert!((-1.0..=1.0).contains(&first));
    }
}

#[test]
fn mean_needs_one_evaluation_per_generator() {
    let field = OurNoise::with_seeds(vec![1, 2, 3]).unwrap();
    assert!(field.at(&vec![]).is_none());
    assert!(field.at(&vec![0, 0]).is_none());
    assert!(field.at(&vec![0, 0, 0, 0]).is_none());
    assert!(field.at(&vec![0, 0, 0]).is_some());
}

#[test]
fn mean_is_sum_over_count() {
    let field = OurNoise::with_seeds(vec![1, 2, 3]).unwrap();
    let mean = field.at(&vec![SAMPLE_ONE, -SAMPLE_ONE / 2, 7]).unwrap();
    assert_eq!(mean.numer(), (SAMPLE_ONE / 2 + 7) as i128);
    assert_eq!(mean.denom(), 3 * SAMPLE_ONE as i128);
    let extreme = field.at(&vec![i64::MIN, i64::MIN, i64::MAX]).unwrap();
    assert_eq!(extreme.numer(), 2 * i64::MIN as i128 + i64::MAX as i128);
}

#[test]
fn mean_of_equal_evaluations_is_that_evaluation() {
    let field = OurNoise::with_seeds(vec![4; 50]).unwrap();
    let half = field.at(&vec![SAMPLE_ONE / 2; 50]).unwrap();
    assert_eq!(noise_val_to_u8(&half), 128);
    let quarter_below = field.at(&vec![-SAMPLE_ONE / 4; 50]).unwrap();
    assert_eq!(noise_val_to_u8(&quarter_below), 193);
    let one = field.at(&vec![SAMPLE_ONE; 50]).unwrap();
    assert_eq!(noise_val_to_u8(&one), 0);
}
