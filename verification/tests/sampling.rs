//! The random draws: every outcome of the generator lands in the stated
//! range, and the ball sampler stays strictly inside the ball.

use rand::rngs::StdRng;
use rand::SeedableRng;

use pathtracer::material::random_in_uint_sphere;
use pathtracer::rng::{draw_symmetric, draw_unit};

const S: i64 = 65536;

#[test]
fn draws_land_in_their_ranges() {
    let mut rng = StdRng::seed_from_u64(123);
    for _ in 0..200 {
        let u = draw_unit(&mut rng);
        assert!(0 <= u && u < S);
        let v = draw_symmetric(&mut rng);
        assert!(-S <= v && v < S);
    }
}

#[test]
fn ball_samples_stay_inside() {
    let mut rng = StdRng::seed_from_u64(321);
    for _ in 0..200 {
        let p = random_in_uint_sphere(&mut rng);
        assert!(p.squared_length() < S);
    }
}
