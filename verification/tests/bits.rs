use single_player_game_physics::bits::{
    float_clamp, float_double, float_less, float_max, float_min, float_negate,
};
use single_player_game_physics::scene::float_abs;

const SAMPLES: [f32; 16] = [
    0.0,
    -0.0,
    1.0,
    -1.0,
    0.5,
    -2.0,
    3.25,
    1e-40,
    -1e-40,
    1.17549435e-38,
    3.4e38,
    -3.4e38,
    f32::INFINITY,
    f32::NEG_INFINITY,
    f32::NAN,
    0.04,
];

#[test]
fn order_of_bits_is_the_order_of_floats() {
    for a in SAMPLES {
        for b in SAMPLES {
            assert_eq!(float_less(a.to_bits(), b.to_bits()), a < b);
            let (x, y) = (a.to_bits(), b.to_bits());
            let least = f32::from_bits(float_min(x, y));
            let greatest = f32::from_bits(float_max(x, y));
            assert!(least == a.min(b) || (a.is_nan() && b.is_nan()));
            assert!(greatest == a.max(b) || (a.is_nan() && b.is_nan()));
        }
    }
}

#[test]
fn sign_and_double_by_bits() {
    for a in SAMPLES {
        assert_eq!(float_negate(a.to_bits()), (-a).to_bits());
        assert_eq!(float_abs(a.to_bits()), a.abs().to_bits());
        let twice = f32::from_bits(float_double(a.to_bits()));
        assert!(twice == 2.0 * a || a.is_nan() && twice.is_nan());
        if !a.is_nan() {
            assert_eq!(twice.to_bits(), (2.0 * a).to_bits());
        }
    }
}

#[test]
fn clamp_by_bits() {
    for a in SAMPLES {
        let c = float_clamp(a.to_bits(), 0.12f32.to_bits(), 1.0f32.to_bits());
        assert_eq!(c, a.clamp(0.12, 1.0).to_bits());
    }
}
