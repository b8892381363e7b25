use tikus::fixed::FX_ONE;
use tikus::math::{random, random_range, random_unit_vector, random_on_hemisphere,
    random_in_unit_disk, Vec3};
use tikus::rng::rng_from_seed;

#[test]
fn random_vectors_lie_in_the_unit_cube() {
    let mut rng = rng_from_seed(21);
    for _ in 0..64 {
        let v = random(&mut rng);
        for c in [v.x, v.y, v.z] {
            assert!((0..FX_ONE).contains(&c));
        }
    }
}

#[test]
fn random_range_respects_its_bounds() {
    let mut rng = rng_from_seed(23);
    for _ in 0..64 {
        let v = random_range(&mut rng, -3 * FX_ONE, 5 * FX_ONE);
        for c in [v.x, v.y, v.z] {
            assert!((-3 * FX_ONE..5 * FX_ONE).contains(&c));
        }
    }
}

#[test]
fn unit_vectors_have_roughly_unit_length() {
    let mut rng = rng_from_seed(25);
    for _ in 0..64 {
        let u = random_unit_vector(&mut rng);
        let m2 = u.mag2();
        assert!(
            FX_ONE / 2 <= m2 && m2 <= 2 * FX_ONE,
            "squared magnitude {} out of tolerance", m2
        );
    }
}

#[test]
fn hemisphere_samples_do_not_oppose_the_normal() {
    let normal = Vec3 { x: 0, y: 0, z: FX_ONE };
    let mut rng = rng_from_seed(27);
    for _ in 0..64 {
        let u = random_on_hemisphere(&mut rng, &normal);
        assert!(u.dot(&normal) >= 0);
    }
}

#[test]
fn disk_samples_stay_in_the_unit_disk() {
    let mut rng = rng_from_seed(29);
    for _ in 0..64 {
        let p = random_in_unit_disk(&mut rng);
        assert_eq!(p.z, 0);
        assert!(p.mag2() < FX_ONE);
    }
}

#[test]
fn seeding_is_deterministic() {
    let mut a = rng_from_seed(31);
    let mut b = rng_from_seed(31);
    for _ in 0..8 {
        let va = random(&mut a);
        let vb = random(&mut b);
        assert_eq!((va.x, va.y, va.z), (vb.x, vb.y, vb.z));
    }
}
