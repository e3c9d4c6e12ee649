use raytracer::integrator::{bounce_allowed, next_step, Event, Step};
use raytracer::intersect::{
    candidate_hit, closest_hit, sphere_root, triangle_hit, Candidate, Interval, TriangleTerms,
};
use raytracer::order::{
    less, order_key, EPSILON_BITS, MAX_BITS, NEG_EPSILON_BITS, ONE_BITS, SELF_HIT_BITS, ZERO_BITS,
};
use raytracer::raster::{clamp_unit, image_position, pixel_order, sample_seed, RenderOptions};
use raytracer::scatter::{
    dielectric_reflects, dielectric_side, in_normal_hemisphere, inside_unit_ball, metal_scatters,
    refraction_possible, Side,
};

fn b(x: f64) -> u64 {
    x.to_bits()
}

fn terms(a: f64, u: f64, v: f64, t: f64) -> TriangleTerms {
    TriangleTerms { a: b(a), u: b(u), v: b(v), uv: b(u + v), t: b(t) }
}

fn bounce_interval() -> Interval {
    Interval::new(SELF_HIT_BITS, MAX_BITS)
}

#[test]
fn constants_are_the_binary64_patterns() {
    assert_eq!(ZERO_BITS, 0.0f64.to_bits());
    assert_eq!(ONE_BITS, 1.0f64.to_bits());
    assert_eq!(EPSILON_BITS, f64::EPSILON.to_bits());
    assert_eq!(NEG_EPSILON_BITS, (-f64::EPSILON).to_bits());
    assert_eq!(SELF_HIT_BITS, 0.0001f64.to_bits());
    assert_eq!(MAX_BITS, f64::MAX.to_bits());
}

#[test]
fn order_keys_follow_numeric_order() {
    let values = [f64::NEG_INFINITY, -3.5, -1.0, -1e-300, 0.0, 1e-300, 0.5, 1.0, 2.0, f64::MAX, f64::INFINITY];
    for i in 0..values.len() {
        for j in 0..values.len() {
            assert_eq!(less(b(values[i]), b(values[j])), values[i] < values[j]);
        }
    }
}

#[test]
fn negative_zero_equals_zero() {
    assert_eq!(order_key(b(-0.0)), order_key(b(0.0)));
    assert!(!less(b(-0.0), b(0.0)));
    assert!(!less(b(0.0), b(-0.0)));
}

#[test]
fn interval_is_open() {
    let i = Interval::new(b(1.0), b(2.0));
    assert!(!i.contains(b(1.0)));
    assert!(i.contains(b(1.5)));
    assert!(!i.contains(b(2.0)));
    assert!(!i.contains(b(-1.5)));
}

#[test]
fn sphere_takes_near_root_first() {
    let i = bounce_interval();
    assert_eq!(sphere_root(b(4.0), b(0.5), b(1.5), &i), Some(b(0.5)));
}

#[test]
fn sphere_takes_far_root_from_inside() {
    let i = bounce_interval();
    assert_eq!(sphere_root(b(4.0), b(-0.5), b(1.5), &i), Some(b(1.5)));
}

#[test]
fn sphere_behind_ray_is_missed() {
    let i = bounce_interval();
    assert_eq!(sphere_root(b(4.0), b(-2.5), b(-0.5), &i), None);
}

#[test]
fn sphere_without_positive_discriminant_is_missed() {
    let i = bounce_interval();
    assert_eq!(sphere_root(b(0.0), b(1.0), b(1.0), &i), None);
    assert_eq!(sphere_root(b(-1.0), b(1.0), b(2.0), &i), None);
}

#[test]
fn sphere_root_beyond_interval_end_is_missed() {
    let i = Interval::new(SELF_HIT_BITS, b(1.0));
    assert_eq!(sphere_root(b(4.0), b(1.5), b(2.5), &i), None);
}

#[test]
fn sphere_on_unit_sphere_from_center_direction() {
    // ray from (0,0,0) toward -z, sphere center (0,0,-1) radius 0.5
    let (a, bh, c) = (1.0f64, -1.0f64, 1.0f64 - 0.25);
    let disc = bh * bh - a * c;
    let t0 = (-bh - disc.sqrt()) / a;
    let t1 = (-bh + disc.sqrt()) / a;
    let i = bounce_interval();
    assert_eq!(sphere_root(b(disc), b(t0), b(t1), &i), Some(b(0.5)));
}

#[test]
fn triangle_inside_is_hit() {
    let i = bounce_interval();
    assert_eq!(triangle_hit(&terms(1.0, 0.25, 0.25, 3.0), &i), Some(b(3.0)));
}

#[test]
fn triangle_edges_are_hit() {
    let i = bounce_interval();
    assert_eq!(triangle_hit(&terms(1.0, 0.0, 0.0, 3.0), &i), Some(b(3.0)));
    assert_eq!(triangle_hit(&terms(1.0, 1.0, 0.0, 3.0), &i), Some(b(3.0)));
    assert_eq!(triangle_hit(&terms(1.0, 0.5, 0.5, 3.0), &i), Some(b(3.0)));
}

#[test]
fn triangle_outside_barycentric_domain_is_missed() {
    let i = bounce_interval();
    assert_eq!(triangle_hit(&terms(1.0, -0.1, 0.5, 3.0), &i), None);
    assert_eq!(triangle_hit(&terms(1.0, 1.1, 0.0, 3.0), &i), None);
    assert_eq!(triangle_hit(&terms(1.0, 0.5, -0.1, 3.0), &i), None);
    assert_eq!(triangle_hit(&terms(1.0, 0.6, 0.6, 3.0), &i), None);
}

#[test]
fn triangle_parallel_ray_is_missed() {
    let i = bounce_interval();
    assert_eq!(triangle_hit(&terms(1e-17, 0.25, 0.25, 3.0), &i), None);
    assert_eq!(triangle_hit(&terms(-1e-17, 0.25, 0.25, 3.0), &i), None);
    assert_eq!(triangle_hit(&terms(-1.0, 0.25, 0.25, 3.0), &i), Some(b(3.0)));
}

#[test]
fn triangle_behind_ray_is_missed() {
    let i = bounce_interval();
    assert_eq!(triangle_hit(&terms(1.0, 0.25, 0.25, -3.0), &i), None);
}

#[test]
fn triangle_hits_stay_in_barycentric_domain() {
    let i = bounce_interval();
    let samples = [-1.0, -0.5, -1e-9, 0.0, 0.1, 0.3, 0.5, 0.7, 0.9, 1.0, 1.0 + 1e-9, 2.0];
    for &u in samples.iter() {
        for &v in samples.iter() {
            if triangle_hit(&terms(0.7, u, v, 1.0), &i).is_some() {
                assert!(u >= 0.0 && u <= 1.0 && v >= 0.0 && u + v <= 1.0);
            }
        }
    }
}

fn sphere(t0: f64, t1: f64) -> Candidate {
    Candidate::Sphere { discriminant: b(1.0), t0: b(t0), t1: b(t1) }
}

fn missed_sphere() -> Candidate {
    Candidate::Sphere { discriminant: b(-1.0), t0: b(1.0), t1: b(1.0) }
}

#[test]
fn candidate_hit_dispatches() {
    let i = bounce_interval();
    assert_eq!(candidate_hit(&sphere(2.0, 4.0), &i), Some(b(2.0)));
    assert_eq!(candidate_hit(&Candidate::Triangle { terms: terms(1.0, 0.2, 0.2, 5.0) }, &i), Some(b(5.0)));
    assert_eq!(candidate_hit(&missed_sphere(), &i), None);
}

#[test]
fn closest_hit_picks_nearest() {
    let c = vec![sphere(3.0, 5.0), missed_sphere(), sphere(1.5, 2.5), sphere(2.0, 3.0)];
    assert_eq!(closest_hit(&c, &bounce_interval()), Some((2, b(1.5))));
}

#[test]
fn closest_hit_breaks_ties_by_order() {
    let c = vec![missed_sphere(), sphere(2.0, 3.0), sphere(2.0, 4.0)];
    assert_eq!(closest_hit(&c, &bounce_interval()), Some((1, b(2.0))));
}

#[test]
fn closest_hit_from_inside_nested_shells() {
    // ray starts inside both spheres: only far roots count; the inner shell is nearer
    let c = vec![sphere(-1.0, 1.0), sphere(-0.99, 0.99)];
    assert_eq!(closest_hit(&c, &bounce_interval()), Some((1, b(0.99))));
}

#[test]
fn closest_hit_mixes_triangles_and_spheres() {
    let c = vec![sphere(3.0, 5.0), Candidate::Triangle { terms: terms(1.0, 0.2, 0.2, 2.0) }];
    assert_eq!(closest_hit(&c, &bounce_interval()), Some((1, b(2.0))));
    let c = vec![sphere(3.0, 5.0), Candidate::Triangle { terms: terms(1.0, 0.7, 0.7, 2.0) }];
    assert_eq!(closest_hit(&c, &bounce_interval()), Some((0, b(3.0))));
}

#[test]
fn closest_hit_of_misses_is_none() {
    assert_eq!(closest_hit(&vec![missed_sphere(), sphere(-2.0, -1.0)], &bounce_interval()), None);
    assert_eq!(closest_hit(&Vec::new(), &bounce_interval()), None);
}

#[test]
fn metal_absorbs_rays_into_surface() {
    assert!(metal_scatters(b(0.3)));
    assert!(!metal_scatters(b(0.0)));
    assert!(!metal_scatters(b(-0.3)));
}

#[test]
fn dielectric_side_by_sign() {
    assert_eq!(dielectric_side(b(0.4)), Side::Exiting);
    assert_eq!(dielectric_side(b(-0.4)), Side::Entering);
    assert_eq!(dielectric_side(b(0.0)), Side::Entering);
}

#[test]
fn total_internal_reflection_always_reflects() {
    assert!(!refraction_possible(b(-0.2)));
    assert!(!refraction_possible(b(0.0)));
    assert!(refraction_possible(b(0.2)));
    assert!(dielectric_reflects(false, b(0.99), b(0.0)));
}

#[test]
fn dielectric_reflects_below_reflectance() {
    assert!(dielectric_reflects(true, b(0.01), b(0.04)));
    assert!(!dielectric_reflects(true, b(0.5), b(0.04)));
}

#[test]
fn unit_index_dielectric_refracts_central_ray() {
    // ni_over_nt = 1, central ray: dt = -1, discriminant = 1 - (1 - 1) = 1,
    // Schlick reflectance with r0 = 0 and cosine 1 is 0.
    let dt: f64 = -1.0;
    let disc = 1.0 - 1.0 * 1.0 * (1.0 - dt * dt);
    let r0 = ((1.0 - 1.0f64) / (1.0 + 1.0f64)).powi(2);
    let reflectance = r0 + (1.0 - r0) * (1.0 - 1.0f64).powi(5);
    assert!(refraction_possible(b(disc)));
    assert!(!dielectric_reflects(true, b(0.0), b(reflectance)));
}

#[test]
fn rejection_sampling_bounds() {
    assert!(inside_unit_ball(b(0.99)));
    assert!(!inside_unit_ball(b(1.0)));
    assert!(!inside_unit_ball(b(2.5)));
    assert!(in_normal_hemisphere(b(0.1)));
    assert!(!in_normal_hemisphere(b(-0.1)));
}

#[test]
fn bounce_budget() {
    assert!(bounce_allowed(0, 1));
    assert!(!bounce_allowed(1, 1));
    assert!(!bounce_allowed(0, 0));
}

#[test]
fn steps_by_event() {
    assert_eq!(next_step(0, 5, Event::Missed), Step::Background);
    assert_eq!(next_step(0, 5, Event::Absorbed), Step::Black);
    assert_eq!(next_step(0, 5, Event::Scattered), Step::Continue);
    assert_eq!(next_step(4, 5, Event::Scattered), Step::Black);
}

#[test]
fn single_bounce_hit_is_black_and_miss_is_background() {
    // one bounce: a diffuse hit scatters, but no bounce is left to see the sky
    assert_eq!(next_step(0, 1, Event::Scattered), Step::Black);
    assert_eq!(next_step(0, 1, Event::Missed), Step::Background);
}

#[test]
fn pixels_row_major() {
    let p = pixel_order(3, 2);
    assert_eq!(p, vec![(0, 0), (0, 1), (0, 2), (1, 0), (1, 1), (1, 2)]);
    assert!(pixel_order(0, 4).is_empty());
}

#[test]
fn image_rows_are_flipped() {
    assert_eq!(image_position(0, 5, 10), (5, 9));
    assert_eq!(image_position(9, 0, 10), (0, 0));
}

#[test]
fn clamp_to_unit() {
    assert_eq!(clamp_unit(b(-0.5)), b(0.0));
    assert_eq!(clamp_unit(b(1.7)), b(1.0));
    assert_eq!(clamp_unit(b(0.25)), b(0.25));
    assert_eq!(clamp_unit(b(1.0)), b(1.0));
}

#[test]
fn options_keep_values() {
    let o = RenderOptions::new(1000, 100);
    assert_eq!(o.samples, 1000);
    assert_eq!(o.max_bounces, 100);
}

#[test]
fn seeds_number_samples_pixel_by_pixel() {
    assert_eq!(sample_seed(0, 4, 0), 0);
    assert_eq!(sample_seed(0, 4, 3), 3);
    assert_eq!(sample_seed(1, 4, 0), 4);
    assert_eq!(sample_seed(7, 1000, 999), 7999);
}

#[test]
fn seeds_are_distinct() {
    let mut seen = Vec::new();
    for pixel in 0..6u64 {
        for sample in 0..5u32 {
            let s = sample_seed(pixel, 5, sample);
            assert!(!seen.contains(&s));
            seen.push(s);
        }
    }
}
