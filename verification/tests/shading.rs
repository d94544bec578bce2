use raytracer::color::{Color, UNIT};
use raytracer::shading::{
    illumination, in_shadow, nearest_hit, raytracer, shade, LightProbe, AMBIENT_FLOOR,
};

// A non-negative distance as a code that orders as the distances do.
fn code(distance: f32) -> u32 {
    assert!(distance >= 0.0);
    (distance + 0.0).to_bits()
}

fn fixed(value: f64) -> i64 {
    (value * 4294967296.0).round() as i64
}

fn probe(lambert: f64, reach: Option<f32>, blockers: &[Option<f32>]) -> LightProbe {
    LightProbe {
        lambert: fixed(lambert),
        reach: reach.map(code),
        blockers: blockers.iter().map(|b| b.map(code)).collect(),
    }
}

#[test]
fn distance_codes_order_as_distances_do() {
    let distances = [0.0f32, 1e-30, 0.001, 0.5, 1.0, 4.0, 4.0000005, 1e9, f32::MAX];
    for pair in distances.windows(2) {
        assert!(pair[0] < pair[1]);
        assert!(code(pair[0]) < code(pair[1]));
    }
}

#[test]
fn ambient_floor_is_a_tenth() {
    assert_eq!(AMBIENT_FLOOR, fixed(0.1));
}

#[test]
fn nearest_hit_of_nothing_is_none() {
    assert_eq!(nearest_hit(&vec![]), None);
    assert_eq!(nearest_hit(&vec![None]), None);
    assert_eq!(nearest_hit(&vec![None, None, None, None]), None);
}

#[test]
fn nearest_hit_of_a_single_hit() {
    assert_eq!(nearest_hit(&vec![Some(code(4.0))]), Some(0));
    assert_eq!(nearest_hit(&vec![None, None, Some(code(4.0)), None]), Some(2));
    assert_eq!(nearest_hit(&vec![Some(0)]), Some(0));
    assert_eq!(nearest_hit(&vec![None, Some(u32::MAX)]), Some(1));
}

#[test]
fn nearer_of_two_primitives_is_seen() {
    let (t1, t2) = (code(2.5), code(7.0));
    assert_eq!(nearest_hit(&vec![Some(t1), Some(t2)]), Some(0));
    assert_eq!(nearest_hit(&vec![Some(t2), Some(t1)]), Some(1));
}

#[test]
fn nearest_hit_among_many() {
    let hits = vec![
        Some(code(9.0)),
        None,
        Some(code(3.0)),
        Some(code(12.0)),
        Some(code(2.999)),
        None,
        Some(code(3.0)),
    ];
    assert_eq!(nearest_hit(&hits), Some(4));
}

#[test]
fn first_of_equally_near_hits_is_seen() {
    let t = code(5.0);
    assert_eq!(nearest_hit(&vec![Some(t), Some(t)]), Some(0));
    assert_eq!(nearest_hit(&vec![None, Some(code(6.0)), Some(t), Some(t), Some(t)]), Some(2));
    assert_eq!(nearest_hit(&vec![Some(0), Some(0)]), Some(0));
}

#[test]
fn default_scene_centre_ray_sees_the_small_sphere() {
    // Straight down +z: the unit sphere at z = 5 is hit at 4, the sphere of
    // radius 10 at z = 20 behind it, the sphere up and to the left and the
    // floor not at all.
    let hits = vec![Some(code(4.0)), Some(code(10.513)), None, None];
    assert_eq!(nearest_hit(&hits), Some(0));
}

#[test]
fn nothing_in_the_way_casts_no_shadow() {
    assert!(!in_shadow(&vec![], Some(code(3.0))));
    assert!(!in_shadow(&vec![], None));
    assert!(!in_shadow(&vec![None, None], Some(code(3.0))));
    assert!(!in_shadow(&vec![None, None], None));
}

#[test]
fn point_light_is_blocked_by_a_nearer_hit_only() {
    let light = Some(code(3.0));
    assert!(in_shadow(&vec![Some(code(2.9))], light));
    assert!(in_shadow(&vec![None, Some(code(100.0)), Some(code(0.0))], light));
    assert!(!in_shadow(&vec![Some(code(3.1))], light));
    assert!(!in_shadow(&vec![Some(code(100.0)), None, Some(code(3.5))], light));
}

#[test]
fn hit_at_the_distance_of_the_light_does_not_block_it() {
    assert!(!in_shadow(&vec![Some(code(3.0))], Some(code(3.0))));
    assert!(!in_shadow(&vec![Some(0)], Some(0)));
    assert!(in_shadow(&vec![Some(0)], Some(1)));
}

#[test]
fn directional_light_is_blocked_by_any_hit() {
    assert!(in_shadow(&vec![Some(code(1e9))], None));
    assert!(in_shadow(&vec![None, None, Some(u32::MAX)], None));
    assert!(in_shadow(&vec![Some(0)], None));
}

#[test]
fn no_lights_give_no_light() {
    assert_eq!(illumination(&vec![]), 0);
}

#[test]
fn point_light_above_an_unoccluded_plane() {
    // The light is straight above the point, so the cosine is one; the shadow
    // ray leaves the plane and meets nothing.
    let lights = vec![probe(1.0, Some(4.0), &[None])];
    assert_eq!(illumination(&lights), UNIT);
    let slanted = vec![probe(0.6, Some(4.0), &[None])];
    assert_eq!(illumination(&slanted), fixed(0.6));
}

#[test]
fn occluded_light_adds_nothing() {
    let lights = vec![probe(1.0, Some(4.0), &[None, Some(2.0)])];
    assert_eq!(illumination(&lights), 0);
    let sun = vec![probe(0.8, None, &[Some(50.0)])];
    assert_eq!(illumination(&sun), 0);
}

#[test]
fn light_behind_the_surface_adds_nothing() {
    let lights = vec![probe(-0.7, Some(4.0), &[None]), probe(0.0, None, &[])];
    assert_eq!(illumination(&lights), 0);
}

#[test]
fn lights_add_up() {
    let lights = vec![
        probe(0.25, Some(4.0), &[None, Some(9.0)]),
        probe(0.9, Some(4.0), &[Some(1.0), None]),
        probe(-0.3, None, &[None, None]),
        probe(0.5, None, &[None, None]),
    ];
    assert_eq!(illumination(&lights), fixed(0.25) + fixed(0.5));
}

#[test]
fn illumination_is_capped() {
    let bright = |n: usize| -> Vec<LightProbe> {
        (0..n).map(|_| LightProbe { lambert: i64::MAX, reach: None, blockers: vec![] }).collect()
    };
    assert_eq!(illumination(&bright(1)), i64::MAX);
    assert_eq!(illumination(&bright(2)), i64::MAX);
    assert_eq!(illumination(&bright(5)), i64::MAX);
    let mut nearly = bright(1);
    nearly[0].lambert = i64::MAX - 1;
    nearly.push(LightProbe { lambert: 1, reach: None, blockers: vec![None] });
    assert_eq!(illumination(&nearly), i64::MAX);
    nearly.push(LightProbe { lambert: 1, reach: None, blockers: vec![None] });
    assert_eq!(illumination(&nearly), i64::MAX);
}

#[test]
fn single_red_sphere_without_lights() {
    // One sphere at (0, 0, 5) of radius 1, seen from the origin down +z: hit
    // at distance 4. Without any light only the ambient floor is left.
    let hits = vec![Some(code(4.0))];
    assert_eq!(nearest_hit(&hits), Some(0));
    let red = Color::new(255, 0, 0, 255);
    assert_eq!(shade(red, &vec![]), Color::new(26, 0, 0, 255));
    let black = Color::new(0, 0, 0, 255);
    assert_eq!(raytracer(&hits, &vec![red], black, &vec![]), Color::new(26, 0, 0, 255));
}

#[test]
fn raytracer_takes_the_colour_of_the_nearer_primitive() {
    let red = Color::new(200, 0, 0, 255);
    let blue = Color::new(0, 0, 200, 255);
    let white = Color::new(250, 250, 250, 255);
    let lit = vec![probe(1.0, None, &[None, None])];
    let (t1, t2) = (code(2.5), code(7.0));
    assert_eq!(raytracer(&vec![Some(t1), Some(t2)], &vec![red, blue], white, &lit), red);
    assert_eq!(raytracer(&vec![Some(t2), Some(t1)], &vec![red, blue], white, &lit), blue);
    assert_eq!(raytracer(&vec![None, Some(t2)], &vec![red, blue], white, &lit), blue);
    assert_eq!(raytracer(&vec![Some(t2), None], &vec![red, blue], white, &lit), red);
    // Equally near: the first in the scene.
    assert_eq!(raytracer(&vec![Some(t1), Some(t1)], &vec![red, blue], white, &lit), red);
    assert_eq!(raytracer(&vec![Some(t1), Some(t1)], &vec![blue, red], white, &lit), blue);
}

#[test]
fn raytracer_falls_back_to_the_background() {
    let red = Color::new(200, 0, 0, 255);
    let black = Color::new(0, 0, 0, 255);
    let grey = Color::new(100, 100, 100, 255);
    // Nothing is hit, so the lights find a surface without a normal.
    let unlit = vec![probe(0.0, Some(5.4), &[None]), probe(0.0, None, &[None])];
    assert_eq!(raytracer(&vec![None], &vec![red], black, &unlit), black);
    assert_eq!(raytracer(&vec![None], &vec![red], grey, &unlit), Color::new(10, 10, 10, 255));
    assert_eq!(raytracer(&vec![], &vec![], grey, &vec![]), Color::new(10, 10, 10, 255));
}

#[test]
fn raytracer_scales_the_seen_colour_by_the_light() {
    let green = Color::new(0, 228, 48, 255);
    let blue = Color::new(0, 121, 241, 255);
    let black = Color::new(0, 0, 0, 255);
    let hits = vec![Some(code(9.0)), Some(code(3.0))];
    let lights = vec![
        probe(0.5, Some(3.0), &[None, None]),
        probe(0.9, None, &[Some(2.0), None]),
        probe(0.25, Some(8.0), &[Some(8.5), None]),
    ];
    // 0.5 + 0 + 0.25 of (0, 121, 241): 90.75 -> 91, 180.75 -> 181.
    assert_eq!(raytracer(&hits, &vec![green, blue], black, &lights), Color::new(0, 91, 181, 255));
}

#[test]
fn unlit_surfaces_keep_the_ambient_floor() {
    let pink = Color::new(0xE8, 0x3D, 0x84, 0xFF);
    let occluded = vec![probe(1.0, Some(4.0), &[Some(1.0)]), probe(0.9, None, &[Some(2.0)])];
    assert_eq!(shade(pink, &occluded), Color::new(23, 6, 13, 255));
    let dim = vec![probe(0.05, None, &[None])];
    assert_eq!(shade(pink, &dim), Color::new(23, 6, 13, 255));
    let away = vec![probe(-1.0, None, &[None])];
    assert_eq!(shade(pink, &away), Color::new(23, 6, 13, 255));
}

#[test]
fn lit_surfaces_scale_with_the_light() {
    let green = Color::new(0, 228, 48, 255);
    let half = vec![probe(0.5, Some(3.0), &[None, None])];
    assert_eq!(shade(green, &half), Color::new(0, 114, 24, 255));
    let full = vec![probe(1.0, None, &[None])];
    assert_eq!(shade(green, &full), green);
}

#[test]
fn two_lights_may_overexpose() {
    let grey = Color::new(200, 100, 10, 255);
    let lights = vec![probe(1.0, Some(3.0), &[None]), probe(0.5, None, &[None])];
    assert_eq!(shade(grey, &lights), Color::new(255, 150, 15, 255));
}

#[test]
fn background_stays_black() {
    let black = Color::new(0, 0, 0, 255);
    assert_eq!(shade(black, &vec![]), black);
    assert_eq!(shade(black, &vec![probe(1.0, None, &[])]), black);
}

#[test]
fn shade_survives_capped_illumination() {
    let lights: Vec<LightProbe> =
        (0..3).map(|_| LightProbe { lambert: i64::MAX, reach: None, blockers: vec![] }).collect();
    assert_eq!(shade(Color::new(1, 0, 200, 9), &lights), Color::new(255, 0, 255, 9));
}
