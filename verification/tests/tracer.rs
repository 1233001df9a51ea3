use raytracer::camera::pixel_ray;
use raytracer::fixed::FP_ONE;
use raytracer::geom::{Collider, Plane, Sphere};
use raytracer::scene::Scene;
use raytracer::shade::{
    get_color, get_color_with_jitters, shadow_blocked, soft_shadow_count, Config, ShadowMode,
};
use raytracer::vector::{Matrix4, Vector3};

const COLOR_MAX: i64 = 255 * FP_ONE;

fn v(x: i64, y: i64, z: i64) -> Vector3 {
    Vector3 { x: x * FP_ONE, y: y * FP_ONE, z: z * FP_ONE }
}

fn red_sphere(center: Vector3, radius_units: i64, reflectivity: i64) -> Collider {
    Collider::Sphere(Sphere {
        center,
        radius: radius_units * FP_ONE,
        color: v(255, 0, 0),
        reflectivity,
    })
}

fn hard_config(light: Vector3) -> Config {
    Config {
        light_point: light,
        shininess: 10,
        specular_weight: FP_ONE / 2,
        shadow: ShadowMode::Hard,
        attenuation: false,
    }
}

fn no_jitters() -> Vec<Vec<Vector3>> {
    vec![vec![], vec![]]
}

#[test]
fn sphere_front_face_hit_distance() {
    // eye at z = 10, sphere of radius 50 centred at z = -150: the hit sits
    // 160 - 50 = 110 units down the axis, and 50^2 * FP_ONE^2 is a multiple
    // of FP_ONE, so the distance is exact
    let s = Sphere { center: v(0, 0, -150), radius: 50 * FP_ONE, color: v(255, 0, 0), reflectivity: 0 };
    let hit = s.collide(v(0, 0, 10), Vector3 { x: 0, y: 0, z: -FP_ONE }).unwrap();
    assert_eq!(hit.distance, 110 * FP_ONE);
    assert_eq!(hit.hit_point, v(0, 0, -100));
    assert_eq!(hit.normal, Vector3 { x: 0, y: 0, z: FP_ONE });
}

#[test]
fn distant_sphere_within_world_is_hit() {
    // thousands of units out but well inside the world cube: the parameter
    // cap lies beyond the world, so the hit is still reported exactly
    let s = Sphere { center: v(0, 0, -5000), radius: 50 * FP_ONE, color: v(255, 0, 0), reflectivity: 0 };
    let hit = s.collide(v(0, 0, 10), Vector3 { x: 0, y: 0, z: -FP_ONE }).unwrap();
    assert_eq!(hit.distance, 4960 * FP_ONE);
    assert_eq!(hit.hit_point, v(0, 0, -4950));
}

#[test]
fn distant_plane_within_world_is_hit() {
    let p = Plane { normal: Vector3 { x: 0, y: 0, z: FP_ONE }, offset: -5000 * FP_ONE, color: v(255, 255, 255), reflectivity: 0 };
    let hit = p.collide(v(0, 0, 10), Vector3 { x: 0, y: 0, z: -FP_ONE }).unwrap();
    assert_eq!(hit.distance, 5010 * FP_ONE);
    assert_eq!(hit.hit_point, v(0, 0, -5000));
}

#[test]
fn sphere_behind_origin_misses() {
    let s = Sphere { center: v(0, 0, -150), radius: 50 * FP_ONE, color: v(255, 0, 0), reflectivity: 0 };
    // aiming away: the centre projects negatively on the direction
    assert!(s.collide(v(0, 0, 10), Vector3 { x: 0, y: 0, z: FP_ONE }).is_none());
}

#[test]
fn plane_straight_hit() {
    let p = Plane { normal: Vector3 { x: 0, y: 0, z: FP_ONE }, offset: -300 * FP_ONE, color: v(255, 255, 255), reflectivity: 0 };
    let hit = p.collide(v(0, 0, 10), Vector3 { x: 0, y: 0, z: -FP_ONE }).unwrap();
    assert_eq!(hit.distance, 310 * FP_ONE);
    assert_eq!(hit.hit_point, v(0, 0, -300));
    assert_eq!(hit.normal, Vector3 { x: 0, y: 0, z: FP_ONE });
}

#[test]
fn plane_parallel_ray_misses() {
    let p = Plane { normal: Vector3 { x: 0, y: 0, z: FP_ONE }, offset: -300 * FP_ONE, color: v(255, 255, 255), reflectivity: 0 };
    assert!(p.collide(v(0, 0, 10), Vector3 { x: FP_ONE, y: 0, z: 0 }).is_none());
    // moving away from the face the normal points out of
    assert!(p.collide(v(0, 0, 10), Vector3 { x: 0, y: 0, z: FP_ONE }).is_none());
}

#[test]
fn nearest_hit_picks_closer_object() {
    let far = red_sphere(v(0, 0, -150), 50, 0);
    let near = red_sphere(v(0, 0, -60), 20, 0);
    let scene = Scene::new(vec![far, near]);
    let (idx, hit) = scene.nearest_hit(v(0, 0, 10), Vector3 { x: 0, y: 0, z: -FP_ONE }).unwrap();
    assert_eq!(idx, 1);
    assert_eq!(hit.distance, 50 * FP_ONE);
}

#[test]
fn nearest_hit_tie_keeps_first_object() {
    let a = red_sphere(v(0, 0, -60), 20, 0);
    let b = red_sphere(v(0, 0, -60), 20, 0);
    let scene = Scene::new(vec![a, b]);
    let (idx, _) = scene.nearest_hit(v(0, 0, 10), Vector3 { x: 0, y: 0, z: -FP_ONE }).unwrap();
    assert_eq!(idx, 0);
}

#[test]
fn nearest_hit_none_when_all_miss() {
    let scene = Scene::new(vec![red_sphere(v(0, 0, -150), 50, 0)]);
    assert!(scene.nearest_hit(v(0, 0, 10), Vector3 { x: 0, y: 0, z: FP_ONE }).is_none());
}

#[test]
fn shadow_blocked_by_interposed_sphere() {
    let occluder = red_sphere(v(0, 0, 50), 10, 0);
    let scene = Scene::new(vec![occluder]);
    let up = Vector3 { x: 0, y: 0, z: FP_ONE };
    assert!(shadow_blocked(&scene, v(0, 0, 0), up));
    let empty = Scene::new(vec![]);
    assert!(!shadow_blocked(&empty, v(0, 0, 0), up));
}

#[test]
fn soft_count_grows_with_occluder_size() {
    let point = v(0, 0, 0);
    let light_dir = Vector3 { x: 0, y: 0, z: FP_ONE };
    // one exact shadow ray and one tilted by the largest admissible jitter
    let js = vec![Vector3 { x: 0, y: 0, z: 0 }, Vector3 { x: 1310, y: 0, z: 0 }];
    let small = Scene::new(vec![Collider::Sphere(Sphere {
        center: v(0, 0, 50),
        radius: 1000,
        color: v(255, 0, 0),
        reflectivity: 0,
    })]);
    let big = Scene::new(vec![red_sphere(v(0, 0, 50), 10, 0)]);
    let c_small = soft_shadow_count(&small, point, light_dir, &js);
    let c_big = soft_shadow_count(&big, point, light_dir, &js);
    assert_eq!(c_small, 1);
    assert_eq!(c_big, 2);
    assert!(c_small <= c_big);
}

#[test]
fn depth_beyond_cutoff_is_black() {
    let scene = Scene::new(vec![red_sphere(v(0, 0, -150), 50, FP_ONE)]);
    let cfg = hard_config(v(0, 0, 10));
    let jj = no_jitters();
    let c = get_color_with_jitters(v(0, 0, 10), &scene, Vector3 { x: 0, y: 0, z: -FP_ONE }, 2, &cfg, &jj);
    assert_eq!(c, Vector3 { x: 0, y: 0, z: 0 });
}

#[test]
fn mirrored_planes_terminate() {
    // two fully reflective planes facing each other still return: the depth
    // cutoff bounds the recursion
    let floor = Collider::Plane(Plane {
        normal: Vector3 { x: 0, y: 0, z: FP_ONE },
        offset: -50 * FP_ONE,
        color: v(255, 255, 255),
        reflectivity: FP_ONE,
    });
    let ceiling = Collider::Plane(Plane {
        normal: Vector3 { x: 0, y: 0, z: -FP_ONE },
        offset: -50 * FP_ONE,
        color: v(255, 255, 255),
        reflectivity: FP_ONE,
    });
    let scene = Scene::new(vec![floor, ceiling]);
    let cfg = hard_config(v(0, 20, 0));
    let jj = no_jitters();
    let c = get_color_with_jitters(v(0, 0, 10), &scene, Vector3 { x: 0, y: 0, z: -FP_ONE }, 0, &cfg, &jj);
    assert!(c.x >= 0 && c.x <= COLOR_MAX);
    assert!(c.y >= 0 && c.y <= COLOR_MAX);
    assert!(c.z >= 0 && c.z <= COLOR_MAX);
}

#[test]
fn background_is_black() {
    let scene = Scene::new(vec![red_sphere(v(0, 0, -150), 50, 0)]);
    let cfg = hard_config(v(0, 0, 10));
    let jj = no_jitters();
    // aiming away from the only object
    let c = get_color_with_jitters(v(0, 0, 10), &scene, Vector3 { x: 0, y: 0, z: FP_ONE }, 0, &cfg, &jj);
    assert_eq!(c, Vector3 { x: 0, y: 0, z: 0 });
}

#[test]
fn center_pixel_hits_sphere_with_exact_shade() {
    // eye (0,0,10), sphere of radius 50 at (0,0,-150), light at the eye:
    // full diffuse red plus a half-weight white highlight
    let scene = Scene::new(vec![red_sphere(v(0, 0, -150), 50, 0)]);
    let cfg = hard_config(v(0, 0, 10));
    let rot = Matrix4::x_rot(FP_ONE, 0);
    let dir = pixel_ray(400, 400, 800, 800, &rot);
    assert_eq!(dir, Vector3 { x: 0, y: 0, z: -FP_ONE });
    let jj = no_jitters();
    let c = get_color_with_jitters(v(0, 0, 10), &scene, dir, 0, &cfg, &jj);
    // full diffuse red clamps to 255; the half-weight white highlight alone
    // lights the other channels
    assert_eq!(c.x, COLOR_MAX);
    assert_eq!(c.y, COLOR_MAX / 2);
    assert_eq!(c.z, COLOR_MAX / 2);
}

#[test]
fn corner_pixel_misses_sphere() {
    let scene = Scene::new(vec![red_sphere(v(0, 0, -150), 50, 0)]);
    let cfg = hard_config(v(0, 0, 10));
    let rot = Matrix4::x_rot(FP_ONE, 0);
    let dir = pixel_ray(0, 0, 800, 800, &rot);
    let jj = no_jitters();
    let c = get_color_with_jitters(v(0, 0, 10), &scene, dir, 0, &cfg, &jj);
    assert_eq!(c, Vector3 { x: 0, y: 0, z: 0 });
}

#[test]
fn overbright_channel_clamps_to_255() {
    // a white sphere fully lit with full specular weight pushes every
    // channel past 255; the output is clamped exactly
    let sphere = Collider::Sphere(Sphere {
        center: v(0, 0, -150),
        radius: 50 * FP_ONE,
        color: v(255, 255, 255),
        reflectivity: 0,
    });
    let scene = Scene::new(vec![sphere]);
    let cfg = Config {
        light_point: v(0, 0, 10),
        shininess: 10,
        specular_weight: FP_ONE,
        shadow: ShadowMode::Hard,
        attenuation: false,
    };
    let jj = no_jitters();
    let c = get_color_with_jitters(v(0, 0, 10), &scene, Vector3 { x: 0, y: 0, z: -FP_ONE }, 0, &cfg, &jj);
    assert_eq!(c, Vector3 { x: COLOR_MAX, y: COLOR_MAX, z: COLOR_MAX });
}

#[test]
fn hard_shadow_darkens_fully() {
    // a plane between the hit point and the light forces intensity zero:
    // with no reflectivity the pixel is exactly black
    let sphere = red_sphere(v(0, 0, -150), 50, 0);
    let occluder = Collider::Plane(Plane {
        normal: Vector3 { x: 0, y: 0, z: -FP_ONE },
        offset: 50 * FP_ONE,
        color: v(255, 255, 255),
        reflectivity: 0,
    });
    let scene = Scene::new(vec![sphere, occluder]);
    let cfg = hard_config(v(0, 0, 10));
    let jj = no_jitters();
    let c = get_color_with_jitters(v(0, 0, 10), &scene, Vector3 { x: 0, y: 0, z: -FP_ONE }, 0, &cfg, &jj);
    assert_eq!(c, Vector3 { x: 0, y: 0, z: 0 });
}

#[test]
fn soft_shadow_fully_occluded_is_black() {
    // the occluding plane blocks every admissible jittered shadow ray, so
    // even the randomised path must return exactly black
    let sphere = red_sphere(v(0, 0, -150), 50, 0);
    let occluder = Collider::Plane(Plane {
        normal: Vector3 { x: 0, y: 0, z: -FP_ONE },
        offset: 50 * FP_ONE,
        color: v(255, 255, 255),
        reflectivity: 0,
    });
    let scene = Scene::new(vec![sphere, occluder]);
    let cfg = Config {
        light_point: v(0, 0, 10),
        shininess: 10,
        specular_weight: FP_ONE / 2,
        shadow: ShadowMode::Soft { samples: 9 },
        attenuation: false,
    };
    let c = get_color(v(0, 0, 10), &scene, Vector3 { x: 0, y: 0, z: -FP_ONE }, 0, &cfg);
    assert_eq!(c, Vector3 { x: 0, y: 0, z: 0 });
}

#[test]
fn randomised_shade_stays_in_range() {
    let scene = Scene::new(vec![
        red_sphere(v(-20, 0, -150), 50, FP_ONE / 4),
        red_sphere(v(50, 0, -40), 50, 0),
    ]);
    let cfg = Config {
        light_point: v(-50, 50, 90),
        shininess: 10,
        specular_weight: FP_ONE / 2,
        shadow: ShadowMode::Soft { samples: 9 },
        attenuation: true,
    };
    let rot = Matrix4::x_rot(FP_ONE, 0);
    for (x, y) in [(400u32, 400u32), (100, 650), (700, 200)] {
        let dir = pixel_ray(x, y, 800, 800, &rot);
        let c = get_color(v(0, 180, 110), &scene, dir, 0, &cfg);
        assert!(c.x >= 0 && c.x <= COLOR_MAX);
        assert!(c.y >= 0 && c.y <= COLOR_MAX);
        assert!(c.z >= 0 && c.z <= COLOR_MAX);
    }
}

#[test]
fn hard_mode_matches_deterministic_engine() {
    // under hard shadows the jitters are never consulted, so the randomised
    // entry point agrees with the deterministic engine exactly
    let scene = Scene::new(vec![red_sphere(v(0, 0, -150), 50, FP_ONE / 4)]);
    let cfg = hard_config(v(-50, 50, 90));
    let dir = Vector3 { x: 0, y: 0, z: -FP_ONE };
    let jj = no_jitters();
    let a = get_color(v(0, 0, 10), &scene, dir, 0, &cfg);
    let b = get_color_with_jitters(v(0, 0, 10), &scene, dir, 0, &cfg, &jj);
    assert_eq!(a, b);
}

#[test]
fn collider_exposes_color_and_reflectivity() {
    let c = red_sphere(v(0, 0, -150), 50, FP_ONE / 2);
    assert_eq!(c.color(), v(255, 0, 0));
    assert_eq!(c.reflectivity(), FP_ONE / 2);
    let p = Collider::Plane(Plane {
        normal: Vector3 { x: 0, y: 0, z: FP_ONE },
        offset: -300 * FP_ONE,
        color: v(0, 0, 255),
        reflectivity: FP_ONE / 10,
    });
    assert_eq!(p.color(), v(0, 0, 255));
    assert_eq!(p.reflectivity(), FP_ONE / 10);
}

#[test]
fn reflectivity_blends_local_and_bounce() {
    // half-reflective green sphere whose bounce ray escapes the scene: the
    // final colour is exactly half the local shade
    let mirror = Collider::Sphere(Sphere {
        center: v(0, 0, -150),
        radius: 50 * FP_ONE,
        color: v(0, 255, 0),
        reflectivity: FP_ONE / 2,
    });
    let scene = Scene::new(vec![mirror]);
    let cfg = hard_config(v(0, 0, 500));
    let jj = no_jitters();
    let c = get_color_with_jitters(v(0, 0, 10), &scene, Vector3 { x: 0, y: 0, z: -FP_ONE }, 0, &cfg, &jj);
    // local = (half highlight, full diffuse + half highlight, half highlight)
    assert_eq!(c.x, COLOR_MAX / 4);
    assert_eq!(c.y, 3 * (COLOR_MAX / 4));
    assert_eq!(c.z, COLOR_MAX / 4);
}
