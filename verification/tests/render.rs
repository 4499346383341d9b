use ray_tracer::camera::Camera;
use ray_tracer::fixed::SCALE;
use ray_tracer::hittable::HitRecord;
use ray_tracer::material::{
    Dielectric, DummyMaterial, Lambertian, Material, Metal, reflectance,
};
use ray_tracer::ray::Ray;
use ray_tracer::sphere::{Sphere, random_in_unit_disk, random_in_unit_sphere};
use ray_tracer::tracer::{get_ray_color, hit_world, pixel_rgb, sky_color};
use ray_tracer::vec3::Vec3;

fn gray() -> Material {
    Material::Lambertian(Lambertian { albedo: Vec3::new_filled(SCALE / 2, SCALE / 2, SCALE / 2) })
}

fn down_z_ray() -> Ray {
    Ray::new_filled(Vec3::new(), Vec3::new_filled(0, 0, -SCALE))
}

#[test]
fn sphere_hit_head_on() {
    // A ray from the origin along -z against a sphere at (0,0,-1) with
    // radius one half hits at t = 1/2, point (0,0,-1/2), normal (0,0,1),
    // front face.
    let s = Sphere::new(&Vec3::new_filled(0, 0, -SCALE), SCALE / 2, gray());
    let h = s.hit(&down_z_ray(), 65, 1 << 30).expect("must hit");
    assert_eq!(h.t, SCALE / 2);
    assert_eq!((h.p.x, h.p.y, h.p.z), (0, 0, -SCALE / 2));
    assert_eq!((h.n.x, h.n.y, h.n.z), (0, 0, SCALE));
    assert!(h.front_face);
}

#[test]
fn sphere_perpendicular_miss() {
    // A sphere whose center sits perpendicular to the ray direction,
    // farther away than its radius, is never hit.
    let s = Sphere::new(&Vec3::new_filled(0, 3 * SCALE, 0), SCALE, gray());
    assert!(s.hit(&down_z_ray(), 65, 1 << 30).is_none());
    let s2 = Sphere::new(&Vec3::new_filled(5 * SCALE, 0, 0), 2 * SCALE, gray());
    assert!(s2.hit(&down_z_ray(), 65, 1 << 30).is_none());
}

#[test]
fn sphere_behind_ray_is_missed() {
    let s = Sphere::new(&Vec3::new_filled(0, 0, 3 * SCALE), SCALE / 2, gray());
    assert!(s.hit(&down_z_ray(), 65, 1 << 30).is_none());
}

#[test]
fn hit_world_returns_closest() {
    let near = Material::Lambertian(Lambertian { albedo: Vec3::new_filled(SCALE, 0, 0) });
    let far = Material::Lambertian(Lambertian { albedo: Vec3::new_filled(0, SCALE, 0) });
    let scene = vec![
        Sphere::new(&Vec3::new_filled(0, 0, -4 * SCALE), SCALE / 2, far),
        Sphere::new(&Vec3::new_filled(0, 0, -2 * SCALE), SCALE / 2, near),
    ];
    let h = hit_world(&scene, &down_z_ray()).expect("must hit");
    assert_eq!(h.t, 98304);
    assert_eq!(h.material, near);
    assert!(h.front_face);
}

#[test]
fn hit_world_empty_scene_finds_nothing() {
    let scene: Vec<Sphere> = Vec::new();
    assert!(hit_world(&scene, &down_z_ray()).is_none());
}

#[test]
fn depth_exhaustion_returns_black() {
    let scene = vec![Sphere::new(&Vec3::new_filled(0, 0, -2 * SCALE), SCALE / 2, gray())];
    let c = get_ray_color(&down_z_ray(), &scene, 0);
    assert_eq!((c.x, c.y, c.z), (0, 0, 0));
}

#[test]
fn empty_scene_gives_sky_gradient() {
    let scene: Vec<Sphere> = Vec::new();
    let c = get_ray_color(&down_z_ray(), &scene, 8);
    assert_eq!((c.x, c.y, c.z), (49152, 55705, 65536));
    assert!(!(c.x == 0 && c.y == 0 && c.z == 0));
    let s = sky_color(&down_z_ray());
    assert_eq!((s.x, s.y, s.z), (49152, 55705, 65536));
    // Looking straight up the sky is pure sky blue.
    let up = Ray::new_filled(Vec3::new(), Vec3::new_filled(0, SCALE, 0));
    let cu = get_ray_color(&up, &scene, 8);
    assert_eq!((cu.x, cu.y, cu.z), (32768, 45875, 65536));
}

fn head_on_record(mat: Material) -> (Ray, HitRecord) {
    let ray_in = down_z_ray();
    let mut rec = HitRecord::new_zero(mat);
    rec.p = Vec3::new_filled(0, 0, -SCALE / 2);
    rec.t = SCALE / 2;
    rec.set_face_normal(&ray_in, &Vec3::new_filled(0, 0, SCALE));
    (ray_in, rec)
}

#[test]
fn lambertian_attenuation_is_albedo() {
    // Whatever scatter direction is drawn, the attenuation equals the
    // albedo exactly.
    let albedo = Vec3::new_filled(13107, 26214, 39321);
    let mat = Material::Lambertian(Lambertian { albedo });
    let (ray_in, rec) = head_on_record(mat);
    for _ in 0..100 {
        let (att, scattered) = mat.scatter(&ray_in, &rec).expect("always scatters");
        assert_eq!((att.x, att.y, att.z), (albedo.x, albedo.y, albedo.z));
        assert_eq!((scattered.origin.x, scattered.origin.y, scattered.origin.z),
            (rec.p.x, rec.p.y, rec.p.z));
        assert!(!scattered.direction.near_zero());
    }
}

#[test]
fn metal_mirror_with_zero_fuzz() {
    // With fuzz = 0 no randomness is injected: the scattered direction is
    // exactly the reflection of the normalized incoming direction.
    let albedo = Vec3::new_filled(SCALE, SCALE, SCALE);
    let mat = Material::Metal(Metal { albedo, fuzz: 0 });
    let (ray_in, rec) = head_on_record(mat);
    for _ in 0..20 {
        let (att, scattered) = mat.scatter(&ray_in, &rec).expect("reflects away");
        assert_eq!((att.x, att.y, att.z), (SCALE, SCALE, SCALE));
        assert_eq!(
            (scattered.direction.x, scattered.direction.y, scattered.direction.z),
            (0, 0, SCALE),
        );
    }
}

#[test]
fn metal_absorbs_grazing_reflection_into_surface() {
    // A reflection that would reenter the surface is treated as absorbed.
    let mat = Material::Metal(Metal { albedo: Vec3::new_filled(SCALE, SCALE, SCALE), fuzz: 0 });
    let ray_in = down_z_ray();
    let mut rec = HitRecord::new_zero(mat);
    rec.p = Vec3::new_filled(0, 0, -SCALE);
    rec.t = SCALE;
    // A normal along the incoming ray: its reflection points into the
    // surface, so the metal absorbs.
    rec.front_face = false;
    rec.n = Vec3::new_filled(0, 0, -SCALE);
    assert!(mat.scatter(&ray_in, &rec).is_none());
}

#[test]
fn dielectric_normal_incidence_reflectance() {
    // With ir = 1.5 and a perpendicular strike the Schlick reflectance is
    // 2621/65536, about 0.04; the empirical reflect/refract split must
    // approximate that probability.
    assert_eq!(reflectance(SCALE, 43690), 2621);
    let mat = Material::Dielectric(Dielectric { ir: 98304 });
    let (ray_in, rec) = head_on_record(mat);
    let mut reflected: u32 = 0;
    let trials: u32 = 20000;
    for _ in 0..trials {
        let (att, scattered) = mat.scatter(&ray_in, &rec).expect("always scatters");
        assert_eq!((att.x, att.y, att.z), (SCALE, SCALE, SCALE));
        if scattered.direction.z > 0 {
            reflected += 1;
        } else {
            assert_eq!(
                (scattered.direction.x, scattered.direction.y, scattered.direction.z),
                (0, 0, -SCALE),
            );
        }
    }
    // Expected about 0.04 * 20000 = 800; allow a wide sampling margin.
    assert!(reflected > 500, "reflected {} of {}", reflected, trials);
    assert!(reflected < 1150, "reflected {} of {}", reflected, trials);
}

#[test]
fn dummy_material_absorbs_without_panicking() {
    let mat = Material::DummyMaterial(DummyMaterial {});
    let (ray_in, rec) = head_on_record(mat);
    assert!(mat.scatter(&ray_in, &rec).is_none());
}

#[test]
fn samplers_stay_inside_their_regions() {
    for _ in 0..200 {
        let s = random_in_unit_sphere();
        let raw = s.x * s.x + s.y * s.y + s.z * s.z;
        assert!(1 <= raw && raw < SCALE * SCALE);
        let d = random_in_unit_disk();
        assert_eq!(d.z, 0);
        assert!(d.x * d.x + d.y * d.y < SCALE * SCALE);
    }
}

#[test]
fn pixel_rgb_applies_gamma_clamp_and_scale() {
    let c = Vec3::new_filled(49152, 55705, 65536);
    assert_eq!(pixel_rgb(&c, 1), (221, 236, 255));
    let black = Vec3::new();
    assert_eq!(pixel_rgb(&black, 1), (0, 0, 0));
    // Averaging over four samples of the same color changes nothing.
    let c4 = Vec3::new_filled(4 * 49152, 4 * 55705, 4 * 65536);
    assert_eq!(pixel_rgb(&c4, 4), (221, 236, 255));
}

#[test]
fn pinhole_camera_shoots_straight_rays() {
    let cam = Camera::new(
        Vec3::new(),
        Vec3::new_filled(0, 0, -SCALE),
        Vec3::new_filled(0, SCALE, 0),
        SCALE,
        SCALE,
        0,
        SCALE,
    );
    let r = cam.get_ray_at_uv(SCALE / 2, SCALE / 2);
    assert_eq!((r.origin.x, r.origin.y, r.origin.z), (0, 0, 0));
    assert_eq!((r.direction.x, r.direction.y, r.direction.z), (0, 0, -SCALE));
}

#[test]
fn one_pixel_image_of_the_empty_sky() {
    // End to end: a 1x1 image, camera looking along -z, empty scene, one
    // sample, nonzero depth; the pixel is the gamma-corrected sky color of
    // the straight-ahead ray, the t = 1/2 blend of white and sky blue.
    let cam = Camera::new(
        Vec3::new(),
        Vec3::new_filled(0, 0, -SCALE),
        Vec3::new_filled(0, SCALE, 0),
        SCALE,
        SCALE,
        0,
        SCALE,
    );
    let scene: Vec<Sphere> = Vec::new();
    let ray = cam.get_ray_at_uv(SCALE / 2, SCALE / 2);
    let color = get_ray_color(&ray, &scene, 50);
    let rgb = pixel_rgb(&color, 1);
    assert_eq!(rgb, (221, 236, 255));
}

#[test]
fn traced_hit_attenuates_by_albedo() {
    // One gray diffuse sphere straight ahead: the color is the sky color
    // of some bounced ray attenuated by 0.5 per channel, so every channel
    // is at most half of full scale.
    let scene = vec![Sphere::new(&Vec3::new_filled(0, 0, -2 * SCALE), SCALE / 2, gray())];
    for _ in 0..50 {
        let c = get_ray_color(&down_z_ray(), &scene, 4);
        assert!(c.x <= SCALE / 2 && c.y <= SCALE / 2 && c.z <= SCALE / 2);
        assert!(c.x >= 0 && c.y >= 0 && c.z >= 0);
    }
}
