use raytracer::camera::Camera;
use raytracer::color::{Color, ColorU8};
use raytracer::common::{
    random_unit_sphere, ray_color, ray_trace, HitRecord, Mesh, Options, Ray, Sphere, Triangle,
    World,
};
use raytracer::image::Framebuffer;
use raytracer::materials::MaterialType;
use raytracer::maths::Vec3;
use raytracer::parser::{
    find, get_identifier, parse_float, parse_input, parse_int, skip_comment, skip_whitespace,
    starts_with, ParseError,
};
use raytracer::random::Random;

const S: i64 = 65536;

fn gray() -> MaterialType {
    MaterialType::Diffuse(Color { r: S / 2, g: S / 2, b: S / 2, a: S })
}

fn dot_raw(a: Vec3, b: Vec3) -> i64 {
    a.x * b.x + a.y * b.y + a.z * b.z
}

#[test]
fn bla() {}

#[test]
fn sphere_hit_straight_on() {
    let sphere = Sphere { center: Vec3::new(0, 0, -S), radius: S / 2, material: gray() };
    let ray = Ray::new(Vec3::new(0, 0, 0), Vec3::new(0, 0, -S));
    let hit = sphere.hit(&ray, 66, 0x40000000).expect("must hit");
    // nearest root is exactly 0.5
    assert_eq!(hit.t, S / 2);
    assert_eq!(hit.position.x, 0);
    assert_eq!(hit.position.y, 0);
    assert_eq!(hit.position.z, -S / 2);
    // |position - center| == radius exactly here
    let pc = Vec3::new(
        hit.position.x - sphere.center.x,
        hit.position.y - sphere.center.y,
        hit.position.z - sphere.center.z,
    );
    assert_eq!(dot_raw(pc, pc), (S / 2) * (S / 2));
    assert_eq!(hit.normal.x, 0);
    assert_eq!(hit.normal.y, 0);
    assert_eq!(hit.normal.z, S);
}

#[test]
fn sphere_miss_behind_and_aside() {
    let sphere = Sphere { center: Vec3::new(0, 0, -S), radius: S / 2, material: gray() };
    // pointing away: both roots are negative
    let away = Ray::new(Vec3::new(0, 0, 0), Vec3::new(0, 0, S));
    assert!(sphere.hit(&away, 66, 0x40000000).is_none());
    // offset sideways: negative discriminant
    let aside = Ray::new(Vec3::new(2 * S, 0, 0), Vec3::new(0, 0, -S));
    assert!(sphere.hit(&aside, 66, 0x40000000).is_none());
}

#[test]
fn triangle_centroid_hit_and_edge_miss() {
    let tri = Triangle::new(
        Vec3::new(-S, 0, -2 * S),
        Vec3::new(S, 0, -2 * S),
        Vec3::new(0, S, -2 * S),
        gray(),
    );
    // through the centroid (0, 1/3, -2)
    let toward = Vec3::new(0, 21845, -2 * S).normalize();
    let ray = Ray::new(Vec3::new(0, 0, 0), toward);
    let hit = tri.intersect(&ray, 66, 0x40000000).expect("must hit");
    assert_eq!(hit.normal.x, 0);
    assert_eq!(hit.normal.y, 0);
    assert_eq!(hit.normal.z, S);
    // just outside the bottom edge
    let outside = Vec3::new(0, -2048, -2 * S).normalize();
    let miss = Ray::new(Vec3::new(0, 0, 0), outside);
    assert!(tri.intersect(&miss, 66, 0x40000000).is_none());
}

#[test]
fn mesh_and_world_nearest_hit() {
    let near = Sphere { center: Vec3::new(0, 0, -S), radius: S / 2, material: gray() };
    let far = Sphere { center: Vec3::new(0, 0, -4 * S), radius: S / 2, material: gray() };
    let world = World::new(vec![far, near], vec![Mesh::new(vec![])]);
    let ray = Ray::new(Vec3::new(0, 0, 0), Vec3::new(0, 0, -S));
    let hit = world.hit(&ray).expect("must hit");
    assert_eq!(hit.t, S / 2);
    let empty = World::new(vec![], vec![]);
    assert!(empty.hit(&ray).is_none());
}

#[test]
fn world_hit_ignores_traversal_order() {
    // distinct hit distances, so the nearest hit does not depend on
    // the order the primitives are stored in
    let near = Sphere { center: Vec3::new(0, 0, -S), radius: S / 2, material: gray() };
    let far = Sphere { center: Vec3::new(0, 0, -4 * S), radius: S / 2, material: gray() };
    let tri = Triangle::new(
        Vec3::new(-S, -S, -8 * S),
        Vec3::new(S, -S, -8 * S),
        Vec3::new(0, S, -8 * S),
        gray(),
    );
    let a = World::new(vec![far, near], vec![Mesh::new(vec![tri])]);
    let b = World::new(vec![near, far], vec![Mesh::new(vec![tri])]);
    for dz in [-S, -S + 300, -S - 300] {
        let ray = Ray::new(Vec3::new(0, 0, 0), Vec3::new(0, 120, dz).normalize());
        assert_eq!(a.hit(&ray), b.hit(&ray));
    }
}

fn assert_unit(v: Vec3) {
    let d = dot_raw(v, v);
    let target = S * S;
    assert!((d - target).abs() <= 2097152, "not unit: dot = {}", d);
}

#[test]
fn intersection_normals_are_unit() {
    let sphere = Sphere { center: Vec3::new(3000, -70000, -S), radius: 40000, material: gray() };
    let ray = Ray::new(Vec3::new(0, 0, 0), Vec3::new(100, -4000, -S).normalize());
    if let Some(h) = sphere.hit(&ray, 66, 0x40000000) {
        assert_unit(h.normal);
    }
    let tri = Triangle::new(
        Vec3::new(-S, -12345, -2 * S),
        Vec3::new(S, 700, -3 * S),
        Vec3::new(99, S, -2 * S),
        gray(),
    );
    assert_unit(tri.normal);
}

#[test]
fn scatter_directions_are_unit() {
    let mut rng = Random::new();
    let ray = Ray::new(Vec3::new(0, 0, 0), Vec3::new(0, 0, -S));
    let hit = HitRecord {
        position: Vec3::new(0, 0, -S / 2),
        normal: Vec3::new(0, 0, S),
        t: S / 2,
        material: gray(),
    };
    for mat in [
        MaterialType::Diffuse(Color { r: S / 2, g: S / 2, b: S / 2, a: S }),
        MaterialType::Metal(Color { r: S / 2, g: S / 2, b: S / 2, a: S }, S),
        MaterialType::Dielectric(98304),
    ] {
        for _ in 0..32 {
            let sd = mat.scatter(&ray, &hit, &mut rng);
            if let Some(next) = sd.next_ray {
                assert_unit(next.direction);
            }
        }
    }
}

#[test]
fn random_unit_sphere_is_unit() {
    let mut rng = Random::new();
    for _ in 0..64 {
        assert_unit(random_unit_sphere(&mut rng));
    }
}

#[test]
fn dielectric_matched_index_passes_straight() {
    let mut rng = Random::new();
    let d = Vec3::new(0, 0, -S);
    let ray = Ray::new(Vec3::new(0, 0, 0), d);
    let hit = HitRecord {
        position: Vec3::new(0, 0, -S),
        normal: Vec3::new(0, 0, S),
        t: S,
        material: MaterialType::Dielectric(S),
    };
    let sd = hit.material.scatter(&ray, &hit, &mut rng);
    let next = sd.next_ray.expect("dielectric always continues");
    assert_eq!(next.direction, d);
    assert_eq!(sd.color, Color { r: S, g: S, b: S, a: S });
}

#[test]
fn ray_color_empty_world_is_background() {
    let world = World::new(vec![], vec![]);
    let mut rng = Random::new();
    let ray = Ray::new(Vec3::new(0, 0, 0), Vec3::new(0, 0, -S));
    let c = ray_color(&ray, &world, &mut rng, 8);
    // t = 0.5, so the gradient sits halfway between white and sky blue
    assert_eq!(c, Color { r: 49152, g: 55705, b: S, a: S });
}

#[test]
fn ray_color_zero_depth_is_black() {
    let sphere = Sphere { center: Vec3::new(0, 0, -S), radius: S / 2, material: gray() };
    let world = World::new(vec![sphere], vec![]);
    let mut rng = Random::new();
    let ray = Ray::new(Vec3::new(0, 0, 0), Vec3::new(0, 0, -S));
    let c = ray_color(&ray, &world, &mut rng, 0);
    assert_eq!(c, Color { r: 0, g: 0, b: 0, a: S });
}

#[test]
fn render_single_sphere_deterministic() {
    let sphere = Sphere { center: Vec3::new(0, 0, -S), radius: S / 2, material: gray() };
    let world = World::new(vec![sphere], vec![Mesh::new(vec![])]);
    let camera = Camera::new_at(Vec3::new(0, 0, 0), S);
    let options = Options::new(1, 1, true);
    let first = ray_trace(&world, &camera, Framebuffer::new(2, 2), &options);
    let second = ray_trace(&world, &camera, Framebuffer::new(2, 2), &options);
    assert_eq!(first.pixels, second.pixels);
    assert_eq!(first.pixels.len(), 4);
    for p in &first.pixels {
        assert_eq!(p.a, 255);
    }
}

#[test]
fn framebuffer_pixels() {
    let mut fb = Framebuffer::new(3, 2);
    assert_eq!(fb.pixel(1, 2), ColorU8 { r: 0, g: 0, b: 0, a: 0 });
    fb.set_pixel(1, 2, ColorU8 { r: 9, g: 8, b: 7, a: 6 });
    assert_eq!(fb.pixel(1, 2), ColorU8 { r: 9, g: 8, b: 7, a: 6 });
    assert_eq!(fb.pixel(0, 0), ColorU8 { r: 0, g: 0, b: 0, a: 0 });
}

#[test]
fn parser_leaf_functions() {
    let src = b"  hello_9 world";
    assert_eq!(skip_whitespace(src, 0), 2);
    assert_eq!(get_identifier(src, 2), 9);
    assert_eq!(starts_with(src, 2, b"hello"), Ok(7));
    assert_eq!(starts_with(src, 0, b"hello"), Err(ParseError::DidntStartWith));
    assert_eq!(find(src, 0, b"world"), Ok(10));
    assert_eq!(find(src, 0, b"zzz"), Err(ParseError::DidntStartWith));
}

#[test]
fn parse_int_values() {
    assert_eq!(parse_int(b"123;", 0), Ok((3, 123)));
    assert_eq!(parse_int(b"0", 0), Ok((1, 0)));
    assert_eq!(parse_int(b"abc", 0), Err(ParseError::NotAI32));
    assert_eq!(parse_int(b"99999999999", 0), Err(ParseError::NotAI32));
}

#[test]
fn parse_float_values() {
    assert_eq!(parse_float(b"1.25 ", 0), Ok((4, 81920)));
    assert_eq!(parse_float(b"-0.5 ", 0), Ok((4, -32768)));
    assert_eq!(parse_float(b"2.0 ", 0), Ok((3, 131072)));
    assert_eq!(parse_float(b"1..2", 0), Err(ParseError::NotAF32));
    assert_eq!(parse_float(b"abcd", 0), Err(ParseError::NotAF32));
}

#[test]
fn parse_comments() {
    let src = b"// a comment\nrest";
    assert_eq!(skip_comment(src, 0), Ok(13));
}

#[test]
fn parse_minimal_scene_round_trip() {
    let src = b"camera origin 0.0 1.0 0.0 aspect 1.0 ;\n\
material gray : Diffuse color 0.5 0.5 0.5 ;\n\
sphere center 0.0 0.0 -1.0 radius 0.5 material gray ;\n";
    let (camera, spheres, mesh) = parse_input(src).expect("scene must parse");
    assert_eq!(camera.origin, Vec3::new(0, S, 0));
    // aspect 1.0: the horizontal span is exactly two units wide
    assert_eq!(camera.horizontal, Vec3::new(2 * S, 0, 0));
    assert_eq!(spheres.len(), 1);
    assert_eq!(spheres[0].center, Vec3::new(0, 0, -S));
    assert_eq!(spheres[0].radius, S / 2);
    assert_eq!(spheres[0].material, gray());
    assert_eq!(mesh.triangles.len(), 0);
}

#[test]
fn parse_scene_errors() {
    assert_eq!(
        parse_input(b"material gray : Diffuse color 0.5 0.5 0.5 ;").unwrap_err(),
        ParseError::MissingCamera
    );
    assert_eq!(
        parse_input(b"camera origin 0.0 0.0 0.0 aspect 1.0 ;\njunk").unwrap_err(),
        ParseError::WrongSyntax
    );
    // zero-radius spheres are rejected at scene construction
    assert_eq!(
        parse_input(
            b"camera origin 0.0 0.0 0.0 aspect 1.0 ;\n\
material gray : Diffuse color 0.5 0.5 0.5 ;\n\
sphere center 0.0 0.0 -1.0 radius 0.0 material gray ;\n"
        )
        .unwrap_err(),
        ParseError::WrongSyntax
    );
    assert_eq!(
        parse_input(b"camera origin 0.0 0.0 0.0 aspect bad ;").unwrap_err(),
        ParseError::NotAF32
    );
}
