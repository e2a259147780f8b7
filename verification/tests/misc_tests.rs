use dystopia_core::assets::manifest::Manifest;
use dystopia_core::body::quantify::{
    AtmosphericDensity, Density, Illuminance, Metallicity, Moisture, Temperature,
};
use dystopia_core::cosmos::celestial::{BodyIndex, OrbitIndex, System};
use dystopia_core::cosmos::config::CosmosStarNamesConfig;
use dystopia_core::schedule::signal::InitializationSignal;

#[test]
fn quantify_variants_by_number() {
    assert_eq!(Temperature::try_from_primitive(0), Some(Temperature::Freezing));
    assert_eq!(Temperature::try_from_primitive(4), Some(Temperature::Boiling));
    assert_eq!(Temperature::try_from_primitive(5), None);
    assert_eq!(Temperature::Hot.index(), 3);
    assert_eq!(Moisture::try_from_primitive(3), Some(Moisture::Saturated));
    assert_eq!(Moisture::try_from_primitive(4), None);
    assert_eq!(Metallicity::try_from_primitive(2), Some(Metallicity::Moderate));
    assert_eq!(Metallicity::Pure.index(), 4);
    assert_eq!(Density::try_from_primitive(4), Some(Density::Degenerate));
    assert_eq!(Density::try_from_primitive(usize::MAX), None);
    assert_eq!(Illuminance::try_from_primitive(2), Some(Illuminance::Bright));
    assert_eq!(Illuminance::try_from_primitive(3), None);
    assert_eq!(AtmosphericDensity::try_from_primitive(1), Some(AtmosphericDensity::Moderate));
    assert_eq!(AtmosphericDensity::Thick.index(), 2);
}

#[test]
fn quantify_index_roundtrip() {
    for n in 0..5 {
        assert_eq!(Temperature::try_from_primitive(n).unwrap().index(), n);
        assert_eq!(Density::try_from_primitive(n).unwrap().index(), n);
    }
}

#[test]
fn manifest_counts_distinct_names() {
    let m = Manifest::new(vec!["a".to_string(), "b".to_string(), "a".to_string()]);
    assert_eq!(m.total(), 2);
    assert!(m.is_pending("a"));
    assert!(m.is_pending("b"));
    assert!(!m.is_pending("c"));
    assert!(!m.is_finished());
}

#[test]
fn manifest_finishes_when_everything_is_loaded() {
    let mut m = Manifest::new(vec!["stars".to_string(), "names".to_string()]);
    m.finish("stars");
    assert!(!m.is_pending("stars"));
    assert!(!m.is_finished());
    m.finish("unknown");
    assert!(!m.is_finished());
    m.add("extra");
    assert_eq!(m.total(), 3);
    m.finish("names");
    m.finish("extra");
    assert!(m.is_finished());
    assert_eq!(m.total(), 3);
}

#[test]
fn empty_manifest_is_finished() {
    let m = Manifest::new(vec![]);
    assert_eq!(m.total(), 0);
    assert!(m.is_finished());
}

#[test]
fn cosmos_generation_is_claimed_once() {
    let mut s = InitializationSignal::default();
    assert!(s.begin_cosmos_generation());
    assert!(s.cosmos_initialized);
    assert!(!s.gardens_initialized);
    assert!(!s.begin_cosmos_generation());
    assert!(s.cosmos_initialized);
}

#[test]
fn indices_and_systems() {
    assert_eq!(BodyIndex::new(7).get(), 7);
    assert_eq!(OrbitIndex::new(3).get(), 3);
    let s = System::new(vec![BodyIndex::new(1), BodyIndex::new(4)]);
    assert_eq!(s.bodies(), &vec![BodyIndex::new(1), BodyIndex::new(4)]);
    let c = CosmosStarNamesConfig::new(vec!["Sol".to_string()]);
    assert_eq!(c.names(), &vec!["Sol".to_string()]);
}

use dystopia_core::cosmos::celestial::{BodyType, StarClass, StarType};
use dystopia_core::cosmos::gen::{body_layout, orbit_centers, BodyKind, PlanetLayout, StarLayout};

#[test]
fn bodies_spawn_depth_first_with_numbered_children() {
    let stars = vec![
        StarLayout {
            name: "Sol".to_string(),
            class: StarClass { ty: StarType::G, sub_ty: 2, index: 30 },
            planets: vec![
                PlanetLayout { ty: BodyType::Rocky, num_moons: 2 },
                PlanetLayout { ty: BodyType::GasGiant, num_moons: 0 },
            ],
        },
        StarLayout { name: "Vega".to_string(), class: StarClass { ty: StarType::A, sub_ty: 0, index: 12 }, planets: vec![PlanetLayout { ty: BodyType::IceGiant, num_moons: 1 }] },
        StarLayout { name: "Lone".to_string(), class: StarClass { ty: StarType::M, sub_ty: 5, index: 60 }, planets: vec![] },
    ];
    let (bodies, stats) = body_layout(&stars);
    assert_eq!(stats.num_stars, 3);
    assert_eq!(stats.num_planets, 3);
    assert_eq!(stats.num_moons, 3);
    assert_eq!(bodies.len(), 9);
    for (i, b) in bodies.iter().enumerate() {
        assert_eq!(b.index.get(), i);
    }
    let names: Vec<&str> = bodies.iter().map(|b| b.name.as_str()).collect();
    assert_eq!(names, vec!["Sol", "Sol 0", "Sol 1", "Sol 2", "Sol 3", "Vega", "Vega 0", "Vega 1", "Lone"]);
    assert_eq!(bodies[0].kind, BodyKind::Star { ty: StarType::G });
    assert_eq!(bodies[5].kind, BodyKind::Star { ty: StarType::A });
    assert_eq!(bodies[8].kind, BodyKind::Star { ty: StarType::M });
    assert_eq!(bodies[1].kind, BodyKind::Planet { ty: BodyType::Rocky, planet: 0 });
    assert_eq!(bodies[2].kind, BodyKind::Moon { ty: BodyType::Rocky, planet: 0, moon: 0 });
    assert_eq!(bodies[3].kind, BodyKind::Moon { ty: BodyType::Rocky, planet: 0, moon: 1 });
    assert_eq!(bodies[4].kind, BodyKind::Planet { ty: BodyType::GasGiant, planet: 1 });
    assert_eq!(bodies[6].kind, BodyKind::Planet { ty: BodyType::IceGiant, planet: 0 });
    assert_eq!(bodies[7].kind, BodyKind::Moon { ty: BodyType::Rocky, planet: 0, moon: 0 });
    assert_eq!(bodies[7].star, 1);
    assert_eq!(bodies[8].star, 2);
}

#[test]
fn no_stars_no_bodies() {
    let (bodies, stats) = body_layout(&vec![]);
    assert!(bodies.is_empty());
    assert_eq!((stats.num_stars, stats.num_planets, stats.num_moons), (0, 0, 0));
}

#[test]
fn children_past_nine_get_two_digits() {
    let stars = vec![StarLayout {
        name: "Big".to_string(),
        class: StarClass { ty: StarType::K, sub_ty: 1, index: 40 },
        planets: vec![PlanetLayout { ty: BodyType::Rocky, num_moons: 11 }],
    }];
    let (bodies, _) = body_layout(&stars);
    assert_eq!(bodies.len(), 13);
    assert_eq!(bodies[12].name, "Big 11");
}

use dystopia_core::cosmos::gen::{draw_names_at, draw_star_names};
use rand::{rngs::StdRng, SeedableRng};

fn names(v: &[&str]) -> Vec<String> {
    v.iter().map(|s| s.to_string()).collect()
}

#[test]
fn names_are_drawn_by_swap_removal() {
    let pool = names(&["a", "b", "c", "d"]);
    // Take "b" (d moves into its place), then position 1 again: "d".
    assert_eq!(draw_names_at(&pool, &vec![1, 1]), names(&["b", "d"]));
    assert_eq!(draw_names_at(&pool, &vec![3, 0, 0, 0]), names(&["d", "a", "c", "b"]));
    assert!(draw_names_at(&pool, &vec![]).is_empty());
}

#[test]
fn repeated_names_are_in_the_pool_once() {
    let pool = names(&["a", "b", "a", "c", "b"]);
    // The pool is a, b, c.
    assert_eq!(draw_names_at(&pool, &vec![2, 0, 0]), names(&["c", "a", "b"]));
}

#[test]
fn random_names_are_distinct_names_of_the_pool() {
    let pool = names(&["Sol", "Vega", "Rigel", "Deneb", "Vega"]);
    let mut rng = StdRng::seed_from_u64(2);
    let drawn = draw_star_names(&mut rng, &pool, 4);
    assert_eq!(drawn.len(), 4);
    for (i, n) in drawn.iter().enumerate() {
        assert!(pool.contains(n));
        assert!(!drawn[i + 1..].contains(n));
    }
}

use dystopia_core::body::QuantifiedBody;

#[test]
fn default_quantified_body() {
    let b = QuantifiedBody::default();
    assert_eq!(b.temperature, Temperature::Cold);
    assert_eq!(b.moisture, Moisture::Dry);
    assert_eq!(b.metallicity, Metallicity::Trace);
    assert_eq!(b.density, Density::Diffuse);
    assert_eq!(b.illuminance, Illuminance::Faint);
    assert_eq!(b.atmospheric_density, AtmosphericDensity::Sparse);
}

fn star(name: &str, planets: Vec<PlanetLayout>) -> StarLayout {
    StarLayout { name: name.to_string(), class: StarClass { ty: StarType::G, sub_ty: 0, index: 0 }, planets }
}

#[test]
fn orbit_centers_count_planets_and_moons_only() {
    let stars = vec![
        star(
            "A",
            vec![
                PlanetLayout { ty: BodyType::Rocky, num_moons: 2 },
                PlanetLayout { ty: BodyType::GasGiant, num_moons: 1 },
            ],
        ),
        star("B", vec![PlanetLayout { ty: BodyType::IceGiant, num_moons: 1 }]),
    ];
    // A, A0, A0's moons, A1, A1's moon, B, B0, B0's moon.
    assert_eq!(orbit_centers(&stars), vec![0, 0, 0, 0, 0, 3, 0, 5, 5]);
    assert_eq!(orbit_centers(&stars).len(), body_layout(&stars).0.len());
    assert!(orbit_centers(&vec![]).is_empty());
}
