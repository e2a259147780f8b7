//! The order in which the bodies of a generated cosmos are spawned, the
//! names they get and the counts of each kind.

use vstd::prelude::*;

use crate::cosmos::celestial::{BodyIndex, BodyType, StarClass, StarType};
use crate::map::serde::{decimal, usize_to_decimal};
use vstd::string::StringExecFns;
use rand::rngs::StdRng;

verus! {

/// How many bodies of each kind a cosmos has.
#[derive(Debug, Default, Clone, Copy, PartialEq, Eq, Structural)]
pub struct CosmosBodiesStatistics {
    pub num_stars: u32,
    pub num_planets: u32,
    pub num_moons: u32,
}

/// A generated planet as far as spawning it goes: its type and how many
/// moons orbit it.
#[derive(Debug, Clone, Copy, PartialEq, Eq, Structural)]
pub struct PlanetLayout {
    pub ty: BodyType,
    pub num_moons: usize,
}

/// A generated star as far as spawning it goes: its name, its class and
/// its planets.
#[derive(Debug, Clone)]
pub struct StarLayout {
    pub name: String,
    pub class: StarClass,
    pub planets: Vec<PlanetLayout>,
}

/// What a spawned body is, with the type it is spawned with, and which
/// generated body it comes from: the planet's position among its star's
/// planets, the moon's among its planet's moons.
#[derive(Debug, Clone, Copy, PartialEq, Eq, Structural)]
pub enum BodyKind {
    Star { ty: StarType },
    Planet { ty: BodyType, planet: usize },
    Moon { ty: BodyType, planet: usize, moon: usize },
}

/// One spawned body: its index, what it is, its name and the position of
/// its star among the generated stars.
#[derive(Debug, Clone)]
pub struct SpawnedBody {
    pub index: BodyIndex,
    pub kind: BodyKind,
    pub name: String,
    pub star: usize,
}

/// The children of a star in spawning order: each planet with its own
/// type, followed by its moons, every moon rocky.
pub open spec fn star_children(planets: Seq<PlanetLayout>) -> Seq<BodyKind>
    decreases planets.len(),
{
    if planets.len() == 0 {
        Seq::empty()
    } else {
        let j = planets.len() - 1;
        star_children(planets.drop_last()).push(BodyKind::Planet { ty: planets[j].ty, planet: j as usize })
            + Seq::new(
            planets[j].num_moons as nat,
            |k: int| BodyKind::Moon { ty: BodyType::Rocky, planet: j as usize, moon: k as usize },
        )
    }
}

/// The name of the child numbered `c` of the star named `star`.
pub open spec fn child_name(star: Seq<char>, c: nat) -> Seq<char> {
    star + seq![' '] + decimal(c)
}

/// The bodies that the star numbered `si`, named `name`, of star type `ty`,
/// spawns: itself with that type, then its children, numbered from zero in
/// spawning order.
pub open spec fn star_block(si: int, name: Seq<char>, ty: StarType, planets: Seq<PlanetLayout>) -> Seq<
    (BodyKind, Seq<char>, int),
> {
    let children = star_children(planets);
    seq![(BodyKind::Star { ty }, name, si)] + Seq::new(
        children.len(),
        |c: int| (children[c], child_name(name, c as nat), si),
    )
}

/// Every body that the stars spawn, in spawning order, as its kind, name
/// and star.
pub open spec fn cosmos_layout(stars: Seq<(Seq<char>, Seq<PlanetLayout>, StarType)>) -> Seq<
    (BodyKind, Seq<char>, int),
>
    decreases stars.len(),
{
    if stars.len() == 0 {
        Seq::empty()
    } else {
        cosmos_layout(stars.drop_last()) + star_block(
            stars.len() - 1,
            stars.last().0,
            stars.last().2,
            stars.last().1,
        )
    }
}

/// How many moons the planets have in all.
pub open spec fn total_moons_of(planets: Seq<PlanetLayout>) -> nat
    decreases planets.len(),
{
    if planets.len() == 0 {
        0
    } else {
        total_moons_of(planets.drop_last()) + planets.last().num_moons as nat
    }
}

/// How many planets the stars have in all.
pub open spec fn total_planets(stars: Seq<(Seq<char>, Seq<PlanetLayout>, StarType)>) -> nat
    decreases stars.len(),
{
    if stars.len() == 0 {
        0
    } else {
        total_planets(stars.drop_last()) + stars.last().1.len()
    }
}

/// How many moons the stars have in all.
pub open spec fn total_moons(stars: Seq<(Seq<char>, Seq<PlanetLayout>, StarType)>) -> nat
    decreases stars.len(),
{
    if stars.len() == 0 {
        0
    } else {
        total_moons(stars.drop_last()) + total_moons_of(stars.last().1)
    }
}

/// The stars as names, planets and star types.
pub open spec fn stars_view(stars: Seq<StarLayout>) -> Seq<(Seq<char>, Seq<PlanetLayout>, StarType)> {
    stars.map_values(|s: StarLayout| (s.name@, s.planets@, s.class.ty))
}

/// A spawned body as its kind, name and star.
pub open spec fn spawned_view(b: SpawnedBody) -> (BodyKind, Seq<char>, int) {
    (b.kind, b.name@, b.star as int)
}

proof fn lemma_children_len(planets: Seq<PlanetLayout>)
    ensures
        star_children(planets).len() == planets.len() + total_moons_of(planets),
    decreases planets.len(),
{
    if planets.len() > 0 {
        lemma_children_len(planets.drop_last());
    }
}

proof fn lemma_totals_grow(stars: Seq<(Seq<char>, Seq<PlanetLayout>, StarType)>, i: int)
    requires
        0 <= i <= stars.len(),
    ensures
        total_planets(stars.take(i)) <= total_planets(stars),
        total_moons(stars.take(i)) <= total_moons(stars),
    decreases stars.len(),
{
    if i < stars.len() {
        lemma_totals_grow(stars.drop_last(), i);
        assert(stars.drop_last().take(i) =~= stars.take(i));
    } else {
        assert(stars.take(i) =~= stars);
    }
}

proof fn lemma_moons_grow(planets: Seq<PlanetLayout>, j: int)
    requires
        0 <= j <= planets.len(),
    ensures
        total_moons_of(planets.take(j)) <= total_moons_of(planets),
    decreases planets.len(),
{
    if j < planets.len() {
        lemma_moons_grow(planets.drop_last(), j);
        assert(planets.drop_last().take(j) =~= planets.take(j));
    } else {
        assert(planets.take(j) =~= planets);
    }
}

proof fn lemma_layout_len(stars: Seq<(Seq<char>, Seq<PlanetLayout>, StarType)>)
    ensures
        cosmos_layout(stars).len() == stars.len() + total_planets(stars) + total_moons(stars),
    decreases stars.len(),
{
    if stars.len() > 0 {
        lemma_layout_len(stars.drop_last());
        lemma_children_len(stars.last().1);
    }
}

/// The name of the child numbered `c` of the star named `star`.
fn make_child_name(star: &String, c: usize) -> (r: String)
    ensures
        r@ == child_name(star@, c as nat),
{
    proof {
        reveal_strlit(" ");
    }
    let d = usize_to_decimal(c);
    let r = star.clone().concat(" ").concat(d.as_str());
    assert(r@ =~= star@ + seq![' '] + decimal(c as nat));
    r
}

/// Spawns the children of one star after the bodies already in `bodies`.
fn push_star_children(
    bodies: &mut Vec<SpawnedBody>,
    stats: &mut CosmosBodiesStatistics,
    si: usize,
    star: &StarLayout,
)
    requires
        old(stats).num_planets + star.planets@.len() <= u32::MAX,
        old(stats).num_moons + total_moons_of(star.planets@) <= u32::MAX,
        forall|i: int| 0 <= i < old(bodies)@.len() ==> (#[trigger] old(bodies)@[i]).index@ == i,
    ensures
        final(bodies)@.len() == old(bodies)@.len() + star_children(star.planets@).len(),
        forall|i: int| 0 <= i < final(bodies)@.len() ==> (#[trigger] final(bodies)@[i]).index@ == i,
        forall|i: int| 0 <= i < old(bodies)@.len() ==> #[trigger] final(bodies)@[i] == old(bodies)@[i],
        forall|c: int|
            0 <= c < star_children(star.planets@).len() ==> spawned_view(
                #[trigger] final(bodies)@[old(bodies)@.len() + c],
            ) == (star_children(star.planets@)[c], child_name(star.name@, c as nat), si as int),
        final(stats).num_stars == old(stats).num_stars,
        final(stats).num_planets == old(stats).num_planets + star.planets@.len(),
        final(stats).num_moons == old(stats).num_moons + total_moons_of(star.planets@),
{
    let base0 = bodies.len();
    let ghost base = old(bodies)@.len();
    let ghost ps = star.planets@;
    let mut c: usize = 0;
    let mut pj: usize = 0;
    proof {
        lemma_children_len(ps);
    }
    while pj < star.planets.len()
        invariant
            pj <= ps.len(),
            ps == star.planets@,
            c == star_children(ps.take(pj as int)).len(),
            bodies@.len() == base + c,
            base == old(bodies)@.len(),
            base0 == base,
            star_children(ps).len() == ps.len() + total_moons_of(ps),
            stats.num_stars == old(stats).num_stars,
            stats.num_planets == old(stats).num_planets + pj,
            stats.num_moons == old(stats).num_moons + total_moons_of(ps.take(pj as int)),
            old(stats).num_planets + ps.len() <= u32::MAX,
            old(stats).num_moons + total_moons_of(ps) <= u32::MAX,
            forall|i: int| 0 <= i < bodies@.len() ==> (#[trigger] bodies@[i]).index@ == i,
            forall|i: int| 0 <= i < base ==> #[trigger] bodies@[i] == old(bodies)@[i],
            forall|k: int|
                0 <= k < c ==> spawned_view(#[trigger] bodies@[base + k]) == (
                    star_children(ps.take(pj as int))[k],
                    child_name(star.name@, k as nat),
                    si as int,
                ),
        decreases ps.len() - pj,
    {
        let p = star.planets[pj];
        let ghost before = ps.take(pj as int);
        let ghost after = ps.take(pj + 1);
        proof {
            assert(after.drop_last() =~= before);
            lemma_children_len(before);
            lemma_children_len(after);
            lemma_children_len(ps);
            lemma_moons_grow(ps, pj + 1);
        }
        let name = make_child_name(&star.name, c);
        let idx = bodies.len();
        bodies.push(SpawnedBody {
            index: BodyIndex::new(idx),
            kind: BodyKind::Planet { ty: p.ty, planet: pj },
            name,
            star: si,
        });
        stats.num_planets = stats.num_planets + 1;
        c = bodies.len() - base0;
        let ghost planet_prefix = star_children(before).push(BodyKind::Planet { ty: p.ty, planet: pj });
        assert(forall|k: int|
            0 <= k < c ==> spawned_view(#[trigger] bodies@[base + k]) == (
                planet_prefix[k],
                child_name(star.name@, k as nat),
                si as int,
            ));
        let mut mk: usize = 0;
        while mk < p.num_moons
            invariant
                mk <= p.num_moons,
                p == ps[pj as int],
                pj < ps.len(),
                ps == star.planets@,
                after == ps.take(pj + 1),
                after.drop_last() == before,
                planet_prefix == star_children(before).push(BodyKind::Planet { ty: p.ty, planet: pj }),
                c == planet_prefix.len() + mk,
                bodies@.len() == base + c,
                base == old(bodies)@.len(),
                base0 == base,
                star_children(after).len() == after.len() + total_moons_of(after),
                total_moons_of(after) <= total_moons_of(ps),
                stats.num_stars == old(stats).num_stars,
                stats.num_planets == old(stats).num_planets + pj + 1,
                stats.num_moons == old(stats).num_moons + total_moons_of(before) + mk,
                old(stats).num_moons + total_moons_of(ps) <= u32::MAX,
                star_children(before).len() == before.len() + total_moons_of(before),
                forall|i: int| 0 <= i < bodies@.len() ==> (#[trigger] bodies@[i]).index@ == i,
                forall|i: int| 0 <= i < base ==> #[trigger] bodies@[i] == old(bodies)@[i],
                forall|k: int|
                    0 <= k < c ==> spawned_view(#[trigger] bodies@[base + k]) == (
                        (planet_prefix + Seq::new(
                            mk as nat,
                            |m: int| BodyKind::Moon { ty: BodyType::Rocky, planet: pj, moon: m as usize },
                        ))[k],
                        child_name(star.name@, k as nat),
                        si as int,
                    ),
            decreases p.num_moons - mk,
        {
            let name = make_child_name(&star.name, c);
            let idx = bodies.len();
            bodies.push(SpawnedBody {
                index: BodyIndex::new(idx),
                kind: BodyKind::Moon { ty: BodyType::Rocky, planet: pj, moon: mk },
                name,
                star: si,
            });
            stats.num_moons = stats.num_moons + 1;
            c = bodies.len() - base0;
            mk = mk + 1;
            proof {
                let s_old = planet_prefix + Seq::new(
                    (mk - 1) as nat,
                    |m: int| BodyKind::Moon { ty: BodyType::Rocky, planet: pj, moon: m as usize },
                );
                let s_new = planet_prefix + Seq::new(
                    mk as nat,
                    |m: int| BodyKind::Moon { ty: BodyType::Rocky, planet: pj, moon: m as usize },
                );
                assert forall|k: int| 0 <= k < c implies spawned_view(#[trigger] bodies@[base + k]) == (
                    s_new[k],
                    child_name(star.name@, k as nat),
                    si as int,
                ) by {
                    if k < c - 1 {
                        assert(s_new[k] == s_old[k]);
                    }
                }
            }
        }
        proof {
            assert(star_children(after) =~= planet_prefix + Seq::new(
                p.num_moons as nat,
                |m: int| BodyKind::Moon { ty: BodyType::Rocky, planet: pj, moon: m as usize },
            ));
        }
        pj = pj + 1;
    }
    proof {
        assert(ps.take(ps.len() as int) =~= ps);
    }
}

/// The bodies that the generated stars spawn, in spawning order: each star,
/// then its planets, each followed by its moons. A star is spawned with the
/// star type of its class, a planet with its own body type, a moon as a
/// rocky body. A body's index is its
/// position in that order; a star keeps its name and its children are named
/// after it, `"<star> <n>"`, numbered from zero in that order. Alongside, the
/// number of bodies of each kind.
pub fn body_layout(stars: &Vec<StarLayout>) -> (r: (Vec<SpawnedBody>, CosmosBodiesStatistics))
    requires
        stars@.len() <= u32::MAX,
        total_planets(stars_view(stars@)) <= u32::MAX,
        total_moons(stars_view(stars@)) <= u32::MAX,
    ensures
        r.0@.len() == cosmos_layout(stars_view(stars@)).len(),
        forall|i: int|
            0 <= i < r.0@.len() ==> (#[trigger] r.0@[i]).index@ == i && spawned_view(r.0@[i])
                == cosmos_layout(stars_view(stars@))[i],
        r.1.num_stars == stars@.len(),
        r.1.num_planets == total_planets(stars_view(stars@)),
        r.1.num_moons == total_moons(stars_view(stars@)),
        r.0@.len() == r.1.num_stars + r.1.num_planets + r.1.num_moons,
{
    let ghost sv = stars_view(stars@);
    let mut bodies: Vec<SpawnedBody> = Vec::new();
    let mut stats = CosmosBodiesStatistics { num_stars: 0, num_planets: 0, num_moons: 0 };
    let mut si: usize = 0;
    while si < stars.len()
        invariant
            si <= stars@.len(),
            sv == stars_view(stars@),
            stars@.len() <= u32::MAX,
            total_planets(sv) <= u32::MAX,
            total_moons(sv) <= u32::MAX,
            bodies@.len() == cosmos_layout(sv.take(si as int)).len(),
            forall|i: int|
                0 <= i < bodies@.len() ==> (#[trigger] bodies@[i]).index@ == i && spawned_view(bodies@[i])
                    == cosmos_layout(sv.take(si as int))[i],
            stats.num_stars == si,
            stats.num_planets == total_planets(sv.take(si as int)),
            stats.num_moons == total_moons(sv.take(si as int)),
        decreases stars@.len() - si,
    {
        let star = &stars[si];
        let ghost before = sv.take(si as int);
        let ghost after = sv.take(si + 1);
        proof {
            assert(after.drop_last() =~= before);
            assert(after.last() == (star.name@, star.planets@, star.class.ty));
            lemma_totals_grow(sv, si + 1);
        }
        let ghost prev = bodies@;
        let idx = bodies.len();
        bodies.push(SpawnedBody { index: BodyIndex::new(idx), kind: BodyKind::Star { ty: star.class.ty }, name: star.name.clone(), star: si });
        stats.num_stars = stats.num_stars + 1;
        let ghost with_star = bodies@;
        push_star_children(&mut bodies, &mut stats, si, star);
        proof {
            let block = star_block(si as int, star.name@, star.class.ty, star.planets@);
            assert(cosmos_layout(after) =~= cosmos_layout(before) + block);
            assert forall|i: int|
                0 <= i < bodies@.len() implies (#[trigger] bodies@[i]).index@ == i && spawned_view(bodies@[i])
                    == cosmos_layout(after)[i] by {
                if i < prev.len() {
                    assert(bodies@[i] == with_star[i]);
                    assert(with_star[i] == prev[i]);
                } else if i == prev.len() {
                    assert(bodies@[i] == with_star[i]);
                } else {
                    let c = i - prev.len() - 1;
                    assert(bodies@[with_star.len() + c] == bodies@[i]);
                }
            }
        }
        si = si + 1;
    }
    proof {
        assert(sv.take(stars@.len() as int) =~= sv);
        lemma_layout_len(sv);
    }
    (bodies, stats)
}

/// The names, by their characters.
pub open spec fn names_view(names: Seq<String>) -> Seq<Seq<char>> {
    names.map_values(|s: String| s@)
}

/// The orbit centres of a star's children, in spawning order, where `base`
/// is the count the star starts from: each planet is centred on `base`, and
/// each moon on the count at which its planet was reached (`base` plus the
/// children before that planet).
pub open spec fn children_centers(base: int, planets: Seq<PlanetLayout>) -> Seq<usize>
    decreases planets.len(),
{
    if planets.len() == 0 {
        Seq::empty()
    } else {
        let c = star_children(planets.drop_last()).len();
        children_centers(base, planets.drop_last()).push(base as usize) + Seq::new(
            planets.last().num_moons as nat,
            |k: int| (base + c) as usize,
        )
    }
}

/// How many planets and moons the stars have in all: the count that runs
/// over the children of the stars.
pub open spec fn total_children(stars: Seq<(Seq<char>, Seq<PlanetLayout>, StarType)>) -> nat {
    total_planets(stars) + total_moons(stars)
}

/// The orbit centre of every body, in spawning order, as the generated
/// orbits hold it: a star's orbit keeps the default centre `0`; the count
/// runs over planets and moons only, each star's children starting from the
/// count its star was reached at.
pub open spec fn cosmos_orbit_centers(stars: Seq<(Seq<char>, Seq<PlanetLayout>, StarType)>) -> Seq<usize>
    decreases stars.len(),
{
    if stars.len() == 0 {
        Seq::empty()
    } else {
        cosmos_orbit_centers(stars.drop_last()) + seq![0usize] + children_centers(
            total_children(stars.drop_last()) as int,
            stars.last().1,
        )
    }
}

proof fn lemma_children_centers_len(base: int, planets: Seq<PlanetLayout>)
    ensures
        children_centers(base, planets).len() == star_children(planets).len(),
    decreases planets.len(),
{
    if planets.len() > 0 {
        lemma_children_centers_len(base, planets.drop_last());
    }
}

proof fn lemma_orbit_centers_len(stars: Seq<(Seq<char>, Seq<PlanetLayout>, StarType)>)
    ensures
        cosmos_orbit_centers(stars).len() == cosmos_layout(stars).len(),
    decreases stars.len(),
{
    if stars.len() > 0 {
        lemma_orbit_centers_len(stars.drop_last());
        lemma_children_centers_len(total_children(stars.drop_last()) as int, stars.last().1);
    }
}

/// The orbit centre of every body that the stars spawn, one per body in
/// spawning order, as the generation of orbits sets it: `0` for a star, for
/// a planet the count of planets and moons of the stars before its star,
/// and for a moon that count at its planet. The count runs over planets and
/// moons alone, so it stands for a body index only in the first star system.
pub fn orbit_centers(stars: &Vec<StarLayout>) -> (r: Vec<usize>)
    requires
        total_children(stars_view(stars@)) <= usize::MAX,
    ensures
        r@ == cosmos_orbit_centers(stars_view(stars@)),
        r@.len() == cosmos_layout(stars_view(stars@)).len(),
{
    let ghost sv = stars_view(stars@);
    let mut r: Vec<usize> = Vec::new();
    let mut cur: usize = 0;
    let mut si: usize = 0;
    while si < stars.len()
        invariant
            si <= stars@.len(),
            sv == stars_view(stars@),
            total_children(sv) <= usize::MAX,
            r@ == cosmos_orbit_centers(sv.take(si as int)),
            cur == total_children(sv.take(si as int)),
        decreases stars@.len() - si,
    {
        let star = &stars[si];
        let ghost before = sv.take(si as int);
        let ghost after = sv.take(si + 1);
        let ghost ps = star.planets@;
        proof {
            assert(after.drop_last() =~= before);
            assert(after.last() == (star.name@, star.planets@, star.class.ty));
            lemma_totals_grow(sv, si + 1);
            lemma_children_len(ps);
        }
        let i_star = cur;
        r.push(0);
        let ghost head = r@;
        let mut pj: usize = 0;
        while pj < star.planets.len()
            invariant
                pj <= ps.len(),
                ps == star.planets@,
                i_star == total_children(before),
                total_children(before) + star_children(ps).len() <= usize::MAX,
                star_children(ps).len() == ps.len() + total_moons_of(ps),
                cur == i_star + star_children(ps.take(pj as int)).len(),
                head == cosmos_orbit_centers(before) + seq![0usize],
                r@ == head + children_centers(i_star as int, ps.take(pj as int)),
            decreases ps.len() - pj,
        {
            let p = star.planets[pj];
            let ghost pb = ps.take(pj as int);
            let ghost pa = ps.take(pj + 1);
            proof {
                assert(pa.drop_last() =~= pb);
                lemma_children_len(pb);
                lemma_children_len(pa);
                lemma_moons_grow(ps, pj + 1);
                assert(star_children(pa).len() == pb.len() + 1 + total_moons_of(pb) + p.num_moons);
            }
            let i_planet = cur;
            r.push(i_star);
            cur = cur + 1;
            let ghost with_planet = r@;
            let mut mk: usize = 0;
            while mk < p.num_moons
                invariant
                    mk <= p.num_moons,
                    i_planet == i_star + star_children(pb).len(),
                    cur == i_planet + 1 + mk,
                    cur + (p.num_moons - mk) <= i_star + star_children(pa).len(),
                    i_star + star_children(pa).len() <= usize::MAX,
                    r@ == with_planet + Seq::new(mk as nat, |k: int| i_planet),
                decreases p.num_moons - mk,
            {
                r.push(i_planet);
                cur = cur + 1;
                mk = mk + 1;
                assert(r@ =~= with_planet + Seq::new(mk as nat, |k: int| i_planet));
            }
            proof {
                lemma_star_children_prefix_len(ps, pj as int);
                assert(children_centers(i_star as int, pa) =~= children_centers(i_star as int, pb).push(
                    i_star,
                ) + Seq::new(p.num_moons as nat, |k: int| ((i_star as int) + star_children(pb).len()) as usize));
                assert(r@ =~= head + children_centers(i_star as int, pa));
            }
            pj = pj + 1;
        }
        proof {
            assert(ps.take(ps.len() as int) =~= ps);
            assert(cosmos_orbit_centers(after) =~= cosmos_orbit_centers(before) + seq![0usize] + children_centers(
                total_children(before) as int,
                ps,
            ));
            assert(r@ =~= cosmos_orbit_centers(after));
        }
        si = si + 1;
    }
    proof {
        assert(sv.take(stars@.len() as int) =~= sv);
        lemma_orbit_centers_len(sv);
    }
    r
}

proof fn lemma_star_children_prefix_len(ps: Seq<PlanetLayout>, j: int)
    requires
        0 <= j < ps.len(),
    ensures
        star_children(ps.take(j + 1)).len() <= star_children(ps).len(),
    decreases ps.len() - j,
{
    lemma_children_len(ps.take(j + 1));
    lemma_children_len(ps);
    lemma_moons_grow(ps, j + 1);
}

/// `rand`'s `StdRng`, the generator of a cosmos, seeded once; opaque here.
#[verifier::external_type_specification]
#[verifier::external_body]
pub struct ExStdRng(StdRng);

/// `Rng::gen_range(0..n)` on `rand`'s `StdRng`: an index below `n`. Which
/// one rests on the generator's state, which the call advances; only the
/// bound is claimed. The range must not be empty.
#[verifier::external_body]
fn gen_index(rng: &mut StdRng, n: usize) -> (r: usize)
    requires
        n > 0,
    ensures
        r < n,
{
    rand::Rng::gen_range(rng, 0..n)
}

/// An ordered set of star names that have not been given yet, held in
/// `indexmap`'s `IndexSet<String>`.
#[verifier::external_body]
pub struct NamePool {
    inner: indexmap::IndexSet<String>,
}

/// What a [`NamePool`] holds, in its order, by the characters of each name.
pub uninterp spec fn name_pool_contents(p: NamePool) -> Seq<Seq<char>>;

impl NamePool {
    /// `IndexSet::new`: an empty set.
    #[verifier::external_body]
    fn new() -> (r: Self)
        ensures
            name_pool_contents(r) == Seq::<Seq<char>>::empty(),
    {
        NamePool { inner: indexmap::IndexSet::new() }
    }

    /// `IndexSet::insert`: a name that is not there yet goes last; a name
    /// that is there stays where it is.
    #[verifier::external_body]
    fn insert(&mut self, name: String) -> (r: bool)
        ensures
            r == !name_pool_contents(*old(self)).contains(name@),
            name_pool_contents(*final(self)) == (if r {
                name_pool_contents(*old(self)).push(name@)
            } else {
                name_pool_contents(*old(self))
            }),
    {
        self.inner.insert(name)
    }

    /// `IndexSet::len`.
    #[verifier::external_body]
    fn len(&self) -> (r: usize)
        ensures
            r == name_pool_contents(*self).len(),
    {
        self.inner.len()
    }

    /// `IndexSet::swap_remove_index`: the name at `i`, taken out, the last
    /// name moved into its place; nothing where `i` is past the end.
    #[verifier::external_body]
    fn swap_remove_index(&mut self, i: usize) -> (r: Option<String>)
        ensures
            i < name_pool_contents(*old(self)).len() ==> (r matches Some(s) && s@ == name_pool_contents(
                *old(self),
            )[i as int] && name_pool_contents(*final(self)) == swap_removed(name_pool_contents(*old(self)), i as int)),
            i >= name_pool_contents(*old(self)).len() ==> r is None && name_pool_contents(*final(self))
                == name_pool_contents(*old(self)),
    {
        self.inner.swap_remove_index(i)
    }
}

/// `s` without its element at `i`, the last element moved into its place.
pub open spec fn swap_removed(s: Seq<Seq<char>>, i: int) -> Seq<Seq<char>> {
    s.update(i, s.last()).drop_last()
}

/// Each name once, in the order of its first occurrence.
pub open spec fn first_occurrences(s: Seq<Seq<char>>) -> Seq<Seq<char>>
    decreases s.len(),
{
    if s.len() == 0 {
        Seq::empty()
    } else {
        let r = first_occurrences(s.drop_last());
        if r.contains(s.last()) {
            r
        } else {
            r.push(s.last())
        }
    }
}

proof fn lemma_push_contains(s: Seq<Seq<char>>, v: Seq<char>, x: Seq<char>)
    ensures
        s.push(v).contains(x) <==> (s.contains(x) || x == v),
{
    if s.contains(x) {
        let j = choose|j: int| 0 <= j < s.len() && s[j] == x;
        assert(s.push(v)[j] == x);
    }
    if x == v {
        assert(s.push(v)[s.len() as int] == x);
    }
    if s.push(v).contains(x) {
        let j = choose|j: int| 0 <= j < s.push(v).len() && s.push(v)[j] == x;
        if j < s.len() {
            assert(s[j] == x);
        }
    }
}

proof fn lemma_first_occurrences(s: Seq<Seq<char>>)
    ensures
        first_occurrences(s).no_duplicates(),
        forall|x: Seq<char>| #[trigger] first_occurrences(s).contains(x) <==> s.contains(x),
    decreases s.len(),
{
    if s.len() > 0 {
        let d = s.drop_last();
        let l = s.last();
        lemma_first_occurrences(d);
        let r = first_occurrences(d);
        assert(s =~= d.push(l));
        assert forall|x: Seq<char>| #[trigger] first_occurrences(s).contains(x) <==> s.contains(x) by {
            lemma_push_contains(d, l, x);
            lemma_push_contains(r, l, x);
        }
        if !r.contains(l) {
            assert forall|a: int, b: int| 0 <= a < b < r.push(l).len() implies r.push(l)[a] != r.push(l)[b] by {
                if b == r.len() {
                    assert(r.contains(r[a]));
                }
            }
        }
    }
}

/// Every pick names a position of the pool as it is when the pick is made.
pub open spec fn picks_ok(pool_len: nat, picks: Seq<usize>) -> bool {
    forall|k: int| 0 <= k < picks.len() ==> #[trigger] picks[k] < pool_len - k
}

/// The names that the picks take out of `pool`, in order, and what is left
/// of the pool.
pub open spec fn draw(pool: Seq<Seq<char>>, picks: Seq<usize>) -> (Seq<Seq<char>>, Seq<Seq<char>>)
    decreases picks.len(),
{
    if picks.len() == 0 {
        (Seq::empty(), pool)
    } else {
        let (drawn, left) = draw(pool, picks.drop_last());
        (drawn.push(left[picks.last() as int]), swap_removed(left, picks.last() as int))
    }
}

proof fn lemma_draw_len(pool: Seq<Seq<char>>, picks: Seq<usize>)
    requires
        picks_ok(pool.len(), picks),
    ensures
        draw(pool, picks).0.len() == picks.len(),
        draw(pool, picks).1.len() == pool.len() - picks.len(),
    decreases picks.len(),
{
    if picks.len() > 0 {
        assert(picks_ok(pool.len(), picks.drop_last()));
        lemma_draw_len(pool, picks.drop_last());
        assert(picks[picks.len() - 1] < pool.len() - (picks.len() - 1));
    }
}

/// The pool of the distinct names of `names`, in the order of their first
/// occurrence.
fn name_pool(names: &Vec<String>) -> (r: NamePool)
    ensures
        name_pool_contents(r) == first_occurrences(names_view(names@)),
{
    let ghost src = names@.map_values(|s: String| s@);
    let mut pool = NamePool::new();
    let mut i: usize = 0;
    while i < names.len()
        invariant
            i <= names@.len(),
            src == names@.map_values(|s: String| s@),
            name_pool_contents(pool) == first_occurrences(src.take(i as int)),
        decreases names@.len() - i,
    {
        pool.insert(names[i].clone());
        proof {
            assert(src.take(i + 1).drop_last() =~= src.take(i as int));
        }
        i = i + 1;
    }
    assert(src.take(names@.len() as int) =~= src);
    pool
}

/// Takes the names at the positions `picks` out of `pool`, in order.
fn draw_from(pool: &mut NamePool, picks: &Vec<usize>) -> (r: Vec<String>)
    requires
        picks_ok(name_pool_contents(*old(pool)).len(), picks@),
    ensures
        names_view(r@) == draw(name_pool_contents(*old(pool)), picks@).0,
        name_pool_contents(*final(pool)) == draw(name_pool_contents(*old(pool)), picks@).1,
{
    let ghost start = name_pool_contents(*pool);
    let mut r: Vec<String> = Vec::new();
    let mut k: usize = 0;
    while k < picks.len()
        invariant
            k <= picks@.len(),
            picks_ok(start.len(), picks@),
            names_view(r@) == draw(start, picks@.take(k as int)).0,
            name_pool_contents(*pool) == draw(start, picks@.take(k as int)).1,
        decreases picks@.len() - k,
    {
        proof {
            assert(picks_ok(start.len(), picks@.take(k as int)));
            lemma_draw_len(start, picks@.take(k as int));
            assert(picks@[k as int] < start.len() - k);
            assert(picks@.take(k + 1).drop_last() =~= picks@.take(k as int));
        }
        let name = pool.swap_remove_index(picks[k]);
        let ghost before = r@;
        r.push(name.unwrap());
        proof {
            assert(names_view(r@) =~= before.map_values(|s: String| s@).push(r@[k as int]@));
        }
        k = k + 1;
    }
    assert(picks@.take(picks@.len() as int) =~= picks@);
    r
}

/// The star names that the picks take, in order, out of the distinct names
/// of `names` (each pick a position among the names not taken yet; a taken
/// name's place goes to the last name).
pub fn draw_names_at(names: &Vec<String>, picks: &Vec<usize>) -> (r: Vec<String>)
    requires
        picks_ok(first_occurrences(names_view(names@)).len(), picks@),
    ensures
        names_view(r@) == draw(first_occurrences(names_view(names@)), picks@).0,
{
    let mut pool = name_pool(names);
    draw_from(&mut pool, picks)
}

/// `n` star names drawn at random, one after another, from the distinct
/// names of `names` not drawn yet: the names that some picks, each below the
/// number of names left, take.
pub fn draw_star_names(rng: &mut StdRng, names: &Vec<String>, n: usize) -> (r: Vec<String>)
    requires
        n <= first_occurrences(names_view(names@)).len(),
    ensures
        exists|picks: Seq<usize>|
            picks.len() == n && picks_ok(first_occurrences(names_view(names@)).len(), picks)
                && names_view(r@) == #[trigger] draw(
                first_occurrences(names_view(names@)),
                picks,
            ).0,
        names_view(r@).no_duplicates(),
        forall|x: Seq<char>| #[trigger] names_view(r@).contains(x) ==> names_view(names@).contains(x),
{
    let mut pool = name_pool(names);
    let total = pool.len();
    let mut picks: Vec<usize> = Vec::new();
    let mut k: usize = 0;
    while k < n
        invariant
            k <= n,
            n <= total,
            picks@.len() == k,
            picks_ok(total as nat, picks@),
        decreases n - k,
    {
        let p = gen_index(rng, total - k);
        picks.push(p);
        k = k + 1;
    }
    let r = draw_from(&mut pool, &picks);
    proof {
        lemma_first_occurrences(names_view(names@));
        law_drawn_names_distinct(first_occurrences(names_view(names@)), picks@);
    }
    r
}

/// Names drawn from a pool of distinct names are distinct names of the
/// pool, and each is drawn once: the names drawn and the names left are
/// together the pool, none twice.
pub proof fn law_drawn_names_distinct(pool: Seq<Seq<char>>, picks: Seq<usize>)
    requires
        pool.no_duplicates(),
        picks_ok(pool.len(), picks),
    ensures
        draw(pool, picks).0.no_duplicates(),
        draw(pool, picks).1.no_duplicates(),
        forall|x: Seq<char>| #[trigger] draw(pool, picks).0.contains(x) ==> pool.contains(x) && !draw(
            pool,
            picks,
        ).1.contains(x),
        forall|x: Seq<char>| #[trigger] pool.contains(x) ==> draw(pool, picks).0.contains(x) || draw(
            pool,
            picks,
        ).1.contains(x),
        forall|x: Seq<char>| #[trigger] draw(pool, picks).1.contains(x) ==> pool.contains(x),
    decreases picks.len(),
{
    if picks.len() > 0 {
        let prev = picks.drop_last();
        assert(picks_ok(pool.len(), prev));
        law_drawn_names_distinct(pool, prev);
        lemma_draw_len(pool, prev);
        let (drawn, left) = draw(pool, prev);
        let i = picks.last() as int;
        assert(i < left.len());
        let x = left[i];
        let left2 = swap_removed(left, i);
        let drawn2 = drawn.push(x);
        assert forall|a: int, b: int| 0 <= a < b < left2.len() implies left2[a] != left2[b] by {
            let ia = if a == i { left.len() - 1 } else { a };
            let ib = if b == i { left.len() - 1 } else { b };
            assert(left2[a] == left[ia]);
            assert(left2[b] == left[ib]);
        }
        assert forall|y: Seq<char>| left.contains(y) && y != x implies left2.contains(y) by {
            let j = choose|j: int| 0 <= j < left.len() && left[j] == y;
            if j == left.len() - 1 {
                assert(left2[i] == y);
            } else {
                assert(j != i);
                assert(left2[j] == y);
            }
        }
        assert forall|y: Seq<char>| left2.contains(y) implies left.contains(y) && y != x by {
            let j = choose|j: int| 0 <= j < left2.len() && left2[j] == y;
            if j == i {
                assert(left[left.len() - 1] == y);
                assert(left.len() - 1 != i);
            } else {
                assert(left[j] == y);
                assert(j != i);
            }
        }
        assert forall|a: int, b: int| 0 <= a < b < drawn2.len() implies drawn2[a] != drawn2[b] by {
            if b == drawn.len() {
                assert(drawn.contains(drawn2[a]));
                assert(left.contains(x));
            }
        }
        assert forall|y: Seq<char>| #[trigger] drawn2.contains(y) implies pool.contains(y) && !left2.contains(y) by {
            let j = choose|j: int| 0 <= j < drawn2.len() && drawn2[j] == y;
            if j < drawn.len() {
                assert(drawn[j] == y);
                assert(drawn.contains(y));
            } else {
                assert(left[i] == x);
                assert(left.contains(x));
            }
        }
        assert forall|y: Seq<char>| #[trigger] pool.contains(y) implies drawn2.contains(y) || left2.contains(y) by {
            if drawn.contains(y) {
                let j = choose|j: int| 0 <= j < drawn.len() && drawn[j] == y;
                assert(drawn2[j] == y);
            } else if y == x {
                assert(drawn2[drawn.len() as int] == y);
            }
        }
    }
}

} // verus!
