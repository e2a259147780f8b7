use vstd::prelude::*;

use crate::math::{IVec2, IVec3};

verus! {

/// The point with the given coordinates.
pub open spec fn pt(x: int, y: int, z: int) -> IVec3 {
    IVec3 { x: x as i32, y: y as i32, z: z as i32 }
}

/// Point `t` of layer `l` of a triangle at `o` made of `layers` layers of
/// triangular tiles. A downward triangle grows along (-1, 1, 0) and walks
/// each layer by (1, 0, 0) and (0, 0, -1) in turn; an upward one grows
/// along (0, -1, 1) and walks by (0, 0, -1) and (1, 0, 0) in turn.
pub open spec fn tri_point(o: IVec3, is_up: bool, l: int, t: int) -> IVec3 {
    if is_up {
        pt(o.x + t / 2, o.y - l, o.z + l - (t + 1) / 2)
    } else {
        pt(o.x - l + (t + 1) / 2, o.y + l, o.z - t / 2)
    }
}

/// The `2 l + 1` points of layer `l`.
pub open spec fn tri_row(o: IVec3, is_up: bool, l: int) -> Seq<IVec3> {
    Seq::new((2 * l + 1) as nat, |t: int| tri_point(o, is_up, l, t))
}

/// The points of the first `layers` layers of a triangle, layer by layer.
pub open spec fn tri(o: IVec3, is_up: bool, layers: nat) -> Seq<IVec3>
    decreases layers,
{
    if layers == 0 {
        Seq::empty()
    } else {
        tri(o, is_up, (layers - 1) as nat) + tri_row(o, is_up, layers - 1)
    }
}

/// The origin of the `i`-th of five triangles in a row, `level` apart.
pub open spec fn strip_origin(first: IVec3, level: int, i: int) -> IVec3 {
    pt(first.x + i * level, first.y as int, first.z - i * level)
}

/// The first `count` of five triangles in a row, each of `level` layers.
pub open spec fn strip(first: IVec3, is_up: bool, level: nat, count: nat) -> Seq<IVec3>
    decreases count,
{
    if count == 0 {
        Seq::empty()
    } else {
        strip(first, is_up, level, (count - 1) as nat) + tri(
            strip_origin(first, level as int, count - 1),
            is_up,
            level,
        )
    }
}

/// Row `layer` of the band of ten triangles around the middle.
pub open spec fn band_row(o: IVec3, level: int, layer: int) -> Seq<IVec3> {
    Seq::new(
        (10 * level) as nat,
        |d: int| pt(o.x - (layer + level) + (d + 1) / 2, o.y + layer + level, o.z - d / 2),
    )
}

/// The first `layers` rows of the middle band.
pub open spec fn band(o: IVec3, level: nat, layers: nat) -> Seq<IVec3>
    decreases layers,
{
    if layers == 0 {
        Seq::empty()
    } else {
        band(o, level, (layers - 1) as nat) + band_row(o, level as int, layers - 1)
    }
}

/// The origin of the top five triangles.
pub open spec fn top_origin(o: IVec3, level: int) -> IVec3 {
    pt(o.x - 2 * level + 1, o.y + 3 * level - 1, o.z + 1 - level)
}

/// The tiles of an unfolded icosahedron whose faces are split into
/// `level` layers: five downward triangles at the bottom, the band of ten
/// in the middle, five upward triangles on top.
pub open spec fn spec_icosahedron(o: IVec3, level: nat) -> Seq<IVec3> {
    strip(o, false, level, 5) + band(o, level, level) + strip(
        top_origin(o, level as int),
        true,
        level,
        5,
    )
}

/// `2` to the power `n`.
pub open spec fn pow2(n: nat) -> nat
    decreases n,
{
    if n == 0 {
        1
    } else {
        2 * pow2((n - 1) as nat)
    }
}

/// The coordinates of the origin leave room for every point that the
/// generation computes, at the given level.
pub open spec fn ico_origin_fits(o: IVec3, level: int) -> bool {
    &&& i32::MIN <= o.x - 2 * level + 1
    &&& o.x + 4 * level + 1 <= i32::MAX
    &&& o.y + 3 * level - 1 <= i32::MAX
    &&& i32::MIN <= o.z - 5 * level
    &&& o.z + 1 <= i32::MAX
}

/// The coordinates of a triangle's origin leave room for every point that
/// `subdivided_triangle` computes.
pub open spec fn tri_origin_fits(o: IVec3, is_up: bool, layers: int) -> bool {
    if is_up {
        &&& o.x + layers <= i32::MAX
        &&& i32::MIN <= o.y - layers
        &&& i32::MIN <= o.z - 1
        &&& o.z + layers <= i32::MAX
    } else {
        &&& i32::MIN <= o.x - layers
        &&& o.x + 1 <= i32::MAX
        &&& o.y + layers <= i32::MAX
        &&& i32::MIN <= o.z - layers
    }
}

proof fn lemma_half_bounds(t: int)
    requires
        t >= 0,
    ensures
        t / 2 <= (t + 1) / 2,
        (t + 1) / 2 <= t / 2 + 1,
        (t + 1) / 2 + t / 2 == t,
        t / 2 >= 0,
{
}

fn subdivided_triangle(shape: &mut Vec<IVec3>, layers: u32, origin: IVec3, is_up: bool)
    requires
        layers <= 0x4000,
        tri_origin_fits(origin, is_up, layers as int),
    ensures
        final(shape)@ == old(shape)@ + tri(origin, is_up, layers as nat),
{
    let mut layer: u32 = 0;
    while layer < layers
        invariant
            layer <= layers,
            layers <= 0x4000,
            tri_origin_fits(origin, is_up, layers as int),
            shape@ == old(shape)@ + tri(origin, is_up, layer as nat),
        decreases layers - layer,
    {
        let l = layer as i32;
        let mut cur = if is_up {
            IVec3 { x: origin.x, y: origin.y - l, z: origin.z + l }
        } else {
            IVec3 { x: origin.x - l, y: origin.y + l, z: origin.z }
        };
        let tri_count = 2 * layer + 1;
        let ghost before = shape@;
        let mut t: u32 = 0;
        while t < tri_count
            invariant
                t <= tri_count,
                tri_count == 2 * layer + 1,
                layer < layers,
                layers <= 0x4000,
                l == layer,
                tri_origin_fits(origin, is_up, layers as int),
                cur == tri_point(origin, is_up, l as int, t as int),
                shape@ == before + Seq::new(t as nat, |u: int| tri_point(origin, is_up, l as int, u)),
            decreases tri_count - t,
        {
            shape.push(cur);
            proof {
                lemma_half_bounds(t as int);
                lemma_half_bounds(t + 1);
            }
            if is_up {
                if t % 2 == 0 {
                    cur = IVec3 { x: cur.x, y: cur.y, z: cur.z - 1 };
                } else {
                    cur = IVec3 { x: cur.x + 1, y: cur.y, z: cur.z };
                }
            } else {
                if t % 2 == 0 {
                    cur = IVec3 { x: cur.x + 1, y: cur.y, z: cur.z };
                } else {
                    cur = IVec3 { x: cur.x, y: cur.y, z: cur.z - 1 };
                }
            }
            proof {
                assert(shape@ =~= before + Seq::new((t + 1) as nat, |u: int| tri_point(origin, is_up, l as int, u)));
            }
            t = t + 1;
        }
        proof {
            assert(Seq::new(t as nat, |u: int| tri_point(origin, is_up, l as int, u)) =~= tri_row(
                origin,
                is_up,
                l as int,
            ));
        }
        layer = layer + 1;
    }
}

pub proof fn lemma_pow2_mono(a: nat, b: nat)
    requires
        a <= b,
    ensures
        pow2(a) <= pow2(b),
    decreases b,
{
    if b > a {
        lemma_pow2_mono(a, (b - 1) as nat);
    }
}

proof fn lemma_pow2_pos(n: nat)
    ensures
        pow2(n) >= 1,
    decreases n,
{
    if n > 0 {
        lemma_pow2_pos((n - 1) as nat);
    }
}

proof fn lemma_pow2_add(a: nat, b: nat)
    ensures
        pow2(a + b) == pow2(a) * pow2(b),
    decreases b,
{
    if b > 0 {
        let b1 = (b - 1) as nat;
        lemma_pow2_add(a, b1);
        assert(pow2(a + b) == 2 * pow2(a + b1));
        assert(pow2(b) == 2 * pow2(b1));
        assert(pow2(a) * (2 * pow2(b1)) == 2 * (pow2(a) * pow2(b1))) by (nonlinear_arith);
    } else {
        assert(pow2(0) == 1);
        assert(a + b == a);
    }
}

/// `2` to the power `n`.
fn pow2_u32(n: u32) -> (r: u32)
    requires
        n < 32,
    ensures
        r == pow2(n as nat),
{
    proof {
        assert(pow2(30) == 0x4000_0000) by {
            reveal_with_fuel(pow2, 31);
        }
    }
    let mut r: u32 = 1;
    let mut i: u32 = 0;
    while i < n
        invariant
            i <= n,
            n < 32,
            r == pow2(i as nat),
            pow2(30) == 0x4000_0000,
        decreases n - i,
    {
        proof {
            lemma_pow2_mono(i as nat, 30);
        }
        r = r * 2;
        i = i + 1;
    }
    r
}

proof fn lemma_level_bounds(s: nat)
    requires
        s <= 13,
    ensures
        1 <= pow2(s) <= 0x2000,
        pow2(2 * s) <= 0x0400_0000,
        pow2(s + 1) == 2 * pow2(s),
{
    lemma_pow2_mono(s, 13);
    lemma_pow2_mono(2 * s, 26);
    lemma_pow2_pos(s);
    assert(pow2(13) == 0x2000) by {
        reveal_with_fuel(pow2, 14);
    }
    assert(pow2(26) == 0x0400_0000) by {
        reveal_with_fuel(pow2, 27);
    }
}

/// Pushes the five triangles of a strip that starts at `first`.
fn push_strip(shape: &mut Vec<IVec3>, level: u32, first: IVec3, is_up: bool)
    requires
        1 <= level <= 0x4000,
        first.x + 4 * level <= i32::MAX,
        i32::MIN <= first.z - 4 * level,
        forall|i: int|
            0 <= i < 5 ==> tri_origin_fits(#[trigger] strip_origin(first, level as int, i), is_up, level as int),
    ensures
        final(shape)@ == old(shape)@ + strip(first, is_up, level as nat, 5),
{
    let lv = level as i32;
    let mut i: i32 = 0;
    while i < 5
        invariant
            0 <= i <= 5,
            1 <= level <= 0x4000,
            lv == level,
            first.x + 4 * level <= i32::MAX,
            i32::MIN <= first.z - 4 * level,
            forall|j: int|
                0 <= j < 5 ==> tri_origin_fits(#[trigger] strip_origin(first, level as int, j), is_up, level as int),
            shape@ == old(shape)@ + strip(first, is_up, level as nat, i as nat),
        decreases 5 - i,
    {
        assert(0 <= i * lv <= 4 * lv) by (nonlinear_arith)
            requires
                0 <= i < 5,
                lv >= 1,
        ;
        let origin = IVec3 { x: first.x + i * lv, y: first.y, z: first.z - i * lv };
        assert(origin == strip_origin(first, level as int, i as int));
        assert(tri_origin_fits(strip_origin(first, level as int, i as int), is_up, level as int));
        subdivided_triangle(shape, level, origin, is_up);
        assert(shape@ =~= old(shape)@ + strip(first, is_up, level as nat, (i + 1) as nat));
        i = i + 1;
    }
}

/// Pushes the band of ten triangles in the middle.
fn push_band(shape: &mut Vec<IVec3>, level: u32, layer_length: u32, o: IVec3)
    requires
        1 <= level <= 0x4000,
        layer_length == 10 * level,
        ico_origin_fits(o, level as int),
    ensures
        final(shape)@ == old(shape)@ + band(o, level as nat, level as nat),
{
    let mut layer: u32 = 0;
    while layer < level
        invariant
            layer <= level,
            1 <= level <= 0x4000,
            layer_length == 10 * level,
            ico_origin_fits(o, level as int),
            shape@ == old(shape)@ + band(o, level as nat, layer as nat),
        decreases level - layer,
    {
        let ll = (layer + level) as i32;
        let mut cur = IVec3 { x: o.x - ll, y: o.y + ll, z: o.z };
        let ghost before = shape@;
        let mut d: u32 = 0;
        while d < layer_length
            invariant
                d <= layer_length,
                layer < level,
                1 <= level <= 0x4000,
                layer_length == 10 * level,
                ll == layer + level,
                ico_origin_fits(o, level as int),
                cur == pt(o.x - ll + (d + 1) / 2, o.y + ll, o.z - d / 2),
                shape@ == before + band_row(o, level as int, layer as int).take(d as int),
            decreases layer_length - d,
        {
            shape.push(cur);
            proof {
                lemma_half_bounds(d as int);
                lemma_half_bounds(d + 1);
            }
            if d % 2 == 0 {
                cur = IVec3 { x: cur.x + 1, y: cur.y, z: cur.z };
            } else {
                cur = IVec3 { x: cur.x, y: cur.y, z: cur.z - 1 };
            }
            proof {
                assert(band_row(o, level as int, layer as int).take(d + 1) =~= band_row(
                    o,
                    level as int,
                    layer as int,
                ).take(d as int).push(band_row(o, level as int, layer as int)[d as int]));
            }
            d = d + 1;
        }
        proof {
            assert(band_row(o, level as int, layer as int).take(d as int) =~= band_row(
                o,
                level as int,
                layer as int,
            ));
        }
        layer = layer + 1;
    }
}

/// The tiles of an unfolded icosahedron, each face split into `2` to the
/// power `subdivision` layers, starting from the downward triangle
/// `ico_origin` at the bottom left:
///
/// ```text
///         /\/\/\/\/\
///         \/\/\/\/\/\
/// origin-> \/\/\/\/\/
/// ```
pub fn icosahedron(subdivision: u32, ico_origin: IVec3) -> (r: Vec<IVec3>)
    requires
        subdivision <= 13,
        i32::MIN <= ico_origin.x + ico_origin.y <= i32::MAX,
        ico_origin.spec_element_sum() == 1,
        ico_origin_fits(ico_origin, pow2(subdivision as nat) as int),
    ensures
        r@ == spec_icosahedron(ico_origin, pow2(subdivision as nat)),
{
    let sum = ico_origin.element_sum();
    assert(sum == 1);
    proof {
        lemma_level_bounds(subdivision as nat);
    }
    let level = pow2_u32(subdivision);
    let quarter = pow2_u32(2 * subdivision);
    let cap = 20 * quarter;
    let mut shape: Vec<IVec3> = Vec::with_capacity(cap as usize);
    let o = ico_origin;
    let lv = level as i32;
    proof {
        assert forall|i: int| 0 <= i < 5 implies tri_origin_fits(
            #[trigger] strip_origin(o, level as int, i),
            false,
            level as int,
        ) by {
            assert(0 <= i * level <= 4 * level) by (nonlinear_arith)
                requires
                    0 <= i < 5,
                    level >= 1,
            ;
        }
    }
    push_strip(&mut shape, level, o, false);
    let layer_length = 5 + 5 * (pow2_u32(subdivision + 1) - 1);
    push_band(&mut shape, level, layer_length, o);
    let p1 = IVec3 { x: o.x - (2 * lv - 1), y: o.y + (2 * lv - 1), z: o.z };
    let p2 = IVec3 { x: p1.x, y: p1.y, z: p1.z + 1 };
    let first = IVec3 { x: p2.x, y: p2.y + lv, z: p2.z - lv };
    assert(first == top_origin(o, level as int));
    proof {
        assert forall|i: int| 0 <= i < 5 implies tri_origin_fits(
            #[trigger] strip_origin(first, level as int, i),
            true,
            level as int,
        ) by {
            assert(0 <= i * level <= 4 * level) by (nonlinear_arith)
                requires
                    0 <= i < 5,
                    level >= 1,
            ;
        }
    }
    push_strip(&mut shape, level, first, true);
    shape
}

proof fn lemma_tri_len(o: IVec3, is_up: bool, layers: nat)
    ensures
        tri(o, is_up, layers).len() == layers * layers,
    decreases layers,
{
    if layers > 0 {
        lemma_tri_len(o, is_up, (layers - 1) as nat);
        let l = layers - 1;
        assert((l * l) + (2 * l + 1) == layers * layers) by (nonlinear_arith)
            requires
                l == layers - 1,
        ;
    } else {
        assert(layers * layers == 0) by (nonlinear_arith)
            requires
                layers == 0,
        ;
    }
}

proof fn lemma_strip_len(first: IVec3, is_up: bool, level: nat, count: nat)
    ensures
        strip(first, is_up, level, count).len() == count * (level * level),
    decreases count,
{
    if count > 0 {
        lemma_strip_len(first, is_up, level, (count - 1) as nat);
        lemma_tri_len(strip_origin(first, level as int, count - 1), is_up, level);
        assert((count - 1) * (level * level) + level * level == count * (level * level))
            by (nonlinear_arith);
    } else {
        assert(count * (level * level) == 0) by (nonlinear_arith)
            requires
                count == 0,
        ;
    }
}

proof fn lemma_band_len(o: IVec3, level: nat, layers: nat)
    ensures
        band(o, level, layers).len() == layers * (10 * level),
    decreases layers,
{
    if layers > 0 {
        lemma_band_len(o, level, (layers - 1) as nat);
        assert((layers - 1) * (10 * level) + 10 * level == layers * (10 * level))
            by (nonlinear_arith);
    } else {
        assert(layers * (10 * level) == 0) by (nonlinear_arith)
            requires
                layers == 0,
        ;
    }
}

/// An icosahedron of `2` to the power `s` layers per face has `20` times
/// `4` to the power `s` tiles: twenty faces of `level * level` tiles each.
pub proof fn law_icosahedron_len(o: IVec3, s: nat)
    ensures
        spec_icosahedron(o, pow2(s)).len() == 20 * pow2(2 * s),
{
    let level = pow2(s);
    lemma_strip_len(o, false, level, 5);
    lemma_band_len(o, level, level);
    lemma_strip_len(top_origin(o, level as int), true, level, 5);
    lemma_pow2_add(s, s);
    assert(5 * (level * level) + level * (10 * level) + 5 * (level * level) == 20 * (level * level))
        by (nonlinear_arith);
}

/// The coordinates of `p` sum to `1` or `2`: `p` is a triangular tile.
pub open spec fn is_triangle_tile(p: IVec3) -> bool {
    p.x + p.y + p.z == 1 || p.x + p.y + p.z == 2
}

/// The sum of the coordinates of `o`.
pub open spec fn sum3(o: IVec3) -> int {
    o.x + o.y + o.z
}

proof fn lemma_tri_tiles(o: IVec3, is_up: bool, layers: nat)
    requires
        layers <= 0x2000,
        tri_origin_fits(o, is_up, layers as int),
        is_up ==> sum3(o) == 2,
        !is_up ==> sum3(o) == 1,
    ensures
        forall|k: int| 0 <= k < tri(o, is_up, layers).len() ==> is_triangle_tile(#[trigger] tri(o, is_up, layers)[k]),
    decreases layers,
{
    if layers > 0 {
        let l = layers - 1;
        lemma_tri_tiles(o, is_up, (layers - 1) as nat);
        let prefix = tri(o, is_up, (layers - 1) as nat);
        let row = tri_row(o, is_up, l);
        assert forall|k: int| 0 <= k < tri(o, is_up, layers).len() implies is_triangle_tile(
            #[trigger] tri(o, is_up, layers)[k],
        ) by {
            if k < prefix.len() {
                assert(tri(o, is_up, layers)[k] == prefix[k]);
            } else {
                let t = k - prefix.len();
                assert(tri(o, is_up, layers)[k] == row[t]);
                lemma_half_bounds(t);
            }
        }
    }
}

proof fn lemma_strip_tiles(first: IVec3, is_up: bool, level: nat, count: nat)
    requires
        count <= 5,
        1 <= level <= 0x2000,
        forall|i: int|
            0 <= i < 5 ==> tri_origin_fits(#[trigger] strip_origin(first, level as int, i), is_up, level as int),
        first.x + 4 * level <= i32::MAX,
        i32::MIN <= first.z - 4 * level,
        is_up ==> sum3(first) == 2,
        !is_up ==> sum3(first) == 1,
    ensures
        forall|k: int|
            0 <= k < strip(first, is_up, level, count).len() ==> is_triangle_tile(
                #[trigger] strip(first, is_up, level, count)[k],
            ),
    decreases count,
{
    if count > 0 {
        let c = count - 1;
        lemma_strip_tiles(first, is_up, level, c as nat);
        let so = strip_origin(first, level as int, c);
        assert(0 <= c * level <= 4 * level) by (nonlinear_arith)
            requires
                0 <= c < 5,
                level >= 1,
        ;
        assert(tri_origin_fits(so, is_up, level as int));
        lemma_tri_tiles(so, is_up, level);
        let prefix = strip(first, is_up, level, c as nat);
        assert forall|k: int| 0 <= k < strip(first, is_up, level, count).len() implies is_triangle_tile(
            #[trigger] strip(first, is_up, level, count)[k],
        ) by {
            if k < prefix.len() {
                assert(strip(first, is_up, level, count)[k] == prefix[k]);
            } else {
                assert(strip(first, is_up, level, count)[k] == tri(so, is_up, level)[k - prefix.len()]);
            }
        }
    }
}

proof fn lemma_band_tiles(o: IVec3, level: nat, layers: nat)
    requires
        layers <= level,
        1 <= level <= 0x2000,
        ico_origin_fits(o, level as int),
        sum3(o) == 1,
    ensures
        forall|k: int| 0 <= k < band(o, level, layers).len() ==> is_triangle_tile(#[trigger] band(o, level, layers)[k]),
    decreases layers,
{
    if layers > 0 {
        lemma_band_tiles(o, level, (layers - 1) as nat);
        let prefix = band(o, level, (layers - 1) as nat);
        let row = band_row(o, level as int, layers - 1);
        assert forall|k: int| 0 <= k < band(o, level, layers).len() implies is_triangle_tile(
            #[trigger] band(o, level, layers)[k],
        ) by {
            if k < prefix.len() {
                assert(band(o, level, layers)[k] == prefix[k]);
            } else {
                let d = k - prefix.len();
                assert(band(o, level, layers)[k] == row[d]);
                lemma_half_bounds(d);
            }
        }
    }
}

/// Every tile of an icosahedron is a triangular tile, as
/// `TileIndex::new` requires of its index.
pub proof fn law_icosahedron_tiles(o: IVec3, s: nat, k: int)
    requires
        s <= 13,
        sum3(o) == 1,
        ico_origin_fits(o, pow2(s) as int),
        0 <= k < spec_icosahedron(o, pow2(s)).len(),
    ensures
        is_triangle_tile(spec_icosahedron(o, pow2(s))[k]),
{
    lemma_level_bounds(s);
    let level = pow2(s);
    let first = top_origin(o, level as int);
    assert forall|i: int| 0 <= i < 5 implies tri_origin_fits(
        #[trigger] strip_origin(o, level as int, i),
        false,
        level as int,
    ) by {
        assert(0 <= i * level <= 4 * level) by (nonlinear_arith)
            requires
                0 <= i < 5,
                level >= 1,
        ;
    }
    assert forall|i: int| 0 <= i < 5 implies tri_origin_fits(
        #[trigger] strip_origin(first, level as int, i),
        true,
        level as int,
    ) by {
        assert(0 <= i * level <= 4 * level) by (nonlinear_arith)
            requires
                0 <= i < 5,
                level >= 1,
        ;
    }
    lemma_strip_tiles(o, false, level, 5);
    lemma_band_tiles(o, level, level);
    lemma_strip_tiles(first, true, level, 5);
    let a = strip(o, false, level, 5);
    let b = band(o, level, level);
    let c = strip(first, true, level, 5);
    let all = spec_icosahedron(o, level);
    assert(all == a + b + c);
    if k < a.len() {
        assert(all[k] == a[k]);
    } else if k < a.len() + b.len() {
        assert(all[k] == b[k - a.len()]);
    } else {
        assert(all[k] == c[k - a.len() - b.len()]);
    }
}

/// The points of a `w` by `h` rectangle, column by column.
pub open spec fn spec_rectangle(w: int, h: int) -> Seq<IVec2> {
    Seq::new((w * h) as nat, |k: int| IVec2 { x: (k / h) as i32, y: (k % h) as i32 })
}

/// A size as the signed number that `as i32` gives, and zero where that is negative.
pub open spec fn signed_extent(n: u32) -> int {
    if n <= i32::MAX {
        n as int
    } else {
        0
    }
}

/// The points `(x, y)` with `0 <= x < width` and `0 <= y < height`, column
/// by column; a size beyond `i32::MAX` counts as empty.
pub fn rectangle(width: u32, height: u32) -> (r: Vec<IVec2>)
    requires
        signed_extent(width) * signed_extent(height) <= usize::MAX,
    ensures
        r@ == spec_rectangle(signed_extent(width), signed_extent(height)),
{
    let w: i32 = if width <= 0x7fff_ffff { width as i32 } else { 0 };
    let h: i32 = if height <= 0x7fff_ffff { height as i32 } else { 0 };
    let ghost wi = w as int;
    let ghost hi = h as int;
    let mut v: Vec<IVec2> = Vec::new();
    let mut x: i32 = 0;
    while x < w
        invariant
            0 <= x <= w,
            w == wi,
            h == hi,
            0 <= hi,
            wi * hi <= usize::MAX,
            v@ == spec_rectangle(x as int, hi),
        decreases w - x,
    {
        let mut y: i32 = 0;
        let ghost before = v@;
        while y < h
            invariant
                0 <= y <= h,
                0 <= x < w,
                w == wi,
                h == hi,
                0 <= hi,
                before == spec_rectangle(x as int, hi),
                v@ == before + Seq::new(y as nat, |j: int| IVec2 { x: x, y: j as i32 }),
            decreases h - y,
        {
            v.push(IVec2 { x, y });
            assert(v@ =~= before + Seq::new((y + 1) as nat, |j: int| IVec2 { x: x, y: j as i32 }));
            y = y + 1;
        }
        proof {
            lemma_rectangle_step(x as int, hi);
        }
        x = x + 1;
    }
    v
}

proof fn lemma_rectangle_step(x: int, h: int)
    requires
        x >= 0,
        h >= 0,
    ensures
        spec_rectangle(x + 1, h) =~= spec_rectangle(x, h) + Seq::new(
            h as nat,
            |j: int| IVec2 { x: x as i32, y: j as i32 },
        ),
{
    assert((x + 1) * h == x * h + h) by (nonlinear_arith);
    assert(x * h >= 0) by (nonlinear_arith)
        requires
            x >= 0,
            h >= 0,
    ;
    let a = spec_rectangle(x + 1, h);
    let b = spec_rectangle(x, h) + Seq::new(h as nat, |j: int| IVec2 { x: x as i32, y: j as i32 });
    assert forall|k: int| 0 <= k < a.len() implies a[k] == b[k] by {
        if k < x * h {
            assert(k / h == k / h);
        } else {
            let j = k - x * h;
            assert(0 <= j < h);
            assert(k == x * h + j);
            vstd::arithmetic::div_mod::lemma_fundamental_div_mod_converse(k, h, x, j);
        }
    }
}

} // verus!
