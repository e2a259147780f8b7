use vstd::prelude::*;

use crate::math::UVec2;

verus! {

/// The points of a `w` by `h` rectangle, column by column.
pub open spec fn spec_rectangle(w: int, h: int) -> Seq<UVec2> {
    Seq::new((w * h) as nat, |k: int| UVec2 { x: (k / h) as u32, y: (k % h) as u32 })
}

proof fn lemma_rectangle_step(x: int, h: int)
    requires
        x >= 0,
        h >= 0,
    ensures
        spec_rectangle(x + 1, h) =~= spec_rectangle(x, h) + Seq::new(
            h as nat,
            |j: int| UVec2 { x: x as u32, y: j as u32 },
        ),
{
    assert((x + 1) * h == x * h + h) by (nonlinear_arith);
    assert(x * h >= 0) by (nonlinear_arith)
        requires
            x >= 0,
            h >= 0,
    ;
    let a = spec_rectangle(x + 1, h);
    let b = spec_rectangle(x, h) + Seq::new(h as nat, |j: int| UVec2 { x: x as u32, y: j as u32 });
    assert forall|k: int| 0 <= k < a.len() implies a[k] == b[k] by {
        if k >= x * h {
            let j = k - x * h;
            vstd::arithmetic::div_mod::lemma_fundamental_div_mod_converse(k, h, x, j);
        }
    }
}

/// The points `(x, y)` with `0 <= x < width` and `0 <= y < height`, column
/// by column.
pub fn rectangle(width: u32, height: u32) -> (r: Vec<UVec2>)
    requires
        width * height <= usize::MAX,
    ensures
        r@ == spec_rectangle(width as int, height as int),
{
    let mut v: Vec<UVec2> = Vec::new();
    let mut x: u32 = 0;
    while x < width
        invariant
            x <= width,
            v@ == spec_rectangle(x as int, height as int),
        decreases width - x,
    {
        let mut y: u32 = 0;
        let ghost before = v@;
        while y < height
            invariant
                y <= height,
                x < width,
                before == spec_rectangle(x as int, height as int),
                v@ == before + Seq::new(y as nat, |j: int| UVec2 { x: x, y: j as u32 }),
            decreases height - y,
        {
            v.push(UVec2 { x, y });
            assert(v@ =~= before + Seq::new((y + 1) as nat, |j: int| UVec2 { x: x, y: j as u32 }));
            y = y + 1;
        }
        proof {
            lemma_rectangle_step(x as int, height as int);
        }
        x = x + 1;
    }
    v
}

} // verus!
