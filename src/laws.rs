//! Facts that relate the grid's operations to one another.
use vstd::arithmetic::div_mod::{lemma_fundamental_div_mod, lemma_fundamental_div_mod_converse};
use vstd::prelude::*;

use crate::vec2d::{linear_index, pos_of, tiles_mapped, Vec2d};

verus! {

/// Every grid holds exactly `width * height` tiles, and its height is the number
/// of tiles divided by its width.
pub proof fn lemma_shape<T: Clone>(g: Vec2d<T>)
    requires
        g.wf(),
    ensures
        g@.len() == g.spec_width() * g.spec_height(),
        g.spec_height() == g@.len() / g.spec_width(),
{
    g.lemma_len();
}

/// Adopting a sequence as a grid and consuming the grid again gives back the
/// very sequence that was adopted.
pub proof fn lemma_round_trip<T: Clone>(input: Seq<T>, width: usize, g: Vec2d<T>)
    requires
        g.adopts(input, width),
    ensures
        g@ == input,
        g.spec_width() == width,
{
}

/// Enumerating the tiles with their positions yields `width * height` pairs;
/// each position of the grid occurs in exactly one of them, and the tile of each
/// pair is the tile at its position.
pub proof fn lemma_with_pos_covers<T: Clone>(g: Vec2d<T>)
    requires
        g.wf(),
    ensures
        g.with_pos().len() == g.spec_width() * g.spec_height(),
        forall|i: int|
            0 <= i < g.with_pos().len() ==> {
                &&& g.in_bounds((#[trigger] g.with_pos()[i]).0.0 as int, g.with_pos()[i].0.1 as int)
                &&& g.tile(g.with_pos()[i].0.0 as int, g.with_pos()[i].0.1 as int)
                    == *g.with_pos()[i].1
            },
        forall|x: int, y: int|
            #[trigger] g.in_bounds(x, y) ==> exists|i: int|
                0 <= i < g.with_pos().len() && (#[trigger] g.with_pos()[i]).0 == (
                    x as usize,
                    y as usize,
                ),
        forall|i: int, j: int|
            0 <= i < g.with_pos().len() && 0 <= j < g.with_pos().len() && (#[trigger] g.with_pos()[i]).0
                == (#[trigger] g.with_pos()[j]).0 ==> i == j,
{
    let w = g.spec_width() as int;
    let n = g@.len() as int;
    g.lemma_len();
    assert forall|i: int| 0 <= i < g.with_pos().len() implies {
        &&& g.in_bounds((#[trigger] g.with_pos()[i]).0.0 as int, g.with_pos()[i].0.1 as int)
        &&& g.tile(g.with_pos()[i].0.0 as int, g.with_pos()[i].0.1 as int) == *g.with_pos()[i].1
    } by {
        lemma_fundamental_div_mod(i, w);
        assert(i / w < n / w) by {
            lemma_div_bound(i, n, w);
        }
        assert(w * (i / w) == (i / w) * w) by (nonlinear_arith);
    }
    assert forall|x: int, y: int| #[trigger] g.in_bounds(x, y) implies exists|i: int|
        0 <= i < g.with_pos().len() && (#[trigger] g.with_pos()[i]).0 == (x as usize, y as usize) by {
        let i = linear_index(w as nat, x, y);
        g.lemma_in_bounds(x, y);
        lemma_fundamental_div_mod_converse(i, w, y, x);
        assert(g.with_pos()[i].0 == (x as usize, y as usize));
    }
    assert forall|i: int, j: int|
        0 <= i < g.with_pos().len() && 0 <= j < g.with_pos().len() && (#[trigger] g.with_pos()[i]).0
            == (#[trigger] g.with_pos()[j]).0 implies i == j by {
        lemma_fundamental_div_mod(i, w);
        lemma_fundamental_div_mod(j, w);
        assert(i / w < n / w) by {
            lemma_div_bound(i, n, w);
        }
        assert(j / w < n / w) by {
            lemma_div_bound(j, n, w);
        }
    }
}

proof fn lemma_div_bound(i: int, n: int, w: int)
    requires
        0 <= i < n,
        w > 0,
        n % w == 0,
    ensures
        i / w < n / w,
{
    lemma_fundamental_div_mod(i, w);
    lemma_fundamental_div_mod(n, w);
    assert(i / w < n / w) by (nonlinear_arith)
        requires
            i == w * (i / w) + i % w,
            n == w * (n / w),
            0 <= i % w,
            i < n,
            w > 0,
    ;
}

/// Replacing every tile by a function that always gives `c` leaves a backing
/// sequence of `c` repeated once for each tile.
pub proof fn lemma_fill_constant<T, F: Fn(&T) -> T>(before: Seq<T>, after: Seq<T>, fun: F, c: T)
    requires
        tiles_mapped(before, after, fun),
        forall|t: &T, v: T| call_ensures(fun, (t,), v) ==> v == c,
    ensures
        after == Seq::new(before.len(), |_i: int| c),
{
    assert forall|i: int| 0 <= i < after.len() implies after[i] == c by {
        assert(call_ensures(fun, (&before[i],), after[i]));
    }
    assert(after =~= Seq::new(before.len(), |_i: int| c));
}

} // verus!
