//! The extent of the tables below the GSUB structure: the script list and
//! the lookup subtables of types 1 to 4.
//!
//! A table's extent is the number of bytes from its start to the end of the
//! furthest byte it or any table below it occupies. Reading a table to its
//! extent walks its layout: every count, every offset and every table an
//! offset points at must lie within the data, and every format field must
//! name a known format. A null offset below a table points at nothing.
use vstd::prelude::*;
use crate::wire::u16_at;

verus! {

/// `k` bytes from position `p` lie within `d`.
pub open spec fn fits_in(d: Seq<u8>, p: int, k: int) -> bool {
    0 <= p && 0 <= k && p + k <= d.len()
}

/// The larger of `a` and `b`.
pub open spec fn max(a: int, b: int) -> int {
    if a < b {
        b
    } else {
        a
    }
}

/// The extent of the tables that `n` offsets point at, relative to `p`: the
/// offsets are the `uint16` at `p + first + stride * i`, each child is at
/// `p + offset` and has the extent `f` gives. `None` when a child fails.
pub open spec fn offsets_extent(
    d: Seq<u8>,
    p: int,
    first: int,
    stride: int,
    n: nat,
    f: spec_fn(Seq<u8>, int) -> Option<int>,
) -> Option<int>
    decreases n,
{
    if n == 0 {
        Some(0)
    } else {
        match offsets_extent(d, p, first, stride, (n - 1) as nat, f) {
            None => None,
            Some(m) => {
                let off = u16_at(d, p + first + stride * (n - 1)) as int;
                if off == 0 {
                    Some(m)
                } else {
                    match f(d, p + off) {
                        None => None,
                        Some(c) => Some(max(m, off + c)),
                    }
                }
            },
        }
    }
}

/// Once the children through the first `i` offsets fail, so do those
/// through the first `m >= i`.
pub proof fn lemma_offsets_none_stays(
    d: Seq<u8>,
    p: int,
    first: int,
    stride: int,
    i: nat,
    m: nat,
    f: spec_fn(Seq<u8>, int) -> Option<int>,
)
    requires
        i <= m,
        offsets_extent(d, p, first, stride, i, f) is None,
    ensures
        offsets_extent(d, p, first, stride, m, f) is None,
    decreases m,
{
    if i < m {
        lemma_offsets_none_stays(d, p, first, stride, i, (m - 1) as nat, f);
    }
}

/// A coverage table: format 1 lists glyphs (two bytes each), format 2 lists
/// ranges (six bytes each), after a format and a count.
pub open spec fn coverage_extent(d: Seq<u8>, p: int) -> Option<int> {
    if !fits_in(d, p, 4) {
        None
    } else {
        let n = u16_at(d, p + 2) as int;
        let len = if u16_at(d, p) == 1 {
            4 + 2 * n
        } else {
            4 + 6 * n
        };
        if (u16_at(d, p) == 1 || u16_at(d, p) == 2) && fits_in(d, p, len) {
            Some(len)
        } else {
            None
        }
    }
}

/// A language system table: lookup order offset, required feature index,
/// a count and that many feature indices.
pub open spec fn langsys_extent(d: Seq<u8>, p: int) -> Option<int> {
    if fits_in(d, p, 6) && fits_in(d, p, 6 + 2 * u16_at(d, p + 4)) {
        Some(6 + 2 * u16_at(d, p + 4))
    } else {
        None
    }
}

/// A counted list of glyphs (a sequence or an alternate set).
pub open spec fn glyphs_extent(d: Seq<u8>, p: int) -> Option<int> {
    if fits_in(d, p, 2) && fits_in(d, p, 2 + 2 * u16_at(d, p)) {
        Some(2 + 2 * u16_at(d, p))
    } else {
        None
    }
}

/// A ligature table: the ligature glyph, a component count and the
/// components after the first. A component count of 0 is refused.
pub open spec fn ligature_extent(d: Seq<u8>, p: int) -> Option<int> {
    if fits_in(d, p, 4) && u16_at(d, p + 2) >= 1 && fits_in(d, p, 2 + 2 * u16_at(d, p + 2)) {
        Some(2 + 2 * u16_at(d, p + 2))
    } else {
        None
    }
}

/// `coverage_extent` as a value.
pub open spec fn coverage_fn() -> spec_fn(Seq<u8>, int) -> Option<int> {
    |d: Seq<u8>, q: int| coverage_extent(d, q)
}

/// `langsys_extent` as a value.
pub open spec fn langsys_fn() -> spec_fn(Seq<u8>, int) -> Option<int> {
    |d: Seq<u8>, q: int| langsys_extent(d, q)
}

/// `glyphs_extent` as a value.
pub open spec fn glyphs_fn() -> spec_fn(Seq<u8>, int) -> Option<int> {
    |d: Seq<u8>, q: int| glyphs_extent(d, q)
}

/// `ligature_extent` as a value.
pub open spec fn ligature_fn() -> spec_fn(Seq<u8>, int) -> Option<int> {
    |d: Seq<u8>, q: int| ligature_extent(d, q)
}

/// The extent of a child at offset `off` from `p` with extent function `f`;
/// a null offset points at nothing.
pub open spec fn child_extent(d: Seq<u8>, p: int, off: int, f: spec_fn(Seq<u8>, int) -> Option<int>) -> Option<int> {
    if off == 0 {
        Some(0)
    } else {
        match f(d, p + off) {
            None => None,
            Some(c) => Some(off + c),
        }
    }
}

/// A table with `fixed` bytes of its own and children covering `a` and `b`.
pub open spec fn join3(fixed: int, a: Option<int>, b: Option<int>) -> Option<int> {
    match (a, b) {
        (Some(x), Some(y)) => Some(max(fixed, max(x, y))),
        _ => None,
    }
}

/// A script table: default language system offset, a count, and that many
/// records of a tag and a language system offset.
pub open spec fn script_extent(d: Seq<u8>, p: int) -> Option<int> {
    if fits_in(d, p, 4) && fits_in(d, p, 4 + 6 * u16_at(d, p + 2)) {
        join3(
            4 + 6 * u16_at(d, p + 2),
            child_extent(d, p, u16_at(d, p) as int, langsys_fn()),
            offsets_extent(d, p, 8, 6, u16_at(d, p + 2) as nat, langsys_fn()),
        )
    } else {
        None
    }
}

/// `script_extent` as a value.
pub open spec fn script_fn() -> spec_fn(Seq<u8>, int) -> Option<int> {
    |d: Seq<u8>, q: int| script_extent(d, q)
}

/// A script list: a count and that many records of a tag and a script offset.
#[verifier::opaque]
pub open spec fn script_list_extent(d: Seq<u8>, p: int) -> Option<int> {
    if fits_in(d, p, 2) && fits_in(d, p, 2 + 6 * u16_at(d, p)) {
        join3(2 + 6 * u16_at(d, p), Some(0), offsets_extent(d, p, 6, 6, u16_at(d, p) as nat, script_fn()))
    } else {
        None
    }
}

/// The coverage of a subtable: its offset at `p + 2` must not be null.
pub open spec fn subtable_coverage_extent(d: Seq<u8>, p: int) -> Option<int> {
    if u16_at(d, p + 2) == 0 {
        None
    } else {
        child_extent(d, p, u16_at(d, p + 2) as int, coverage_fn())
    }
}

/// A single substitution subtable: format 1 (format, coverage offset, delta)
/// or format 2 (format, coverage offset, a count and that many glyphs).
pub open spec fn single_extent(d: Seq<u8>, p: int) -> Option<int> {
    if !fits_in(d, p, 6) {
        None
    } else {
        let fixed = if u16_at(d, p) == 1 {
            6
        } else {
            6 + 2 * u16_at(d, p + 4)
        };
        if (u16_at(d, p) == 1 || u16_at(d, p) == 2) && fits_in(d, p, fixed) {
            join3(fixed, subtable_coverage_extent(d, p), Some(0))
        } else {
            None
        }
    }
}

/// A subtable of format 1 made of a coverage offset, a count and that many
/// offsets to child tables with extent `f` (multiple, alternate and ligature
/// substitution).
pub open spec fn sets_extent(d: Seq<u8>, p: int, f: spec_fn(Seq<u8>, int) -> Option<int>) -> Option<int> {
    if fits_in(d, p, 6) && u16_at(d, p) == 1 && fits_in(d, p, 6 + 2 * u16_at(d, p + 4)) {
        join3(
            6 + 2 * u16_at(d, p + 4),
            subtable_coverage_extent(d, p),
            offsets_extent(d, p, 6, 2, u16_at(d, p + 4) as nat, f),
        )
    } else {
        None
    }
}

/// A ligature set: a count and that many ligature offsets.
pub open spec fn ligature_set_extent(d: Seq<u8>, p: int) -> Option<int> {
    if fits_in(d, p, 2) && fits_in(d, p, 2 + 2 * u16_at(d, p)) {
        join3(2 + 2 * u16_at(d, p), Some(0), offsets_extent(d, p, 2, 2, u16_at(d, p) as nat, ligature_fn()))
    } else {
        None
    }
}

/// `ligature_set_extent` as a value.
pub open spec fn ligature_set_fn() -> spec_fn(Seq<u8>, int) -> Option<int> {
    |d: Seq<u8>, q: int| ligature_set_extent(d, q)
}

/// The extent of a subtable of lookup type `t` at `p`: single (1), multiple
/// (2), alternate (3) or ligature (4) substitution.
#[verifier::opaque]
pub open spec fn subtable_extent(t: u16, d: Seq<u8>, p: int) -> Option<int> {
    if t == 1 {
        single_extent(d, p)
    } else if t == 2 || t == 3 {
        sets_extent(d, p, glyphs_fn())
    } else if t == 4 {
        sets_extent(d, p, ligature_set_fn())
    } else {
        None
    }
}


/// `n` bytes from `p1` in `d1` are the `n` bytes from `p2` in `d2`.
pub open spec fn same(d1: Seq<u8>, p1: int, d2: Seq<u8>, p2: int, n: int) -> bool {
    &&& 0 <= p1
    &&& 0 <= p2
    &&& 0 <= n
    &&& p1 + n <= d1.len()
    &&& p2 + n <= d2.len()
    &&& d1.subrange(p1, p1 + n) == d2.subrange(p2, p2 + n)
}

/// An extent function is never negative, and a table read with it reads the
/// same from any other place holding the same bytes over its extent.
pub open spec fn local(f: spec_fn(Seq<u8>, int) -> Option<int>) -> bool {
    &&& forall|d: Seq<u8>, p: int| (#[trigger] f(d, p)) is Some ==> 0 <= f(d, p).unwrap()
    &&& forall|d1: Seq<u8>, p1: int, d2: Seq<u8>, p2: int, n: int|
        #![trigger f(d1, p1), same(d1, p1, d2, p2, n)]
        f(d1, p1) == Some(n) && same(d1, p1, d2, p2, n) ==> f(d2, p2) == Some(n)
}

/// The same `uint16` is read inside two equal ranges.
pub proof fn lemma_same_u16(d1: Seq<u8>, p1: int, d2: Seq<u8>, p2: int, n: int, x: int)
    requires
        same(d1, p1, d2, p2, n),
        0 <= x,
        x + 2 <= n,
    ensures
        u16_at(d1, p1 + x) == u16_at(d2, p2 + x),
{
    assert(d1.subrange(p1, p1 + n)[x] == d2.subrange(p2, p2 + n)[x]);
    assert(d1.subrange(p1, p1 + n)[x + 1] == d2.subrange(p2, p2 + n)[x + 1]);
}

/// Part of two equal ranges is equal.
pub proof fn lemma_same_narrow(d1: Seq<u8>, p1: int, d2: Seq<u8>, p2: int, n: int, x: int, m: int)
    requires
        same(d1, p1, d2, p2, n),
        0 <= x,
        0 <= m,
        x + m <= n,
    ensures
        same(d1, p1 + x, d2, p2 + x, m),
{
    assert(d1.subrange(p1 + x, p1 + x + m) =~= d1.subrange(p1, p1 + n).subrange(x, x + m));
    assert(d2.subrange(p2 + x, p2 + x + m) =~= d2.subrange(p2, p2 + n).subrange(x, x + m));
}

/// Children through offsets read the same from two equal ranges.
pub proof fn lemma_offsets_local(
    d1: Seq<u8>,
    p1: int,
    d2: Seq<u8>,
    p2: int,
    first: int,
    stride: int,
    n: nat,
    f: spec_fn(Seq<u8>, int) -> Option<int>,
    total: int,
)
    requires
        local(f),
        0 <= first,
        stride >= 2,
        n > 0 ==> first + stride * n + 2 - stride <= total,
        same(d1, p1, d2, p2, total),
        offsets_extent(d1, p1, first, stride, n, f) matches Some(m) && m <= total,
    ensures
        offsets_extent(d2, p2, first, stride, n, f) == offsets_extent(d1, p1, first, stride, n, f),
        offsets_extent(d1, p1, first, stride, n, f).unwrap() >= 0,
    decreases n,
{
    if n > 0 {
        let k = (n - 1) as nat;
        assert(stride * k + stride == stride * n) by (nonlinear_arith)
            requires
                k + 1 == n,
        ;
        assert(stride * k >= 0) by (nonlinear_arith)
            requires
                stride >= 2,
        ;
        let prev = offsets_extent(d1, p1, first, stride, k, f);
        assert(prev is Some);
        lemma_offsets_local(d1, p1, d2, p2, first, stride, k, f, total);
        let x = first + stride * k;
        lemma_same_u16(d1, p1, d2, p2, total, x);
        let off = u16_at(d1, p1 + x) as int;
        if off != 0 {
            let c = f(d1, p1 + off).unwrap();
            assert(f(d1, p1 + off) == Some(c));
            assert(0 <= c);
            lemma_same_narrow(d1, p1, d2, p2, total, off, c);
            assert(same(d1, p1 + off, d2, p2 + off, c));
            assert(f(d2, p2 + off) == Some(c));
        }
    }
}

/// A child through one offset reads the same from two equal ranges.
pub proof fn lemma_child_local(
    d1: Seq<u8>,
    p1: int,
    d2: Seq<u8>,
    p2: int,
    off: int,
    f: spec_fn(Seq<u8>, int) -> Option<int>,
    total: int,
)
    requires
        local(f),
        0 <= off,
        same(d1, p1, d2, p2, total),
        child_extent(d1, p1, off, f) matches Some(m) && m <= total,
    ensures
        child_extent(d2, p2, off, f) == child_extent(d1, p1, off, f),
        child_extent(d1, p1, off, f).unwrap() >= 0,
{
    if off != 0 {
        let c = f(d1, p1 + off).unwrap();
        assert(f(d1, p1 + off) == Some(c));
        lemma_same_narrow(d1, p1, d2, p2, total, off, c);
        assert(f(d2, p2 + off) == Some(c));
    }
}

/// Coverage tables are read locally.
pub proof fn lemma_coverage_local()
    ensures
        local(coverage_fn()),
{
    assert forall|d: Seq<u8>, p: int| (#[trigger] coverage_fn()(d, p)) is Some implies 0 <= coverage_fn()(d, p).unwrap() by {}
    assert forall|d1: Seq<u8>, p1: int, d2: Seq<u8>, p2: int, n: int|
        #![trigger coverage_fn()(d1, p1), same(d1, p1, d2, p2, n)]
        coverage_fn()(d1, p1) == Some(n) && same(d1, p1, d2, p2, n) implies coverage_fn()(d2, p2) == Some(n) by {
        lemma_same_u16(d1, p1, d2, p2, n, 0);
        lemma_same_u16(d1, p1, d2, p2, n, 2);
    }
}

/// Language system tables are read locally.
pub proof fn lemma_langsys_local()
    ensures
        local(langsys_fn()),
{
    assert forall|d: Seq<u8>, p: int| (#[trigger] langsys_fn()(d, p)) is Some implies 0 <= langsys_fn()(d, p).unwrap() by {}
    assert forall|d1: Seq<u8>, p1: int, d2: Seq<u8>, p2: int, n: int|
        #![trigger langsys_fn()(d1, p1), same(d1, p1, d2, p2, n)]
        langsys_fn()(d1, p1) == Some(n) && same(d1, p1, d2, p2, n) implies langsys_fn()(d2, p2) == Some(n) by {
        lemma_same_u16(d1, p1, d2, p2, n, 4);
    }
}

/// Glyph lists are read locally.
pub proof fn lemma_glyphs_local()
    ensures
        local(glyphs_fn()),
{
    assert forall|d: Seq<u8>, p: int| (#[trigger] glyphs_fn()(d, p)) is Some implies 0 <= glyphs_fn()(d, p).unwrap() by {}
    assert forall|d1: Seq<u8>, p1: int, d2: Seq<u8>, p2: int, n: int|
        #![trigger glyphs_fn()(d1, p1), same(d1, p1, d2, p2, n)]
        glyphs_fn()(d1, p1) == Some(n) && same(d1, p1, d2, p2, n) implies glyphs_fn()(d2, p2) == Some(n) by {
        lemma_same_u16(d1, p1, d2, p2, n, 0);
    }
}

/// Ligature tables are read locally.
pub proof fn lemma_ligature_local()
    ensures
        local(ligature_fn()),
{
    assert forall|d: Seq<u8>, p: int| (#[trigger] ligature_fn()(d, p)) is Some implies 0 <= ligature_fn()(d, p).unwrap() by {}
    assert forall|d1: Seq<u8>, p1: int, d2: Seq<u8>, p2: int, n: int|
        #![trigger ligature_fn()(d1, p1), same(d1, p1, d2, p2, n)]
        ligature_fn()(d1, p1) == Some(n) && same(d1, p1, d2, p2, n) implies ligature_fn()(d2, p2) == Some(n) by {
        lemma_same_u16(d1, p1, d2, p2, n, 2);
    }
}


/// Script tables are read locally.
pub proof fn lemma_script_local()
    ensures
        local(script_fn()),
{
    lemma_langsys_local();
    assert forall|d: Seq<u8>, p: int| (#[trigger] script_fn()(d, p)) is Some implies 0 <= script_fn()(d, p).unwrap() by {}
    assert forall|d1: Seq<u8>, p1: int, d2: Seq<u8>, p2: int, n: int|
        #![trigger script_fn()(d1, p1), same(d1, p1, d2, p2, n)]
        script_fn()(d1, p1) == Some(n) && same(d1, p1, d2, p2, n) implies script_fn()(d2, p2) == Some(n) by {
        lemma_same_u16(d1, p1, d2, p2, n, 0);
        lemma_same_u16(d1, p1, d2, p2, n, 2);
        let count = u16_at(d1, p1 + 2) as nat;
        lemma_child_local(d1, p1, d2, p2, u16_at(d1, p1) as int, langsys_fn(), n);
        lemma_offsets_local(d1, p1, d2, p2, 8, 6, count, langsys_fn(), n);
    }
}

/// Script lists are read locally.
pub proof fn lemma_script_list_local()
    ensures
        local(|d: Seq<u8>, q: int| script_list_extent(d, q)),
{
    reveal(script_list_extent);
    let f = |d: Seq<u8>, q: int| script_list_extent(d, q);
    lemma_script_local();
    assert forall|d: Seq<u8>, p: int| (#[trigger] f(d, p)) is Some implies 0 <= f(d, p).unwrap() by {}
    assert forall|d1: Seq<u8>, p1: int, d2: Seq<u8>, p2: int, n: int|
        #![trigger f(d1, p1), same(d1, p1, d2, p2, n)]
        f(d1, p1) == Some(n) && same(d1, p1, d2, p2, n) implies f(d2, p2) == Some(n) by {
        lemma_same_u16(d1, p1, d2, p2, n, 0);
        lemma_offsets_local(d1, p1, d2, p2, 6, 6, u16_at(d1, p1) as nat, script_fn(), n);
    }
}

/// The coverage of a subtable is read locally.
proof fn lemma_subtable_coverage_local(d1: Seq<u8>, p1: int, d2: Seq<u8>, p2: int, n: int)
    requires
        same(d1, p1, d2, p2, n),
        n >= 6,
        subtable_coverage_extent(d1, p1) matches Some(m) && m <= n,
    ensures
        subtable_coverage_extent(d2, p2) == subtable_coverage_extent(d1, p1),
{
    lemma_coverage_local();
    lemma_same_u16(d1, p1, d2, p2, n, 2);
    lemma_child_local(d1, p1, d2, p2, u16_at(d1, p1 + 2) as int, coverage_fn(), n);
}

/// Single substitution subtables are read locally.
pub proof fn lemma_single_local()
    ensures
        local(|d: Seq<u8>, q: int| single_extent(d, q)),
{
    let f = |d: Seq<u8>, q: int| single_extent(d, q);
    assert forall|d: Seq<u8>, p: int| (#[trigger] f(d, p)) is Some implies 0 <= f(d, p).unwrap() by {}
    assert forall|d1: Seq<u8>, p1: int, d2: Seq<u8>, p2: int, n: int|
        #![trigger f(d1, p1), same(d1, p1, d2, p2, n)]
        f(d1, p1) == Some(n) && same(d1, p1, d2, p2, n) implies f(d2, p2) == Some(n) by {
        lemma_same_u16(d1, p1, d2, p2, n, 0);
        lemma_same_u16(d1, p1, d2, p2, n, 4);
        lemma_subtable_coverage_local(d1, p1, d2, p2, n);
    }
}

/// Subtables made of a coverage and offsets to children with extent `f` are
/// read locally when those children are.
pub proof fn lemma_sets_local(f: spec_fn(Seq<u8>, int) -> Option<int>)
    requires
        local(f),
    ensures
        local(|d: Seq<u8>, q: int| sets_extent(d, q, f)),
{
    let g = |d: Seq<u8>, q: int| sets_extent(d, q, f);
    assert forall|d: Seq<u8>, p: int| (#[trigger] g(d, p)) is Some implies 0 <= g(d, p).unwrap() by {}
    assert forall|d1: Seq<u8>, p1: int, d2: Seq<u8>, p2: int, n: int|
        #![trigger g(d1, p1), same(d1, p1, d2, p2, n)]
        g(d1, p1) == Some(n) && same(d1, p1, d2, p2, n) implies g(d2, p2) == Some(n) by {
        lemma_same_u16(d1, p1, d2, p2, n, 0);
        lemma_same_u16(d1, p1, d2, p2, n, 4);
        lemma_subtable_coverage_local(d1, p1, d2, p2, n);
        lemma_offsets_local(d1, p1, d2, p2, 6, 2, u16_at(d1, p1 + 4) as nat, f, n);
    }
}

/// Ligature sets are read locally.
pub proof fn lemma_ligature_set_local()
    ensures
        local(ligature_set_fn()),
{
    lemma_ligature_local();
    assert forall|d: Seq<u8>, p: int| (#[trigger] ligature_set_fn()(d, p)) is Some implies 0 <= ligature_set_fn()(d, p).unwrap() by {}
    assert forall|d1: Seq<u8>, p1: int, d2: Seq<u8>, p2: int, n: int|
        #![trigger ligature_set_fn()(d1, p1), same(d1, p1, d2, p2, n)]
        ligature_set_fn()(d1, p1) == Some(n) && same(d1, p1, d2, p2, n) implies ligature_set_fn()(d2, p2) == Some(n) by {
        lemma_same_u16(d1, p1, d2, p2, n, 0);
        lemma_offsets_local(d1, p1, d2, p2, 2, 2, u16_at(d1, p1) as nat, ligature_fn(), n);
    }
}

/// No subtable starts at or past the end of the data.
pub proof fn lemma_subtable_extent_past_end(t: u16, d: Seq<u8>, q: int)
    requires
        q >= d.len(),
    ensures
        subtable_extent(t, d, q) is None,
{
    reveal(subtable_extent);
}

/// A script list whose extent is the whole of `b` reads as `b` wherever `b`
/// lies in `d`.
pub proof fn lemma_script_list_in_place(b: Seq<u8>, d: Seq<u8>, q: int)
    requires
        script_list_extent(b, 0) == Some(b.len() as int),
        0 <= q,
        q + b.len() <= d.len(),
        d.subrange(q, q + b.len()) == b,
    ensures
        script_list_extent(d, q) == Some(b.len() as int),
{
    lemma_script_list_local();
    let f = |e: Seq<u8>, r: int| script_list_extent(e, r);
    assert(b.subrange(0, b.len() as int) =~= b);
    assert(same(b, 0, d, q, b.len() as int));
    assert(f(b, 0) == Some(b.len() as int));
    assert(f(d, q) == Some(b.len() as int));
}

/// A subtable of type `t` (1 to 4) whose extent is the whole of `b` reads as
/// `b` wherever `b` lies in `d`.
pub proof fn lemma_subtable_in_place(t: u16, b: Seq<u8>, d: Seq<u8>, q: int)
    requires
        1 <= t <= 4,
        subtable_extent(t, b, 0) == Some(b.len() as int),
        0 <= q,
        q + b.len() <= d.len(),
        d.subrange(q, q + b.len()) == b,
    ensures
        subtable_extent(t, d, q) == Some(b.len() as int),
{
    reveal(subtable_extent);
    assert(b.subrange(0, b.len() as int) =~= b);
    assert(same(b, 0, d, q, b.len() as int));
    if t == 1 {
        lemma_single_local();
        let f = |e: Seq<u8>, r: int| single_extent(e, r);
        assert(f(b, 0) == Some(b.len() as int));
        assert(f(d, q) == Some(b.len() as int));
    } else if t == 4 {
        lemma_ligature_set_local();
        lemma_sets_local(ligature_set_fn());
        let f = |e: Seq<u8>, r: int| sets_extent(e, r, ligature_set_fn());
        assert(f(b, 0) == Some(b.len() as int));
        assert(f(d, q) == Some(b.len() as int));
    } else {
        lemma_glyphs_local();
        lemma_sets_local(glyphs_fn());
        let f = |e: Seq<u8>, r: int| sets_extent(e, r, glyphs_fn());
        assert(f(b, 0) == Some(b.len() as int));
        assert(f(d, q) == Some(b.len() as int));
    }
}

} // verus!
