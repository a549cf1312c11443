//! The layout of the tables kept encoded, stated directly over their bytes:
//! where a table lies and how large OpenType says each part of it is.
//!
//! A table is *inside* a byte string when its fixed fields, its arrays and
//! every table that one of its non-null offsets points at, to their full
//! size, lie within that string. The lemmas here show that a table whose
//! extent is found (`extent.rs`) is inside the bytes of that extent.
use vstd::prelude::*;
use crate::extent::{
    child_extent, coverage_extent, coverage_fn, glyphs_extent, glyphs_fn, langsys_extent,
    langsys_fn, lemma_glyphs_local, lemma_ligature_set_local, lemma_script_list_local,
    lemma_sets_local, lemma_single_local, ligature_extent, ligature_fn, ligature_set_extent,
    ligature_set_fn, offsets_extent, same, script_extent, script_fn, script_list_extent,
    sets_extent, single_extent, subtable_coverage_extent, subtable_extent,
};
use crate::wire::u16_at;

verus! {

/// The two bytes at position `x` of `s`, read as a big-endian number.
pub open spec fn word(s: Seq<u8>, x: int) -> int {
    s[x] as int * 256 + s[x + 1] as int
}

/// `k` bytes from position `q` lie within `s`.
pub open spec fn inside(s: Seq<u8>, q: int, k: int) -> bool {
    0 <= q && 0 <= k && q + k <= s.len()
}

/// A coverage table at `q` lies within `s`: format 1, a glyph count and two
/// bytes per glyph, or format 2, a range count and six bytes per range
/// record.
pub open spec fn coverage_inside(s: Seq<u8>, q: int) -> bool {
    &&& inside(s, q, 4)
    &&& {
        ||| word(s, q) == 1 && inside(s, q, 4 + 2 * word(s, q + 2))
        ||| word(s, q) == 2 && inside(s, q, 4 + 6 * word(s, q + 2))
    }
}

/// A language system table at `q` lies within `s`: lookup order offset,
/// required feature index, feature index count, then the feature indices.
pub open spec fn langsys_inside(s: Seq<u8>, q: int) -> bool {
    inside(s, q, 6) && inside(s, q, 6 + 2 * word(s, q + 4))
}

/// A script table at `q` lies within `s`: its default language system
/// offset, its count of language system records (a tag and an offset each),
/// and every language system table that one of those offsets points at.
pub open spec fn script_inside(s: Seq<u8>, q: int) -> bool {
    &&& inside(s, q, 4)
    &&& inside(s, q, 4 + 6 * word(s, q + 2))
    &&& (word(s, q) != 0 ==> langsys_inside(s, q + word(s, q)))
    &&& forall|i: int|
        0 <= i < word(s, q + 2) && #[trigger] word(s, q + 8 + 6 * i) != 0 ==> langsys_inside(
            s,
            q + word(s, q + 8 + 6 * i),
        )
}

/// A script list that is all of `s` holds everything it points at: its
/// count of script records (a tag and an offset each) and every script
/// table, with its language systems, that one of those offsets points at.
pub open spec fn script_list_inside(s: Seq<u8>) -> bool {
    &&& inside(s, 0, 2)
    &&& inside(s, 0, 2 + 6 * word(s, 0))
    &&& forall|i: int|
        0 <= i < word(s, 0) && #[trigger] word(s, 6 + 6 * i) != 0 ==> script_inside(s, word(s, 6 + 6 * i))
}

/// A single substitution subtable that is all of `s` holds everything it
/// points at: format 1 (coverage offset and delta) or format 2 (coverage
/// offset, glyph count and the substitute glyphs), and its coverage.
pub open spec fn single_inside(s: Seq<u8>) -> bool {
    &&& inside(s, 0, 6)
    &&& (word(s, 0) == 1 || word(s, 0) == 2 && inside(s, 0, 6 + 2 * word(s, 4)))
    &&& word(s, 2) != 0
    &&& coverage_inside(s, word(s, 2))
}

/// A glyph list at `q` lies within `s`: a count and two bytes per glyph (a
/// sequence table or an alternate set).
pub open spec fn glyph_list_inside(s: Seq<u8>, q: int) -> bool {
    inside(s, q, 2) && inside(s, q, 2 + 2 * word(s, q))
}

/// A ligature table at `q` lies within `s`: the ligature glyph, a component
/// count of at least one, and the components after the first.
pub open spec fn ligature_inside(s: Seq<u8>, q: int) -> bool {
    inside(s, q, 4) && word(s, q + 2) >= 1 && inside(s, q, 2 + 2 * word(s, q + 2))
}

/// A ligature set at `q` lies within `s`: a count, the ligature offsets and
/// every ligature table that one of them points at.
pub open spec fn ligature_set_inside(s: Seq<u8>, q: int) -> bool {
    &&& inside(s, q, 2)
    &&& inside(s, q, 2 + 2 * word(s, q))
    &&& forall|i: int|
        0 <= i < word(s, q) && #[trigger] word(s, q + 2 + 2 * i) != 0 ==> ligature_inside(
            s,
            q + word(s, q + 2 + 2 * i),
        )
}

/// A multiple or alternate substitution subtable that is all of `s` holds
/// everything it points at: format 1, its coverage, its count of offsets and
/// every glyph list that one of them points at.
pub open spec fn glyph_sets_inside(s: Seq<u8>) -> bool {
    &&& inside(s, 0, 6)
    &&& word(s, 0) == 1
    &&& word(s, 2) != 0
    &&& coverage_inside(s, word(s, 2))
    &&& inside(s, 0, 6 + 2 * word(s, 4))
    &&& forall|i: int|
        0 <= i < word(s, 4) && #[trigger] word(s, 6 + 2 * i) != 0 ==> glyph_list_inside(s, word(s, 6 + 2 * i))
}

/// A ligature substitution subtable that is all of `s` holds everything it
/// points at: format 1, its coverage, its count of ligature set offsets and
/// every ligature set that one of them points at.
pub open spec fn ligature_sets_inside(s: Seq<u8>) -> bool {
    &&& inside(s, 0, 6)
    &&& word(s, 0) == 1
    &&& word(s, 2) != 0
    &&& coverage_inside(s, word(s, 2))
    &&& inside(s, 0, 6 + 2 * word(s, 4))
    &&& forall|i: int|
        0 <= i < word(s, 4) && #[trigger] word(s, 6 + 2 * i) != 0 ==> ligature_set_inside(s, word(s, 6 + 2 * i))
}

/// A subtable of lookup type `t` that is all of `s` holds everything it
/// points at.
pub open spec fn subtable_inside(t: u16, s: Seq<u8>) -> bool {
    if t == 1 {
        single_inside(s)
    } else if t == 2 || t == 3 {
        glyph_sets_inside(s)
    } else if t == 4 {
        ligature_sets_inside(s)
    } else {
        false
    }
}

/// `u16_at` is the big-endian word.
pub proof fn lemma_words(s: Seq<u8>)
    ensures
        forall|x: int| #[trigger] u16_at(s, x) as int == word(s, x),
{
}

/// Every non-null offset counted in a list whose extent is found points at
/// a child whose extent is found.
proof fn lemma_offsets_children(
    d: Seq<u8>,
    p: int,
    first: int,
    stride: int,
    n: nat,
    f: spec_fn(Seq<u8>, int) -> Option<int>,
)
    requires
        offsets_extent(d, p, first, stride, n, f) is Some,
    ensures
        forall|i: int|
            0 <= i < n && #[trigger] u16_at(d, p + first + stride * i) != 0 ==> f(
                d,
                p + u16_at(d, p + first + stride * i),
            ) is Some,
    decreases n,
{
    if n > 0 {
        lemma_offsets_children(d, p, first, stride, (n - 1) as nat, f);
    }
}

/// A coverage table whose extent is found lies within the data.
pub proof fn lemma_coverage_inside(s: Seq<u8>, q: int)
    requires
        coverage_extent(s, q) is Some,
    ensures
        coverage_inside(s, q),
{
    lemma_words(s);
}

/// A script table whose extent is found lies within the data, with its
/// language systems.
pub proof fn lemma_script_inside(s: Seq<u8>, q: int)
    requires
        script_extent(s, q) is Some,
    ensures
        script_inside(s, q),
{
    lemma_words(s);
    let n = u16_at(s, q + 2) as nat;
    lemma_offsets_children(s, q, 8, 6, n, langsys_fn());
    assert forall|i: int|
        0 <= i < word(s, q + 2) && #[trigger] word(s, q + 8 + 6 * i) != 0 implies langsys_inside(
            s,
            q + word(s, q + 8 + 6 * i),
        ) by {
        assert(u16_at(s, q + 8 + 6 * i) != 0);
        assert(langsys_fn()(s, q + u16_at(s, q + 8 + 6 * i)) is Some);
    }
}

/// A script list whose extent is found at the start of `s` holds everything
/// it points at.
pub proof fn lemma_script_list_inside(s: Seq<u8>)
    requires
        script_list_extent(s, 0) is Some,
    ensures
        script_list_inside(s),
{
    reveal(script_list_extent);
    lemma_words(s);
    let n = u16_at(s, 0) as nat;
    lemma_offsets_children(s, 0, 6, 6, n, script_fn());
    assert forall|i: int|
        0 <= i < word(s, 0) && #[trigger] word(s, 6 + 6 * i) != 0 implies script_inside(s, word(s, 6 + 6 * i)) by {
        assert(0 + 6 + 6 * i == 6 + 6 * i);
        assert(u16_at(s, 0 + 6 + 6 * i) != 0);
        assert(script_fn()(s, 0 + u16_at(s, 0 + 6 + 6 * i)) is Some);
        lemma_script_inside(s, word(s, 6 + 6 * i));
    }
}

/// A ligature set whose extent is found lies within the data, with its
/// ligatures.
pub proof fn lemma_ligature_set_inside(s: Seq<u8>, q: int)
    requires
        ligature_set_extent(s, q) is Some,
    ensures
        ligature_set_inside(s, q),
{
    lemma_words(s);
    let n = u16_at(s, q) as nat;
    lemma_offsets_children(s, q, 2, 2, n, ligature_fn());
    assert forall|i: int|
        0 <= i < word(s, q) && #[trigger] word(s, q + 2 + 2 * i) != 0 implies ligature_inside(
            s,
            q + word(s, q + 2 + 2 * i),
        ) by {
        assert(u16_at(s, q + 2 + 2 * i) != 0);
        assert(ligature_fn()(s, q + u16_at(s, q + 2 + 2 * i)) is Some);
    }
}

/// A subtable of type `t` whose extent is found at the start of `s` holds
/// everything it points at.
pub proof fn lemma_subtable_inside(t: u16, s: Seq<u8>)
    requires
        subtable_extent(t, s, 0) is Some,
    ensures
        subtable_inside(t, s),
{
    reveal(subtable_extent);
    lemma_words(s);
    if t == 1 {
        assert(subtable_coverage_extent(s, 0) is Some);
        lemma_coverage_inside(s, 0int + u16_at(s, 0int + 2));
    } else {
        assert(subtable_coverage_extent(s, 0) is Some);
        lemma_coverage_inside(s, 0int + u16_at(s, 0int + 2));
        let n = u16_at(s, 4) as nat;
        if t == 4 {
            lemma_offsets_children(s, 0, 6, 2, n, ligature_set_fn());
            assert forall|i: int|
                0 <= i < word(s, 4) && #[trigger] word(s, 6 + 2 * i) != 0 implies ligature_set_inside(
                    s,
                    word(s, 6 + 2 * i),
                ) by {
                assert(0 + 6 + 2 * i == 6 + 2 * i);
                assert(u16_at(s, 0 + 6 + 2 * i) != 0);
                assert(ligature_set_fn()(s, 0 + u16_at(s, 0 + 6 + 2 * i)) is Some);
                lemma_ligature_set_inside(s, word(s, 6 + 2 * i));
            }
        } else {
            lemma_offsets_children(s, 0, 6, 2, n, glyphs_fn());
            assert forall|i: int|
                0 <= i < word(s, 4) && #[trigger] word(s, 6 + 2 * i) != 0 implies glyph_list_inside(
                    s,
                    word(s, 6 + 2 * i),
                ) by {
                assert(0 + 6 + 2 * i == 6 + 2 * i);
                assert(u16_at(s, 0 + 6 + 2 * i) != 0);
                assert(glyphs_fn()(s, 0 + u16_at(s, 0 + 6 + 2 * i)) is Some);
            }
        }
    }
}

/// Every extent that `f` finds lies within the data.
pub open spec fn fits_fn(f: spec_fn(Seq<u8>, int) -> Option<int>) -> bool {
    forall|d: Seq<u8>, p: int| #[trigger] f(d, p) matches Some(m) ==> 0 <= p && 0 <= m && p + m <= d.len()
}

/// The children that a list of offsets points at end within the data.
proof fn lemma_offsets_fit(
    d: Seq<u8>,
    p: int,
    first: int,
    stride: int,
    n: nat,
    f: spec_fn(Seq<u8>, int) -> Option<int>,
)
    requires
        fits_fn(f),
        offsets_extent(d, p, first, stride, n, f) is Some,
    ensures
        ({
            let m = offsets_extent(d, p, first, stride, n, f).unwrap();
            0 <= m && (m == 0 || p + m <= d.len())
        }),
    decreases n,
{
    if n > 0 {
        lemma_offsets_fit(d, p, first, stride, (n - 1) as nat, f);
        let off = u16_at(d, p + first + stride * (n - 1)) as int;
        if off != 0 {
            assert(f(d, p + off) is Some);
        }
    }
}

/// The child that one offset points at ends within the data.
proof fn lemma_child_fit(d: Seq<u8>, p: int, off: int, f: spec_fn(Seq<u8>, int) -> Option<int>)
    requires
        fits_fn(f),
        0 <= off,
        child_extent(d, p, off, f) is Some,
    ensures
        ({
            let m = child_extent(d, p, off, f).unwrap();
            0 <= m && (m == 0 || p + m <= d.len())
        }),
{
    if off != 0 {
        assert(f(d, p + off) is Some);
    }
}

/// The tables without offsets end within the data.
proof fn lemma_leaves_fit()
    ensures
        fits_fn(coverage_fn()),
        fits_fn(langsys_fn()),
        fits_fn(glyphs_fn()),
        fits_fn(ligature_fn()),
{
}

/// Script tables end within the data.
proof fn lemma_script_fits()
    ensures
        fits_fn(script_fn()),
{
    lemma_leaves_fit();
    assert forall|d: Seq<u8>, p: int| (#[trigger] script_fn()(d, p)) is Some implies 0 <= p && 0 <= script_fn()(d, p).unwrap() && p + script_fn()(d, p).unwrap() <= d.len() by {
        {
            lemma_child_fit(d, p, u16_at(d, p) as int, langsys_fn());
            lemma_offsets_fit(d, p, 8, 6, u16_at(d, p + 2) as nat, langsys_fn());
        }
    }
}

/// Ligature sets end within the data.
proof fn lemma_ligature_set_fits()
    ensures
        fits_fn(ligature_set_fn()),
{
    lemma_leaves_fit();
    assert forall|d: Seq<u8>, p: int| (#[trigger] ligature_set_fn()(d, p)) is Some implies 0 <= p && 0 <= ligature_set_fn()(d, p).unwrap() && p + ligature_set_fn()(d, p).unwrap() <= d.len() by {
        {
            lemma_offsets_fit(d, p, 2, 2, u16_at(d, p) as nat, ligature_fn());
        }
    }
}

/// A subtable made of a coverage and offsets to children ends within the data.
proof fn lemma_sets_fit(d: Seq<u8>, p: int, f: spec_fn(Seq<u8>, int) -> Option<int>)
    requires
        fits_fn(f),
        sets_extent(d, p, f) is Some,
    ensures
        0 <= p,
        0 <= sets_extent(d, p, f).unwrap(),
        p + sets_extent(d, p, f).unwrap() <= d.len(),
{
    lemma_leaves_fit();
    lemma_child_fit(d, p, u16_at(d, p + 2) as int, coverage_fn());
    lemma_offsets_fit(d, p, 6, 2, u16_at(d, p + 4) as nat, f);
}

/// The script list at `o` of `d`, cut to its extent, holds everything it
/// points at.
pub proof fn lemma_script_list_cut(d: Seq<u8>, o: int)
    requires
        script_list_extent(d, o) is Some,
    ensures
        0 <= o,
        0 <= script_list_extent(d, o).unwrap(),
        o + script_list_extent(d, o).unwrap() <= d.len(),
        script_list_inside(d.subrange(o, o + script_list_extent(d, o).unwrap())),
{
    let n = script_list_extent(d, o).unwrap();
    assert(0 <= o && 0 <= n && o + n <= d.len()) by {
        reveal(script_list_extent);
        lemma_script_fits();
        lemma_offsets_fit(d, o, 6, 6, u16_at(d, o) as nat, script_fn());
    }
    let s = d.subrange(o, o + n);
    assert(s.subrange(0, n) =~= s);
    assert(same(d, o, s, 0, n));
    lemma_script_list_local();
    let f = |e: Seq<u8>, r: int| script_list_extent(e, r);
    assert(f(d, o) == Some(n));
    assert(f(s, 0) == Some(n));
    lemma_script_list_inside(s);
}

/// Subtable of type `t` at `q` of `d`, cut to its extent, holds everything
/// it points at.
pub proof fn lemma_subtable_cut(t: u16, d: Seq<u8>, q: int)
    requires
        1 <= t <= 4,
        subtable_extent(t, d, q) is Some,
    ensures
        0 <= q,
        0 <= subtable_extent(t, d, q).unwrap(),
        q + subtable_extent(t, d, q).unwrap() <= d.len(),
        subtable_inside(t, d.subrange(q, q + subtable_extent(t, d, q).unwrap())),
{
    reveal(subtable_extent);
    let n = subtable_extent(t, d, q).unwrap();
    lemma_leaves_fit();
    if t == 1 {
        lemma_child_fit(d, q, u16_at(d, q + 2) as int, coverage_fn());
    } else if t == 4 {
        lemma_ligature_set_fits();
        lemma_sets_fit(d, q, ligature_set_fn());
    } else {
        lemma_sets_fit(d, q, glyphs_fn());
    }
    let s = d.subrange(q, q + n);
    assert(s.subrange(0, n) =~= s);
    assert(same(d, q, s, 0, n));
    if t == 1 {
        lemma_single_local();
        let f = |e: Seq<u8>, r: int| single_extent(e, r);
        assert(f(d, q) == Some(n));
        assert(f(s, 0) == Some(n));
    } else if t == 4 {
        lemma_ligature_set_local();
        lemma_sets_local(ligature_set_fn());
        let f = |e: Seq<u8>, r: int| sets_extent(e, r, ligature_set_fn());
        assert(f(d, q) == Some(n));
        assert(f(s, 0) == Some(n));
    } else {
        lemma_glyphs_local();
        lemma_sets_local(glyphs_fn());
        let f = |e: Seq<u8>, r: int| sets_extent(e, r, glyphs_fn());
        assert(f(d, q) == Some(n));
        assert(f(s, 0) == Some(n));
    }
    assert(subtable_extent(t, s, 0) == Some(n));
    lemma_subtable_inside(t, s);
}

} // verus!
