//! Resolving an icon identifier to a glyph: a `0x` codepoint goes through
//! the character map; a ligature name maps each character to a glyph and
//! then walks the ligature substitution subtables for the one ligature whose
//! component glyphs spell the name.
//!
//! The font's decoded tables arrive as plain values: the character map as
//! `(codepoint, glyph)` pairs and each ligature subtable as its coverage
//! list and ligature sets.

use vstd::prelude::*;
use vstd::string::StrSliceExecFns;
use crate::error::IconNameError;

verus! {

/// One ligature: the component glyphs after the first, and the glyph the
/// whole sequence substitutes to.
pub struct Ligature {
    pub components: Vec<u32>,
    pub glyph: u32,
}

/// The ligatures that share one first glyph.
pub struct LigatureSet {
    pub ligatures: Vec<Ligature>,
}

/// One ligature substitution subtable: `coverage[i]` is the first glyph the
/// set `sets[i]` serves.
pub struct LigatureSubtable {
    pub coverage: Vec<u32>,
    pub sets: Vec<LigatureSet>,
}

/// A ligature matches when its component glyphs equal the name's glyphs
/// after the first.
pub open spec fn spec_liga_matches(liga: Ligature, rest: Seq<u32>) -> bool {
    liga.components@ == rest
}


/// A name written as a hex codepoint: the `0x` prefix and at least one digit.
pub open spec fn spec_is_hex_name(name: Seq<char>) -> bool {
    name.len() > 2 && name[0] == '0' && name[1] == 'x'
}

pub open spec fn spec_is_hex_digit(c: char) -> bool {
    ('0' <= c <= '9') || ('a' <= c <= 'f') || ('A' <= c <= 'F')
}

pub open spec fn spec_hex_digit_value(c: char) -> int {
    if '0' <= c <= '9' {
        c as int - 48
    } else if 'a' <= c <= 'f' {
        c as int - 87
    } else {
        c as int - 55
    }
}

/// The value of the hex digits from position `i` on, accumulated onto `acc`.
pub open spec fn spec_hex_value_from(name: Seq<char>, i: int, acc: int) -> int
    decreases name.len() - i,
{
    if i < 0 || i >= name.len() {
        acc
    } else {
        spec_hex_value_from(name, i + 1, acc * 16 + spec_hex_digit_value(name[i]))
    }
}

/// The glyph the character map gives first for this codepoint.
pub open spec fn spec_charmap_first(charmap: Seq<(u32, u32)>, codepoint: u32, gid: u32) -> bool {
    exists|i: int|
        0 <= i < charmap.len() && (#[trigger] charmap[i]).0 == codepoint && charmap[i].1 == gid
            && (forall|j: int| 0 <= j < i ==> charmap[j].0 != codepoint)
}

/// A ligature-name resolution: the characters map to glyphs through the
/// character map, and some subtable holds a ligature whose components spell
/// the glyphs after the first.
pub open spec fn spec_ligature_resolution(
    charmap: Seq<(u32, u32)>,
    subtables: Seq<LigatureSubtable>,
    name: Seq<char>,
    g: u32,
) -> bool {
    exists|gids: Seq<u32>|
        #![trigger gids.len()]
        {
            &&& gids.len() == name.len()
            &&& gids.len() >= 1
            &&& (forall|i: int|
                0 <= i < name.len() ==> spec_charmap_first(
                    charmap,
                    (#[trigger] name[i]) as u32,
                    gids[i],
                ))
            &&& exists|t: int, st: int, l: int|
                0 <= t < subtables.len() && 0 <= st < subtables[t].sets@.len() && 0 <= l
                    < subtables[t].sets@[st].ligatures@.len() && spec_liga_matches(
                    #[trigger] subtables[t].sets@[st].ligatures@[l],
                    gids.drop_first(),
                ) && subtables[t].sets@[st].ligatures@[l].glyph == g
        }
}

/// Whether any pair of the character map serves this codepoint.
pub open spec fn spec_mapped(charmap: Seq<(u32, u32)>, cp: u32) -> bool {
    exists|k: int| 0 <= k < charmap.len() && (#[trigger] charmap[k]).0 == cp
}

/// The canonical glyph sequence of a name: each character through the
/// character map, first pair winning.
pub open spec fn spec_name_glyphs(
    charmap: Seq<(u32, u32)>,
    name: Seq<char>,
    gs: Seq<u32>,
) -> bool {
    &&& gs.len() == name.len()
    &&& forall|i: int|
        0 <= i < name.len() ==> spec_charmap_first(charmap, (#[trigger] name[i]) as u32, gs[i])
}

/// The first coverage position holding this glyph.
pub open spec fn spec_cov_first(liga: LigatureSubtable, g: u32, ci: int) -> bool {
    &&& 0 <= ci < liga.coverage@.len()
    &&& liga.coverage@[ci] == g
    &&& forall|j: int| 0 <= j < ci ==> liga.coverage@[j] != g
}

/// Whether ligature `l` of the set spells the remaining glyphs.
pub open spec fn spec_set_match_at(set: LigatureSet, rest: Seq<u32>, l: int) -> bool {
    &&& 0 <= l < set.ligatures@.len()
    &&& spec_liga_matches(set.ligatures@[l], rest)
}

/// Whether one subtable substitutes these glyphs: the first glyph's first
/// coverage position has a set, and some ligature of it spells the rest.
pub open spec fn spec_subtable_resolves(liga: LigatureSubtable, gids: Seq<u32>) -> bool {
    exists|ci: int|
        #![trigger spec_cov_first(liga, gids[0], ci)]
        spec_cov_first(liga, gids[0], ci) && ci < liga.sets@.len() && exists|l: int|
            spec_set_match_at(liga.sets@[ci], gids.drop_first(), l)
}

/// The glyph one subtable gives: the first matching ligature of the set at
/// the first glyph's first coverage position.
pub open spec fn spec_subtable_glyph(liga: LigatureSubtable, gids: Seq<u32>, g: u32) -> bool {
    exists|ci: int, l: int|
        #![trigger spec_cov_first(liga, gids[0], ci), spec_set_match_at(liga.sets@[ci], gids.drop_first(), l)]
        {
            &&& spec_cov_first(liga, gids[0], ci)
            &&& ci < liga.sets@.len()
            &&& spec_set_match_at(liga.sets@[ci], gids.drop_first(), l)
            &&& (forall|l2: int| 0 <= l2 < l ==> !spec_set_match_at(
                liga.sets@[ci],
                gids.drop_first(),
                l2,
            ))
            &&& liga.sets@[ci].ligatures@[l].glyph == g
        }
}

/// The first pair for a codepoint is one pair: two first glyphs agree.
proof fn lemma_charmap_first_unique(charmap: Seq<(u32, u32)>, cp: u32, a: u32, b: u32)
    requires
        spec_charmap_first(charmap, cp, a),
        spec_charmap_first(charmap, cp, b),
    ensures
        a == b,
{
    let i1 = choose|i: int|
        0 <= i < charmap.len() && (#[trigger] charmap[i]).0 == cp && charmap[i].1 == a && (
        forall|j: int| 0 <= j < i ==> charmap[j].0 != cp);
    let i2 = choose|i: int|
        0 <= i < charmap.len() && (#[trigger] charmap[i]).0 == cp && charmap[i].1 == b && (
        forall|j: int| 0 <= j < i ==> charmap[j].0 != cp);
    if i1 < i2 {
        assert(charmap[i1].0 == cp);
    }
    if i2 < i1 {
        assert(charmap[i2].0 == cp);
    }
}

/// Two canonical glyph sequences of one name are the same sequence.
proof fn lemma_name_glyphs_unique(
    charmap: Seq<(u32, u32)>,
    name: Seq<char>,
    gs1: Seq<u32>,
    gs2: Seq<u32>,
)
    requires
        spec_name_glyphs(charmap, name, gs1),
        spec_name_glyphs(charmap, name, gs2),
    ensures
        gs1 == gs2,
{
    assert forall|i: int| 0 <= i < name.len() implies gs1[i] == gs2[i] by {
        lemma_charmap_first_unique(charmap, name[i] as u32, gs1[i], gs2[i]);
    }
    assert(gs1 =~= gs2);
}

/// Looks a glyph up in the character map: the first pair with the codepoint.
pub fn charmap_lookup(charmap: &Vec<(u32, u32)>, codepoint: u32) -> (r: Option<u32>)
    ensures
        r is Some <==> exists|i: int|
            0 <= i < charmap@.len() && (#[trigger] charmap@[i]).0 == codepoint,
        r matches Some(g) ==> exists|i: int|
            0 <= i < charmap@.len() && (#[trigger] charmap@[i]).0 == codepoint && charmap@[i].1
                == g && forall|j: int| 0 <= j < i ==> charmap@[j].0 != codepoint,
{
    let mut i: usize = 0;
    while i < charmap.len()
        invariant
            i <= charmap@.len(),
            forall|j: int| 0 <= j < i ==> (#[trigger] charmap@[j]).0 != codepoint,
        decreases charmap@.len() - i,
    {
        if charmap[i].0 == codepoint {
            return Some(charmap[i].1);
        }
        i = i + 1;
    }
    Option::None
}

/// The first index of `x` in `v`, if it occurs.
fn find_first(v: &Vec<u32>, x: u32) -> (r: Option<usize>)
    ensures
        r matches Some(ci) ==> ci < v@.len() && v@[ci as int] == x && (forall|j: int|
            0 <= j < ci ==> v@[j] != x),
        r is None ==> forall|j: int| 0 <= j < v@.len() ==> v@[j] != x,
{
    let mut i: usize = 0;
    while i < v.len()
        invariant
            i <= v@.len(),
            forall|j: int| 0 <= j < i ==> v@[j] != x,
        decreases v@.len() - i,
    {
        if v[i] == x {
            return Some(i);
        }
        i = i + 1;
    }
    Option::None
}

/// Seeks a ligature for glyphs `gids` in one subtable: the first glyph must
/// be covered, and one ligature of its set must spell the remaining glyphs.
/// Succeeds exactly when the subtable substitutes these glyphs, and then
/// gives the first matching ligature's glyph.
#[verifier::loop_isolation(false)]
#[verifier::rlimit(100)]
#[verifier::spinoff_prover]
pub fn resolve_ligature(liga: &LigatureSubtable, gids: &Vec<u32>) -> (r: Option<u32>)
    requires
        gids@.len() >= 1,
    ensures
        r is Some <==> spec_subtable_resolves(*liga, gids@),
        r matches Some(g) ==> spec_subtable_glyph(*liga, gids@, g),
        r matches Some(g) ==> exists|s: int, l: int|
            0 <= s < liga.sets@.len() && 0 <= l < liga.sets@[s].ligatures@.len()
                && spec_liga_matches(#[trigger] liga.sets@[s].ligatures@[l], gids@.drop_first())
                && liga.sets@[s].ligatures@[l].glyph == g,
{
    let first = gids[0];
    // The coverage position of the first glyph picks the set.
    let set_index = match find_first(&liga.coverage, first) {
        Some(ci) => ci,
        _ => {
            proof {
                assert(!spec_subtable_resolves(*liga, gids@)) by {
                    assert(forall|ci: int| !spec_cov_first(*liga, gids@[0], ci));
                }
            }
            return Option::None;
        },
    };
    proof {
        assert(spec_cov_first(*liga, gids@[0], set_index as int));
        assert forall|ci: int| spec_cov_first(*liga, gids@[0], ci) implies ci
            == set_index as int by {
            if ci < set_index {
                assert(liga.coverage@[ci] == gids@[0]);
            }
            if ci > set_index {
                assert(liga.coverage@[set_index as int] == gids@[0]);
            }
        }
    }
    if set_index >= liga.sets.len() {
        proof {
            assert(!spec_subtable_resolves(*liga, gids@));
        }
        return Option::None;
    }
    let set = &liga.sets[set_index];
    let mut l: usize = 0;
    while l < set.ligatures.len()
        invariant
            l <= set.ligatures@.len(),
            set_index < liga.sets@.len(),
            set == liga.sets@[set_index as int],
            forall|l2: int|
                0 <= l2 < l ==> !spec_set_match_at(
                    liga.sets@[set_index as int],
                    gids@.drop_first(),
                    l2,
                ),
        decreases set.ligatures@.len() - l,
    {
        let lig = &set.ligatures[l];
        if lig.components.len() == gids.len() - 1 {
            let mut m: usize = 0;
            let mut all_match = true;
            while m < lig.components.len()
                invariant
                    m <= lig.components@.len(),
                    lig.components@.len() == gids@.len() - 1,
                    lig == liga.sets@[set_index as int].ligatures@[l as int],
                    l < liga.sets@[set_index as int].ligatures@.len(),
                    all_match <==> (forall|q: int|
                        0 <= q < m ==> lig.components@[q] == gids@[q + 1]),
                decreases lig.components@.len() - m,
            {
                if lig.components[m] != gids[m + 1] {
                    all_match = false;
                }
                m = m + 1;
            }
            if all_match {
                proof {
                    assert(lig.components@ =~= gids@.drop_first());
                    assert(spec_set_match_at(
                        liga.sets@[set_index as int],
                        gids@.drop_first(),
                        l as int,
                    ));
                    assert(spec_subtable_glyph(*liga, gids@, lig.glyph));
                    assert(spec_subtable_resolves(*liga, gids@));
                }
                return Some(lig.glyph);
            } else {
                proof {
                    let q = choose|q: int|
                        0 <= q < lig.components@.len() && lig.components@[q] != gids@[q + 1];
                    assert(gids@.drop_first()[q] == gids@[q + 1]);
                    assert(!spec_set_match_at(
                        liga.sets@[set_index as int],
                        gids@.drop_first(),
                        l as int,
                    ));
                }
            }
        } else {
            proof {
                assert(!spec_set_match_at(
                    liga.sets@[set_index as int],
                    gids@.drop_first(),
                    l as int,
                ));
            }
        }
        l = l + 1;
    }
    proof {
        assert(!spec_subtable_resolves(*liga, gids@));
    }
    Option::None
}

/// Resolves an icon identifier: a `0x` prefix reads a hex codepoint through
/// the character map; otherwise each character of the name is mapped to a
/// glyph and the ligature subtables are searched, first match wins.
#[verifier::loop_isolation(false)]
#[verifier::rlimit(100)]
#[verifier::spinoff_prover]
pub fn icon_name_to_gid(
    charmap: &Vec<(u32, u32)>,
    subtables: &Vec<LigatureSubtable>,
    name: &str,
) -> (r: Result<u32, IconNameError>)
    ensures
        r matches Ok(g) ==> (spec_is_hex_name(name@) ==> spec_charmap_first(
            charmap@,
            spec_hex_value_from(name@, 2, 0) as u32,
            g,
        )),
        r matches Ok(g) ==> (!spec_is_hex_name(name@) ==> spec_ligature_resolution(
            charmap@,
            subtables@,
            name@,
            g,
        )),
        r matches Err(e) ==> (e matches IconNameError::InvalidCodepoint(n) ==> spec_is_hex_name(
            name@,
        ) && n@ == name@ && ((exists|i: int|
            2 <= i < name@.len() && !spec_is_hex_digit(#[trigger] name@[i])) || name@.len() > 8)),
        r matches Err(e) ==> (e matches IconNameError::UnmappedCodepoint(cp) ==> spec_is_hex_name(
            name@,
        ) && cp as int == spec_hex_value_from(name@, 2, 0) && (forall|i: int|
            0 <= i < charmap@.len() ==> (#[trigger] charmap@[i]).0 != cp)),
        r matches Err(e) ==> (e matches IconNameError::UnmappedCharError(c) ==> !spec_is_hex_name(
            name@,
        ) && !spec_mapped(charmap@, c as u32) && (exists|i: int|
            0 <= i < name@.len() && #[trigger] name@[i] == c && (forall|j: int|
                0 <= j < i ==> spec_mapped(charmap@, name@[j] as u32)))),
        (!spec_is_hex_name(name@) && (exists|i: int|
            0 <= i < name@.len() && !spec_mapped(charmap@, (#[trigger] name@[i]) as u32))) ==> (
        r matches Err(e) && e is UnmappedCharError),
        r matches Ok(g) ==> (!spec_is_hex_name(name@) ==> (forall|gs: Seq<u32>|
            #[trigger] spec_name_glyphs(charmap@, name@, gs) ==> exists|t: int|
                0 <= t < subtables@.len() && spec_subtable_glyph(subtables@[t], gs, g) && (
                forall|t2: int| 0 <= t2 < t ==> !spec_subtable_resolves(subtables@[t2], gs)))),
        r matches Err(e) ==> (e matches IconNameError::NoGlyphIds(n) ==> !spec_is_hex_name(name@)
            && n@ == name@ && name@.len() == 0),
        r matches Err(e) ==> (e matches IconNameError::NoLigature(n) ==> !spec_is_hex_name(name@)
            && n@ == name@ && name@.len() >= 1 && (forall|i: int|
            0 <= i < name@.len() ==> spec_mapped(charmap@, (#[trigger] name@[i]) as u32)) && (
        forall|gs: Seq<u32>|
            #[trigger] spec_name_glyphs(charmap@, name@, gs) ==> (forall|t: int|
                0 <= t < subtables@.len() ==> !spec_subtable_resolves(
                    #[trigger] subtables@[t],
                    gs,
                )))),
{
    let n = name.unicode_len();
    // A codepoint written in hex.
    if n > 2 && name.get_char(0) == '0' && name.get_char(1) == 'x' {
        let mut cp: u32 = 0;
        let mut i: usize = 2;
        while i < n
            invariant
                2 <= i <= n,
                n == name@.len(),
                cp <= 0xFF_FF_FF,
                i <= 2 ==> cp == 0,
                i <= 3 ==> cp <= 0xF,
                i <= 4 ==> cp <= 0xFF,
                i <= 5 ==> cp <= 0xFFF,
                i <= 6 ==> cp <= 0xFFFF,
                i <= 7 ==> cp <= 0xF_FF_FF,
                spec_hex_value_from(name@, i as int, cp as int) == spec_hex_value_from(name@, 2, 0),
            decreases n - i,
        {
            let c = name.get_char(i);
            let d: u32 = if '0' <= c && c <= '9' {
                (c as u32) - 48
            } else if 'a' <= c && c <= 'f' {
                (c as u32) - 87
            } else if 'A' <= c && c <= 'F' {
                (c as u32) - 55
            } else {
                proof {
                    assert(2 <= (i as int) && (i as int) < name@.len() && !spec_is_hex_digit(name@[i as int]));
                }
                return Err(IconNameError::InvalidCodepoint(clone_str(name)));
            };
            if cp > 0xF_FF_FF {
                proof {
                    assert(i >= 8);
                    assert(name@.len() > 8);
                }
                return Err(IconNameError::InvalidCodepoint(clone_str(name)));
            }
            proof {
                assert(d as int == spec_hex_digit_value(name@[i as int]));
            }
            cp = cp * 16 + d;
            i = i + 1;
        }
        proof {
            assert(spec_hex_value_from(name@, n as int, cp as int) == cp as int);
            assert(cp as int == spec_hex_value_from(name@, 2, 0));
        }
        let looked = charmap_lookup(charmap, cp);
        match looked {
            Some(g) => {
                proof {
                    assert(spec_charmap_first(charmap@, cp, g));
                }
                return Ok(g);
            },
            _ => {
                return Err(IconNameError::UnmappedCodepoint(cp));
            },
        }
    }
    // A ligature name: map each character.
    let mut gids: Vec<u32> = Vec::new();
    let mut i: usize = 0;
    while i < n
        invariant
            i <= n,
            n == name@.len(),
            gids@.len() == i,
            forall|q: int|
                0 <= q < i ==> spec_charmap_first(charmap@, (#[trigger] name@[q]) as u32, gids@[q]),
        decreases n - i,
    {
        let c = name.get_char(i);
        match charmap_lookup(charmap, c as u32) {
            Some(g) => {
                gids.push(g);
            },
            _ => {
                proof {
                    assert(name@[i as int] == c);
                    assert forall|j: int| 0 <= j < i implies spec_mapped(
                        charmap@,
                        name@[j] as u32,
                    ) by {
                        assert(spec_charmap_first(charmap@, name@[j] as u32, gids@[j]));
                    }
                }
                return Err(IconNameError::UnmappedCharError(c));
            },
        }
        i = i + 1;
    }
    proof {
        assert forall|q: int| 0 <= q < name@.len() implies spec_mapped(
            charmap@,
            (#[trigger] name@[q]) as u32,
        ) by {
            assert(spec_charmap_first(charmap@, name@[q] as u32, gids@[q]));
        }
    }
    if gids.len() == 0 {
        return Err(IconNameError::NoGlyphIds(clone_str(name)));
    }
    let mut t: usize = 0;
    while t < subtables.len()
        invariant
            t <= subtables@.len(),
            n == name@.len(),
            gids@.len() == n,
            gids@.len() >= 1,
            forall|q: int|
                0 <= q < n ==> spec_charmap_first(charmap@, (#[trigger] name@[q]) as u32, gids@[q]),
            forall|t2: int|
                0 <= t2 < t ==> !spec_subtable_resolves(#[trigger] subtables@[t2], gids@),
        decreases subtables@.len() - t,
    {
        match resolve_ligature(&subtables[t], &gids) {
            Some(g) => {
                proof {
                    assert(spec_ligature_resolution(charmap@, subtables@, name@, g)) by {
                        assert(gids@.len() == name@.len());
                        assert(exists|t2: int, st: int, l: int|
                            0 <= t2 < subtables@.len() && 0 <= st < subtables@[t2].sets@.len() && 0
                                <= l < subtables@[t2].sets@[st].ligatures@.len()
                                && spec_liga_matches(
                                #[trigger] subtables@[t2].sets@[st].ligatures@[l],
                                gids@.drop_first(),
                            ) && subtables@[t2].sets@[st].ligatures@[l].glyph == g) by {
                            let (st, l): (int, int) = choose|st: int, l: int|
                                0 <= st < subtables@[t as int].sets@.len() && 0 <= l < subtables@[
                                t as int].sets@[st].ligatures@.len() && spec_liga_matches(
                                    #[trigger] subtables@[t as int].sets@[st].ligatures@[l],
                                    gids@.drop_first(),
                                ) && subtables@[t as int].sets@[st].ligatures@[l].glyph == g;
                            assert(0 <= (t as int) && (t as int) < subtables@.len());
                        }
                    }
                }
                proof {
                    assert(spec_name_glyphs(charmap@, name@, gids@));
                    assert forall|gs: Seq<u32>|
                        #[trigger] spec_name_glyphs(charmap@, name@, gs) implies exists|t3: int|
                        0 <= t3 < subtables@.len() && spec_subtable_glyph(subtables@[t3], gs, g)
                            && (forall|t2: int|
                            0 <= t2 < t3 ==> !spec_subtable_resolves(
                                subtables@[t2],
                                gs,
                            )) by {
                        lemma_name_glyphs_unique(charmap@, name@, gs, gids@);
                        assert(spec_subtable_glyph(subtables@[t as int], gs, g));
                        assert(forall|t2: int|
                            0 <= t2 < t ==> !spec_subtable_resolves(
                                #[trigger] subtables@[t2],
                                gs,
                            ));
                    }
                }
                return Ok(g);
            },
            _ => {},
        }
        t = t + 1;
    }
    proof {
        assert(spec_name_glyphs(charmap@, name@, gids@));
        assert forall|gs: Seq<u32>|
            #[trigger] spec_name_glyphs(charmap@, name@, gs) implies (forall|t3: int|
            0 <= t3 < subtables@.len() ==> !spec_subtable_resolves(
                #[trigger] subtables@[t3],
                gs,
            )) by {
            lemma_name_glyphs_unique(charmap@, name@, gs, gids@);
        }
    }
    Err(IconNameError::NoLigature(clone_str(name)))
}

fn clone_str(s: &str) -> (r: String)
    ensures
        r@ == s@,
{
    let r: String = s.to_owned();
    r
}

} // verus!
