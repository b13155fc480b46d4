//! Watchlist merging.
//!
//! The default and the user watchlist are merged: both are sorted by
//! instrument name, custom entries whose identifier is already present
//! are dropped, and the result is sorted by name again. The sort is
//! pinned exactly by a spec-level stable insertion sort.

use vstd::prelude::*;
use vstd::string::StrSliceExecFns;
use crate::models::Instrument;

verus! {

/// Lexicographic order on scalar values, the order `String` comparison
/// uses.
pub open spec fn lex_le(a: Seq<char>, b: Seq<char>) -> bool
    decreases a.len(),
{
    if a.len() == 0 {
        true
    } else if b.len() == 0 {
        false
    } else if (a[0] as u32) < (b[0] as u32) {
        true
    } else if (a[0] as u32) > (b[0] as u32) {
        false
    } else {
        lex_le(a.drop_first(), b.drop_first())
    }
}

/// Whether `a` sorts at or before `b`.
pub fn str_le(a: &str, b: &str) -> (r: bool)
    ensures
        r == lex_le(a@, b@),
{
    let na: usize = a.unicode_len();
    let nb: usize = b.unicode_len();
    proof {
        assert(a@.skip(0) =~= a@);
        assert(b@.skip(0) =~= b@);
    }
    let mut i: usize = 0;
    while i < na && i < nb
        invariant
            i <= na,
            i <= nb,
            na == a@.len(),
            nb == b@.len(),
            lex_le(a@, b@) == lex_le(a@.skip(i as int), b@.skip(i as int)),
        decreases na - i,
    {
        let ca: u32 = a.get_char(i) as u32;
        let cb: u32 = b.get_char(i) as u32;
        if ca < cb {
            return true;
        }
        if ca > cb {
            return false;
        }
        proof {
            assert(a@.skip(i as int).drop_first() =~= a@.skip(i + 1));
            assert(b@.skip(i as int).drop_first() =~= b@.skip(i + 1));
            assert(a@.skip(i as int)[0] == a@[i as int]);
            assert(b@.skip(i as int)[0] == b@[i as int]);
        }
        i = i + 1;
    }
    proof {
        if i >= na {
            assert(a@.skip(i as int).len() == 0);
        } else {
            assert(b@.skip(i as int).len() == 0);
            assert(a@.skip(i as int).len() > 0);
        }
    }
    na <= nb
}

/// Stable insertion of an instrument into a name-sorted run: it goes
/// after every entry whose name is not greater.
pub open spec fn insert_by_name(x: Instrument, s: Seq<Instrument>) -> Seq<Instrument>
    decreases s.len(),
{
    if s.len() == 0 {
        seq![x]
    } else if lex_le(s[0].name@, x.name@) {
        seq![s[0]] + insert_by_name(x, s.drop_first())
    } else {
        seq![x] + s
    }
}

/// Stable sort by instrument name.
pub open spec fn sort_by_name(s: Seq<Instrument>) -> Seq<Instrument>
    decreases s.len(),
{
    if s.len() == 0 {
        Seq::empty()
    } else {
        insert_by_name(s.last(), sort_by_name(s.drop_last()))
    }
}

proof fn lemma_insert_name_at(x: Instrument, s: Seq<Instrument>, j: int)
    requires
        0 <= j <= s.len(),
        forall|t: int| 0 <= t < j ==> lex_le((#[trigger] s[t]).name@, x.name@),
        j == s.len() || !lex_le(s[j].name@, x.name@),
    ensures
        insert_by_name(x, s) == s.take(j) + seq![x] + s.skip(j),
    decreases s.len(),
{
    if s.len() == 0 {
        assert(insert_by_name(x, s) =~= s.take(j) + seq![x] + s.skip(j));
    } else if j == 0 {
        assert(!lex_le(s[0].name@, x.name@));
        assert(insert_by_name(x, s) =~= s.take(0) + seq![x] + s.skip(0));
    } else {
        assert(lex_le(s[0].name@, x.name@));
        lemma_insert_name_at(x, s.drop_first(), j - 1);
        assert(insert_by_name(x, s) =~= s.take(j) + seq![x] + s.skip(j));
    }
}

/// Sorts instruments by name; the exec code matches the spec-level
/// stable insertion sort exactly.
pub fn sort_instruments(list: Vec<Instrument>) -> (r: Vec<Instrument>)
    ensures
        r@ == sort_by_name(list@),
{
    let ghost orig: Seq<Instrument> = list@;
    let mut input: Vec<Instrument> = list;
    let mut out: Vec<Instrument> = Vec::new();
    proof {
        assert(orig.take(0) =~= Seq::<Instrument>::empty());
        assert(input@ =~= orig.skip(0));
    }
    let ghost mut i: int = 0;
    while input.len() > 0
        invariant
            0 <= i <= orig.len(),
            input@ == orig.skip(i),
            out@ == sort_by_name(orig.take(i)),
        decreases input@.len(),
    {
        let x: Instrument = input.remove(0);
        proof {
            assert(x == orig[i]);
            assert(orig.skip(i).remove(0) =~= orig.skip(i + 1));
        }
        let mut j: usize = 0;
        while j < out.len() && str_le(out[j].name.as_str(), x.name.as_str())
            invariant
                j <= out@.len(),
                forall|t: int| 0 <= t < j ==> lex_le((#[trigger] out@[t]).name@, x.name@),
            decreases out@.len() - j,
        {
            j = j + 1;
        }
        proof {
            lemma_insert_name_at(x, out@, j as int);
        }
        let ghost before: Seq<Instrument> = out@;
        out.insert(j, x);
        proof {
            assert(out@ =~= before.take(j as int) + seq![x] + before.skip(j as int));
            assert(orig.take(i + 1).drop_last() =~= orig.take(i));
            assert(orig.take(i + 1).last() == x);
            i = i + 1;
        }
    }
    proof {
        assert(orig.take(orig.len() as int) =~= orig);
        assert(i == orig.len());
    }
    out
}

/// Whether some entry carries this identifier.
pub open spec fn has_identifier(s: Seq<Instrument>, id: Seq<char>) -> bool {
    exists|j: int| 0 <= j < s.len() && (#[trigger] s[j]).identifier@ == id
}

fn contains_identifier(list: &Vec<Instrument>, id: &String) -> (r: bool)
    ensures
        r == has_identifier(list@, id@),
{
    let mut j: usize = 0;
    while j < list.len()
        invariant
            j <= list@.len(),
            forall|t: int| 0 <= t < j ==> (#[trigger] list@[t]).identifier@ != id@,
        decreases list@.len() - j,
    {
        if list[j].identifier == *id {
            return true;
        }
        j = j + 1;
    }
    false
}

/// The sorted base with those custom entries appended, in order, whose
/// identifier is not already present (checked against the growing list,
/// so a duplicate inside the custom list is also dropped).
pub open spec fn merge_append(b: Seq<Instrument>, c: Seq<Instrument>) -> Seq<Instrument>
    decreases c.len(),
{
    if c.len() == 0 {
        b
    } else {
        let m: Seq<Instrument> = merge_append(b, c.drop_last());
        if has_identifier(m, c.last().identifier@) {
            m
        } else {
            m.push(c.last())
        }
    }
}

/// Merges the default and the user watchlist: both sorted by name,
/// custom entries with a known identifier dropped, result sorted by
/// name.
pub fn merge_watchlists(base: Vec<Instrument>, custom: Vec<Instrument>) -> (r: Vec<Instrument>)
    ensures
        r@ == sort_by_name(merge_append(sort_by_name(base@), sort_by_name(custom@))),
{
    let sorted_base: Vec<Instrument> = sort_instruments(base);
    let mut sorted_custom: Vec<Instrument> = sort_instruments(custom);
    let ghost sb: Seq<Instrument> = sorted_base@;
    let ghost sc: Seq<Instrument> = sorted_custom@;
    let mut merged: Vec<Instrument> = sorted_base;
    proof {
        assert(sc.take(0) =~= Seq::<Instrument>::empty());
        assert(sorted_custom@ =~= sc.skip(0));
    }
    let ghost mut i: int = 0;
    while sorted_custom.len() > 0
        invariant
            0 <= i <= sc.len(),
            sorted_custom@ == sc.skip(i),
            merged@ == merge_append(sb, sc.take(i)),
        decreases sorted_custom@.len(),
    {
        let x: Instrument = sorted_custom.remove(0);
        proof {
            assert(x == sc[i]);
            assert(sc.skip(i).remove(0) =~= sc.skip(i + 1));
            assert(sc.take(i + 1).drop_last() =~= sc.take(i));
            assert(sc.take(i + 1).last() == x);
        }
        if !contains_identifier(&merged, &x.identifier) {
            merged.push(x);
        }
        proof {
            i = i + 1;
        }
    }
    proof {
        assert(sc.take(sc.len() as int) =~= sc);
    }
    sort_instruments(merged)
}

} // verus!
