//! Byte-wise lexicographic order on names, and an ordering pass for report
//! entries.
//!
//! Entries are sorted by name within each bucket so that identical inputs
//! always yield identically ordered reports.

use vstd::prelude::*;
use vstd::string::StringSliceAdditionalSpecFns;
use vstd::seq_lib::lemma_multiset_commutative;
use crate::report::{TestReport, EntryModel, entry_views};

verus! {

broadcast use vstd::seq_lib::group_to_multiset_ensures;

/// Lexicographic order on byte strings.
pub open spec fn lex_le(a: Seq<u8>, b: Seq<u8>) -> bool
    decreases a.len(),
{
    if a.len() == 0 {
        true
    } else if b.len() == 0 {
        false
    } else if a[0] < b[0] {
        true
    } else if a[0] > b[0] {
        false
    } else {
        lex_le(a.drop_first(), b.drop_first())
    }
}

/// The order on names: the lexicographic order of their encoded bytes.
pub open spec fn name_le(a: Seq<char>, b: Seq<char>) -> bool {
    lex_le(vstd::utf8::encode_utf8(a), vstd::utf8::encode_utf8(b))
}

/// Any two byte strings are comparable.
pub proof fn lemma_lex_le_total(a: Seq<u8>, b: Seq<u8>)
    ensures
        lex_le(a, b) || lex_le(b, a),
    decreases a.len(),
{
    if a.len() != 0 && b.len() != 0 && a[0] == b[0] {
        lemma_lex_le_total(a.drop_first(), b.drop_first());
    }
}

pub proof fn lemma_lex_le_trans(a: Seq<u8>, b: Seq<u8>, c: Seq<u8>)
    requires
        lex_le(a, b),
        lex_le(b, c),
    ensures
        lex_le(a, c),
    decreases a.len(),
{
    if a.len() != 0 {
        assert(b.len() != 0);
        assert(c.len() != 0);
        if a[0] == b[0] && b[0] == c[0] {
            lemma_lex_le_trans(a.drop_first(), b.drop_first(), c.drop_first());
        }
    }
}

/// When the first `i` bytes agree, the order is decided past them.
proof fn lemma_lex_le_skip(a: Seq<u8>, b: Seq<u8>, i: int)
    requires
        0 <= i <= a.len(),
        i <= b.len(),
        forall|j: int| 0 <= j < i ==> a[j] == b[j],
    ensures
        lex_le(a, b) == lex_le(a.skip(i), b.skip(i)),
    decreases i,
{
    if i > 0 {
        assert(a[0] == b[0]);
        lemma_lex_le_skip(a.drop_first(), b.drop_first(), i - 1);
        assert(a.drop_first().skip(i - 1) =~= a.skip(i));
        assert(b.drop_first().skip(i - 1) =~= b.skip(i));
    } else {
        assert(a.skip(0) =~= a);
        assert(b.skip(0) =~= b);
    }
}

/// Byte-wise comparison of two names.
pub fn str_le(a: &str, b: &str) -> (r: bool)
    ensures
        r == name_le(a@, b@),
{
    let ab = a.as_bytes();
    let bb = b.as_bytes();
    let mut i: usize = 0;
    while i < ab.len() && i < bb.len()
        invariant
            0 <= i <= ab@.len(),
            i <= bb@.len(),
            forall|j: int| 0 <= j < i ==> ab@[j] == bb@[j],
            ab@ == a.spec_bytes(),
            bb@ == b.spec_bytes(),
        decreases ab@.len() - i,
    {
        let x = ab[i];
        let y = bb[i];
        if x < y {
            proof {
                lemma_lex_le_skip(ab@, bb@, i as int);
                assert(ab@.skip(i as int)[0] == ab@[i as int]);
                assert(bb@.skip(i as int)[0] == bb@[i as int]);
                assert(lex_le(ab@.skip(i as int), bb@.skip(i as int)));
            }
            return true;
        }
        if x > y {
            proof {
                lemma_lex_le_skip(ab@, bb@, i as int);
                assert(ab@.skip(i as int)[0] == ab@[i as int]);
                assert(bb@.skip(i as int)[0] == bb@[i as int]);
                assert(!lex_le(ab@.skip(i as int), bb@.skip(i as int)));
            }
            return false;
        }
        i = i + 1;
    }
    proof {
        lemma_lex_le_skip(ab@, bb@, i as int);
        if ab@.len() <= bb@.len() {
            assert(ab@.skip(i as int).len() == 0);
            assert(lex_le(ab@.skip(i as int), bb@.skip(i as int)));
        } else {
            assert(bb@.skip(i as int).len() == 0);
            assert(ab@.skip(i as int).len() > 0);
            assert(!lex_le(ab@.skip(i as int), bb@.skip(i as int)));
        }
    }
    ab.len() <= bb.len()
}

/// Entries stand in non-decreasing name order.
pub open spec fn entries_sorted(s: Seq<EntryModel>) -> bool {
    forall|i: int, j: int|
        0 <= i < j < s.len() ==> #[trigger] name_le(s[i].name, s[j].name)
}

/// Where an entry goes when placed by name: after every leading entry whose
/// name does not come later, before the rest.
pub open spec fn insert_sorted(s: Seq<EntryModel>, e: EntryModel) -> Seq<EntryModel>
    decreases s.len(),
{
    if s.len() == 0 {
        seq![e]
    } else if name_le(s.first().name, e.name) {
        seq![s.first()] + insert_sorted(s.drop_first(), e)
    } else {
        seq![e] + s
    }
}

/// The one arrangement the ordering pass produces: each entry in turn placed
/// by `insert_sorted`. A function of the input alone, so equal inputs give
/// identically ordered output, duplicate names included.
pub open spec fn sort_spec(s: Seq<EntryModel>) -> Seq<EntryModel>
    decreases s.len(),
{
    if s.len() == 0 {
        Seq::empty()
    } else {
        insert_sorted(sort_spec(s.drop_last()), s.last())
    }
}

/// The insertion point the scan finds is the one `insert_sorted` describes.
proof fn lemma_insert_sorted_at(s: Seq<EntryModel>, e: EntryModel, pos: int)
    requires
        0 <= pos <= s.len(),
        forall|j: int| 0 <= j < pos ==> #[trigger] name_le(s[j].name, e.name),
        pos < s.len() ==> !name_le(s[pos].name, e.name),
    ensures
        insert_sorted(s, e) == s.insert(pos, e),
    decreases pos,
{
    if pos == 0 {
        if s.len() == 0 {
            assert(insert_sorted(s, e) =~= s.insert(0, e));
        } else {
            assert(!name_le(s.first().name, e.name));
            assert(insert_sorted(s, e) =~= s.insert(0, e));
        }
    } else {
        assert(name_le(s[0].name, e.name));
        assert forall|j: int| 0 <= j < pos - 1 implies #[trigger] name_le(
            s.drop_first()[j].name,
            e.name,
        ) by {
            assert(s.drop_first()[j] == s[j + 1]);
        }
        if pos - 1 < s.drop_first().len() {
            assert(s.drop_first()[pos - 1] == s[pos]);
        }
        lemma_insert_sorted_at(s.drop_first(), e, pos - 1);
        assert(insert_sorted(s, e) == seq![s.first()] + s.drop_first().insert(pos - 1, e));
        assert(seq![s.first()] + s.drop_first().insert(pos - 1, e) =~= s.insert(pos, e));
    }
}

/// Sorts report entries by name, producing exactly the arrangement that
/// `sort_spec` describes.
pub fn sort_entries(v: Vec<TestReport>) -> (r: Vec<TestReport>)
    ensures
        entry_views(r@) == sort_spec(entry_views(v@)),
        entry_views(r@).to_multiset() == entry_views(v@).to_multiset(),
        entries_sorted(entry_views(r@)),
        r@.len() == v@.len(),
{
    let mut out: Vec<TestReport> = Vec::new();
    let mut i: usize = 0;
    while i < v.len()
        invariant
            0 <= i <= v@.len(),
            out@.len() == i,
            entry_views(out@) =~= sort_spec(entry_views(v@.subrange(0, i as int))),
            entry_views(out@).to_multiset() =~= entry_views(v@.subrange(0, i as int)).to_multiset(),
            entries_sorted(entry_views(out@)),
        decreases v@.len() - i,
    {
        let e = v[i].clone_entry();
        let mut pos: usize = 0;
        while pos < out.len() && str_le(out[pos].name.as_str(), e.name.as_str())
            invariant
                0 <= pos <= out@.len(),
                forall|j: int| 0 <= j < pos ==> #[trigger] name_le(
                    entry_views(out@)[j].name,
                    e@.name,
                ),
        decreases out@.len() - pos,
        {
            pos = pos + 1;
        }
        proof {
            if pos < out@.len() {
                lemma_lex_le_total(
                    vstd::utf8::encode_utf8(entry_views(out@)[pos as int].name),
                    vstd::utf8::encode_utf8(e@.name),
                );
                assert(name_le(e@.name, entry_views(out@)[pos as int].name));
            }
        }
        let ghost prev = out@;
        out.insert(pos, e);
        proof {
            lemma_sorted_insert(prev, e, pos as int);
            let pv = entry_views(prev);
            lemma_insert_sorted_at(pv, e@, pos as int);
            assert(forall|k: int| 0 <= k < pos ==> prev.insert(pos as int, e)[k] == prev[k]);
            assert(prev.insert(pos as int, e)[pos as int] == e);
            assert(forall|k: int|
                pos < k < prev.len() + 1 ==> prev.insert(pos as int, e)[k] == prev[k - 1]);
            assert(entry_views(out@) =~= pv.insert(pos as int, e@));
            assert(pv.insert(pos as int, e@) =~= pv.take(pos as int).push(e@) + pv.skip(
                pos as int,
            ));
            assert(pv =~= pv.take(pos as int) + pv.skip(pos as int));
            lemma_multiset_commutative(pv.take(pos as int).push(e@), pv.skip(pos as int));
            lemma_multiset_commutative(pv.take(pos as int), pv.skip(pos as int));
            pv.take(pos as int).to_multiset_ensures();
            assert(entry_views(out@).to_multiset() =~= pv.to_multiset().insert(e@));
            assert(v@.subrange(0, i + 1).drop_last() =~= v@.subrange(0, i as int));
            entry_views(v@.subrange(0, i as int)).to_multiset_ensures();
            assert(entry_views(v@.subrange(0, i + 1)) =~= entry_views(
                v@.subrange(0, i as int),
            ).push(v@[i as int]@));
            assert(entry_views(v@.subrange(0, i + 1)).to_multiset() =~= entry_views(
                v@.subrange(0, i as int),
            ).to_multiset().insert(v@[i as int]@));
            assert(entry_views(v@.subrange(0, i + 1)).last() == v@[i as int]@);
            assert(entry_views(v@.subrange(0, i + 1)).drop_last() =~= entry_views(
                v@.subrange(0, i as int),
            ));
            assert(sort_spec(entry_views(v@.subrange(0, i + 1))) == insert_sorted(
                sort_spec(entry_views(v@.subrange(0, i as int))),
                v@[i as int]@,
            ));
            assert(entry_views(out@) =~= sort_spec(entry_views(v@.subrange(0, i + 1))));
        }
        i = i + 1;
    }
    proof {
        assert(v@.subrange(0, v@.len() as int) =~= v@);
    }
    out
}

/// Inserting an entry between its neighbours keeps the order.
proof fn lemma_sorted_insert(s: Seq<TestReport>, e: TestReport, pos: int)
    requires
        0 <= pos <= s.len(),
        entries_sorted(entry_views(s)),
        forall|j: int| 0 <= j < pos ==> #[trigger] name_le(entry_views(s)[j].name, e@.name),
        pos < s.len() ==> name_le(e@.name, entry_views(s)[pos].name),
    ensures
        entries_sorted(entry_views(s.insert(pos, e))),
{
    let t = entry_views(s.insert(pos, e));
    let u = entry_views(s);
    assert(s.insert(pos, e).len() == s.len() + 1);
    assert forall|i: int, j: int| 0 <= i < j < t.len() implies #[trigger] name_le(
        t[i].name,
        t[j].name,
    ) by {
        assert(forall|k: int| 0 <= k < pos ==> s.insert(pos, e)[k] == s[k]);
        assert(s.insert(pos, e)[pos] == e);
        assert(forall|k: int| pos < k < s.len() + 1 ==> s.insert(pos, e)[k] == s[k - 1]);
        if i < pos && j < pos {
            assert(name_le(u[i].name, u[j].name));
        } else if i < pos && j == pos {
            assert(name_le(u[i].name, e@.name));
        } else if i < pos && j > pos {
            assert(name_le(u[i].name, u[j - 1].name));
        } else if i == pos && j > pos {
            if j - 1 == pos {
                assert(name_le(e@.name, u[pos].name));
            } else {
                assert(name_le(e@.name, u[pos].name));
                assert(name_le(u[pos].name, u[j - 1].name));
                lemma_lex_le_trans(
                    vstd::utf8::encode_utf8(e@.name),
                    vstd::utf8::encode_utf8(u[pos].name),
                    vstd::utf8::encode_utf8(u[j - 1].name),
                );
            }
        } else {
            assert(i > pos && j > pos);
            assert(name_le(u[i - 1].name, u[j - 1].name));
        }
    }
}

} // verus!
