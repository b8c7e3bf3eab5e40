//! The sort engine: the active sort key, the total preorder each key puts
//! on entries, the stable-sort specification, and the executable sorts.
use vstd::prelude::*;
use vstd::multiset::Multiset;
use crate::entry::File;
use crate::listing::LsError;

verus! {

/// The active sort key, derived from the mutually exclusive sort flags.
#[derive(Copy, Clone, Debug, PartialEq, Eq, Structural)]
pub enum DirSortType {
    Name,
    Created,
    Modified,
    Size,
    Not,
}

/// The key the flag array selects: the first set flag wins, in the
/// priority order name, created, modified, size; no set flag means `Not`.
pub open spec fn sort_type_spec(name: bool, created: bool, modified: bool, size: bool) -> DirSortType {
    if name {
        DirSortType::Name
    } else if created {
        DirSortType::Created
    } else if modified {
        DirSortType::Modified
    } else if size {
        DirSortType::Size
    } else {
        DirSortType::Not
    }
}

/// Derives the active sort key from the flag array, in the priority order
/// name, created, modified, size.
pub fn get_sort_type(sort_t: [bool; 4]) -> (r: DirSortType)
    ensures
        r == sort_type_spec(sort_t@[0], sort_t@[1], sort_t@[2], sort_t@[3]),
{
    if sort_t[0] {
        DirSortType::Name
    } else if sort_t[1] {
        DirSortType::Created
    } else if sort_t[2] {
        DirSortType::Modified
    } else if sort_t[3] {
        DirSortType::Size
    } else {
        DirSortType::Not
    }
}

/// Lexicographic order on byte sequences; equal sequences compare both ways.
pub open spec fn lex_le(a: Seq<u8>, b: Seq<u8>) -> bool
    decreases a.len(),
{
    if a.len() == 0 {
        true
    } else if b.len() == 0 {
        false
    } else if a[0] < b[0] {
        true
    } else if a[0] > b[0] {
        false
    } else {
        lex_le(a.drop_first(), b.drop_first())
    }
}

pub proof fn lemma_lex_le_total(a: Seq<u8>, b: Seq<u8>)
    ensures
        lex_le(a, b) || lex_le(b, a),
    decreases a.len(),
{
    if a.len() > 0 && b.len() > 0 && a[0] == b[0] {
        lemma_lex_le_total(a.drop_first(), b.drop_first());
    }
}

pub proof fn lemma_lex_le_trans(a: Seq<u8>, b: Seq<u8>, c: Seq<u8>)
    requires
        lex_le(a, b),
        lex_le(b, c),
    ensures
        lex_le(a, c),
    decreases a.len(),
{
    if a.len() > 0 && b.len() > 0 && c.len() > 0 && a[0] == b[0] && b[0] == c[0] {
        lemma_lex_le_trans(a.drop_first(), b.drop_first(), c.drop_first());
    }
}

/// The timestamp a sort key reads; absence compares as the earliest value.
pub open spec fn time_key(t: Option<u64>) -> u64 {
    match t {
        Some(v) => v,
        None => 0,
    }
}

/// The total preorder the given key puts on entries. `Not` orders nothing:
/// every pair compares equal.
pub open spec fn le_key(k: DirSortType, a: File, b: File) -> bool {
    match k {
        DirSortType::Name => lex_le(a.lower_name@, b.lower_name@),
        DirSortType::Created => time_key(a.created) <= time_key(b.created),
        DirSortType::Modified => time_key(a.modified) <= time_key(b.modified),
        DirSortType::Size => a.size <= b.size,
        DirSortType::Not => true,
    }
}

pub proof fn lemma_le_key_total(k: DirSortType, a: File, b: File)
    ensures
        le_key(k, a, b) || le_key(k, b, a),
{
    if k is Name {
        lemma_lex_le_total(a.lower_name@, b.lower_name@);
    }
}

pub proof fn lemma_le_key_trans(k: DirSortType, a: File, b: File, c: File)
    requires
        le_key(k, a, b),
        le_key(k, b, c),
    ensures
        le_key(k, a, c),
{
    if k is Name {
        lemma_lex_le_trans(a.lower_name@, b.lower_name@, c.lower_name@);
    }
}

/// True when the entry carries the timestamp the given key compares by.
pub open spec fn key_defined(k: DirSortType, f: File) -> bool {
    match k {
        DirSortType::Created => f.created is Some,
        DirSortType::Modified => f.modified is Some,
        _ => true,
    }
}

/// True when every entry carries the timestamp the given key compares by.
pub open spec fn all_keys_defined(k: DirSortType, s: Seq<File>) -> bool {
    forall|i: int| 0 <= i < s.len() ==> key_defined(k, #[trigger] s[i])
}

/// True when the sequence is ordered by the given key.
pub open spec fn sorted_by(k: DirSortType, s: Seq<File>) -> bool {
    forall|i: int, j: int| 0 <= i < j < s.len() ==> le_key(k, #[trigger] s[i], #[trigger] s[j])
}

/// The position at which a stable sort inserts `x` into the sorted
/// sequence `s`: after every element that compares at or below `x`.
pub open spec fn ins_pos(k: DirSortType, x: File, s: Seq<File>) -> int
    decreases s.len(),
{
    if s.len() == 0 {
        0
    } else if le_key(k, s.last(), x) {
        s.len() as int
    } else {
        ins_pos(k, x, s.drop_last())
    }
}

/// `s` with `x` inserted at its stable insertion position.
pub open spec fn insert_sorted(k: DirSortType, x: File, s: Seq<File>) -> Seq<File> {
    s.subrange(0, ins_pos(k, x, s)) + seq![x] + s.subrange(ins_pos(k, x, s), s.len() as int)
}

/// The stable sort of `s` under the given key: each entry in turn is
/// inserted after every earlier entry that compares at or below it.
pub open spec fn sort_spec(k: DirSortType, s: Seq<File>) -> Seq<File>
    decreases s.len(),
{
    if s.len() == 0 {
        s
    } else {
        insert_sorted(k, s.last(), sort_spec(k, s.drop_last()))
    }
}

pub proof fn lemma_ins_pos_bounds(k: DirSortType, x: File, s: Seq<File>)
    ensures
        0 <= ins_pos(k, x, s) <= s.len(),
    decreases s.len(),
{
    if s.len() > 0 && !le_key(k, s.last(), x) {
        lemma_ins_pos_bounds(k, x, s.drop_last());
    }
}

/// Every element at or past the insertion position compares strictly
/// above `x`.
proof fn lemma_ins_pos_suffix(k: DirSortType, x: File, s: Seq<File>)
    ensures
        forall|i: int| ins_pos(k, x, s) <= i < s.len() ==> !le_key(k, #[trigger] s[i], x),
    decreases s.len(),
{
    if s.len() > 0 && !le_key(k, s.last(), x) {
        lemma_ins_pos_suffix(k, x, s.drop_last());
        lemma_ins_pos_bounds(k, x, s.drop_last());
        assert forall|i: int| ins_pos(k, x, s) <= i < s.len() implies !le_key(k, #[trigger] s[i], x) by {
            if i < s.len() - 1 {
                assert(s.drop_last()[i] == s[i]);
            }
        }
    }
}

/// In a sorted sequence, every element before the insertion position
/// compares at or below `x`.
proof fn lemma_ins_pos_prefix(k: DirSortType, x: File, s: Seq<File>)
    requires
        sorted_by(k, s),
    ensures
        forall|i: int| 0 <= i < ins_pos(k, x, s) ==> le_key(k, #[trigger] s[i], x),
    decreases s.len(),
{
    if s.len() > 0 {
        if le_key(k, s.last(), x) {
            assert forall|i: int| 0 <= i < ins_pos(k, x, s) implies le_key(k, #[trigger] s[i], x) by {
                if i < s.len() - 1 {
                    lemma_le_key_trans(k, s[i], s.last(), x);
                }
            }
        } else {
            assert(sorted_by(k, s.drop_last())) by {
                assert forall|i: int, j: int| 0 <= i < j < s.drop_last().len() implies le_key(
                    k,
                    #[trigger] s.drop_last()[i],
                    #[trigger] s.drop_last()[j],
                ) by {
                    assert(s.drop_last()[i] == s[i]);
                    assert(s.drop_last()[j] == s[j]);
                }
            }
            lemma_ins_pos_prefix(k, x, s.drop_last());
            assert forall|i: int| 0 <= i < ins_pos(k, x, s) implies le_key(k, #[trigger] s[i], x) by {
                lemma_ins_pos_bounds(k, x, s.drop_last());
                assert(s.drop_last()[i] == s[i]);
            }
        }
    }
}

proof fn lemma_insert_sorted_sorted(k: DirSortType, x: File, s: Seq<File>)
    requires
        sorted_by(k, s),
    ensures
        sorted_by(k, insert_sorted(k, x, s)),
{
    lemma_ins_pos_bounds(k, x, s);
    lemma_ins_pos_prefix(k, x, s);
    lemma_ins_pos_suffix(k, x, s);
    let p = ins_pos(k, x, s);
    let t = insert_sorted(k, x, s);
    assert forall|i: int, j: int| 0 <= i < j < t.len() implies le_key(k, #[trigger] t[i], #[trigger] t[j]) by {
        assert(forall|m: int| 0 <= m < p ==> t[m] == s[m]);
        assert(t[p] == x);
        assert(forall|m: int| p < m < t.len() ==> t[m] == s[m - 1]);
        if i < p && j == p {
        } else if i < p && j > p {
            assert(le_key(k, s[i], s[j - 1]));
        } else if i == p && j > p {
            lemma_le_key_total(k, x, s[j - 1]);
        }
    }
}

proof fn lemma_insert_sorted_multiset(k: DirSortType, x: File, s: Seq<File>)
    ensures
        insert_sorted(k, x, s).len() == s.len() + 1,
        insert_sorted(k, x, s).to_multiset() == s.to_multiset().insert(x),
{
    broadcast use vstd::seq_lib::group_to_multiset_ensures;

    lemma_ins_pos_bounds(k, x, s);
    let p = ins_pos(k, x, s);
    let front = s.subrange(0, p);
    let back = s.subrange(p, s.len() as int);
    assert(s =~= front + back);
    assert(seq![x] =~= Seq::<File>::empty().push(x));
    vstd::seq_lib::lemma_multiset_commutative(front, seq![x]);
    vstd::seq_lib::lemma_multiset_commutative(front + seq![x], back);
    vstd::seq_lib::lemma_multiset_commutative(front, back);
    assert(Seq::<File>::empty().to_multiset() =~= Multiset::<File>::empty()) by {
        Seq::<File>::empty().to_multiset_ensures();
    }
    assert(insert_sorted(k, x, s).to_multiset() =~= s.to_multiset().insert(x));
}

/// The sort keeps the length and the entries of its input: the output is
/// a permutation, ordered by the given key.
pub proof fn lemma_sort_spec_ensures(k: DirSortType, s: Seq<File>)
    ensures
        sort_spec(k, s).len() == s.len(),
        sort_spec(k, s).to_multiset() == s.to_multiset(),
        sorted_by(k, sort_spec(k, s)),
    decreases s.len(),
{
    broadcast use vstd::seq_lib::group_to_multiset_ensures;

    if s.len() > 0 {
        let r = s.drop_last();
        lemma_sort_spec_ensures(k, r);
        lemma_insert_sorted_sorted(k, s.last(), sort_spec(k, r));
        lemma_insert_sorted_multiset(k, s.last(), sort_spec(k, r));
        assert(s =~= r.push(s.last()));
        assert(r.push(s.last()).to_multiset() =~= r.to_multiset().insert(s.last()));
    }
}

/// Sorting with key `Not` reorders nothing: the output is the input.
pub proof fn lemma_sort_not_identity(s: Seq<File>)
    ensures
        sort_spec(DirSortType::Not, s) == s,
    decreases s.len(),
{
    if s.len() > 0 {
        let r = s.drop_last();
        lemma_sort_not_identity(r);
        if r.len() > 0 {
            assert(le_key(DirSortType::Not, r.last(), s.last()));
        }
        assert(ins_pos(DirSortType::Not, s.last(), r) == r.len());
        assert(insert_sorted(DirSortType::Not, s.last(), r) =~= s);
    }
}

/// Two entries the given key cannot tell apart.
pub open spec fn key_equiv(k: DirSortType, a: File, b: File) -> bool {
    le_key(k, a, b) && le_key(k, b, a)
}

/// The subsequence of `s` made of the entries that compare equal to `e`
/// under the given key, in their order in `s`.
pub open spec fn same_key_elems(k: DirSortType, e: File, s: Seq<File>) -> Seq<File>
    decreases s.len(),
{
    if s.len() == 0 {
        s
    } else if key_equiv(k, e, s.last()) {
        same_key_elems(k, e, s.drop_last()).push(s.last())
    } else {
        same_key_elems(k, e, s.drop_last())
    }
}

proof fn lemma_same_key_concat(k: DirSortType, e: File, a: Seq<File>, b: Seq<File>)
    ensures
        same_key_elems(k, e, a + b) == same_key_elems(k, e, a) + same_key_elems(k, e, b),
    decreases b.len(),
{
    if b.len() == 0 {
        assert(a + b =~= a);
        assert(same_key_elems(k, e, b) =~= Seq::<File>::empty());
        assert(same_key_elems(k, e, a) + same_key_elems(k, e, b) =~= same_key_elems(k, e, a));
    } else {
        assert((a + b).drop_last() =~= a + b.drop_last());
        assert((a + b).last() == b.last());
        lemma_same_key_concat(k, e, a, b.drop_last());
        if key_equiv(k, e, b.last()) {
            assert((same_key_elems(k, e, a) + same_key_elems(k, e, b.drop_last())).push(b.last())
                =~= same_key_elems(k, e, a) + same_key_elems(k, e, b.drop_last()).push(b.last()));
        }
    }
}

proof fn lemma_same_key_none(k: DirSortType, e: File, s: Seq<File>)
    requires
        forall|i: int| 0 <= i < s.len() ==> !key_equiv(k, e, #[trigger] s[i]),
    ensures
        same_key_elems(k, e, s) == Seq::<File>::empty(),
    decreases s.len(),
{
    if s.len() > 0 {
        assert(forall|i: int| 0 <= i < s.drop_last().len() ==> s.drop_last()[i] == s[i]);
        lemma_same_key_none(k, e, s.drop_last());
        assert(!key_equiv(k, e, s.last()));
    }
}

proof fn lemma_insert_same_key(k: DirSortType, x: File, e: File, s: Seq<File>)
    ensures
        same_key_elems(k, e, insert_sorted(k, x, s)) == if key_equiv(k, e, x) {
            same_key_elems(k, e, s).push(x)
        } else {
            same_key_elems(k, e, s)
        },
{
    lemma_ins_pos_bounds(k, x, s);
    lemma_ins_pos_suffix(k, x, s);
    let p = ins_pos(k, x, s);
    let front = s.subrange(0, p);
    let back = s.subrange(p, s.len() as int);
    assert(s =~= front + back);
    lemma_same_key_concat(k, e, front, back);
    lemma_same_key_concat(k, e, front, seq![x]);
    lemma_same_key_concat(k, e, front + seq![x], back);
    assert(seq![x].drop_last() =~= Seq::<File>::empty());
    assert(seq![x].last() == x);
    assert(same_key_elems(k, e, seq![x].drop_last()) =~= Seq::<File>::empty());
    if key_equiv(k, e, x) {
        assert(same_key_elems(k, e, seq![x]) =~= Seq::<File>::empty().push(x));
        assert forall|i: int| 0 <= i < back.len() implies !key_equiv(k, e, #[trigger] back[i]) by {
            assert(back[i] == s[p + i]);
            assert(!le_key(k, s[p + i], x));
            if key_equiv(k, e, back[i]) {
                lemma_le_key_trans(k, back[i], e, x);
            }
        }
        lemma_same_key_none(k, e, back);
        assert(same_key_elems(k, e, insert_sorted(k, x, s)) =~= same_key_elems(k, e, s).push(x));
    } else {
        assert(same_key_elems(k, e, seq![x]) =~= Seq::<File>::empty());
        assert(same_key_elems(k, e, insert_sorted(k, x, s)) =~= same_key_elems(k, e, s));
    }
}

/// Stability: entries that compare equal under the active key keep their
/// original relative order through the sort. For any entry value `e`, the
/// subsequence of entries comparing equal to `e` is the same before and
/// after sorting.
pub proof fn lemma_sort_stable(k: DirSortType, s: Seq<File>, e: File)
    ensures
        same_key_elems(k, e, sort_spec(k, s)) == same_key_elems(k, e, s),
    decreases s.len(),
{
    if s.len() > 0 {
        let r = s.drop_last();
        let x = s.last();
        lemma_sort_stable(k, r, e);
        lemma_insert_same_key(k, x, e, sort_spec(k, r));
    }
}

/// True when every entry carries the timestamp the given key needs.
pub(crate) fn keys_defined(v: &Vec<File>, k: DirSortType) -> (r: bool)
    ensures
        r == all_keys_defined(k, v@),
{
    let mut i: usize = 0;
    while i < v.len()
        invariant
            i <= v.len(),
            forall|j: int| 0 <= j < i ==> key_defined(k, #[trigger] v@[j]),
        decreases v.len() - i,
    {
        let ok = match k {
            DirSortType::Created => v[i].created.is_some(),
            DirSortType::Modified => v[i].modified.is_some(),
            _ => true,
        };
        if !ok {
            proof {
                assert(!key_defined(k, v@[i as int]));
            }
            return false;
        }
        i += 1;
    }
    true
}

/// Lexicographic comparison of two byte keys.
fn lex_le_bytes(a: &Vec<u8>, b: &Vec<u8>) -> (r: bool)
    ensures
        r == lex_le(a@, b@),
{
    let mut i: usize = 0;
    proof {
        assert(a@.skip(0) =~= a@);
        assert(b@.skip(0) =~= b@);
    }
    loop
        invariant
            i <= a.len(),
            i <= b.len(),
            lex_le(a@, b@) == lex_le(a@.skip(i as int), b@.skip(i as int)),
        decreases a.len() - i,
    {
        if i == a.len() {
            proof {
                assert(a@.skip(i as int) =~= Seq::<u8>::empty());
            }
            return true;
        }
        if i == b.len() {
            proof {
                assert(b@.skip(i as int) =~= Seq::<u8>::empty());
                assert(a@.skip(i as int).len() > 0);
            }
            return false;
        }
        proof {
            assert(a@.skip(i as int)[0] == a@[i as int]);
            assert(b@.skip(i as int)[0] == b@[i as int]);
        }
        if a[i] < b[i] {
            return true;
        }
        if a[i] > b[i] {
            return false;
        }
        proof {
            assert(a@.skip(i as int).drop_first() =~= a@.skip(i as int + 1));
            assert(b@.skip(i as int).drop_first() =~= b@.skip(i as int + 1));
        }
        i += 1;
    }
}

/// Compares two entries under the given key.
fn le_file(k: DirSortType, a: &File, b: &File) -> (r: bool)
    requires
        key_defined(k, *a),
        key_defined(k, *b),
    ensures
        r == le_key(k, *a, *b),
{
    match k {
        DirSortType::Name => lex_le_bytes(&a.lower_name, &b.lower_name),
        DirSortType::Created => a.created.unwrap() <= b.created.unwrap(),
        DirSortType::Modified => a.modified.unwrap() <= b.modified.unwrap(),
        DirSortType::Size => a.size <= b.size,
        DirSortType::Not => true,
    }
}

/// The stable insertion position of `x` in the sorted vector `out`.
fn find_pos(out: &Vec<File>, x: &File, k: DirSortType) -> (j: usize)
    requires
        all_keys_defined(k, out@),
        key_defined(k, *x),
    ensures
        j <= out.len(),
        j as int == ins_pos(k, *x, out@),
{
    let mut j: usize = out.len();
    proof {
        assert(out@.subrange(0, j as int) =~= out@);
    }
    while j > 0
        invariant
            j <= out.len(),
            all_keys_defined(k, out@),
            key_defined(k, *x),
            ins_pos(k, *x, out@) == ins_pos(k, *x, out@.subrange(0, j as int)),
        decreases j,
    {
        proof {
            assert(out@.subrange(0, j as int).last() == out@[j - 1]);
            assert(out@.subrange(0, j as int).drop_last() =~= out@.subrange(0, j - 1));
        }
        if le_file(k, &out[j - 1], x) {
            return j;
        }
        j -= 1;
    }
    proof {
        assert(out@.subrange(0, 0) =~= Seq::<File>::empty());
    }
    0
}

/// Stable insertion sort by the given key: the result is exactly
/// `sort_spec` of the input.
pub(crate) fn sort_by_key(v: &mut Vec<File>, k: DirSortType)
    requires
        all_keys_defined(k, old(v)@),
    ensures
        final(v)@ == sort_spec(k, old(v)@),
{
    let ghost orig = v@;
    let ghost mut done: int = 0;
    let mut out: Vec<File> = Vec::new();
    proof {
        assert(v@ =~= orig.skip(0));
        assert(orig.subrange(0, 0) =~= Seq::<File>::empty());
    }
    while v.len() > 0
        invariant
            0 <= done <= orig.len(),
            v@ == orig.skip(done),
            out@ == sort_spec(k, orig.subrange(0, done)),
            all_keys_defined(k, orig),
            all_keys_defined(k, out@),
        decreases v.len(),
    {
        let x = v.remove(0);
        proof {
            assert(orig.skip(done)[0] == orig[done]);
            assert(x == orig[done]);
            assert(orig.skip(done).remove(0) =~= orig.skip(done + 1));
            assert(key_defined(k, x));
        }
        let j = find_pos(&out, &x, k);
        let ghost prev = out@;
        out.insert(j, x);
        proof {
            lemma_ins_pos_bounds(k, x, prev);
            assert(prev.insert(j as int, x) =~= insert_sorted(k, x, prev));
            let next = orig.subrange(0, done + 1);
            assert(next.drop_last() =~= orig.subrange(0, done));
            assert(next.last() == orig[done]);
            assert(out@ == sort_spec(k, next));
            lemma_insert_sorted_multiset(k, x, prev);
            broadcast use vstd::seq_lib::group_to_multiset_ensures;

            assert forall|m: int| 0 <= m < out@.len() implies key_defined(k, #[trigger] out@[m]) by {
                assert(out@.to_multiset().contains(out@[m]));
                assert(prev.to_multiset().insert(x).contains(out@[m]));
                if out@[m] != x {
                    assert(prev.to_multiset().contains(out@[m]));
                    assert(prev.contains(out@[m]));
                }
            }
            done = done + 1;
        }
    }
    proof {
        assert(orig.subrange(0, done) =~= orig);
    }
    *v = out;
}

/// Sorts entries by lowercased name; the stable sort of the name key.
pub fn name_sort(dir: &mut Vec<File>)
    ensures
        final(dir)@ == sort_spec(DirSortType::Name, old(dir)@),
{
    sort_by_key(dir, DirSortType::Name);
}

/// Sorts entries by creation time. Fails with `UnsupportedTimestamp`,
/// leaving the entries unchanged, exactly when some entry lacks one.
pub fn create_sort(dir: &mut Vec<File>) -> (r: Result<(), LsError>)
    ensures
        all_keys_defined(DirSortType::Created, old(dir)@) ==> r is Ok && final(dir)@ == sort_spec(
            DirSortType::Created,
            old(dir)@,
        ),
        !all_keys_defined(DirSortType::Created, old(dir)@) ==> r == Result::<(), LsError>::Err(
            LsError::UnsupportedTimestamp,
        ) && final(dir)@ == old(dir)@,
{
    if !keys_defined(dir, DirSortType::Created) {
        return Err(LsError::UnsupportedTimestamp);
    }
    sort_by_key(dir, DirSortType::Created);
    Ok(())
}

/// Sorts entries by modification time. Fails with `UnsupportedTimestamp`,
/// leaving the entries unchanged, exactly when some entry lacks one.
pub fn modified_sort(dir: &mut Vec<File>) -> (r: Result<(), LsError>)
    ensures
        all_keys_defined(DirSortType::Modified, old(dir)@) ==> r is Ok && final(dir)@ == sort_spec(
            DirSortType::Modified,
            old(dir)@,
        ),
        !all_keys_defined(DirSortType::Modified, old(dir)@) ==> r == Result::<(), LsError>::Err(
            LsError::UnsupportedTimestamp,
        ) && final(dir)@ == old(dir)@,
{
    if !keys_defined(dir, DirSortType::Modified) {
        return Err(LsError::UnsupportedTimestamp);
    }
    sort_by_key(dir, DirSortType::Modified);
    Ok(())
}

/// Sorts entries by byte size; the stable sort of the size key.
pub fn size_sort(dir: &mut Vec<File>)
    ensures
        final(dir)@ == sort_spec(DirSortType::Size, old(dir)@),
{
    sort_by_key(dir, DirSortType::Size);
}

} // verus!
