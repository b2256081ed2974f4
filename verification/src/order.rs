//! Stable ordering by an integer key, the order the chat keeps its histories in, and the
//! canonical order of rows by their codes.
use vstd::prelude::*;
use vstd::seq_lib::lemma_filter_view_commute;

verus! {

/// Whether the keys of `s` never decrease.
pub open spec fn sorted_by_key<T>(s: Seq<T>, key: spec_fn(T) -> int) -> bool {
    forall|i: int, j: int| 0 <= i < j < s.len() ==> key(s[i]) <= key(s[j])
}

/// Whether an element has key `v`.
pub open spec fn key_is<T>(key: spec_fn(T) -> int, v: int) -> spec_fn(T) -> bool {
    |x: T| key(x) == v
}

/// The elements of `s` whose key is `v`, in their order in `s`.
pub open spec fn with_key<T>(s: Seq<T>, key: spec_fn(T) -> int, v: int) -> Seq<T> {
    s.filter(key_is(key, v))
}

/// Whether `res` is `input` sorted stably by `key`: keys never decrease, and the elements of
/// each key come in the order they had in `input`. This determines `res` completely.
pub open spec fn stably_sorted<T>(res: Seq<T>, input: Seq<T>, key: spec_fn(T) -> int) -> bool {
    &&& sorted_by_key(res, key)
    &&& forall|v: int| #[trigger] with_key(res, key, v) == with_key(input, key, v)
}

/// Filtering a sequence whose keys are all other than `v` leaves nothing.
proof fn lemma_no_key<T>(s: Seq<T>, key: spec_fn(T) -> int, v: int)
    requires
        forall|i: int| 0 <= i < s.len() ==> key(s[i]) != v,
    ensures
        with_key(s, key, v) == Seq::<T>::empty(),
{
    let p = key_is(key, v);
    assert(s.all(|x: T| !p(x)));
    s.lemma_all_neg_filter_empty(p);
    assert(s.filter(p) =~= Seq::<T>::empty());
}

/// Inserting `x` at `pos`, where the keys before `pos` are at most `key(x)` and those after
/// are above it, keeps the per-key order and appends `x` to its own key's elements.
proof fn lemma_insert_keyed<T>(s: Seq<T>, pos: int, x: T, key: spec_fn(T) -> int, v: int)
    requires
        0 <= pos <= s.len(),
        forall|j: int| pos <= j < s.len() ==> key(s[j]) > key(x),
    ensures
        with_key(s.insert(pos, x), key, v) == if v == key(x) {
            with_key(s, key, v).push(x)
        } else {
            with_key(s, key, v)
        },
{
    let p = key_is(key, v);
    let a = s.take(pos);
    let b = s.skip(pos);
    assert(s =~= a + b);
    assert(s.insert(pos, x) =~= a + seq![x] + b);
    Seq::filter_distributes_over_add(a, b, p);
    Seq::filter_distributes_over_add(a + seq![x], b, p);
    Seq::filter_distributes_over_add(a, seq![x], p);
    reveal_with_fuel(Seq::filter, 2);
    assert(seq![x].drop_last() =~= Seq::<T>::empty());
    if v == key(x) {
        lemma_no_key(b, key, v);
        assert(seq![x].filter(p) =~= seq![x]);
        assert(a.filter(p) + seq![x] + b.filter(p) =~= (a.filter(p) + b.filter(p)).push(x));
    } else {
        assert(seq![x].filter(p) =~= Seq::<T>::empty());
        assert(a.filter(p) + seq![x].filter(p) =~= a.filter(p));
    }
}

/// A stable sort keeps exactly the elements it was given: each element of the input is in
/// the result, and each element of the result is in the input.
pub proof fn lemma_stably_sorted_members<T>(res: Seq<T>, input: Seq<T>, key: spec_fn(T) -> int)
    requires
        stably_sorted(res, input, key),
    ensures
        forall|x: T| input.contains(x) ==> res.contains(x),
        forall|x: T| res.contains(x) ==> input.contains(x),
{
    assert forall|x: T| input.contains(x) implies res.contains(x) by {
        let v = key(x);
        let i = choose|i: int| 0 <= i < input.len() && input[i] == x;
        broadcast use vstd::seq_lib::group_filter_ensures;
        assert(with_key(input, key, v).contains(x));
        assert(with_key(res, key, v) == with_key(input, key, v));
        res.lemma_filter_contains_rev(key_is(key, v), x);
    }
    assert forall|x: T| res.contains(x) implies input.contains(x) by {
        let v = key(x);
        let i = choose|i: int| 0 <= i < res.len() && res[i] == x;
        broadcast use vstd::seq_lib::group_filter_ensures;
        assert(with_key(res, key, v).contains(x));
        assert(with_key(res, key, v) == with_key(input, key, v));
        input.lemma_filter_contains_rev(key_is(key, v), x);
    }
}

/// The views of a sequence's elements.
pub open spec fn views<T: View>(s: Seq<T>) -> Seq<T::V> {
    s.map_values(|x: T| x@)
}

/// Sorting values stably by a key of their views sorts their views stably by that key.
pub proof fn lemma_stably_sorted_views<T: View>(res: Seq<T>, input: Seq<T>, key: spec_fn(T::V) -> int)
    requires
        stably_sorted(res, input, |x: T| key(x@)),
    ensures
        stably_sorted(views(res), views(input), key),
{
    let k = |x: T| key(x@);
    assert forall|i: int, j: int| 0 <= i < j < views(res).len() implies key(views(res)[i]) <= key(views(res)[j]) by {
        assert(k(res[i]) <= k(res[j]));
    }
    assert forall|v: int| #[trigger] with_key(views(res), key, v) == with_key(views(input), key, v) by {
        lemma_filter_view_commute(res, key_is(k, v), key_is(key, v));
        lemma_filter_view_commute(input, key_is(k, v), key_is(key, v));
        assert(with_key(res, k, v) == with_key(input, k, v));
    }
}

/// Sorts `items` stably by the integer keys given alongside them (`keys[i]` is the key of
/// `items[i]`), like `sort_by_key` of the standard library.
pub(crate) fn sort_by_keys<T>(items: Vec<T>, keys: Vec<i128>, Ghost(key): Ghost<spec_fn(T) -> int>) -> (res: Vec<T>)
    requires
        items@.len() == keys@.len(),
        forall|i: int| 0 <= i < items@.len() ==> keys@[i] as int == key(#[trigger] items@[i]),
    ensures
        stably_sorted(res@, items@, key),
{
    let ghost orig = items@;
    let mut rest = items;
    let mut rest_keys = keys;
    let mut res: Vec<T> = Vec::new();
    let mut res_keys: Vec<i128> = Vec::new();
    let ghost mut done: int = 0;
    while rest.len() > 0
        invariant
            0 <= done <= orig.len(),
            rest@ == orig.skip(done),
            rest@.len() == rest_keys@.len(),
            forall|i: int| 0 <= i < rest@.len() ==> rest_keys@[i] as int == key(#[trigger] rest@[i]),
            res@.len() == res_keys@.len(),
            forall|i: int| 0 <= i < res@.len() ==> res_keys@[i] as int == key(#[trigger] res@[i]),
            sorted_by_key(res@, key),
            forall|v: int| #[trigger] with_key(res@, key, v) == with_key(orig.take(done), key, v),
        decreases rest@.len(),
    {
        let x = rest.remove(0);
        let k = rest_keys.remove(0);
        assert(key(x) == k as int);
        let mut pos = res_keys.len();
        while pos > 0 && res_keys[pos - 1] > k
            invariant
                pos <= res_keys@.len(),
                res@.len() == res_keys@.len(),
                forall|j: int| pos <= j < res_keys@.len() ==> res_keys@[j] > k,
            decreases pos,
        {
            pos = pos - 1;
        }
        let ghost before = res@;
        proof {
            assert forall|j: int| pos <= j < before.len() implies key(before[j]) > key(x) by {
                assert(res_keys@[j] as int == key(before[j]));
            }
            assert forall|v: int| #[trigger] with_key(before.insert(pos as int, x), key, v) == with_key(
                orig.take(done + 1),
                key,
                v,
            ) by {
                lemma_insert_keyed(before, pos as int, x, key, v);
                assert(orig.take(done + 1) =~= orig.take(done).push(x));
                orig.take(done).lemma_filter_push(x, key_is(key, v));
            }
        }
        res.insert(pos, x);
        res_keys.insert(pos, k);
        proof {
            assert(res@ =~= before.insert(pos as int, x));
            assert forall|i: int, j: int| 0 <= i < j < res@.len() implies key(res@[i]) <= key(res@[j]) by {
                if i < pos && j > pos {
                    assert(key(res@[i]) == key(before[i]));
                    assert(key(res@[j]) == key(before[j - 1]));
                    if pos > 0 {
                        assert(res_keys@[pos - 1] <= k);
                        assert(key(before[pos - 1]) <= k);
                        assert(key(before[i]) <= key(before[pos - 1]));
                    }
                } else if i == pos {
                    assert(key(res@[j]) == key(before[j - 1]));
                } else if j == pos {
                    assert(key(res@[i]) == key(before[i]));
                    if pos > 0 {
                        assert(key(before[i]) <= key(before[pos - 1]));
                        assert(res_keys@[pos - 1] as int == key(before[pos - 1]));
                    }
                } else if j < pos {
                    assert(key(res@[i]) == key(before[i]));
                    assert(key(res@[j]) == key(before[j]));
                } else {
                    assert(key(res@[i]) == key(before[i - 1]));
                    assert(key(res@[j]) == key(before[j - 1]));
                }
            }
            done = done + 1;
            assert(rest@ =~= orig.skip(done));
        }
    }
    proof {
        assert(orig.take(done) =~= orig);
    }
    res
}


/// Whether the integer sequence `a` comes no later than `b` in lexicographic order (a proper
/// prefix first).
pub open spec fn code_le(a: Seq<int>, b: Seq<int>) -> bool
    decreases a.len(),
{
    if a.len() == 0 {
        true
    } else if b.len() == 0 {
        false
    } else if a[0] != b[0] {
        a[0] < b[0]
    } else {
        code_le(a.drop_first(), b.drop_first())
    }
}

/// Any two codes are ordered one way or the other.
pub proof fn lemma_code_le_total(a: Seq<int>, b: Seq<int>)
    ensures
        code_le(a, b) || code_le(b, a),
    decreases a.len(),
{
    if a.len() > 0 && b.len() > 0 && a[0] == b[0] {
        lemma_code_le_total(a.drop_first(), b.drop_first());
    }
}

/// The order of codes is transitive.
pub proof fn lemma_code_le_trans(a: Seq<int>, b: Seq<int>, c: Seq<int>)
    requires
        code_le(a, b),
        code_le(b, c),
    ensures
        code_le(a, c),
    decreases a.len(),
{
    if a.len() > 0 && b.len() > 0 && c.len() > 0 && a[0] == b[0] && b[0] == c[0] {
        lemma_code_le_trans(a.drop_first(), b.drop_first(), c.drop_first());
    }
}

/// Codes ordered both ways are equal.
pub proof fn lemma_code_le_antisymmetric(a: Seq<int>, b: Seq<int>)
    requires
        code_le(a, b),
        code_le(b, a),
    ensures
        a == b,
    decreases a.len(),
{
    if a.len() > 0 && b.len() > 0 {
        lemma_code_le_antisymmetric(a.drop_first(), b.drop_first());
        assert(a =~= seq![a[0]] + a.drop_first());
        assert(b =~= seq![b[0]] + b.drop_first());
    }
}

/// Whether the codes of `s` never go down.
pub open spec fn codes_sorted(s: Seq<Seq<int>>) -> bool {
    forall|i: int, j: int| 0 <= i < j < s.len() ==> code_le(s[i], s[j])
}

/// The integers of a vector of `i128`.
pub open spec fn ints(v: Seq<i128>) -> Seq<int> {
    v.map_values(|x: i128| x as int)
}

/// Whether code `a` comes no later than code `b` (see `code_le`).
pub fn codes_in_order(a: &Vec<i128>, b: &Vec<i128>) -> (res: bool)
    ensures
        res == code_le(ints(a@), ints(b@)),
{
    let mut i: usize = 0;
    assert(ints(a@).skip(0) =~= ints(a@));
    assert(ints(b@).skip(0) =~= ints(b@));
    while i < a.len() && i < b.len() && a[i] == b[i]
        invariant
            i <= a@.len(),
            i <= b@.len(),
            code_le(ints(a@).skip(i as int), ints(b@).skip(i as int)) == code_le(ints(a@), ints(b@)),
        decreases a@.len() - i,
    {
        assert(ints(a@).skip(i as int).drop_first() =~= ints(a@).skip(i + 1));
        assert(ints(b@).skip(i as int).drop_first() =~= ints(b@).skip(i + 1));
        i = i + 1;
    }
    if i == a.len() {
        true
    } else if i == b.len() {
        false
    } else {
        a[i] < b[i]
    }
}

/// Sorted codes with the same multiset are the same sequence: the order is canonical.
pub proof fn law_sorted_codes_unique(a: Seq<Seq<int>>, b: Seq<Seq<int>>)
    requires
        codes_sorted(a),
        codes_sorted(b),
        a.to_multiset() == b.to_multiset(),
    ensures
        a == b,
    decreases a.len(),
{
    broadcast use vstd::seq_lib::group_to_multiset_ensures;
    if a.len() == 0 {
        assert(b.to_multiset().len() == 0);
        assert(b =~= a);
    } else {
        assert(a.to_multiset().len() == a.len());
        assert(b.to_multiset().len() == b.len());
        assert(a.contains(a[0]));
        assert(b.to_multiset().count(a[0]) > 0);
        assert(b.contains(a[0]));
        let k = choose|k: int| 0 <= k < b.len() && b[k] == a[0];
        assert(b.contains(b[0]));
        assert(a.to_multiset().count(b[0]) > 0);
        assert(a.contains(b[0]));
        let m = choose|m: int| 0 <= m < a.len() && a[m] == b[0];
        if a[0] != b[0] {
            assert(k > 0 && m > 0);
            assert(code_le(b[0], b[k]));
            assert(code_le(a[0], a[m]));
            lemma_code_le_antisymmetric(a[0], b[0]);
        }
        vstd::seq_lib::to_multiset_remove(a, 0);
        vstd::seq_lib::to_multiset_remove(b, 0);
        assert(a.remove(0) =~= a.drop_first());
        assert(b.remove(0) =~= b.drop_first());
        law_sorted_codes_unique(a.drop_first(), b.drop_first());
        assert(a =~= seq![a[0]] + a.drop_first());
        assert(b =~= seq![b[0]] + b.drop_first());
    }
}

/// The codes of the elements of `s`.
pub open spec fn codes_of<T>(s: Seq<T>, code: spec_fn(T) -> Seq<int>) -> Seq<Seq<int>> {
    s.map_values(code)
}

/// Sorts `rows` by their codes (`codes[i]` is the code of `rows[i]`): the same rows, their codes
/// in lexicographic order. Rows with equal codes are adjacent; as long as equal codes mean equal
/// rows, the result depends on the multiset of rows alone (see `law_sorted_codes_unique`).
pub fn sort_by_codes<T>(rows: Vec<T>, codes: Vec<Vec<i128>>, Ghost(code): Ghost<spec_fn(T) -> Seq<int>>) -> (res: Vec<T>)
    requires
        rows@.len() == codes@.len(),
        forall|i: int| 0 <= i < rows@.len() ==> ints(#[trigger] codes@[i]@) == code(rows@[i]),
    ensures
        codes_sorted(codes_of(res@, code)),
        codes_of(res@, code).to_multiset() == codes_of(rows@, code).to_multiset(),
        res@.to_multiset() == rows@.to_multiset(),
{
    broadcast use vstd::seq_lib::group_to_multiset_ensures;
    let ghost orig = rows@;
    let mut rest = rows;
    let mut rest_codes = codes;
    let mut res: Vec<T> = Vec::new();
    let mut res_codes: Vec<Vec<i128>> = Vec::new();
    let ghost mut done: int = 0;
    while rest.len() > 0
        invariant
            0 <= done <= orig.len(),
            rest@ == orig.skip(done),
            rest@.len() == rest_codes@.len(),
            forall|i: int| 0 <= i < rest@.len() ==> ints(#[trigger] rest_codes@[i]@) == code(rest@[i]),
            res@.len() == res_codes@.len(),
            forall|i: int| 0 <= i < res@.len() ==> ints(#[trigger] res_codes@[i]@) == code(res@[i]),
            codes_sorted(codes_of(res@, code)),
            codes_of(res@, code).to_multiset() == codes_of(orig.take(done), code).to_multiset(),
            res@.to_multiset() == orig.take(done).to_multiset(),
        decreases rest@.len(),
    {
        let ghost rest_before = rest@;
        let ghost rc_before = rest_codes@;
        let x = rest.remove(0);
        let xc = rest_codes.remove(0);
        assert(ints(xc@) == code(x)) by {
            assert(ints(rc_before[0]@) == code(rest_before[0]));
        }
        assert forall|i: int| 0 <= i < rest@.len() implies ints(#[trigger] rest_codes@[i]@) == code(rest@[i]) by {
            assert(rest_codes@[i] == rc_before[i + 1]);
            assert(rest@[i] == rest_before[i + 1]);
        }
        let mut pos = res.len();
        while pos > 0 && !codes_in_order(&res_codes[pos - 1], &xc)
            invariant
                pos <= res@.len(),
                res@.len() == res_codes@.len(),
                forall|i: int| 0 <= i < res@.len() ==> ints(#[trigger] res_codes@[i]@) == code(res@[i]),
                forall|j: int| pos <= j < res@.len() ==> !code_le(#[trigger] code(res@[j]), code(x)),
                ints(xc@) == code(x),
            decreases pos,
        {
            assert(ints(res_codes@[pos - 1]@) == code(res@[pos - 1]));
            pos = pos - 1;
        }
        let ghost before = codes_of(res@, code);
        let ghost rows_before = res@;
        proof {
            assert forall|j: int| pos <= j < before.len() implies code_le(code(x), #[trigger] before[j]) by {
                assert(before[j] == code(res@[j]));
                lemma_code_le_total(before[j], code(x));
            }
            if pos > 0 {
                assert(ints(res_codes@[pos - 1]@) == code(res@[pos - 1]));
                assert(before[pos - 1] == code(res@[pos - 1]));
            }
        }
        let ghost rc_prev = res_codes@;
        res.insert(pos, x);
        res_codes.insert(pos, xc);
        proof {
            assert forall|i: int| 0 <= i < res@.len() implies ints(#[trigger] res_codes@[i]@) == code(res@[i]) by {
                if i < pos {
                    assert(res_codes@[i] == rc_prev[i] && res@[i] == rows_before[i]);
                } else if i > pos {
                    assert(res_codes@[i] == rc_prev[i - 1] && res@[i] == rows_before[i - 1]);
                }
            }
            let after = codes_of(res@, code);
            assert(after =~= before.insert(pos as int, code(x)));
            assert forall|i: int, j: int| 0 <= i < j < after.len() implies code_le(after[i], after[j]) by {
                if j == pos {
                    assert(after[i] == before[i]);
                    if pos > 0 {
                        assert(code_le(before[pos - 1], code(x)));
                        if i < pos - 1 {
                            lemma_code_le_trans(before[i], before[pos - 1], code(x));
                        }
                    }
                } else if i == pos {
                    assert(after[j] == before[j - 1]);
                } else if i < pos && j > pos {
                    assert(after[i] == before[i] && after[j] == before[j - 1]);
                } else if j < pos {
                    assert(after[i] == before[i] && after[j] == before[j]);
                } else {
                    assert(after[i] == before[i - 1] && after[j] == before[j - 1]);
                }
            }
            assert(rest_before[0] == orig[done]);
            assert(orig.take(done + 1) =~= orig.take(done).push(x));
            assert(codes_of(orig.take(done + 1), code) =~= codes_of(orig.take(done), code).push(code(x)));
            vstd::seq_lib::to_multiset_insert(before, pos as int, code(x));
            vstd::seq_lib::to_multiset_build(codes_of(orig.take(done), code), code(x));
            vstd::seq_lib::to_multiset_insert(rows_before, pos as int, x);
            vstd::seq_lib::to_multiset_build(orig.take(done), x);
            assert(res@ =~= rows_before.insert(pos as int, x));
            done = done + 1;
            assert(rest@ =~= orig.skip(done));
        }
    }
    proof {
        assert(orig.take(done) =~= orig);
    }
    res
}

} // verus!
