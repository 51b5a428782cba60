//! Character-level string building blocks shared by the rest of the crate.

use vstd::prelude::*;

verus! {

/// The decimal digit character for `d` (which must be below ten).
pub open spec fn digit_char(d: nat) -> char {
    if d == 0 { '0' }
    else if d == 1 { '1' }
    else if d == 2 { '2' }
    else if d == 3 { '3' }
    else if d == 4 { '4' }
    else if d == 5 { '5' }
    else if d == 6 { '6' }
    else if d == 7 { '7' }
    else if d == 8 { '8' }
    else { '9' }
}

/// Decimal rendering of a natural number, most significant digit first,
/// without leading zeros (zero renders as `"0"`).
pub open spec fn decimal(n: nat) -> Seq<char>
    decreases n,
{
    if n < 10 {
        seq![digit_char(n)]
    } else {
        decimal(n / 10).push(digit_char(n % 10))
    }
}

/// Calls std `String::push`.  Claimed, as its documentation says: the
/// character is appended at the end of the string.
#[verifier::external_body]
pub(crate) fn push_char(s: &mut String, c: char)
    ensures
        final(s)@ == old(s)@.push(c),
{
    s.push(c)
}

fn digit(d: u64) -> (c: char)
    requires
        d < 10,
    ensures
        c == digit_char(d as nat),
{
    if d == 0 { '0' }
    else if d == 1 { '1' }
    else if d == 2 { '2' }
    else if d == 3 { '3' }
    else if d == 4 { '4' }
    else if d == 5 { '5' }
    else if d == 6 { '6' }
    else if d == 7 { '7' }
    else if d == 8 { '8' }
    else { '9' }
}

/// Appends the decimal rendering of `n` to `out`.
pub fn push_decimal(out: &mut String, n: u64)
    ensures
        final(out)@ == old(out)@ + decimal(n as nat),
    decreases n,
{
    if n < 10 {
        push_char(out, digit(n));
    } else {
        push_decimal(out, n / 10);
        push_char(out, digit(n % 10));
    }
}

/// The decimal rendering of `n` as a new string.
pub fn to_decimal(n: u64) -> (s: String)
    ensures
        s@ == decimal(n as nat),
{
    let mut s = String::new();
    push_decimal(&mut s, n);
    assert(s@ == Seq::<char>::empty() + decimal(n as nat));
    s
}

/// Whether two strings hold the same characters.
pub fn same_text(a: &str, b: &str) -> (eq: bool)
    ensures
        eq == (a@ == b@),
{
    let n = a.unicode_len();
    if n != b.unicode_len() {
        return false;
    }
    let mut i: usize = 0;
    while i < n
        invariant
            i <= n,
            n == a@.len(),
            n == b@.len(),
            forall|j: int| 0 <= j < i ==> a@[j] == b@[j],
        decreases n - i,
    {
        if a.get_char(i) != b.get_char(i) {
            return false;
        }
        i = i + 1;
    }
    assert(a@ =~= b@);
    true
}

/// The texts of a list of strings.
pub open spec fn strings_view(v: Seq<String>) -> Seq<Seq<char>> {
    v.map_values(|s: String| s@)
}

/// The parts joined, with `sep` between consecutive parts.
pub open spec fn joined_with(parts: Seq<Seq<char>>, sep: Seq<char>) -> Seq<char>
    decreases parts.len(),
{
    if parts.len() == 0 {
        Seq::empty()
    } else if parts.len() == 1 {
        parts[0]
    } else {
        joined_with(parts.drop_last(), sep) + sep + parts.last()
    }
}

/// Joins `parts` with `sep` between consecutive parts.
pub fn join_with(parts: &Vec<String>, sep: &str) -> (s: String)
    ensures
        s@ == joined_with(strings_view(parts@), sep@),
{
    let ghost pv = strings_view(parts@);
    let mut s = String::new();
    let mut i: usize = 0;
    while i < parts.len()
        invariant
            i <= parts@.len(),
            pv == strings_view(parts@),
            s@ == joined_with(pv.take(i as int), sep@),
        decreases parts@.len() - i,
    {
        proof {
            assert(pv.take(i as int + 1).drop_last() =~= pv.take(i as int));
            assert(pv[i as int] == parts@[i as int]@);
        }
        if i > 0 {
            s.append(sep);
        } else {
            assert(s@ =~= Seq::<char>::empty());
        }
        s.append(parts[i].as_str());
        proof {
            if i == 0 {
                assert(s@ =~= pv.take(1)[0]);
            }
        }
        i = i + 1;
    }
    proof {
        assert(pv.take(parts@.len() as int) =~= pv);
    }
    s
}

// ── Order of texts ─────────────────────────────────────────────────────────

/// Lexicographic order of texts by character code (the order of `str`).
pub open spec fn text_lt(a: Seq<char>, b: Seq<char>) -> bool
    decreases a.len(),
{
    if a.len() == 0 {
        b.len() > 0
    } else if b.len() == 0 {
        false
    } else if a[0] != b[0] {
        (a[0] as int) < (b[0] as int)
    } else {
        text_lt(a.drop_first(), b.drop_first())
    }
}

/// Strictly increasing, hence free of repeats.
pub open spec fn strictly_sorted(s: Seq<Seq<char>>) -> bool {
    forall|i: int, j: int| 0 <= i < j < s.len() ==> text_lt(s[i], s[j])
}

pub proof fn lemma_text_lt_irreflexive(a: Seq<char>)
    ensures
        !text_lt(a, a),
    decreases a.len(),
{
    if a.len() > 0 {
        lemma_text_lt_irreflexive(a.drop_first());
    }
}

pub proof fn lemma_text_lt_total(a: Seq<char>, b: Seq<char>)
    ensures
        a == b || text_lt(a, b) || text_lt(b, a),
    decreases a.len(),
{
    if a.len() > 0 && b.len() > 0 && a[0] == b[0] {
        lemma_text_lt_total(a.drop_first(), b.drop_first());
        if a.drop_first() == b.drop_first() {
            assert(a =~= seq![a[0]] + a.drop_first());
            assert(b =~= seq![b[0]] + b.drop_first());
        }
    } else if a.len() == 0 && b.len() == 0 {
        assert(a =~= b);
    }
}

pub proof fn lemma_text_lt_transitive(a: Seq<char>, b: Seq<char>, c: Seq<char>)
    requires
        text_lt(a, b),
        text_lt(b, c),
    ensures
        text_lt(a, c),
    decreases a.len(),
{
    if a.len() > 0 && b.len() > 0 && c.len() > 0 {
        if a[0] == b[0] && b[0] == c[0] {
            lemma_text_lt_transitive(a.drop_first(), b.drop_first(), c.drop_first());
        }
    }
}

/// Whether `a` comes before `b` (see `text_lt`).
pub fn text_less(a: &str, b: &str) -> (lt: bool)
    ensures
        lt == text_lt(a@, b@),
{
    let n = a.unicode_len();
    let m = b.unicode_len();
    let mut i: usize = 0;
    proof {
        assert(a@.skip(0) =~= a@);
        assert(b@.skip(0) =~= b@);
    }
    while i < n && i < m && a.get_char(i) == b.get_char(i)
        invariant
            i <= n,
            i <= m,
            n == a@.len(),
            m == b@.len(),
            text_lt(a@, b@) == text_lt(a@.skip(i as int), b@.skip(i as int)),
        decreases n - i,
    {
        proof {
            assert(a@.skip(i as int).drop_first() =~= a@.skip(i as int + 1));
            assert(b@.skip(i as int).drop_first() =~= b@.skip(i as int + 1));
        }
        i = i + 1;
    }
    if i == n {
        i < m
    } else if i == m {
        false
    } else {
        let ca = a.get_char(i);
        let cb = b.get_char(i);
        proof {
            assert(a@.skip(i as int)[0] == ca);
            assert(b@.skip(i as int)[0] == cb);
        }
        (ca as u32) < (cb as u32)
    }
}

pub proof fn lemma_insert_to_set(s: Seq<Seq<char>>, i: int, x: Seq<char>)
    requires
        0 <= i <= s.len(),
    ensures
        s.insert(i, x).to_set() =~= s.to_set().insert(x),
{
    let t = s.insert(i, x);
    assert forall|y: Seq<char>| t.to_set().contains(y) <==> s.to_set().insert(x).contains(y) by {
        if t.to_set().contains(y) {
            let j = choose|j: int| 0 <= j < t.len() && t[j] == y;
            if j < i {
                assert(s[j] == y);
            } else if j > i {
                assert(s[j - 1] == y);
            }
        }
        if s.to_set().contains(y) {
            let j = choose|j: int| 0 <= j < s.len() && s[j] == y;
            if j < i {
                assert(t[j] == y);
            } else {
                assert(t[j + 1] == y);
            }
        }
        if y == x {
            assert(t[i] == x);
        }
    }
}

pub proof fn lemma_sorted_insert(s: Seq<Seq<char>>, i: int, x: Seq<char>)
    requires
        strictly_sorted(s),
        0 <= i <= s.len(),
        forall|j: int| 0 <= j < i ==> text_lt(#[trigger] s[j], x),
        i < s.len() ==> text_lt(x, s[i]),
    ensures
        strictly_sorted(s.insert(i, x)),
{
    let t = s.insert(i, x);
    assert forall|p: int, q: int| 0 <= p < q < t.len() implies text_lt(t[p], t[q]) by {
        if q < i {
            assert(t[p] == s[p] && t[q] == s[q]);
        } else if q == i {
            assert(t[p] == s[p]);
        } else if p < i {
            assert(t[p] == s[p] && t[q] == s[q - 1]);
        } else if p == i {
            assert(t[q] == s[q - 1]);
            if q - 1 > i {
                lemma_text_lt_transitive(x, s[i], s[q - 1]);
            }
        } else {
            assert(t[p] == s[p - 1] && t[q] == s[q - 1]);
        }
    }
}

/// The texts sorted in increasing order with repeats dropped: the result is
/// strictly increasing and holds exactly the given texts.
pub fn sorted_unique(texts: &Vec<String>) -> (out: Vec<String>)
    ensures
        strictly_sorted(strings_view(out@)),
        strings_view(out@).to_set() == strings_view(texts@).to_set(),
{
    let ghost sv = strings_view(texts@);
    let mut out: Vec<String> = Vec::new();
    let mut k: usize = 0;
    while k < texts.len()
        invariant
            k <= texts@.len(),
            sv == strings_view(texts@),
            strictly_sorted(strings_view(out@)),
            strings_view(out@).to_set() == sv.take(k as int).to_set(),
        decreases texts@.len() - k,
    {
        let x = texts[k].as_str();
        let ghost ov = strings_view(out@);
        let mut i: usize = 0;
        while i < out.len() && text_less(out[i].as_str(), x)
            invariant
                i <= out@.len(),
                ov == strings_view(out@),
                forall|j: int| 0 <= j < i ==> text_lt(#[trigger] ov[j], x@),
            decreases out@.len() - i,
        {
            proof {
                assert(ov[i as int] == out@[i as int]@);
            }
            i = i + 1;
        }
        proof {
            assert(sv.take(k as int + 1) =~= sv.take(k as int).push(x@));
            assert(sv[k as int] == x@);
        }
        if i < out.len() && same_text(out[i].as_str(), x) {
            proof {
                assert(ov[i as int] == x@);
                assert(ov.to_set().contains(x@));
                sv.take(k as int).lemma_push_to_set_commute(x@);
                assert(sv.take(k as int + 1).to_set() =~= sv.take(k as int).to_set().insert(x@));
            }
        } else {
            proof {
                if i < out@.len() {
                    assert(ov[i as int] == out@[i as int]@);
                    lemma_text_lt_total(ov[i as int], x@);
                }
                lemma_sorted_insert(ov, i as int, x@);
            }
            let copy = texts[k].clone();
            out.insert(i, copy);
            proof {
                assert(strings_view(out@) =~= ov.insert(i as int, x@));
                lemma_insert_to_set(ov, i as int, x@);
                sv.take(k as int).lemma_push_to_set_commute(x@);
                assert(sv.take(k as int + 1).to_set() =~= sv.take(k as int).to_set().insert(x@));
            }
        }
        k = k + 1;
    }
    proof {
        assert(sv.take(texts@.len() as int) =~= sv);
    }
    out
}

// ── Sorting ─────────────────────────────────────────────────────────────────

/// Texts in non-decreasing order.
pub open spec fn sorted_texts(s: Seq<Seq<char>>) -> bool {
    forall|i: int, j: int| 0 <= i < j < s.len() ==> !text_lt(#[trigger] s[j], #[trigger] s[i])
}

/// The texts of `s` in non-decreasing order: the sorted sequence with the
/// same elements, each as often (there is exactly one).
pub open spec fn sorted_version(s: Seq<Seq<char>>) -> Seq<Seq<char>> {
    choose|t: Seq<Seq<char>>| sorted_texts(t) && t.to_multiset() == s.to_multiset()
}

/// Two sorted sequences with the same elements, each as often, are equal.
pub proof fn lemma_sorted_perm_unique(a: Seq<Seq<char>>, b: Seq<Seq<char>>)
    requires
        sorted_texts(a),
        sorted_texts(b),
        a.to_multiset() == b.to_multiset(),
    ensures
        a == b,
    decreases a.len(),
{
    broadcast use vstd::seq_lib::group_to_multiset_ensures;

    assert(a.len() == b.len()) by {
        a.to_multiset_ensures();
        b.to_multiset_ensures();
    }
    if a.len() == 0 {
        assert(a =~= b);
    } else {
        assert(b.to_multiset().count(a[0]) > 0) by {
            a.to_multiset_ensures();
            assert(a.contains(a[0]));
        }
        assert(b.contains(a[0]));
        let k = choose|k: int| 0 <= k < b.len() && b[k] == a[0];
        assert(a.to_multiset().count(b[0]) > 0) by {
            assert(b.contains(b[0]));
        }
        assert(a.contains(b[0]));
        let m = choose|m: int| 0 <= m < a.len() && a[m] == b[0];
        assert(!text_lt(a[0], b[0])) by {
            if k > 0 {
                assert(!text_lt(b[k], b[0]));
            } else {
                lemma_text_lt_irreflexive(a[0]);
            }
        }
        assert(!text_lt(b[0], a[0])) by {
            if m > 0 {
                assert(!text_lt(a[m], a[0]));
            } else {
                lemma_text_lt_irreflexive(b[0]);
            }
        }
        lemma_text_lt_total(a[0], b[0]);
        assert(a[0] == b[0]);
        vstd::seq_lib::to_multiset_remove(a, 0);
        vstd::seq_lib::to_multiset_remove(b, 0);
        assert(a.remove(0) =~= a.drop_first());
        assert(b.remove(0) =~= b.drop_first());
        lemma_sorted_perm_unique(a.drop_first(), b.drop_first());
        assert(a =~= b) by {
            assert forall|i: int| 0 <= i < a.len() implies a[i] == b[i] by {
                if i > 0 {
                    assert(a[i] == a.drop_first()[i - 1]);
                    assert(b[i] == b.drop_first()[i - 1]);
                }
            }
        }
    }
}

proof fn lemma_sorted_insert_le(s: Seq<Seq<char>>, i: int, x: Seq<char>)
    requires
        sorted_texts(s),
        0 <= i <= s.len(),
        forall|j: int| 0 <= j < i ==> text_lt(#[trigger] s[j], x),
        i < s.len() ==> !text_lt(s[i], x),
    ensures
        sorted_texts(s.insert(i, x)),
{
    let t = s.insert(i, x);
    assert forall|p: int, q: int| 0 <= p < q < t.len() implies !text_lt(
        #[trigger] t[q],
        #[trigger] t[p],
    ) by {
        if q < i {
            assert(t[p] == s[p] && t[q] == s[q]);
        } else if q == i {
            assert(t[p] == s[p]);
            assert(text_lt(s[p], x));
            if text_lt(x, s[p]) {
                lemma_text_lt_transitive(x, s[p], x);
                lemma_text_lt_irreflexive(x);
            }
        } else if p < i {
            assert(t[p] == s[p] && t[q] == s[q - 1]);
        } else if p == i {
            assert(t[q] == s[q - 1]);
            if text_lt(s[q - 1], x) {
                if q - 1 > i {
                    assert(!text_lt(s[q - 1], s[i]));
                    lemma_text_lt_total(s[q - 1], s[i]);
                    if s[q - 1] != s[i] {
                        lemma_text_lt_transitive(s[i], s[q - 1], x);
                    }
                }
            }
        } else {
            assert(t[p] == s[p - 1] && t[q] == s[q - 1]);
        }
    }
}

/// The texts sorted in non-decreasing order (see `sorted_version`).
pub fn sort_texts(v: &Vec<String>) -> (out: Vec<String>)
    ensures
        strings_view(out@) == sorted_version(strings_view(v@)),
        sorted_texts(strings_view(out@)),
        strings_view(out@).to_multiset() == strings_view(v@).to_multiset(),
{
    broadcast use vstd::seq_lib::group_to_multiset_ensures;

    let ghost vv = strings_view(v@);
    let mut out: Vec<String> = Vec::new();
    let mut k: usize = 0;
    while k < v.len()
        invariant
            k <= v@.len(),
            vv == strings_view(v@),
            sorted_texts(strings_view(out@)),
            strings_view(out@).to_multiset() == vv.take(k as int).to_multiset(),
        decreases v@.len() - k,
    {
        let x = v[k].as_str();
        let ghost ov = strings_view(out@);
        let mut i: usize = 0;
        while i < out.len() && text_less(out[i].as_str(), x)
            invariant
                i <= out@.len(),
                ov == strings_view(out@),
                forall|j: int| 0 <= j < i ==> text_lt(#[trigger] ov[j], x@),
            decreases out@.len() - i,
        {
            proof {
                assert(ov[i as int] == out@[i as int]@);
            }
            i = i + 1;
        }
        proof {
            if i < out@.len() {
                assert(ov[i as int] == out@[i as int]@);
            }
            lemma_sorted_insert_le(ov, i as int, x@);
            assert(vv.take(k as int + 1) =~= vv.take(k as int).push(x@));
            assert(vv[k as int] == x@);
            vstd::seq_lib::to_multiset_build(vv.take(k as int), x@);
            vstd::seq_lib::to_multiset_insert(ov, i as int, x@);
        }
        let copy = v[k].clone();
        out.insert(i, copy);
        proof {
            assert(strings_view(out@) =~= ov.insert(i as int, x@));
        }
        k = k + 1;
    }
    proof {
        assert(vv.take(v@.len() as int) =~= vv);
        let t = strings_view(out@);
        assert(sorted_texts(t) && t.to_multiset() == vv.to_multiset());
        let c = sorted_version(vv);
        assert(sorted_texts(c) && c.to_multiset() == vv.to_multiset());
        lemma_sorted_perm_unique(t, c);
    }
    out
}

/// Every sequence of texts has a sorted arrangement.
pub proof fn lemma_sorted_exists(s: Seq<Seq<char>>)
    ensures
        exists|t: Seq<Seq<char>>| sorted_texts(t) && t.to_multiset() == s.to_multiset(),
    decreases s.len(),
{
    broadcast use vstd::seq_lib::group_to_multiset_ensures;

    if s.len() == 0 {
        assert(sorted_texts(s));
    } else {
        let init = s.drop_last();
        let x = s.last();
        lemma_sorted_exists(init);
        let t = choose|t: Seq<Seq<char>>| sorted_texts(t) && t.to_multiset() == init.to_multiset();
        let i = insert_pos(t, x);
        lemma_insert_pos(t, x);
        lemma_sorted_insert_le(t, i, x);
        vstd::seq_lib::to_multiset_insert(t, i, x);
        vstd::seq_lib::to_multiset_build(init, x);
        assert(init.push(x) =~= s);
        let u = t.insert(i, x);
        assert(sorted_texts(u) && u.to_multiset() == s.to_multiset());
    }
}

/// Where `x` goes in sorted texts `t`: after every text below it.
spec fn insert_pos(t: Seq<Seq<char>>, x: Seq<char>) -> int
    decreases t.len(),
{
    if t.len() == 0 {
        0
    } else if !text_lt(t[0], x) {
        0
    } else {
        1 + insert_pos(t.drop_first(), x)
    }
}

proof fn lemma_insert_pos(t: Seq<Seq<char>>, x: Seq<char>)
    ensures
        0 <= insert_pos(t, x) <= t.len(),
        forall|k: int| 0 <= k < insert_pos(t, x) ==> text_lt(#[trigger] t[k], x),
        insert_pos(t, x) < t.len() ==> !text_lt(t[insert_pos(t, x)], x),
    decreases t.len(),
{
    if t.len() > 0 && text_lt(t[0], x) {
        lemma_insert_pos(t.drop_first(), x);
        assert forall|k: int| 0 <= k < insert_pos(t, x) implies text_lt(#[trigger] t[k], x) by {
            if k > 0 {
                assert(t[k] == t.drop_first()[k - 1]);
            }
        }
        if insert_pos(t, x) < t.len() {
            assert(t[insert_pos(t, x)] == t.drop_first()[insert_pos(t.drop_first(), x)]);
        }
    }
}

/// What `sorted_version` gives is sorted and holds the same texts, each as
/// often.
pub proof fn lemma_sorted_version(s: Seq<Seq<char>>)
    ensures
        sorted_texts(sorted_version(s)),
        sorted_version(s).to_multiset() == s.to_multiset(),
{
    lemma_sorted_exists(s);
}

/// Sorting is idempotent: sorting sorted texts changes nothing, and sorting
/// twice is sorting once.
pub proof fn law_sort_idempotent(s: Seq<Seq<char>>)
    ensures
        sorted_texts(s) ==> sorted_version(s) == s,
        sorted_version(sorted_version(s)) == sorted_version(s),
{
    lemma_sorted_version(s);
    if sorted_texts(s) {
        lemma_sorted_perm_unique(sorted_version(s), s);
    }
    let t = sorted_version(s);
    lemma_sorted_version(t);
    lemma_sorted_perm_unique(sorted_version(t), t);
}

/// Sorting does not depend on the order of its input: texts with the same
/// elements, each as often, sort alike.
pub proof fn law_sort_order_blind(a: Seq<Seq<char>>, b: Seq<Seq<char>>)
    requires
        a.to_multiset() == b.to_multiset(),
    ensures
        sorted_version(a) == sorted_version(b),
{
    lemma_sorted_version(a);
    lemma_sorted_version(b);
    lemma_sorted_perm_unique(sorted_version(a), sorted_version(b));
}

// ── Ordering records by a text key ──────────────────────────────────────────

/// `order` arranges the positions `0..keys.len()` so that the keys do not
/// decrease, and positions with equal keys keep their order: a stable sort.
pub open spec fn stable_order(keys: Seq<Seq<char>>, order: Seq<usize>) -> bool {
    &&& order.len() == keys.len()
    &&& order.no_duplicates()
    &&& forall|p: int| 0 <= p < order.len() ==> (#[trigger] order[p] as int) < keys.len()
    &&& forall|p: int, q: int|
        0 <= p < q < order.len() ==> !text_lt(
            #[trigger] keys[order[q] as int],
            #[trigger] keys[order[p] as int],
        )
    &&& forall|p: int, q: int|
        0 <= p < q < order.len() && keys[order[p] as int] == keys[order[q] as int] ==> order[p]
            < order[q]
}

/// The positions of `keys` in the order of a stable sort by key (see
/// `stable_order`).
pub fn order_by_keys(keys: &Vec<String>) -> (order: Vec<usize>)
    ensures
        stable_order(strings_view(keys@), order@),
{
    let ghost kv = strings_view(keys@);
    let mut out: Vec<usize> = Vec::new();
    let mut k: usize = 0;
    while k < keys.len()
        invariant
            k <= keys@.len(),
            kv == strings_view(keys@),
            out@.len() == k,
            out@.no_duplicates(),
            forall|p: int| 0 <= p < out@.len() ==> (#[trigger] out@[p] as int) < k,
            forall|p: int, q: int|
                0 <= p < q < out@.len() ==> !text_lt(
                    #[trigger] kv[out@[q] as int],
                    #[trigger] kv[out@[p] as int],
                ),
            forall|p: int, q: int|
                0 <= p < q < out@.len() && kv[out@[p] as int] == kv[out@[q] as int] ==> out@[p]
                    < out@[q],
        decreases keys@.len() - k,
    {
        let x = keys[k].as_str();
        let ghost ov = out@;
        let mut i: usize = 0;
        while i < out.len() && !text_less(x, keys[out[i]].as_str())
            invariant
                i <= out@.len(),
                ov == out@,
                out@.len() == k,
                k < keys@.len(),
                kv == strings_view(keys@),
                x@ == kv[k as int],
                forall|p: int| 0 <= p < out@.len() ==> (#[trigger] out@[p] as int) < k,
                forall|j: int| 0 <= j < i ==> !text_lt(x@, #[trigger] kv[ov[j] as int]),
            decreases out@.len() - i,
        {
            proof {
                assert(kv[ov[i as int] as int] == keys@[ov[i as int] as int]@);
            }
            i = i + 1;
        }
        proof {
            assert(kv[k as int] == keys@[k as int]@);
            if i < out@.len() {
                assert(kv[ov[i as int] as int] == keys@[ov[i as int] as int]@);
                assert(text_lt(x@, kv[ov[i as int] as int]));
            }
        }
        out.insert(i, k);
        proof {
            let t = out@;
            assert(t =~= ov.insert(i as int, k));
            assert forall|p: int| 0 <= p < t.len() implies (#[trigger] t[p] as int) < k + 1 by {
                if p < i {
                    assert(t[p] == ov[p]);
                } else if p > i {
                    assert(t[p] == ov[p - 1]);
                }
            }
            assert forall|p: int, q: int| 0 <= p < q < t.len() implies !text_lt(
                #[trigger] kv[t[q] as int],
                #[trigger] kv[t[p] as int],
            ) by {
                if q < i {
                    assert(t[p] == ov[p] && t[q] == ov[q]);
                } else if q == i {
                    assert(t[p] == ov[p]);
                    assert(!text_lt(x@, kv[ov[p] as int]));
                } else if p < i {
                    assert(t[p] == ov[p] && t[q] == ov[q - 1]);
                } else if p == i {
                    assert(t[q] == ov[q - 1]);
                    let a = kv[ov[i as int] as int];
                    let b = kv[ov[q - 1] as int];
                    assert(text_lt(x@, a));
                    if q - 1 > i {
                        assert(!text_lt(b, a));
                        lemma_text_lt_total(a, b);
                        if a != b {
                            lemma_text_lt_transitive(x@, a, b);
                        }
                    }
                    if text_lt(b, x@) {
                        lemma_text_lt_transitive(x@, b, x@);
                        lemma_text_lt_irreflexive(x@);
                    }
                } else {
                    assert(t[p] == ov[p - 1] && t[q] == ov[q - 1]);
                }
            }
            assert forall|p: int, q: int|
                0 <= p < q < t.len() && kv[t[p] as int] == kv[t[q] as int] implies t[p] < t[q] by {
                if q < i {
                    assert(t[p] == ov[p] && t[q] == ov[q]);
                } else if q == i {
                    assert(t[p] == ov[p]);
                } else if p < i {
                    assert(t[p] == ov[p] && t[q] == ov[q - 1]);
                } else if p == i {
                    assert(t[q] == ov[q - 1]);
                    let a = kv[ov[i as int] as int];
                    let b = kv[ov[q - 1] as int];
                    assert(text_lt(x@, a));
                    if q - 1 > i {
                        assert(!text_lt(b, a));
                        lemma_text_lt_total(a, b);
                        if a != b {
                            lemma_text_lt_transitive(x@, a, b);
                        }
                    }
                    lemma_text_lt_irreflexive(x@);
                } else {
                    assert(t[p] == ov[p - 1] && t[q] == ov[q - 1]);
                }
            }
            assert forall|p: int, q: int| 0 <= p < q < t.len() implies t[p] != t[q] by {
                if q < i {
                    assert(t[p] == ov[p] && t[q] == ov[q]);
                } else if q == i {
                    assert(t[p] == ov[p]);
                } else if p < i {
                    assert(t[p] == ov[p] && t[q] == ov[q - 1]);
                } else if p == i {
                    assert(t[q] == ov[q - 1]);
                } else {
                    assert(t[p] == ov[p - 1] && t[q] == ov[q - 1]);
                }
            }
        }
        k = k + 1;
    }
    out
}

// ── Lines ───────────────────────────────────────────────────────────────────

/// A line without the carriage return that may end it.
pub open spec fn strip_cr(line: Seq<char>) -> Seq<char> {
    if line.len() > 0 && line.last() == '\r' {
        line.drop_last()
    } else {
        line
    }
}

/// The finished lines of `s` and the unfinished text after the last newline.
pub open spec fn lines_acc(s: Seq<char>) -> (Seq<Seq<char>>, Seq<char>)
    decreases s.len(),
{
    if s.len() == 0 {
        (Seq::empty(), Seq::empty())
    } else {
        let (done, cur) = lines_acc(s.drop_last());
        if s.last() == '\n' {
            (done.push(strip_cr(cur)), Seq::empty())
        } else {
            (done, cur.push(s.last()))
        }
    }
}

/// The lines of a text: split at each newline, a carriage return just before
/// a newline dropped, and no empty line after a final newline.
pub open spec fn text_lines(s: Seq<char>) -> Seq<Seq<char>> {
    let (done, cur) = lines_acc(s);
    if cur.len() == 0 {
        done
    } else {
        done.push(cur)
    }
}

/// The lines of a text (see `text_lines`).
pub fn lines_of(s: &str) -> (out: Vec<String>)
    ensures
        strings_view(out@) == text_lines(s@),
{
    let n = s.unicode_len();
    let mut out: Vec<String> = Vec::new();
    let mut cur = String::new();
    let mut i: usize = 0;
    while i < n
        invariant
            i <= n,
            n == s@.len(),
            (strings_view(out@), cur@) == lines_acc(s@.take(i as int)),
        decreases n - i,
    {
        let c = s.get_char(i);
        proof {
            assert(s@.take(i as int + 1).drop_last() =~= s@.take(i as int));
            assert(s@.take(i as int + 1).last() == c);
        }
        if c == '\n' {
            let m = cur.unicode_len();
            let line = if m > 0 && cur.as_str().get_char(m - 1) == '\r' {
                let t = cur.as_str().substring_char(0, m - 1);
                proof {
                    assert(t@ =~= cur@.drop_last());
                }
                t.to_string()
            } else {
                cur.clone()
            };
            let ghost before = out@;
            out.push(line);
            proof {
                assert(strings_view(out@) =~= strings_view(before).push(strip_cr(cur@)));
            }
            cur = String::new();
        } else {
            push_char(&mut cur, c);
        }
        i = i + 1;
    }
    proof {
        assert(s@.take(n as int) =~= s@);
    }
    if cur.unicode_len() > 0 {
        let ghost before = out@;
        out.push(cur);
        proof {
            assert(strings_view(out@) =~= strings_view(before).push(text_lines(s@).last()));
        }
    }
    out
}

// ── Occurrence ──────────────────────────────────────────────────────────────

/// `t` occurs in `s` at position `k`.
pub open spec fn occurs_at(t: Seq<char>, s: Seq<char>, k: int) -> bool {
    0 <= k && k + t.len() <= s.len() && s.subrange(k, k + t.len()) == t
}

/// `t` occurs somewhere in `s`.
pub open spec fn occurs_in(t: Seq<char>, s: Seq<char>) -> bool {
    exists|k: int| occurs_at(t, s, k)
}

/// What occurs in a text occurs in any text around it.
pub proof fn lemma_occurs_in_context(t: Seq<char>, s: Seq<char>, pre: Seq<char>, post: Seq<char>)
    requires
        occurs_in(t, s),
    ensures
        occurs_in(t, pre + s + post),
{
    let k = choose|k: int| occurs_at(t, s, k);
    let u = pre + s + post;
    assert(u.subrange(pre.len() + k, pre.len() + k + t.len()) =~= s.subrange(k, k + t.len()));
    assert(occurs_at(t, u, pre.len() + k));
}

/// Each part occurs in the parts joined.
pub proof fn lemma_part_occurs_in_join(parts: Seq<Seq<char>>, sep: Seq<char>, i: int)
    requires
        0 <= i < parts.len(),
    ensures
        occurs_in(parts[i], joined_with(parts, sep)),
    decreases parts.len(),
{
    let j = joined_with(parts, sep);
    if parts.len() == 1 {
        assert(j.subrange(0, parts[i].len() as int) =~= parts[i]);
        assert(occurs_at(parts[i], j, 0));
    } else if i == parts.len() - 1 {
        let head = joined_with(parts.drop_last(), sep) + sep;
        assert(j == head + parts.last());
        assert(j.subrange(head.len() as int, (head.len() + parts[i].len()) as int) =~= parts[i]);
        assert(occurs_at(parts[i], j, head.len() as int));
    } else {
        assert(parts.drop_last()[i] == parts[i]);
        lemma_part_occurs_in_join(parts.drop_last(), sep, i);
        lemma_occurs_in_context(
            parts[i],
            joined_with(parts.drop_last(), sep),
            Seq::empty(),
            sep + parts.last(),
        );
        assert(Seq::<char>::empty() + joined_with(parts.drop_last(), sep) + (sep + parts.last())
            =~= j);
    }
}

// ── Replacing ───────────────────────────────────────────────────────────────

/// `s` with every occurrence of the non-empty `from` replaced by `to`,
/// scanning from the left; replaced text is not scanned again.
pub open spec fn replaced(s: Seq<char>, from: Seq<char>, to: Seq<char>) -> Seq<char>
    decreases s.len(),
{
    if from.len() == 0 || s.len() < from.len() {
        s
    } else if s.take(from.len() as int) == from {
        to + replaced(s.skip(from.len() as int), from, to)
    } else {
        seq![s[0]] + replaced(s.drop_first(), from, to)
    }
}

fn matches_at(s: &str, i: usize, from: &str) -> (b: bool)
    requires
        i + from@.len() <= s@.len(),
    ensures
        b == (s@.skip(i as int).take(from@.len() as int) == from@),
{
    let m = from.unicode_len();
    let n = s.unicode_len();
    let mut k: usize = 0;
    while k < m
        invariant
            k <= m,
            m == from@.len(),
            n == s@.len(),
            i + m <= s@.len(),
            forall|j: int| 0 <= j < k ==> s@[i + j] == from@[j],
        decreases m - k,
    {
        if s.get_char(i + k) != from.get_char(k) {
            proof {
                assert(s@.skip(i as int).take(m as int)[k as int] != from@[k as int]);
            }
            return false;
        }
        k = k + 1;
    }
    proof {
        assert(s@.skip(i as int).take(m as int) =~= from@);
    }
    true
}

/// `s` with every occurrence of `from` replaced by `to` (see `replaced`).
pub fn replace_all(s: &str, from: &str, to: &str) -> (r: String)
    requires
        from@.len() > 0,
    ensures
        r@ == replaced(s@, from@, to@),
{
    let n = s.unicode_len();
    let m = from.unicode_len();
    let mut out = String::new();
    let mut i: usize = 0;
    proof {
        assert(s@.skip(0) =~= s@);
    }
    while i < n
        invariant
            i <= n,
            n == s@.len(),
            m == from@.len(),
            m > 0,
            out@ + replaced(s@.skip(i as int), from@, to@) == replaced(s@, from@, to@),
        decreases n - i,
    {
        let ghost rest = s@.skip(i as int);
        if n - i >= m && matches_at(s, i, from) {
            proof {
                assert(rest.take(m as int) == from@);
                assert(rest.skip(m as int) =~= s@.skip(i + m));
                assert(out@ + to@ + replaced(s@.skip(i + m), from@, to@) =~= out@ + replaced(
                    rest,
                    from@,
                    to@,
                ));
            }
            out.append(to);
            i = i + m;
        } else {
            let c = s.get_char(i);
            proof {
                assert(rest.drop_first() =~= s@.skip(i + 1));
                assert(rest[0] == c);
                if rest.len() < m {
                    assert(rest =~= seq![c] + s@.skip(i + 1));
                    assert(replaced(s@.skip(i + 1), from@, to@) == s@.skip(i + 1));
                }
                assert(out@.push(c) + replaced(s@.skip(i + 1), from@, to@) =~= out@ + replaced(
                    rest,
                    from@,
                    to@,
                ));
            }
            push_char(&mut out, c);
            i = i + 1;
        }
    }
    proof {
        assert(replaced(s@.skip(n as int), from@, to@) =~= Seq::<char>::empty());
        assert(out@ =~= out@ + Seq::<char>::empty());
    }
    out
}

/// Replacing a pattern that does not occur changes nothing.
pub proof fn law_replace_without_match(s: Seq<char>, from: Seq<char>, to: Seq<char>)
    requires
        from.len() > 0,
        !occurs_in(from, s),
    ensures
        replaced(s, from, to) == s,
    decreases s.len(),
{
    if s.len() >= from.len() {
        assert(s.subrange(0, from.len() as int) =~= s.take(from.len() as int));
        assert(!occurs_at(from, s, 0));
        let rest = s.drop_first();
        assert(!occurs_in(from, rest)) by {
            if occurs_in(from, rest) {
                let k = choose|k: int| occurs_at(from, rest, k);
                assert(s.subrange(k + 1, k + 1 + from.len()) =~= rest.subrange(k, k + from.len()));
                assert(occurs_at(from, s, k + 1));
            }
        }
        law_replace_without_match(rest, from, to);
        assert(seq![s[0]] + rest =~= s);
    }
}

/// Strictly increasing texts are fixed by the set of their elements: the
/// listing that `sorted_unique` produces depends only on which texts it was
/// given.
pub proof fn law_strictly_sorted_by_set(a: Seq<Seq<char>>, b: Seq<Seq<char>>)
    requires
        strictly_sorted(a),
        strictly_sorted(b),
        a.to_set() == b.to_set(),
    ensures
        a == b,
    decreases a.len() + b.len(),
{
    if a.len() == 0 || b.len() == 0 {
        if a.len() > 0 {
            assert(a.to_set().contains(a[0]));
        }
        if b.len() > 0 {
            assert(b.to_set().contains(b[0]));
        }
        assert(a =~= b);
    } else {
        assert(a.to_set().contains(a[0]));
        assert(b.contains(a[0]));
        let k = choose|k: int| 0 <= k < b.len() && b[k] == a[0];
        assert(b.to_set().contains(b[0]));
        assert(a.contains(b[0]));
        let m = choose|m: int| 0 <= m < a.len() && a[m] == b[0];
        if a[0] != b[0] {
            if k > 0 {
                assert(text_lt(b[0], b[k]));
            }
            if m > 0 {
                assert(text_lt(a[0], a[m]));
            }
            lemma_text_lt_transitive(a[0], b[0], a[0]);
            lemma_text_lt_irreflexive(a[0]);
        }
        let a1 = a.drop_first();
        let b1 = b.drop_first();
        assert(strictly_sorted(a1)) by {
            assert forall|i: int, j: int| 0 <= i < j < a1.len() implies text_lt(a1[i], a1[j]) by {
                assert(a1[i] == a[i + 1] && a1[j] == a[j + 1]);
            }
        }
        assert(strictly_sorted(b1)) by {
            assert forall|i: int, j: int| 0 <= i < j < b1.len() implies text_lt(b1[i], b1[j]) by {
                assert(b1[i] == b[i + 1] && b1[j] == b[j + 1]);
            }
        }
        assert(a1.to_set() =~= b1.to_set()) by {
            assert forall|x: Seq<char>| a1.to_set().contains(x) implies b1.to_set().contains(x) by {
                let i = choose|i: int| 0 <= i < a1.len() && a1[i] == x;
                assert(a[i + 1] == x);
                assert(text_lt(a[0], x));
                assert(a.to_set().contains(x));
                assert(b.contains(x));
                let j = choose|j: int| 0 <= j < b.len() && b[j] == x;
                if j == 0 {
                    lemma_text_lt_irreflexive(x);
                }
                assert(b1[j - 1] == x);
            }
            assert forall|x: Seq<char>| b1.to_set().contains(x) implies a1.to_set().contains(x) by {
                let i = choose|i: int| 0 <= i < b1.len() && b1[i] == x;
                assert(b[i + 1] == x);
                assert(text_lt(b[0], x));
                assert(b.to_set().contains(x));
                assert(a.contains(x));
                let j = choose|j: int| 0 <= j < a.len() && a[j] == x;
                if j == 0 {
                    lemma_text_lt_irreflexive(x);
                }
                assert(a1[j - 1] == x);
            }
        }
        law_strictly_sorted_by_set(a1, b1);
        assert(a =~= b) by {
            assert forall|i: int| 0 <= i < a.len() implies a[i] == b[i] by {
                if i > 0 {
                    assert(a[i] == a1[i - 1]);
                    assert(b[i] == b1[i - 1]);
                }
            }
        }
    }
}

// ── Splitting and trimming ──────────────────────────────────────────────────

/// The pieces of `s` between commas, as `str::split(',')` yields them: one
/// more piece than there are commas, empty pieces included.
pub open spec fn split_commas(s: Seq<char>) -> Seq<Seq<char>>
    decreases s.len(),
{
    if s.len() == 0 {
        seq![Seq::<char>::empty()]
    } else {
        let prev = split_commas(s.drop_last());
        if s.last() == ',' {
            prev.push(Seq::<char>::empty())
        } else {
            prev.update(prev.len() - 1, prev.last().push(s.last()))
        }
    }
}

proof fn lemma_split_commas_nonempty(s: Seq<char>)
    ensures
        split_commas(s).len() >= 1,
    decreases s.len(),
{
    if s.len() > 0 {
        lemma_split_commas_nonempty(s.drop_last());
    }
}

/// The pieces of `s` between commas (see `split_commas`).
pub fn split_on_commas(s: &str) -> (out: Vec<String>)
    ensures
        strings_view(out@) == split_commas(s@),
{
    let n = s.unicode_len();
    let mut out: Vec<String> = Vec::new();
    let mut cur = String::new();
    let mut i: usize = 0;
    while i < n
        invariant
            i <= n,
            n == s@.len(),
            strings_view(out@).push(cur@) == split_commas(s@.take(i as int)),
        decreases n - i,
    {
        let c = s.get_char(i);
        let ghost before = strings_view(out@).push(cur@);
        proof {
            assert(s@.take(i as int + 1).drop_last() =~= s@.take(i as int));
            assert(s@.take(i as int + 1).last() == c);
            lemma_split_commas_nonempty(s@.take(i as int));
        }
        if c == ',' {
            let done = cur;
            out.push(done);
            cur = String::new();
            assert(strings_view(out@).push(cur@) =~= before.push(Seq::<char>::empty()));
        } else {
            push_char(&mut cur, c);
            assert(strings_view(out@).push(cur@) =~= before.update(
                before.len() - 1,
                before.last().push(c),
            ));
        }
        i = i + 1;
    }
    proof {
        assert(s@.take(n as int) =~= s@);
    }
    out.push(cur);
    out
}

/// Whether `c` has the Unicode `White_Space` property (what
/// `char::is_whitespace` reports).
pub open spec fn is_white_space(c: char) -> bool {
    ||| ('\u{9}' <= c && c <= '\u{d}')
    ||| c == ' '
    ||| c == '\u{85}'
    ||| c == '\u{a0}'
    ||| c == '\u{1680}'
    ||| ('\u{2000}' <= c && c <= '\u{200a}')
    ||| c == '\u{2028}'
    ||| c == '\u{2029}'
    ||| c == '\u{202f}'
    ||| c == '\u{205f}'
    ||| c == '\u{3000}'
}

fn white_space(c: char) -> (b: bool)
    ensures
        b == is_white_space(c),
{
    ('\u{9}' <= c && c <= '\u{d}') || c == ' ' || c == '\u{85}' || c == '\u{a0}' || c
        == '\u{1680}' || ('\u{2000}' <= c && c <= '\u{200a}') || c == '\u{2028}' || c
        == '\u{2029}' || c == '\u{202f}' || c == '\u{205f}' || c == '\u{3000}'
}

/// `s` without its leading white space.
pub open spec fn trim_start_text(s: Seq<char>) -> Seq<char>
    decreases s.len(),
{
    if s.len() > 0 && is_white_space(s[0]) {
        trim_start_text(s.drop_first())
    } else {
        s
    }
}

/// `s` without its trailing white space.
pub open spec fn trim_end_text(s: Seq<char>) -> Seq<char>
    decreases s.len(),
{
    if s.len() > 0 && is_white_space(s.last()) {
        trim_end_text(s.drop_last())
    } else {
        s
    }
}

/// `s` without leading and trailing white space (what `str::trim` returns).
pub open spec fn trimmed(s: Seq<char>) -> Seq<char> {
    trim_end_text(trim_start_text(s))
}

/// `s` without leading and trailing white space (see `trimmed`).
pub fn trim_text(s: &str) -> (t: String)
    ensures
        t@ == trimmed(s@),
{
    let n = s.unicode_len();
    let mut i: usize = 0;
    assert(s@.subrange(0, n as int) =~= s@);
    while i < n && white_space(s.get_char(i))
        invariant
            i <= n,
            n == s@.len(),
            trim_start_text(s@) == trim_start_text(s@.subrange(i as int, n as int)),
        decreases n - i,
    {
        proof {
            let rest = s@.subrange(i as int, n as int);
            assert(rest[0] == s@[i as int]);
            assert(rest.drop_first() =~= s@.subrange(i as int + 1, n as int));
        }
        i = i + 1;
    }
    let ghost front = s@.subrange(i as int, n as int);
    proof {
        if i < n {
            assert(front[0] == s@[i as int]);
        }
        assert(trim_start_text(front) == front);
    }
    let mut j: usize = n;
    while j > i && white_space(s.get_char(j - 1))
        invariant
            i <= j <= n,
            n == s@.len(),
            front == s@.subrange(i as int, n as int),
            trim_end_text(front) == trim_end_text(s@.subrange(i as int, j as int)),
        decreases j - i,
    {
        proof {
            let part = s@.subrange(i as int, j as int);
            assert(part.last() == s@[j - 1]);
            assert(part.drop_last() =~= s@.subrange(i as int, j - 1));
        }
        j = j - 1;
    }
    proof {
        let part = s@.subrange(i as int, j as int);
        if j > i {
            assert(part.last() == s@[j - 1]);
        }
        assert(trim_end_text(part) == part);
    }
    let t = s.substring_char(i, j);
    String::from_str(t)
}

/// A decimal rendering starts with a digit.
pub proof fn lemma_decimal_starts_with_digit(n: nat)
    ensures
        decimal(n).len() > 0,
        '0' <= decimal(n)[0] <= '9',
    decreases n,
{
    if n >= 10 {
        lemma_decimal_starts_with_digit(n / 10);
        assert(decimal(n)[0] == decimal(n / 10)[0]);
    }
}

/// Joined parts start where the first part starts.
pub proof fn lemma_joined_starts_with_first(parts: Seq<Seq<char>>, sep: Seq<char>)
    requires
        parts.len() > 0,
        parts[0].len() > 0,
    ensures
        joined_with(parts, sep).len() > 0,
        joined_with(parts, sep)[0] == parts[0][0],
    decreases parts.len(),
{
    if parts.len() > 1 {
        lemma_joined_starts_with_first(parts.drop_last(), sep);
        let h = joined_with(parts.drop_last(), sep);
        assert((h + sep + parts.last())[0] == h[0]);
    }
}

} // verus!
