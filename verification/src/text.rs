//! Character-level string operations with exact contracts over `Seq<char>`.
use vstd::prelude::*;

verus! {

/// `p` is a prefix of `s`.
pub open spec fn seq_starts_with(s: Seq<char>, p: Seq<char>) -> bool {
    p.len() <= s.len() && s.subrange(0, p.len() as int) == p
}

/// The characters of `s`, in order.
pub fn chars_of(s: &str) -> (r: Vec<char>)
    ensures
        r@ == s@,
{
    let mut r: Vec<char> = Vec::new();
    for c in it: s.chars()
        invariant
            r@ == it.seq().take(it.index() as int),
            it.seq() == s@,
    {
        r.push(c);
    }
    r
}

/// Whether the two strings hold the same characters.
pub fn str_eq(a: &str, b: &str) -> (r: bool)
    ensures
        r == (a@ == b@),
{
    let ca = chars_of(a);
    let cb = chars_of(b);
    if ca.len() != cb.len() {
        return false;
    }
    let n = ca.len();
    for i in 0..n
        invariant
            n == ca@.len(),
            ca@ == a@,
            cb@ == b@,
            n == cb@.len(),
            forall|j: int| 0 <= j < i ==> ca@[j] == cb@[j],
    {
        let x: char = ca[i];
        let y: char = cb[i];
        if x != y {
            assert(ca@[i as int] != cb@[i as int]);
            return false;
        }
    }
    assert(ca@ =~= cb@);
    true
}

/// Whether `p` is a prefix of `s` (as `str::starts_with` with a string pattern).
pub fn str_starts_with(s: &str, p: &str) -> (r: bool)
    ensures
        r == seq_starts_with(s@, p@),
{
    let cs = chars_of(s);
    let cp = chars_of(p);
    if cp.len() > cs.len() {
        return false;
    }
    let n = cp.len();
    for i in 0..n
        invariant
            n == cp@.len(),
            cs@ == s@,
            cp@ == p@,
            n <= cs@.len(),
            forall|j: int| 0 <= j < i ==> cs@[j] == cp@[j],
    {
        let x: char = cs[i];
        let y: char = cp[i];
        if x != y {
            assert(cs@[i as int] != cp@[i as int]);
            assert(cs@.subrange(0, n as int)[i as int] != cp@[i as int]);
            return false;
        }
    }
    assert(cs@.subrange(0, n as int) =~= cp@);
    true
}

/// `p` is a suffix of `s`.
pub open spec fn seq_ends_with(s: Seq<char>, p: Seq<char>) -> bool {
    p.len() <= s.len() && s.subrange(s.len() - p.len(), s.len() as int) == p
}

/// Whether `p` is a suffix of `s` (as `str::ends_with` with a string pattern).
pub fn str_ends_with(s: &str, p: &str) -> (r: bool)
    ensures
        r == seq_ends_with(s@, p@),
{
    let cs = chars_of(s);
    let cp = chars_of(p);
    if cp.len() > cs.len() {
        return false;
    }
    let n = cp.len();
    let off = cs.len() - n;
    for i in 0..n
        invariant
            n == cp@.len(),
            cs@ == s@,
            cp@ == p@,
            off + n == cs@.len(),
            cs@.len() <= usize::MAX,
            forall|j: int| 0 <= j < i ==> cs@[off + j] == cp@[j],
    {
        let x: char = cs[off + i];
        let y: char = cp[i];
        if x != y {
            assert(cs@.subrange(off as int, cs@.len() as int)[i as int] != cp@[i as int]);
            return false;
        }
    }
    assert(cs@.subrange(off as int, cs@.len() as int) =~= cp@);
    true
}

/// A new `String` holding the characters of `s`.
pub fn owned(s: &str) -> (r: String)
    ensures
        r@ == s@,
{
    s.to_owned()
}


/// The character of a decimal digit.
pub open spec fn digit_char(d: int) -> char {
    "0123456789"@[d]
}

/// The decimal digits of a non-negative integer, most significant first.
pub open spec fn decimal_digits(n: nat) -> Seq<char>
    decreases n,
{
    if n < 10 {
        seq![digit_char(n as int)]
    } else {
        decimal_digits(n / 10).push(digit_char((n % 10) as int))
    }
}

/// The decimal representation of an integer, with a leading `-` when negative.
pub open spec fn decimal(n: int) -> Seq<char> {
    if n < 0 {
        "-"@ + decimal_digits((-n) as nat)
    } else {
        decimal_digits(n as nat)
    }
}

fn digits_of(n: u64) -> (r: String)
    ensures
        r@ == decimal_digits(n as nat),
    decreases n,
{
    let table = "0123456789";
    proof {
        reveal_strlit("0123456789");
    }
    if n < 10 {
        let d = n as usize;
        owned(table.substring_char(d, d + 1))
    } else {
        let mut r = digits_of(n / 10);
        let d = (n % 10) as usize;
        let ghost before = r@;
        r.append(table.substring_char(d, d + 1));
        assert(table@.subrange(d as int, d + 1) =~= seq![digit_char(d as int)]);
        r
    }
}

/// The decimal representation of a `u64` (as its `Display` writes it).
pub fn u64_to_decimal(n: u64) -> (r: String)
    ensures
        r@ == decimal(n as int),
{
    digits_of(n)
}

/// The decimal representation of an `i64` (as its `Display` writes it).
pub fn i64_to_decimal(n: i64) -> (r: String)
    ensures
        r@ == decimal(n as int),
{
    if n < 0 {
        let m: u64 = (0i128 - n as i128) as u64;
        let digits = digits_of(m);
        let mut r = owned("-");
        r.append(digits.as_str());
        r
    } else {
        digits_of(n as u64)
    }
}

/// The decimal representation of an `i32` (as its `Display` writes it).
pub fn i32_to_decimal(n: i32) -> (r: String)
    ensures
        r@ == decimal(n as int),
{
    if n < 0 {
        let m: u64 = (0i64 - n as i64) as u64;
        let digits = digits_of(m);
        let mut r = owned("-");
        r.append(digits.as_str());
        r
    } else {
        digits_of(n as u64)
    }
}


// ---------------------------------------------------------------------------
// Lexicographic order
// ---------------------------------------------------------------------------

/// `a` sorts before or equal to `b` in the order of `str`'s `Ord`: character
/// by character by code point, a proper prefix first. (UTF-8 keeps code-point
/// order, so this is also the order of the strings' bytes.)
pub open spec fn lex_le(a: Seq<char>, b: Seq<char>) -> bool
    decreases a.len(),
{
    if a.len() == 0 {
        true
    } else if b.len() == 0 {
        false
    } else if a[0] != b[0] {
        (a[0] as int) < (b[0] as int)
    } else {
        lex_le(a.drop_first(), b.drop_first())
    }
}

/// Any two strings are ordered one way or the other.
pub proof fn lemma_lex_le_total(a: Seq<char>, b: Seq<char>)
    ensures
        lex_le(a, b) || lex_le(b, a),
    decreases a.len(),
{
    if a.len() > 0 && b.len() > 0 && a[0] == b[0] {
        lemma_lex_le_total(a.drop_first(), b.drop_first());
    }
}

/// The order is transitive.
pub proof fn lemma_lex_le_transitive(a: Seq<char>, b: Seq<char>, c: Seq<char>)
    requires
        lex_le(a, b),
        lex_le(b, c),
    ensures
        lex_le(a, c),
    decreases a.len(),
{
    if a.len() > 0 && b.len() > 0 && c.len() > 0 && a[0] == b[0] && b[0] == c[0] {
        lemma_lex_le_transitive(a.drop_first(), b.drop_first(), c.drop_first());
    }
}

proof fn lemma_lex_le_skip(a: Seq<char>, b: Seq<char>, i: int)
    requires
        0 <= i <= a.len(),
        i <= b.len(),
        a.take(i) == b.take(i),
    ensures
        lex_le(a, b) == lex_le(a.skip(i), b.skip(i)),
    decreases i,
{
    if i > 0 {
        assert(a[0] == a.take(i)[0]);
        assert(b[0] == b.take(i)[0]);
        assert(a.drop_first().take(i - 1) =~= a.take(i).drop_first());
        assert(b.drop_first().take(i - 1) =~= b.take(i).drop_first());
        lemma_lex_le_skip(a.drop_first(), b.drop_first(), i - 1);
        assert(a.drop_first().skip(i - 1) =~= a.skip(i));
        assert(b.drop_first().skip(i - 1) =~= b.skip(i));
    } else {
        assert(a.skip(0) =~= a);
        assert(b.skip(0) =~= b);
    }
}

/// The order is reflexive.
proof fn lemma_lex_le_reflexive(a: Seq<char>)
    ensures
        lex_le(a, a),
    decreases a.len(),
{
    if a.len() > 0 {
        lemma_lex_le_reflexive(a.drop_first());
    }
}

/// The order is antisymmetric: strings ordered both ways are equal.
proof fn lemma_lex_le_antisymmetric(a: Seq<char>, b: Seq<char>)
    requires
        lex_le(a, b),
        lex_le(b, a),
    ensures
        a == b,
    decreases a.len(),
{
    if a.len() > 0 && b.len() > 0 {
        lemma_lex_le_antisymmetric(a.drop_first(), b.drop_first());
        assert(a =~= seq![a[0]] + a.drop_first());
        assert(b =~= seq![b[0]] + b.drop_first());
    }
}

/// The characters of each string, in order.
pub open spec fn string_views(s: Seq<String>) -> Seq<Seq<char>> {
    s.map_values(|x: String| x@)
}

/// Mapping both sides keeps equal multisets equal.
proof fn lemma_map_keeps_multiset<A, B>(a: Seq<A>, b: Seq<A>, f: spec_fn(A) -> B)
    requires
        a.to_multiset() == b.to_multiset(),
    ensures
        a.map_values(f).to_multiset() == b.map_values(f).to_multiset(),
    decreases a.len(),
{
    broadcast use vstd::multiset::group_multiset_axioms;
    broadcast use vstd::seq_lib::group_to_multiset_ensures;
    if a.len() == 0 {
        assert(b.to_multiset().len() == 0);
        assert(b.len() == 0);
        assert(a.map_values(f) =~= b.map_values(f));
    } else {
        let x = a.last();
        assert(a.to_multiset().count(x) > 0) by {
            assert(a.drop_last().push(x) =~= a);
        }
        assert(b.contains(x));
        let j = choose|j: int| 0 <= j < b.len() && b[j] == x;
        let a1 = a.drop_last();
        let b1 = b.remove(j);
        assert(a1.push(x) =~= a);
        assert(a1.to_multiset() =~= a.to_multiset().remove(x));
        assert(b1.to_multiset() =~= b.to_multiset().remove(x));
        lemma_map_keeps_multiset(a1, b1, f);
        assert(a.map_values(f) =~= a1.map_values(f).push(f(x)));
        assert(b.map_values(f).remove(j) =~= b1.map_values(f));
        assert(b.map_values(f).to_multiset().count(f(x)) > 0) by {
            assert(b.map_values(f)[j] == f(x));
            assert(b.map_values(f).contains(f(x)));
        }
        assert(b.map_values(f).to_multiset() =~= b1.map_values(f).to_multiset().insert(f(x)));
    }
}

/// Sorting does not depend on the order the strings come in: two sorted
/// lists that hold the same strings hold the same characters, string by
/// string. (A sign-off hashes its reviewed artifacts in this order, so its
/// capsule hash does not depend on the order they were listed in.)
pub proof fn lemma_sorted_lists_agree(a: Seq<String>, b: Seq<String>)
    requires
        lex_sorted(a),
        lex_sorted(b),
        a.to_multiset() == b.to_multiset(),
    ensures
        string_views(a) == string_views(b),
{
    let leq = |x: Seq<char>, y: Seq<char>| lex_le(x, y);
    let va = string_views(a);
    let vb = string_views(b);
    lemma_map_keeps_multiset(a, b, |x: String| x@);
    assert forall|x: Seq<char>| #[trigger] leq(x, x) by {
        lemma_lex_le_reflexive(x);
    }
    assert forall|x: Seq<char>, y: Seq<char>| #[trigger] leq(x, y) && #[trigger] leq(y, x) implies x == y by {
        lemma_lex_le_antisymmetric(x, y);
    }
    assert forall|x: Seq<char>, y: Seq<char>, z: Seq<char>| #[trigger] leq(x, y) && #[trigger] leq(y, z) implies leq(x, z) by {
        lemma_lex_le_transitive(x, y, z);
    }
    assert forall|x: Seq<char>, y: Seq<char>| #[trigger] leq(x, y) || #[trigger] leq(y, x) by {
        lemma_lex_le_total(x, y);
    }
    assert(vstd::relations::total_ordering(leq));
    assert(vstd::relations::sorted_by(va, leq)) by {
        assert forall|i: int, j: int| 0 <= i < j < va.len() implies #[trigger] leq(va[i], va[j]) by {
            assert(lex_le(a[i]@, a[j]@));
        }
    }
    assert(vstd::relations::sorted_by(vb, leq)) by {
        assert forall|i: int, j: int| 0 <= i < j < vb.len() implies #[trigger] leq(vb[i], vb[j]) by {
            assert(lex_le(b[i]@, b[j]@));
        }
    }
    vstd::seq_lib::lemma_sorted_unique(va, vb, leq);
}

/// Whether `a` sorts before or equal to `b` (as `a <= b` on `str`).
pub fn str_le(a: &str, b: &str) -> (r: bool)
    ensures
        r == lex_le(a@, b@),
{
    let ca = chars_of(a);
    let cb = chars_of(b);
    let mut i: usize = 0;
    while i < ca.len() && i < cb.len()
        invariant
            ca@ == a@,
            cb@ == b@,
            i <= ca@.len(),
            i <= cb@.len(),
            a@.take(i as int) == b@.take(i as int),
        decreases ca@.len() - i,
    {
        let x: char = ca[i];
        let y: char = cb[i];
        if x != y {
            proof {
                lemma_lex_le_skip(a@, b@, i as int);
                assert(a@.skip(i as int)[0] == x);
                assert(b@.skip(i as int)[0] == y);
            }
            return x < y;
        }
        assert(a@.take(i + 1) =~= a@.take(i as int).push(x));
        assert(b@.take(i + 1) =~= b@.take(i as int).push(y));
        i = i + 1;
    }
    proof {
        lemma_lex_le_skip(a@, b@, i as int);
    }
    i == ca.len()
}

/// The strings' characters are in order.
pub open spec fn lex_sorted(s: Seq<String>) -> bool {
    forall|i: int, j: int| 0 <= i < j < s.len() ==> lex_le(#[trigger] s[i]@, #[trigger] s[j]@)
}

/// The strings sorted into the order of `str` (a stable insertion sort; equal
/// strings are indistinguishable, so any sort gives this result).
pub fn sort_strings(v: &Vec<String>) -> (r: Vec<String>)
    ensures
        lex_sorted(r@),
        r@.to_multiset() == v@.to_multiset(),
{
    let mut r: Vec<String> = Vec::new();
    let n = v.len();
    assert(r@ =~= v@.take(0));
    for i in 0..n
        invariant
            n == v@.len(),
            lex_sorted(r@),
            r@.to_multiset() == v@.take(i as int).to_multiset(),
    {
        let x = v[i].clone();
        let mut k: usize = 0;
        while k < r.len() && str_le(r[k].as_str(), x.as_str())
            invariant
                k <= r@.len(),
                forall|j: int| 0 <= j < k ==> lex_le(#[trigger] r@[j]@, x@),
            decreases r@.len() - k,
        {
            k = k + 1;
        }
        proof {
            if k < r@.len() {
                lemma_lex_le_total(r@[k as int]@, x@);
            }
            assert forall|a: int, b: int| 0 <= a < b < r@.len() + 1 implies lex_le(
                #[trigger] r@.insert(k as int, x)[a]@,
                #[trigger] r@.insert(k as int, x)[b]@,
            ) by {
                let s = r@.insert(k as int, x);
                if a < k && b < k {
                } else if a < k && b == k {
                } else if a < k {
                    assert(lex_le(r@[a]@, r@[b - 1]@));
                } else if a == k {
                    assert(lex_le(x@, r@[k as int]@));
                    if b - 1 > k {
                        assert(lex_le(r@[k as int]@, r@[b - 1]@));
                        lemma_lex_le_transitive(x@, r@[k as int]@, r@[b - 1]@);
                    }
                } else {
                    assert(lex_le(r@[a - 1]@, r@[b - 1]@));
                }
            }
            assert(v@.take(i + 1) =~= v@.take(i as int).push(v@[i as int]));
            vstd::seq_lib::to_multiset_build(v@.take(i as int), v@[i as int]);
            vstd::seq_lib::to_multiset_insert(r@, k as int, x);
        }
        r.insert(k, x);
    }
    assert(v@.take(n as int) =~= v@);
    r
}

} // verus!
