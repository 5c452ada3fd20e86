//! Verified text utilities: lexicographic ordering of character sequences,
//! string comparison, suffix tests, ASCII lower-casing, whitespace trimming,
//! and decimal formatting. These underpin the request signer's canonical
//! ordering rules.

use vstd::prelude::*;
use vstd::relations::{sorted_by, total_ordering};
use vstd::seq_lib::lemma_sorted_unique;

verus! {

/// Lexicographic "less than or equal" on character sequences, ordering
/// characters by their Unicode scalar value.
pub open spec fn chars_le(a: Seq<char>, b: Seq<char>) -> bool
    decreases a.len(),
{
    if a.len() == 0 {
        true
    } else if b.len() == 0 {
        false
    } else if (a[0] as u32) < (b[0] as u32) {
        true
    } else if (b[0] as u32) < (a[0] as u32) {
        false
    } else {
        chars_le(a.drop_first(), b.drop_first())
    }
}

pub proof fn lemma_chars_le_reflexive(a: Seq<char>)
    ensures
        chars_le(a, a),
    decreases a.len(),
{
    if a.len() > 0 {
        lemma_chars_le_reflexive(a.drop_first());
    }
}

pub proof fn lemma_chars_le_antisymmetric(a: Seq<char>, b: Seq<char>)
    requires
        chars_le(a, b),
        chars_le(b, a),
    ensures
        a == b,
    decreases a.len(),
{
    if a.len() == 0 {
        assert(b.len() == 0);
        assert(a =~= b);
    } else {
        assert(b.len() > 0);
        assert((a[0] as u32) == (b[0] as u32));
        vstd::utf8::char_u32_cast(a[0], a[0] as u32);
        vstd::utf8::char_u32_cast(b[0], b[0] as u32);
        assert(a[0] == b[0]);
        lemma_chars_le_antisymmetric(a.drop_first(), b.drop_first());
        assert forall|i: int| 0 <= i < a.len() implies a[i] == b[i] by {
            if i > 0 {
                assert(a[i] == a.drop_first()[i - 1]);
                assert(b[i] == b.drop_first()[i - 1]);
            }
        }
        assert(a =~= b);
    }
}

pub proof fn lemma_chars_le_transitive(a: Seq<char>, b: Seq<char>, c: Seq<char>)
    requires
        chars_le(a, b),
        chars_le(b, c),
    ensures
        chars_le(a, c),
    decreases a.len(),
{
    if a.len() == 0 {
    } else {
        assert(b.len() > 0);
        assert(c.len() > 0);
        if (a[0] as u32) < (b[0] as u32) || (b[0] as u32) < (c[0] as u32) {
        } else {
            lemma_chars_le_transitive(a.drop_first(), b.drop_first(), c.drop_first());
        }
    }
}

pub proof fn lemma_chars_le_connected(a: Seq<char>, b: Seq<char>)
    ensures
        chars_le(a, b) || chars_le(b, a),
    decreases a.len(),
{
    if a.len() == 0 || b.len() == 0 {
    } else if (a[0] as u32) == (b[0] as u32) {
        lemma_chars_le_connected(a.drop_first(), b.drop_first());
    }
}

/// Compares two strings lexicographically by Unicode scalar value.
pub fn str_le(a: &str, b: &str) -> (r: bool)
    ensures
        r == chars_le(a@, b@),
{
    let alen = a.unicode_len();
    let blen = b.unicode_len();
    let mut i: usize = 0;
    proof {
        assert(a@.skip(0) =~= a@);
        assert(b@.skip(0) =~= b@);
    }
    loop
        invariant
            i <= alen,
            i <= blen,
            alen == a@.len(),
            blen == b@.len(),
            chars_le(a@, b@) == chars_le(a@.skip(i as int), b@.skip(i as int)),
        decreases alen - i,
    {
        if i == alen {
            return true;
        }
        if i == blen {
            return false;
        }
        let ca = a.get_char(i);
        let cb = b.get_char(i);
        if (ca as u32) < (cb as u32) {
            assert(chars_le(a@.skip(i as int), b@.skip(i as int)));
            return true;
        }
        if (cb as u32) < (ca as u32) {
            assert(!chars_le(a@.skip(i as int), b@.skip(i as int)));
            return false;
        }
        proof {
            assert(a@.skip(i as int).drop_first() =~= a@.skip(i as int + 1));
            assert(b@.skip(i as int).drop_first() =~= b@.skip(i as int + 1));
        }
        i = i + 1;
    }
}

/// Character-wise string equality.
pub fn str_eq(a: &str, b: &str) -> (r: bool)
    ensures
        r == (a@ == b@),
{
    let alen = a.unicode_len();
    let blen = b.unicode_len();
    if alen != blen {
        return false;
    }
    let mut i: usize = 0;
    while i < alen
        invariant
            i <= alen,
            alen == a@.len(),
            alen == b@.len(),
            forall|j: int| 0 <= j < i ==> a@[j] == b@[j],
        decreases alen - i,
    {
        if a.get_char(i) != b.get_char(i) {
            return false;
        }
        i = i + 1;
    }
    proof {
        assert(a@ =~= b@);
    }
    true
}

/// `suffix` occurs at the end of `s`.
pub open spec fn is_suffix_of(suffix: Seq<char>, s: Seq<char>) -> bool {
    suffix.len() <= s.len() && s.subrange(s.len() - suffix.len(), s.len() as int) == suffix
}

/// Tests whether `s` ends with `suffix`.
pub fn str_ends_with(s: &str, suffix: &str) -> (r: bool)
    ensures
        r == is_suffix_of(suffix@, s@),
{
    let slen = s.unicode_len();
    let xlen = suffix.unicode_len();
    if xlen > slen {
        return false;
    }
    let base = slen - xlen;
    let mut i: usize = 0;
    while i < xlen
        invariant
            i <= xlen,
            xlen <= slen,
            base == slen - xlen,
            slen == s@.len(),
            xlen == suffix@.len(),
            forall|j: int| 0 <= j < i ==> s@[base + j] == suffix@[j],
        decreases xlen - i,
    {
        if s.get_char(base + i) != suffix.get_char(i) {
            assert(s@.subrange(s@.len() - suffix@.len(), s@.len() as int)[i as int] != suffix@[i as int]);
            return false;
        }
        i = i + 1;
    }
    proof {
        assert(s@.subrange(s@.len() - suffix@.len(), s@.len() as int) =~= suffix@);
    }
    true
}

/// The lexicographic order as a relation value, for use with vstd's sorting
/// vocabulary.
pub open spec fn chars_le_rel() -> spec_fn(Seq<char>, Seq<char>) -> bool {
    |a: Seq<char>, b: Seq<char>| chars_le(a, b)
}

/// Lexicographic order on character sequences is a total order.
pub proof fn lemma_chars_le_total_ordering()
    ensures
        total_ordering(chars_le_rel()),
{
    let r = chars_le_rel();
    assert forall|a: Seq<char>| #[trigger] r(a, a) by {
        lemma_chars_le_reflexive(a);
    }
    assert forall|a: Seq<char>, b: Seq<char>| #[trigger] r(a, b) && #[trigger] r(b, a) implies a == b by {
        lemma_chars_le_antisymmetric(a, b);
    }
    assert forall|a: Seq<char>, b: Seq<char>, c: Seq<char>|
        #[trigger] r(a, b) && #[trigger] r(b, c) implies r(a, c) by {
        lemma_chars_le_transitive(a, b, c);
    }
    assert forall|a: Seq<char>, b: Seq<char>| #[trigger] r(a, b) || #[trigger] r(b, a) by {
        lemma_chars_le_connected(a, b);
    }
}

/// Two sorted sequences with the same elements are identical: the sorted
/// order is canonical, whatever order the elements arrived in.
pub proof fn lemma_sorted_strings_unique(x: Seq<Seq<char>>, y: Seq<Seq<char>>)
    requires
        sorted_by(x, chars_le_rel()),
        sorted_by(y, chars_le_rel()),
        x.to_multiset() == y.to_multiset(),
    ensures
        x == y,
{
    lemma_chars_le_total_ordering();
    lemma_sorted_unique(x, y, chars_le_rel());
}

/// Sorts the strings lexicographically (insertion sort). The result is
/// sorted and holds exactly the input strings.
pub fn sort_strings(v: &Vec<String>) -> (r: Vec<String>)
    ensures
        sorted_by(r.deep_view(), chars_le_rel()),
        r.deep_view().to_multiset() == v.deep_view().to_multiset(),
{
    broadcast use vstd::seq_lib::to_multiset_insert;

    let mut r: Vec<String> = Vec::new();
    let mut i: usize = 0;
    proof {
        assert(r.deep_view() =~= Seq::<Seq<char>>::empty());
        assert(v.deep_view().take(0) =~= Seq::<Seq<char>>::empty());
        assert(r.deep_view().to_multiset() =~= v.deep_view().take(0).to_multiset());
    }
    while i < v.len()
        invariant
            i <= v.len(),
            v.deep_view().len() == v.len(),
            sorted_by(r.deep_view(), chars_le_rel()),
            r.deep_view().to_multiset() == v.deep_view().take(i as int).to_multiset(),
        decreases v.len() - i,
    {
        let x = v[i].clone();
        let mut j: usize = 0;
        while j < r.len() && str_le(r[j].as_str(), x.as_str())
            invariant
                j <= r.len(),
                r.deep_view().len() == r.len(),
                forall|k: int| 0 <= k < j ==> chars_le(#[trigger] r.deep_view()[k], x@),
            decreases r.len() - j,
        {
            j = j + 1;
        }
        let ghost old_r = r.deep_view();
        r.insert(j, x);
        proof {
            assert(r.deep_view() =~= old_r.insert(j as int, x@));
            if j < old_r.len() {
                lemma_chars_le_connected(old_r[j as int], x@);
                assert(chars_le(x@, old_r[j as int]));
            }
            let nr = r.deep_view();
            let rel = chars_le_rel();
            assert forall|p: int, q: int| 0 <= p < q < nr.len() implies
                #[trigger] rel(nr[p], nr[q]) by {
                if p < j && q < j {
                    assert(rel(old_r[p], old_r[q]));
                    assert(nr[p] == old_r[p] && nr[q] == old_r[q]);
                } else if p < j && q == j {
                    assert(nr[p] == old_r[p] && nr[q] == x@);
                    assert(chars_le(old_r[p], x@));
                    assert(rel(old_r[p], x@));
                } else if p < j && q > j {
                    assert(rel(old_r[p], old_r[q - 1]));
                    assert(nr[p] == old_r[p] && nr[q] == old_r[q - 1]);
                } else if p == j && q > j {
                    assert(nr[p] == x@ && nr[q] == old_r[q - 1]);
                    if q - 1 > j {
                        assert(rel(old_r[j as int], old_r[q - 1]));
                        lemma_chars_le_transitive(x@, old_r[j as int], old_r[q - 1]);
                    }
                    assert(rel(x@, old_r[q - 1]));
                } else {
                    assert(rel(old_r[p - 1], old_r[q - 1]));
                    assert(nr[p] == old_r[p - 1] && nr[q] == old_r[q - 1]);
                }
                assert(rel(nr[p], nr[q]));
            }
            assert(v.deep_view().take(i + 1) =~= v.deep_view().take(i as int).push(v.deep_view()[i as int]));
            vstd::seq_lib::to_multiset_insert(old_r, j as int, x@);
            assert(old_r.insert(j as int, x@).to_multiset() == old_r.to_multiset().insert(x@));
            vstd::seq_lib::to_multiset_build(v.deep_view().take(i as int), v.deep_view()[i as int]);
        }
        i = i + 1;
    }
    proof {
        assert(v.deep_view().take(v.len() as int) =~= v.deep_view());
    }
    r
}

/// ASCII whitespace, as trimmed from header values.
pub open spec fn is_ws(c: char) -> bool {
    c == ' ' || c == '\t' || c == '\n' || c == '\r' || c == '\u{c}'
}

pub open spec fn trim_front(s: Seq<char>) -> Seq<char>
    decreases s.len(),
{
    if s.len() > 0 && is_ws(s[0]) {
        trim_front(s.drop_first())
    } else {
        s
    }
}

pub open spec fn trim_end(s: Seq<char>) -> Seq<char>
    decreases s.len(),
{
    if s.len() > 0 && is_ws(s.last()) {
        trim_end(s.drop_last())
    } else {
        s
    }
}

/// `s` with ASCII whitespace removed from both ends.
pub open spec fn trimmed(s: Seq<char>) -> Seq<char> {
    trim_end(trim_front(s))
}

fn is_ws_exec(c: char) -> (r: bool)
    ensures
        r == is_ws(c),
{
    c == ' ' || c == '\t' || c == '\n' || c == '\r' || c == '\u{c}'
}

/// Removes leading and trailing ASCII whitespace.
pub fn trim_str(s: &str) -> (r: &str)
    ensures
        r@ == trimmed(s@),
{
    let n = s.unicode_len();
    let mut a: usize = 0;
    proof {
        assert(s@.skip(0) =~= s@);
    }
    while a < n && is_ws_exec(s.get_char(a))
        invariant
            a <= n,
            n == s@.len(),
            trim_front(s@) == trim_front(s@.skip(a as int)),
        decreases n - a,
    {
        proof {
            assert(s@.skip(a as int).drop_first() =~= s@.skip(a as int + 1));
        }
        a = a + 1;
    }
    let ghost mid = s@.skip(a as int);
    proof {
        assert(trim_front(s@) == mid);
    }
    let mut b: usize = n;
    proof {
        assert(mid.take(n - a) =~= mid);
    }
    while b > a && is_ws_exec(s.get_char(b - 1))
        invariant
            a <= b <= n,
            n == s@.len(),
            mid == s@.skip(a as int),
            trim_end(mid) == trim_end(mid.take(b - a)),
        decreases b,
    {
        proof {
            assert(mid.take(b - a).last() == s@[b - 1]);
            assert(mid.take(b - a).drop_last() =~= mid.take(b - 1 - a as int));
        }
        b = b - 1;
    }
    proof {
        if b > a {
            assert(mid.take(b - a).last() == s@[b - 1]);
            assert(!is_ws(mid.take(b - a).last()));
        } else {
            assert(mid.take(0) =~= Seq::<char>::empty());
        }
        assert(trim_end(mid.take(b - a)) == mid.take(b - a));
    }
    let r = s.substring_char(a, b);
    proof {
        assert(r@ =~= mid.take(b - a));
    }
    r
}

/// The lower-case form of an ASCII capital letter; any other character is
/// unchanged.
pub open spec fn lower_char(c: char) -> char {
    if c == 'A' { 'a' } else if c == 'B' { 'b' } else if c == 'C' { 'c' }
    else if c == 'D' { 'd' } else if c == 'E' { 'e' } else if c == 'F' { 'f' }
    else if c == 'G' { 'g' } else if c == 'H' { 'h' } else if c == 'I' { 'i' }
    else if c == 'J' { 'j' } else if c == 'K' { 'k' } else if c == 'L' { 'l' }
    else if c == 'M' { 'm' } else if c == 'N' { 'n' } else if c == 'O' { 'o' }
    else if c == 'P' { 'p' } else if c == 'Q' { 'q' } else if c == 'R' { 'r' }
    else if c == 'S' { 's' } else if c == 'T' { 't' } else if c == 'U' { 'u' }
    else if c == 'V' { 'v' } else if c == 'W' { 'w' } else if c == 'X' { 'x' }
    else if c == 'Y' { 'y' } else if c == 'Z' { 'z' } else { c }
}

/// `s` with every ASCII capital letter lower-cased.
pub open spec fn lower_chars(s: Seq<char>) -> Seq<char> {
    Seq::new(s.len(), |i: int| lower_char(s[i]))
}

fn lower_letter_str(c: char) -> (r: &'static str)
    requires
        c != lower_char(c),
    ensures
        r@ == seq![lower_char(c)],
{
    let r: &'static str = match c {
        'A' => "a", 'B' => "b", 'C' => "c", 'D' => "d", 'E' => "e", 'F' => "f",
        'G' => "g", 'H' => "h", 'I' => "i", 'J' => "j", 'K' => "k", 'L' => "l",
        'M' => "m", 'N' => "n", 'O' => "o", 'P' => "p", 'Q' => "q", 'R' => "r",
        'S' => "s", 'T' => "t", 'U' => "u", 'V' => "v", 'W' => "w", 'X' => "x",
        'Y' => "y", 'Z' => "z",
        _ => "a",
    };
    proof {
        reveal_strlit("a"); reveal_strlit("b"); reveal_strlit("c"); reveal_strlit("d");
        reveal_strlit("e"); reveal_strlit("f"); reveal_strlit("g"); reveal_strlit("h");
        reveal_strlit("i"); reveal_strlit("j"); reveal_strlit("k"); reveal_strlit("l");
        reveal_strlit("m"); reveal_strlit("n"); reveal_strlit("o"); reveal_strlit("p");
        reveal_strlit("q"); reveal_strlit("r"); reveal_strlit("s"); reveal_strlit("t");
        reveal_strlit("u"); reveal_strlit("v"); reveal_strlit("w"); reveal_strlit("x");
        reveal_strlit("y"); reveal_strlit("z");
        assert(r@ =~= seq![lower_char(c)]);
    }
    r
}

fn lower_same(c: char) -> (r: bool)
    ensures
        r == (c == lower_char(c)),
{
    match c {
        'A' | 'B' | 'C' | 'D' | 'E' | 'F' | 'G' | 'H' | 'I' | 'J' | 'K' | 'L' | 'M' | 'N'
        | 'O' | 'P' | 'Q' | 'R' | 'S' | 'T' | 'U' | 'V' | 'W' | 'X' | 'Y' | 'Z' => false,
        _ => true,
    }
}

/// Lower-cases the ASCII capital letters of `s`.
pub fn lower_str(s: &str) -> (r: String)
    ensures
        r@ == lower_chars(s@),
{
    let n = s.unicode_len();
    let mut r = String::new();
    let mut i: usize = 0;
    proof {
        assert(r@ =~= lower_chars(s@).take(0));
    }
    while i < n
        invariant
            i <= n,
            n == s@.len(),
            r@ == lower_chars(s@).take(i as int),
        decreases n - i,
    {
        let c = s.get_char(i);
        if lower_same(c) {
            let piece = s.substring_char(i, i + 1);
            proof {
                assert(piece@ =~= seq![s@[i as int]]);
            }
            r.append(piece);
        } else {
            r.append(lower_letter_str(c));
        }
        proof {
            assert(lower_chars(s@).take(i + 1) =~= lower_chars(s@).take(i as int) + seq![lower_char(s@[i as int])]);
        }
        i = i + 1;
    }
    proof {
        assert(lower_chars(s@).take(n as int) =~= lower_chars(s@));
    }
    r
}

/// The decimal digit character for `d`.
pub open spec fn dec_digit(d: nat) -> char {
    if d == 0 { '0' } else if d == 1 { '1' } else if d == 2 { '2' }
    else if d == 3 { '3' } else if d == 4 { '4' } else if d == 5 { '5' }
    else if d == 6 { '6' } else if d == 7 { '7' } else if d == 8 { '8' }
    else { '9' }
}

/// The decimal rendering of `n`, without leading zeroes.
pub open spec fn dec_str(n: nat) -> Seq<char>
    decreases n,
{
    if n < 10 {
        seq![dec_digit(n)]
    } else {
        dec_str(n / 10).push(dec_digit(n % 10))
    }
}

fn dec_digit_str(d: u64) -> (r: &'static str)
    requires
        d < 10,
    ensures
        r@ == seq![dec_digit(d as nat)],
{
    let r: &'static str = match d {
        0 => "0", 1 => "1", 2 => "2", 3 => "3", 4 => "4",
        5 => "5", 6 => "6", 7 => "7", 8 => "8", _ => "9",
    };
    proof {
        reveal_strlit("0"); reveal_strlit("1"); reveal_strlit("2"); reveal_strlit("3");
        reveal_strlit("4"); reveal_strlit("5"); reveal_strlit("6"); reveal_strlit("7");
        reveal_strlit("8"); reveal_strlit("9");
        assert(r@ =~= seq![dec_digit(d as nat)]);
    }
    r
}

/// Renders `n` in decimal.
pub fn u64_to_string(n: u64) -> (r: String)
    ensures
        r@ == dec_str(n as nat),
    decreases n,
{
    if n < 10 {
        dec_digit_str(n).to_owned()
    } else {
        let mut r = u64_to_string(n / 10);
        r.append(dec_digit_str(n % 10));
        proof {
            assert(dec_str(n as nat) =~= dec_str((n / 10) as nat) + seq![dec_digit((n % 10) as nat)]);
        }
        r
    }
}

} // verus!
