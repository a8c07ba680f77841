//! Character-level text helpers shared by the parsers of this crate.

use std::path::Path;
use vstd::prelude::*;

verus! {

/// Appends one character to a `String` (std's `String::push`).
#[verifier::external_body]
pub(crate) fn push_char(s: &mut String, c: char)
    ensures
        final(s)@ == old(s)@.push(c),
{
    s.push(c);
}

/// The characters of `s`, in order.
pub fn chars_of(s: &str) -> (r: Vec<char>)
    ensures
        r@ == s@,
{
    let mut out: Vec<char> = Vec::new();
    for c in it: s.chars()
        invariant
            out@ == it.seq().take(it.index() as int),
            it.seq() == s@,
    {
        out.push(c);
    }
    out
}


/// A `String` holding exactly the characters of `v`.
pub fn string_of(v: &[char]) -> (r: String)
    ensures
        r@ == v@,
{
    let mut out = String::new();
    let mut i: usize = 0;
    while i < v.len()
        invariant
            i <= v@.len(),
            out@ == v@.take(i as int),
        decreases v@.len() - i,
    {
        push_char(&mut out, v[i]);
        proof {
            assert(v@.take(i + 1) =~= v@.take(i as int).push(v@[i as int]));
        }
        i = i + 1;
    }
    proof {
        assert(v@.take(v@.len() as int) =~= v@);
    }
    out
}

/// Appends the characters of `v` to `s`.
pub fn push_chars(s: &mut String, v: &[char])
    ensures
        final(s)@ == old(s)@ + v@,
{
    let ghost start = s@;
    let mut i: usize = 0;
    while i < v.len()
        invariant
            i <= v@.len(),
            s@ == start + v@.take(i as int),
        decreases v@.len() - i,
    {
        push_char(s, v[i]);
        proof {
            assert(v@.take(i + 1) =~= v@.take(i as int).push(v@[i as int]));
            assert(start + v@.take(i + 1) =~= (start + v@.take(i as int)).push(v@[i as int]));
        }
        i = i + 1;
    }
    proof {
        assert(v@.take(v@.len() as int) =~= v@);
    }
}

/// Appends the characters of the string slice `t` to `s`.
pub fn push_str(s: &mut String, t: &str)
    ensures
        final(s)@ == old(s)@ + t@,
{
    let v = chars_of(t);
    push_chars(s, v.as_slice());
}

/// A fresh `String` equal to `t`.
pub fn owned(t: &str) -> (r: String)
    ensures
        r@ == t@,
{
    let mut s = String::new();
    push_str(&mut s, t);
    proof {
        assert(Seq::<char>::empty() + t@ =~= t@);
    }
    s
}

/// Lexicographic order on character sequences: the order `str`'s own
/// `Ord` gives (UTF-8 preserves code-point order, so comparing bytes and
/// comparing characters agree).
pub open spec fn seq_lt(a: Seq<char>, b: Seq<char>) -> bool
    decreases a.len(),
{
    if a.len() == 0 {
        b.len() > 0
    } else if b.len() == 0 {
        false
    } else if a[0] < b[0] {
        true
    } else if a[0] > b[0] {
        false
    } else {
        seq_lt(a.drop_first(), b.drop_first())
    }
}

pub proof fn lemma_seq_lt_irreflexive(a: Seq<char>)
    ensures
        !seq_lt(a, a),
    decreases a.len(),
{
    if a.len() > 0 {
        lemma_seq_lt_irreflexive(a.drop_first());
    }
}

pub proof fn lemma_seq_lt_transitive(a: Seq<char>, b: Seq<char>, c: Seq<char>)
    requires
        seq_lt(a, b),
        seq_lt(b, c),
    ensures
        seq_lt(a, c),
    decreases a.len(),
{
    if a.len() > 0 && b.len() > 0 && c.len() > 0 {
        if a[0] == b[0] && b[0] == c[0] {
            lemma_seq_lt_transitive(a.drop_first(), b.drop_first(), c.drop_first());
        }
    }
}

pub proof fn lemma_seq_lt_total(a: Seq<char>, b: Seq<char>)
    ensures
        a == b || seq_lt(a, b) || seq_lt(b, a),
    decreases a.len(),
{
    if a.len() > 0 && b.len() > 0 {
        if a[0] == b[0] {
            lemma_seq_lt_total(a.drop_first(), b.drop_first());
            if a.drop_first() == b.drop_first() {
                assert(a[0] == b[0]);
                assert(a =~= seq![a[0]] + a.drop_first());
                assert(b =~= seq![b[0]] + b.drop_first());
            }
        }
    } else if a.len() == 0 && b.len() == 0 {
        assert(a =~= b);
    }
}

pub proof fn lemma_seq_lt_asymmetric(a: Seq<char>, b: Seq<char>)
    requires
        seq_lt(a, b),
    ensures
        !seq_lt(b, a),
{
    if seq_lt(b, a) {
        lemma_seq_lt_transitive(a, b, a);
        lemma_seq_lt_irreflexive(a);
    }
}

/// Strictly increasing texts (so each occurs once): a sorted set.
pub open spec fn strictly_sorted(s: Seq<Seq<char>>) -> bool {
    forall|i: int, j: int| 0 <= i < j < s.len() ==> seq_lt(#[trigger] s[i], #[trigger] s[j])
}

/// Whether the sorted set `v` holds `x`.
pub fn sorted_contains(v: &Vec<String>, x: &str) -> (r: bool)
    ensures
        r == crate::resource_scheduler::strings_view(v@).contains(x@),
{
    let ghost sv = crate::resource_scheduler::strings_view(v@);
    let mut i: usize = 0;
    while i < v.len()
        invariant
            i <= v@.len(),
            sv == crate::resource_scheduler::strings_view(v@),
            forall|j: int| 0 <= j < i ==> sv[j] != x@,
        decreases v@.len() - i,
    {
        if str_eq(v[i].as_str(), x) {
            proof {
                assert(sv[i as int] == x@);
            }
            return true;
        }
        i = i + 1;
    }
    proof {
        if sv.contains(x@) {
            let j = choose|j: int| 0 <= j < sv.len() && sv[j] == x@;
            assert(sv[j] != x@);
        }
    }
    false
}

/// Adds `x` to the sorted set `v`, keeping it sorted.
pub fn insert_sorted(v: &mut Vec<String>, x: String)
    requires
        strictly_sorted(crate::resource_scheduler::strings_view(old(v)@)),
    ensures
        strictly_sorted(crate::resource_scheduler::strings_view(final(v)@)),
        forall|y: Seq<char>| crate::resource_scheduler::strings_view(final(v)@).contains(y)
            <==> (crate::resource_scheduler::strings_view(old(v)@).contains(y) || y == x@),
{
    let ghost sv = crate::resource_scheduler::strings_view(v@);
    let mut i: usize = 0;
    loop
        invariant
            i <= v@.len(),
            sv == crate::resource_scheduler::strings_view(v@),
            strictly_sorted(sv),
            forall|j: int| 0 <= j < i ==> seq_lt(#[trigger] sv[j], x@),
        ensures
            i <= v@.len(),
            forall|j: int| 0 <= j < i ==> seq_lt(#[trigger] sv[j], x@),
            i < v@.len() ==> !seq_lt(sv[i as int], x@),
        decreases v@.len() - i,
    {
        if i == v.len() {
            break;
        }
        if str_lt(v[i].as_str(), x.as_str()) {
            proof {
                assert(sv[i as int] == v@[i as int]@);
            }
            i = i + 1;
        } else {
            proof {
                assert(sv[i as int] == v@[i as int]@);
            }
            break;
        }
    }
    if i < v.len() && str_eq(v[i].as_str(), x.as_str()) {
        proof {
            assert(sv[i as int] == x@);
        }
        return;
    }
    proof {
        if i < v@.len() {
            lemma_seq_lt_total(sv[i as int], x@);
        }
    }
    v.insert(i, x);
    proof {
        let nv = crate::resource_scheduler::strings_view(v@);
        assert(nv =~= sv.insert(i as int, x@));
        assert forall|a: int, b: int| 0 <= a < b < nv.len() implies seq_lt(#[trigger] nv[a], #[trigger] nv[b]) by {
            if b < i {
            } else if b == i {
                assert(seq_lt(sv[a], x@));
            } else if a < i {
                // sv[a] < x < sv[i] <= nv[b]
                assert(seq_lt(sv[a], x@));
                assert(seq_lt(x@, sv[i as int]));
                lemma_seq_lt_transitive(sv[a], x@, sv[i as int]);
                if b - 1 > i {
                    assert(seq_lt(sv[i as int], sv[b - 1]));
                    lemma_seq_lt_transitive(sv[a], sv[i as int], sv[b - 1]);
                }
            } else if a == i {
                assert(seq_lt(x@, sv[i as int]));
                if b - 1 > i {
                    assert(seq_lt(sv[i as int], sv[b - 1]));
                    lemma_seq_lt_transitive(x@, sv[i as int], sv[b - 1]);
                }
            } else {
                assert(seq_lt(sv[a - 1], sv[b - 1]));
            }
        }
        assert forall|y: Seq<char>| nv.contains(y) <==> (sv.contains(y) || y == x@) by {
            if nv.contains(y) {
                let k = choose|k: int| 0 <= k < nv.len() && nv[k] == y;
                if k < i {
                    assert(sv[k] == y);
                } else if k > i {
                    assert(sv[k - 1] == y);
                }
            }
            if sv.contains(y) {
                let k = choose|k: int| 0 <= k < sv.len() && sv[k] == y;
                if k < i {
                    assert(nv[k] == y);
                } else {
                    assert(nv[k + 1] == y);
                }
            }
            if y == x@ {
                assert(nv[i as int] == y);
            }
        }
    }
}

/// Whether `a` sorts strictly before `b`.
pub fn chars_lt(a: &[char], b: &[char]) -> (r: bool)
    ensures
        r == seq_lt(a@, b@),
{
    let mut i: usize = 0;
    proof {
        assert(a@.skip(0) =~= a@);
        assert(b@.skip(0) =~= b@);
    }
    while i < a.len() && i < b.len()
        invariant
            i <= a@.len(),
            i <= b@.len(),
            a@.take(i as int) =~= b@.take(i as int),
            seq_lt(a@, b@) == seq_lt(a@.skip(i as int), b@.skip(i as int)),
        decreases a@.len() - i,
    {
        if a[i] < b[i] {
            return true;
        }
        if a[i] > b[i] {
            return false;
        }
        proof {
            assert(a@.skip(i as int).drop_first() =~= a@.skip(i + 1));
            assert(b@.skip(i as int).drop_first() =~= b@.skip(i + 1));
            assert(a@.take(i + 1) =~= a@.take(i as int).push(a@[i as int]));
            assert(b@.take(i + 1) =~= b@.take(i as int).push(b@[i as int]));
        }
        i = i + 1;
    }
    i < b.len()
}

/// Whether the string `a` sorts strictly before the string `b`.
pub fn str_lt(a: &str, b: &str) -> (r: bool)
    ensures
        r == seq_lt(a@, b@),
{
    let x = chars_of(a);
    let y = chars_of(b);
    chars_lt(x.as_slice(), y.as_slice())
}

/// Whether two string slices hold the same characters.
pub fn str_eq(a: &str, b: &str) -> (r: bool)
    ensures
        r == (a@ == b@),
{
    let x = chars_of(a);
    let y = chars_of(b);
    chars_eq(x.as_slice(), y.as_slice())
}

/// Whether two character slices are equal.
pub fn chars_eq(a: &[char], b: &[char]) -> (r: bool)
    ensures
        r == (a@ == b@),
{
    if a.len() != b.len() {
        return false;
    }
    let mut i: usize = 0;
    while i < a.len()
        invariant
            a@.len() == b@.len(),
            i <= a@.len(),
            a@.take(i as int) =~= b@.take(i as int),
        decreases a@.len() - i,
    {
        if a[i] != b[i] {
            proof {
                assert(a@[i as int] != b@[i as int]);
            }
            return false;
        }
        proof {
            assert(a@.take(i + 1) =~= a@.take(i as int).push(a@[i as int]));
            assert(b@.take(i + 1) =~= b@.take(i as int).push(b@[i as int]));
        }
        i = i + 1;
    }
    proof {
        assert(a@.take(a@.len() as int) =~= a@);
        assert(b@.take(b@.len() as int) =~= b@);
    }
    true
}


/// The decimal digit `d` as a character.
pub open spec fn digit_char(d: int) -> char {
    if d == 0 { '0' } else if d == 1 { '1' } else if d == 2 { '2' } else if d == 3 { '3' } else if d == 4 {
        '4'
    } else if d == 5 { '5' } else if d == 6 { '6' } else if d == 7 { '7' } else if d == 8 { '8' } else { '9' }
}

/// The decimal rendering of `n`, without sign or leading zeros.
pub open spec fn decimal(n: nat) -> Seq<char>
    decreases n,
{
    if n < 10 {
        seq![digit_char(n as int)]
    } else {
        decimal(n / 10).push(digit_char((n % 10) as int))
    }
}

fn digit(d: u64) -> (c: char)
    requires
        d < 10,
    ensures
        c == digit_char(d as int),
{
    match d {
        0 => '0',
        1 => '1',
        2 => '2',
        3 => '3',
        4 => '4',
        5 => '5',
        6 => '6',
        7 => '7',
        8 => '8',
        _ => '9',
    }
}

/// Appends the decimal rendering of `n` to `s`.
pub fn push_decimal(s: &mut String, n: u64)
    ensures
        final(s)@ == old(s)@ + decimal(n as nat),
    decreases n,
{
    if n >= 10 {
        push_decimal(s, n / 10);
    }
    push_char(s, digit(n % 10));
    proof {
        if n >= 10 {
            assert(old(s)@ + decimal(n as nat) =~= (old(s)@ + decimal((n / 10) as nat)).push(digit_char((n % 10) as int)));
        } else {
            assert(old(s)@ + decimal(n as nat) =~= old(s)@.push(digit_char(n as int)));
        }
    }
}

/// How `Debug` renders a string: quoted, with Rust's escapes.
pub uninterp spec fn debug_str(s: Seq<char>) -> Seq<char>;

/// `format!("{:?}", s)` for a string slice.
#[verifier::external_body]
pub(crate) fn debug_quoted(s: &str) -> (r: String)
    ensures
        r@ == debug_str(s@),
{
    format!("{:?}", s)
}

/// How `Debug` lists string items: each quoted, comma-separated.
pub open spec fn debug_items(items: Seq<Seq<char>>) -> Seq<char>
    decreases items.len(),
{
    if items.len() == 0 {
        Seq::empty()
    } else if items.len() == 1 {
        debug_str(items[0])
    } else {
        debug_items(items.drop_last()) + ", "@ + debug_str(items.last())
    }
}


/// The characters of each string slice of `v`.
pub open spec fn strs_view(v: Seq<&str>) -> Seq<Seq<char>> {
    v.map_values(|s: &str| s@)
}

/// Appends the `Debug` list of `items` (without brackets) to `s`.
pub fn push_debug_strs(s: &mut String, items: &[&str])
    ensures
        final(s)@ == old(s)@ + debug_items(strs_view(items@)),
{
    let ghost sv = strs_view(items@);
    let ghost start = s@;
    let mut k: usize = 0;
    proof {
        assert(sv.take(0) =~= Seq::<Seq<char>>::empty());
        assert(start + debug_items(sv.take(0)) =~= start);
    }
    while k < items.len()
        invariant
            sv == strs_view(items@),
            k <= sv.len(),
            s@ == start + debug_items(sv.take(k as int)),
        decreases sv.len() - k,
    {
        if k > 0 {
            push_str(s, ", ");
        }
        let q = debug_quoted(items[k]);
        push_str(s, q.as_str());
        proof {
            let t = sv.take(k + 1);
            assert(t.drop_last() =~= sv.take(k as int));
            assert(t.last() == sv[k as int]);
            if k == 0 {
                assert(debug_items(sv.take(0)) =~= Seq::<char>::empty());
            }
            assert(s@ =~= start + debug_items(t));
        }
        k = k + 1;
    }
    proof {
        assert(sv.take(k as int) =~= sv);
    }
}


// ---------------------------------------------------------------------
// Lines, whitespace and prefixes (the semantics of `str::lines`,
// `str::trim` and `str::strip_prefix`)
// ---------------------------------------------------------------------

/// The first position at or after `k` that holds a line feed, or the
/// length when there is none.
pub open spec fn next_nl(s: Seq<char>, k: int) -> int
    decreases s.len() - k,
{
    if k < 0 || k >= s.len() {
        s.len() as int
    } else if s[k] == '\n' {
        k
    } else {
        next_nl(s, k + 1)
    }
}

pub proof fn lemma_next_nl_bounds(s: Seq<char>, k: int)
    requires
        0 <= k <= s.len(),
    ensures
        k <= next_nl(s, k) <= s.len(),
        next_nl(s, k) < s.len() ==> s[next_nl(s, k)] == '\n',
        forall|m: int| k <= m < next_nl(s, k) ==> s[m] != '\n',
    decreases s.len() - k,
{
    if k < s.len() && s[k] != '\n' {
        lemma_next_nl_bounds(s, k + 1);
    }
}

/// `l` without one trailing carriage return.
pub open spec fn strip_cr(l: Seq<char>) -> Seq<char> {
    if l.len() > 0 && l.last() == '\r' {
        l.drop_last()
    } else {
        l
    }
}

/// The lines of `s` from position `k` on: split at each line feed, a
/// carriage return just before a line feed dropped, and no empty line
/// after a final line feed.
pub open spec fn lines_from(s: Seq<char>, k: int) -> Seq<Seq<char>>
    decreases s.len() - k,
{
    if k < 0 || k >= s.len() {
        Seq::empty()
    } else {
        let e = next_nl(s, k);
        proof {
            lemma_next_nl_bounds(s, k);
        }
        if e >= s.len() {
            seq![s.subrange(k, s.len() as int)]
        } else {
            seq![strip_cr(s.subrange(k, e))] + lines_from(s, e + 1)
        }
    }
}

/// The lines of `s`, as `str::lines` gives them.
pub open spec fn lines_of(s: Seq<char>) -> Seq<Seq<char>> {
    lines_from(s, 0)
}


/// A `String` of the characters `v[a..b]`.
pub fn substring(v: &Vec<char>, a: usize, b: usize) -> (r: String)
    requires
        a <= b <= v@.len(),
    ensures
        r@ == v@.subrange(a as int, b as int),
{
    let mut out = String::new();
    let mut i: usize = a;
    proof {
        assert(v@.subrange(a as int, a as int) =~= Seq::<char>::empty());
    }
    while i < b
        invariant
            a <= i <= b <= v@.len(),
            out@ == v@.subrange(a as int, i as int),
        decreases b - i,
    {
        push_char(&mut out, v[i]);
        proof {
            assert(v@.subrange(a as int, i + 1) =~= v@.subrange(a as int, i as int).push(v@[i as int]));
        }
        i = i + 1;
    }
    out
}

/// The lines of `text`, as `str::lines` gives them.
pub fn split_lines(text: &str) -> (r: Vec<String>)
    ensures
        crate::resource_scheduler::strings_view(r@) == lines_of(text@),
{
    let cs = chars_of(text);
    let ghost s = text@;
    let mut out: Vec<String> = Vec::new();
    let mut k: usize = 0;
    while k < cs.len()
        invariant
            cs@ == s,
            k <= s.len(),
            crate::resource_scheduler::strings_view(out@) + lines_from(s, k as int) == lines_of(s),
        decreases s.len() - k,
    {
        proof {
            lemma_next_nl_bounds(s, k as int);
        }
        let mut e: usize = k;
        while e < cs.len() && cs[e] != '\n'
            invariant
                cs@ == s,
                k <= e <= s.len(),
                forall|m: int| k <= m < e ==> s[m] != '\n',
                next_nl(s, k as int) == next_nl(s, e as int),
            decreases s.len() - e,
        {
            e = e + 1;
        }
        let ghost prev = crate::resource_scheduler::strings_view(out@);
        let mut line_end = e;
        if e < cs.len() && e > k && cs[e - 1] == '\r' {
            line_end = e - 1;
        }
        let line = substring(&cs, k, line_end);
        out.push(line);
        proof {
            let sv = crate::resource_scheduler::strings_view(out@);
            assert(sv =~= prev.push(line@));
            assert(line@ =~= s.subrange(k as int, line_end as int));
            if e < s.len() {
                assert(line@ =~= strip_cr(s.subrange(k as int, e as int)));
                assert(lines_from(s, k as int) =~= seq![strip_cr(s.subrange(k as int, e as int))] + lines_from(s, e + 1));
                assert(sv + lines_from(s, e + 1) =~= prev + lines_from(s, k as int));
            } else {
                assert(lines_from(s, k as int) =~= seq![s.subrange(k as int, s.len() as int)]);
                assert(lines_from(s, e as int) =~= Seq::<Seq<char>>::empty());
                assert(sv + lines_from(s, e as int) =~= prev + lines_from(s, k as int));
            }
        }
        if e < cs.len() {
            k = e + 1;
        } else {
            k = e;
        }
    }
    proof {
        assert(lines_from(s, k as int) =~= Seq::<Seq<char>>::empty());
        assert(crate::resource_scheduler::strings_view(out@) + Seq::<Seq<char>>::empty() =~= crate::resource_scheduler::strings_view(out@));
    }
    out
}

/// Unicode's White_Space characters (what `char::is_whitespace` tests).
pub open spec fn is_ws(c: char) -> bool {
    let n = c as u32;
    ||| 9 <= n <= 13
    ||| n == 32
    ||| n == 0x85
    ||| n == 0xA0
    ||| n == 0x1680
    ||| 0x2000 <= n <= 0x200A
    ||| n == 0x2028
    ||| n == 0x2029
    ||| n == 0x202F
    ||| n == 0x205F
    ||| n == 0x3000
}

pub fn char_is_ws(c: char) -> (r: bool)
    ensures
        r == is_ws(c),
{
    let n = c as u32;
    (9 <= n && n <= 13) || n == 32 || n == 0x85 || n == 0xA0 || n == 0x1680 || (0x2000 <= n && n <= 0x200A)
        || n == 0x2028 || n == 0x2029 || n == 0x202F || n == 0x205F || n == 0x3000
}

/// How many leading characters of `s` are whitespace.
pub open spec fn lead_ws(s: Seq<char>) -> int
    decreases s.len(),
{
    if s.len() > 0 && is_ws(s[0]) {
        1 + lead_ws(s.drop_first())
    } else {
        0
    }
}

/// How many trailing characters of `s` are whitespace.
pub open spec fn trail_ws(s: Seq<char>) -> int
    decreases s.len(),
{
    if s.len() > 0 && is_ws(s.last()) {
        1 + trail_ws(s.drop_last())
    } else {
        0
    }
}

/// `s` without leading and trailing whitespace (`str::trim`).
pub open spec fn trim_spec(s: Seq<char>) -> Seq<char> {
    let a = lead_ws(s);
    if a >= s.len() {
        Seq::empty()
    } else {
        s.subrange(a, s.len() - trail_ws(s))
    }
}

proof fn lemma_lead_ws(s: Seq<char>, k: int)
    requires
        0 <= k <= s.len(),
        forall|m: int| 0 <= m < k ==> is_ws(s[m]),
    ensures
        lead_ws(s) == k + lead_ws(s.skip(k)),
        0 <= lead_ws(s) <= s.len(),
    decreases k,
{
    lemma_ws_bounds(s);
    if k > 0 {
        assert(s.drop_first().skip(k - 1) =~= s.skip(k));
        lemma_lead_ws(s.drop_first(), k - 1);
    } else {
        assert(s.skip(0) =~= s);
    }
}

proof fn lemma_ws_bounds(s: Seq<char>)
    ensures
        0 <= lead_ws(s) <= s.len(),
        0 <= trail_ws(s) <= s.len(),
    decreases s.len(),
{
    if s.len() > 0 {
        lemma_ws_bounds(s.drop_first());
        lemma_ws_bounds(s.drop_last());
    }
}

proof fn lemma_trail_ws(s: Seq<char>, k: int)
    requires
        0 <= k <= s.len(),
        forall|m: int| s.len() - k <= m < s.len() ==> is_ws(s[m]),
    ensures
        trail_ws(s) == k + trail_ws(s.take(s.len() - k)),
    decreases k,
{
    lemma_ws_bounds(s);
    if k > 0 {
        assert(s.drop_last().take(s.drop_last().len() - (k - 1)) =~= s.take(s.len() - k));
        lemma_trail_ws(s.drop_last(), k - 1);
    } else {
        assert(s.take(s.len() as int) =~= s);
    }
}

/// `s` without leading and trailing whitespace.
pub fn trim_chars(s: &[char]) -> (r: Vec<char>)
    ensures
        r@ == trim_spec(s@),
{
    let n = s.len();
    let mut a: usize = 0;
    while a < n && char_is_ws(s[a])
        invariant
            a <= n,
            n == s@.len(),
            forall|m: int| 0 <= m < a ==> is_ws(s@[m]),
        decreases n - a,
    {
        a = a + 1;
    }
    proof {
        lemma_lead_ws(s@, a as int);
        if a < n {
            assert(!is_ws(s@.skip(a as int)[0]));
            assert(lead_ws(s@.skip(a as int)) == 0);
        } else {
            lemma_ws_bounds(s@.skip(a as int));
        }
    }
    if a == n {
        return Vec::new();
    }
    let mut b: usize = n;
    while b > a && char_is_ws(s[b - 1])
        invariant
            a < n,
            a <= b <= n,
            n == s@.len(),
            !is_ws(s@[a as int]),
            forall|m: int| b <= m < n ==> is_ws(s@[m]),
        decreases b,
    {
        b = b - 1;
    }
    proof {
        lemma_trail_ws(s@, n - b);
        let t = s@.take(b as int);
        assert(b > a);
        assert(!is_ws(t.last()));
        assert(trail_ws(t) == 0);
    }
    let mut out: Vec<char> = Vec::new();
    let mut i: usize = a;
    while i < b
        invariant
            a <= i <= b <= n,
            n == s@.len(),
            out@ == s@.subrange(a as int, i as int),
        decreases b - i,
    {
        out.push(s[i]);
        proof {
            assert(s@.subrange(a as int, i + 1) =~= s@.subrange(a as int, i as int).push(s@[i as int]));
        }
        i = i + 1;
    }
    out
}

/// `text` without leading and trailing whitespace, as a `String`.
pub fn trimmed(text: &str) -> (r: String)
    ensures
        r@ == trim_spec(text@),
{
    let cs = chars_of(text);
    let t = trim_chars(cs.as_slice());
    string_of(t.as_slice())
}

/// The rest of `s` after `prefix`, if `s` starts with it.
pub open spec fn after_prefix(s: Seq<char>, prefix: Seq<char>) -> Option<Seq<char>> {
    if prefix.len() <= s.len() && s.take(prefix.len() as int) == prefix {
        Some(s.skip(prefix.len() as int))
    } else {
        None
    }
}

/// `str::strip_prefix`, giving an owned rest.
pub fn strip_prefix(text: &str, prefix: &str) -> (r: Option<String>)
    ensures
        r matches Some(x) ==> after_prefix(text@, prefix@) == Some(x@),
        r is None ==> after_prefix(text@, prefix@) is None,
{
    let s = chars_of(text);
    let p = chars_of(prefix);
    if p.len() > s.len() {
        return None;
    }
    let mut i: usize = 0;
    while i < p.len()
        invariant
            p@.len() <= s@.len(),
            i <= p@.len(),
            s@ == text@,
            p@ == prefix@,
            forall|m: int| 0 <= m < i ==> s@[m] == p@[m],
        decreases p@.len() - i,
    {
        if s[i] != p[i] {
            proof {
                assert(s@.take(p@.len() as int)[i as int] != p@[i as int]);
            }
            return None;
        }
        i = i + 1;
    }
    proof {
        assert(s@.take(p@.len() as int) =~= p@);
    }
    let rest = substring(&s, p.len(), s.len());
    proof {
        assert(rest@ =~= s@.skip(p@.len() as int));
    }
    Some(rest)
}


// ---------------------------------------------------------------------
// Joined paths
// ---------------------------------------------------------------------

/// The path `Path::join` makes of `root` and `rel`.
pub uninterp spec fn join_path(root: Seq<char>, rel: Seq<char>) -> Seq<char>;

/// `root` joined with `rel` by `std::path::Path::join`, as text.
#[verifier::external_body]
pub(crate) fn join(root: &str, rel: &str) -> (r: String)
    ensures
        r@ == join_path(root@, rel@),
{
    std::path::Path::new(root).join(rel).to_string_lossy().into_owned()
}

/// What `Path::strip_prefix` gives for `path` under `base` (component-wise).
pub uninterp spec fn path_relative(path: Seq<char>, base: Seq<char>) -> Option<Seq<char>>;

/// What `Path::file_name` gives for `path`.
pub uninterp spec fn path_file_name(path: Seq<char>) -> Option<Seq<char>>;

/// `path` relative to `base`, if `base` is a prefix of it by components.
#[verifier::external_body]
pub(crate) fn strip_path_prefix(path: &str, base: &str) -> (r: Option<String>)
    ensures
        crate::toolchain_resolve::opt_view(r) == path_relative(path@, base@),
{
    match Path::new(path).strip_prefix(base) {
        Ok(rel) => Some(rel.to_string_lossy().into_owned()),
        Err(_) => None,
    }
}

/// The final component of `path`, if it has a normal one.
#[verifier::external_body]
pub(crate) fn file_name_of(path: &str) -> (r: Option<String>)
    ensures
        crate::toolchain_resolve::opt_view(r) == path_file_name(path@),
{
    match Path::new(path).file_name() {
        Some(name) => Some(name.to_string_lossy().into_owned()),
        None => None,
    }
}

/// What `Path::file_stem` gives for `path`.
pub uninterp spec fn path_file_stem(path: Seq<char>) -> Option<Seq<char>>;

/// The final component of `path` without its extension, if it has one.
#[verifier::external_body]
pub(crate) fn file_stem_of(path: &str) -> (r: Option<String>)
    ensures
        crate::toolchain_resolve::opt_view(r) == path_file_stem(path@),
{
    match Path::new(path).file_stem() {
        Some(stem) => Some(stem.to_string_lossy().into_owned()),
        None => None,
    }
}

// ---------------------------------------------------------------------
// Splitting on a character (the semantics of `str::split` with a char)
// ---------------------------------------------------------------------

/// The first position at or after `k` holding `c`, or the length.
pub open spec fn next_char(s: Seq<char>, c: char, k: int) -> int
    decreases s.len() - k,
{
    if k < 0 || k >= s.len() {
        s.len() as int
    } else if s[k] == c {
        k
    } else {
        next_char(s, c, k + 1)
    }
}

pub proof fn lemma_next_char_bounds(s: Seq<char>, c: char, k: int)
    requires
        0 <= k <= s.len(),
    ensures
        k <= next_char(s, c, k) <= s.len(),
        next_char(s, c, k) < s.len() ==> s[next_char(s, c, k)] == c,
    decreases s.len() - k,
{
    if k < s.len() && s[k] != c {
        lemma_next_char_bounds(s, c, k + 1);
    }
}

/// The pieces of `s` from position `k` on, split at every `c`.
pub open spec fn pieces_from(s: Seq<char>, c: char, k: int) -> Seq<Seq<char>>
    decreases s.len() - k + 1,
{
    if k < 0 || k > s.len() {
        Seq::empty()
    } else {
        let e = next_char(s, c, k);
        proof {
            lemma_next_char_bounds(s, c, k);
        }
        if e >= s.len() {
            seq![s.subrange(k, s.len() as int)]
        } else {
            seq![s.subrange(k, e)] + pieces_from(s, c, e + 1)
        }
    }
}

/// `s` split at every `c`: always at least one piece.
pub open spec fn split_on(s: Seq<char>, c: char) -> Seq<Seq<char>> {
    pieces_from(s, c, 0)
}

/// The pieces of `text` split at every `c`.
pub fn split_char(text: &str, c: char) -> (r: Vec<String>)
    ensures
        crate::resource_scheduler::strings_view(r@) == split_on(text@, c),
{
    let cs = chars_of(text);
    let ghost s = text@;
    let mut out: Vec<String> = Vec::new();
    let mut k: usize = 0;
    let mut done = false;
    while !done
        invariant
            cs@ == s,
            k <= s.len(),
            !done ==> crate::resource_scheduler::strings_view(out@) + pieces_from(s, c, k as int) == split_on(s, c),
            done ==> crate::resource_scheduler::strings_view(out@) == split_on(s, c),
        decreases s.len() - k, if done { 0int } else { 1int },
    {
        proof {
            lemma_next_char_bounds(s, c, k as int);
        }
        let mut e: usize = k;
        while e < cs.len() && cs[e] != c
            invariant
                cs@ == s,
                k <= e <= s.len(),
                next_char(s, c, k as int) == next_char(s, c, e as int),
            decreases s.len() - e,
        {
            e = e + 1;
        }
        let ghost prev = crate::resource_scheduler::strings_view(out@);
        let piece = substring(&cs, k, e);
        out.push(piece);
        proof {
            let sv = crate::resource_scheduler::strings_view(out@);
            assert(sv =~= prev.push(piece@));
            if e < s.len() {
                assert(pieces_from(s, c, k as int) =~= seq![s.subrange(k as int, e as int)] + pieces_from(s, c, e + 1));
                assert(sv + pieces_from(s, c, e + 1) =~= prev + pieces_from(s, c, k as int));
            } else {
                assert(pieces_from(s, c, k as int) =~= seq![s.subrange(k as int, s.len() as int)]);
                assert(sv =~= prev + pieces_from(s, c, k as int));
            }
        }
        if e < cs.len() {
            k = e + 1;
        } else {
            done = true;
        }
    }
    out
}


// ---------------------------------------------------------------------
// Substrings (the semantics of `str::find`, `str::contains`,
// `str::ends_with` and `str::strip_suffix`)
// ---------------------------------------------------------------------

/// `pat` occurs in `s` at position `i`.
pub open spec fn occurs_at(s: Seq<char>, pat: Seq<char>, i: int) -> bool {
    0 <= i && i + pat.len() <= s.len() && s.subrange(i, i + pat.len()) == pat
}

/// The first position at or after `k` where `pat` occurs, if any.
pub open spec fn find_from(s: Seq<char>, pat: Seq<char>, k: int) -> Option<int>
    decreases s.len() - k + 1,
{
    if k < 0 || k + pat.len() > s.len() {
        None
    } else if occurs_at(s, pat, k) {
        Some(k)
    } else {
        find_from(s, pat, k + 1)
    }
}

pub proof fn lemma_find_from_occurs(s: Seq<char>, pat: Seq<char>, k: int)
    ensures
        find_from(s, pat, k) matches Some(i) ==> occurs_at(s, pat, i) && k <= i,
    decreases s.len() - k + 1,
{
    if !(k < 0 || k + pat.len() > s.len()) && !occurs_at(s, pat, k) {
        lemma_find_from_occurs(s, pat, k + 1);
    }
}

/// The first position where `pat` occurs in `s`, if any.
pub open spec fn find_spec(s: Seq<char>, pat: Seq<char>) -> Option<int> {
    find_from(s, pat, 0)
}

/// Whether `pat` occurs at position `i` of `s`.
fn matches_at(s: &Vec<char>, pat: &Vec<char>, i: usize) -> (r: bool)
    requires
        i + pat@.len() <= s@.len(),
    ensures
        r == occurs_at(s@, pat@, i as int),
{
    assert(s.len() == s@.len());
    let mut j: usize = 0;
    while j < pat.len()
        invariant
            s@.len() <= usize::MAX,
            i + pat@.len() <= s@.len(),
            j <= pat@.len(),
            forall|m: int| 0 <= m < j ==> s@[i + m] == pat@[m],
        decreases pat@.len() - j,
    {
        if s[i + j] != pat[j] {
            proof {
                assert(s@.subrange(i as int, i + pat@.len())[j as int] != pat@[j as int]);
            }
            return false;
        }
        j = j + 1;
    }
    proof {
        assert(s@.subrange(i as int, i + pat@.len()) =~= pat@);
    }
    true
}

/// The first position of `pat` in the characters `s`, if any.
pub fn find_chars(s: &Vec<char>, pat: &Vec<char>) -> (r: Option<usize>)
    ensures
        r matches Some(i) ==> find_spec(s@, pat@) == Some(i as int) && occurs_at(s@, pat@, i as int),
        r is None ==> find_spec(s@, pat@) is None,
{
    proof {
        lemma_find_from_occurs(s@, pat@, 0);
    }
    if pat.len() > s.len() {
        return None;
    }
    let last = s.len() - pat.len();
    let mut i: usize = 0;
    let mut more = true;
    while more
        invariant
            pat@.len() <= s@.len(),
            last == s@.len() - pat@.len(),
            i <= last,
            more ==> find_spec(s@, pat@) == find_from(s@, pat@, i as int),
            !more ==> find_spec(s@, pat@) is None,
        decreases last - i, if more { 1int } else { 0int },
    {
        if matches_at(s, pat, i) {
            return Some(i);
        }
        if i == last {
            more = false;
        } else {
            i = i + 1;
        }
    }
    None
}

/// Whether `pat` occurs in `text`.
pub fn contains_str(text: &str, pat: &str) -> (r: bool)
    ensures
        r == (find_spec(text@, pat@) is Some),
{
    let s = chars_of(text);
    let p = chars_of(pat);
    find_chars(&s, &p).is_some()
}

/// `s` without the suffix `suf`, if it ends with it.
pub open spec fn before_suffix(s: Seq<char>, suf: Seq<char>) -> Option<Seq<char>> {
    if suf.len() <= s.len() && s.skip(s.len() - suf.len()) == suf {
        Some(s.take(s.len() - suf.len()))
    } else {
        None
    }
}

/// `str::strip_suffix`, giving an owned rest.
pub fn strip_suffix(text: &str, suffix: &str) -> (r: Option<String>)
    ensures
        r matches Some(x) ==> before_suffix(text@, suffix@) == Some(x@),
        r is None ==> before_suffix(text@, suffix@) is None,
{
    let s = chars_of(text);
    let p = chars_of(suffix);
    if p.len() > s.len() {
        return None;
    }
    let start = s.len() - p.len();
    if !matches_at(&s, &p, start) {
        proof {
            assert(s@.subrange(start as int, start + p@.len()) =~= s@.skip(s@.len() - p@.len()));
        }
        return None;
    }
    proof {
        assert(s@.subrange(start as int, start + p@.len()) =~= s@.skip(s@.len() - p@.len()));
    }
    let r = substring(&s, 0, start);
    proof {
        assert(s@.subrange(0, start as int) =~= s@.take(s@.len() - p@.len()));
    }
    Some(r)
}


// ---------------------------------------------------------------------
// Decimal integers (the semantics of `u64::from_str`)
// ---------------------------------------------------------------------

/// The value of the decimal digits `ds` (all of them digits).
pub open spec fn digits_value(ds: Seq<char>) -> nat
    decreases ds.len(),
{
    if ds.len() == 0 {
        0
    } else {
        digits_value(ds.drop_last()) * 10 + ((ds.last() as u32) - 48) as nat
    }
}

pub open spec fn all_digits(ds: Seq<char>) -> bool {
    forall|i: int| 0 <= i < ds.len() ==> '0' <= #[trigger] ds[i] && ds[i] <= '9'
}

/// `u64::from_str`: an optional `+`, then one or more decimal digits whose
/// value fits.
pub open spec fn parse_u64_spec(s: Seq<char>) -> Option<u64> {
    let ds = if s.len() > 0 && s[0] == '+' { s.drop_first() } else { s };
    if ds.len() > 0 && all_digits(ds) && digits_value(ds) <= u64::MAX {
        Some(digits_value(ds) as u64)
    } else {
        None
    }
}

proof fn lemma_digits_value_grows(ds: Seq<char>, c: char)
    requires
        '0' <= c <= '9',
    ensures
        digits_value(ds.push(c)) == digits_value(ds) * 10 + ((c as u32) - 48) as nat,
        digits_value(ds.push(c)) >= digits_value(ds),
{
    assert(ds.push(c).drop_last() =~= ds);
}

/// Parses `text` as `u64::from_str` does.
pub fn parse_u64(text: &str) -> (r: Option<u64>)
    ensures
        r == parse_u64_spec(text@),
{
    let cs = chars_of(text);
    let start: usize = if cs.len() > 0 && cs[0] == '+' {
        1
    } else {
        0
    };
    let ghost ds = if text@.len() > 0 && text@[0] == '+' { text@.drop_first() } else { text@ };
    proof {
        assert(ds =~= cs@.skip(start as int));
    }
    if start >= cs.len() {
        return None;
    }
    let mut v: u64 = 0;
    let mut i: usize = start;
    while i < cs.len()
        invariant
            cs@ == text@,
            start <= i <= cs@.len(),
            ds == cs@.skip(start as int),
            ds == (if text@.len() > 0 && text@[0] == '+' { text@.drop_first() } else { text@ }),
            ds.len() > 0,
            all_digits(cs@.subrange(start as int, i as int)),
            v == digits_value(cs@.subrange(start as int, i as int)),
        decreases cs@.len() - i,
    {
        let c = cs[i];
        let ghost pre = cs@.subrange(start as int, i as int);
        proof {
            assert(cs@.subrange(start as int, i + 1) =~= pre.push(c));
        }
        if !('0' <= c && c <= '9') {
            proof {
                assert(ds[i - start] == c);
                assert(!all_digits(ds));
            }
            return None;
        }
        proof {
            lemma_digits_value_grows(pre, c);
        }
        let d = (c as u32 - 48) as u64;
        if v > 1844674407370955161u64 || (v == 1844674407370955161u64 && d > 5) {
            proof {
                assert(digits_value(pre.push(c)) > u64::MAX);
                assert forall|j: int| i + 1 <= j <= cs@.len() && all_digits(#[trigger] cs@.subrange(start as int, j)) implies digits_value(cs@.subrange(start as int, j)) > u64::MAX by {
                    lemma_prefix_value_grows(cs@, start as int, i + 1, j);
                }
                assert(cs@.subrange(start as int, cs@.len() as int) =~= ds);
                if all_digits(ds) {
                    assert(all_digits(cs@.subrange(start as int, cs@.len() as int)));
                }
            }
            return None;
        }
        v = v * 10 + d;
        i = i + 1;
    }
    proof {
        assert(cs@.subrange(start as int, cs@.len() as int) =~= ds);
    }
    Some(v)
}

proof fn lemma_prefix_value_grows(s: Seq<char>, a: int, i: int, j: int)
    requires
        0 <= a <= i <= j <= s.len(),
    ensures
        all_digits(s.subrange(a, j)) ==> digits_value(s.subrange(a, j)) >= digits_value(s.subrange(a, i)),
    decreases j - i,
{
    if j > i {
        lemma_prefix_value_grows(s, a, i, j - 1);
        if all_digits(s.subrange(a, j)) {
            assert(s.subrange(a, j) =~= s.subrange(a, j - 1).push(s[j - 1]));
            assert(all_digits(s.subrange(a, j - 1)));
            assert(s.subrange(a, j)[j - 1 - a] == s[j - 1]);
            lemma_digits_value_grows(s.subrange(a, j - 1), s[j - 1]);
        }
    }
}

/// The last position of `c` in `s`, if any.
pub open spec fn last_index(s: Seq<char>, c: char) -> Option<int>
    decreases s.len(),
{
    if s.len() == 0 {
        None
    } else if s.last() == c {
        Some(s.len() - 1)
    } else {
        last_index(s.drop_last(), c)
    }
}

/// The last position of `c` among `s[..end]`, if any.
pub fn rfind_char(s: &Vec<char>, end: usize, c: char) -> (r: Option<usize>)
    requires
        end <= s@.len(),
    ensures
        r matches Some(i) ==> last_index(s@.take(end as int), c) == Some(i as int) && i < end,
        r is None ==> last_index(s@.take(end as int), c) is None,
{
    let mut i: usize = end;
    while i > 0
        invariant
            i <= end <= s@.len(),
            last_index(s@.take(end as int), c) == last_index(s@.take(i as int), c),
        decreases i,
    {
        proof {
            assert(s@.take(i as int).drop_last() =~= s@.take(i - 1));
        }
        if s[i - 1] == c {
            return Some(i - 1);
        }
        i = i - 1;
    }
    None
}


// ---------------------------------------------------------------------
// Whitespace-separated tokens (the semantics of `str::split_whitespace`)
// ---------------------------------------------------------------------

/// The first position at or after `k` that is (when `ws`) or is not (when
/// `!ws`) whitespace, or the length.
pub open spec fn next_kind(s: Seq<char>, k: int, ws: bool) -> int
    decreases s.len() - k,
{
    if k < 0 || k >= s.len() {
        s.len() as int
    } else if is_ws(s[k]) == ws {
        k
    } else {
        next_kind(s, k + 1, ws)
    }
}

pub proof fn lemma_next_kind_bounds(s: Seq<char>, k: int, ws: bool)
    requires
        0 <= k <= s.len(),
    ensures
        k <= next_kind(s, k, ws) <= s.len(),
        next_kind(s, k, ws) < s.len() ==> is_ws(s[next_kind(s, k, ws)]) == ws,
        k < s.len() && is_ws(s[k]) != ws ==> next_kind(s, k, ws) > k,
    decreases s.len() - k,
{
    if k < s.len() && is_ws(s[k]) != ws {
        lemma_next_kind_bounds(s, k + 1, ws);
    }
}

/// The whitespace-separated tokens of `s` from position `k` on.
pub open spec fn tokens_from(s: Seq<char>, k: int) -> Seq<Seq<char>>
    decreases s.len() - k,
{
    if k < 0 || k >= s.len() {
        Seq::empty()
    } else {
        let j = next_kind(s, k, false);
        proof {
            lemma_next_kind_bounds(s, k, false);
        }
        if j >= s.len() {
            Seq::empty()
        } else {
            let e = next_kind(s, j, true);
            proof {
                lemma_next_kind_bounds(s, j, true);
            }
            seq![s.subrange(j, e)] + tokens_from(s, e)
        }
    }
}

/// The whitespace-separated tokens of `s`.
pub open spec fn ws_tokens(s: Seq<char>) -> Seq<Seq<char>> {
    tokens_from(s, 0)
}

/// The whitespace-separated tokens of `text`.
pub fn split_ws(text: &str) -> (r: Vec<String>)
    ensures
        crate::resource_scheduler::strings_view(r@) == ws_tokens(text@),
{
    let cs = chars_of(text);
    let ghost s = text@;
    let mut out: Vec<String> = Vec::new();
    let mut k: usize = 0;
    proof {
        assert(crate::resource_scheduler::strings_view(out@) =~= Seq::<Seq<char>>::empty());
    }
    while k < cs.len()
        invariant
            cs@ == s,
            k <= s.len(),
            crate::resource_scheduler::strings_view(out@) + tokens_from(s, k as int) == ws_tokens(s),
        decreases s.len() - k,
    {
        let mut j: usize = k;
        while j < cs.len() && char_is_ws(cs[j])
            invariant
                cs@ == s,
                k <= j <= s.len(),
                next_kind(s, k as int, false) == next_kind(s, j as int, false),
            decreases s.len() - j,
        {
            j = j + 1;
        }
        if j >= cs.len() {
            proof {
                assert(tokens_from(s, k as int) =~= Seq::<Seq<char>>::empty());
                assert(crate::resource_scheduler::strings_view(out@) + Seq::<Seq<char>>::empty() =~= crate::resource_scheduler::strings_view(out@));
                assert(tokens_from(s, j as int) =~= Seq::<Seq<char>>::empty());
            }
            k = j;
        } else {
            let mut e: usize = j;
            while e < cs.len() && !char_is_ws(cs[e])
                invariant
                    cs@ == s,
                    j <= e <= s.len(),
                    next_kind(s, j as int, true) == next_kind(s, e as int, true),
                decreases s.len() - e,
            {
                e = e + 1;
            }
            let ghost prev = crate::resource_scheduler::strings_view(out@);
            let tok = substring(&cs, j, e);
            out.push(tok);
            proof {
                assert(crate::resource_scheduler::strings_view(out@) =~= prev.push(tok@));
                assert(tokens_from(s, k as int) =~= seq![s.subrange(j as int, e as int)] + tokens_from(s, e as int));
                assert(crate::resource_scheduler::strings_view(out@) + tokens_from(s, e as int) =~= prev + tokens_from(s, k as int));
            }
            k = e;
        }
    }
    proof {
        assert(tokens_from(s, k as int) =~= Seq::<Seq<char>>::empty());
        assert(crate::resource_scheduler::strings_view(out@) + Seq::<Seq<char>>::empty() =~= crate::resource_scheduler::strings_view(out@));
    }
    out
}

} // verus!
