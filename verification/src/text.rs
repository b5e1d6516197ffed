//! Character-sequence helpers: decimal rendering and parsing of integers,
//! prefix and substring tests.

use vstd::prelude::*;

verus! {

/// The character of a decimal digit `d < 10`.
pub open spec fn digit_char(d: nat) -> char {
    (('0' as nat) + d) as char
}

/// The decimal rendering of `n`, most significant digit first, with no
/// leading zeros (the rendering of zero is "0").
pub open spec fn decimal(n: nat) -> Seq<char>
    decreases n,
{
    if n < 10 {
        seq![digit_char(n)]
    } else {
        decimal(n / 10).push(digit_char(n % 10))
    }
}

fn digit_str(d: u64) -> (s: &'static str)
    requires
        d < 10,
    ensures
        s@ == seq![digit_char(d as nat)],
{
    proof {
        reveal_strlit("0");
        reveal_strlit("1");
        reveal_strlit("2");
        reveal_strlit("3");
        reveal_strlit("4");
        reveal_strlit("5");
        reveal_strlit("6");
        reveal_strlit("7");
        reveal_strlit("8");
        reveal_strlit("9");
    }
    match d {
        0 => "0",
        1 => "1",
        2 => "2",
        3 => "3",
        4 => "4",
        5 => "5",
        6 => "6",
        7 => "7",
        8 => "8",
        _ => "9",
    }
}

/// Appends the decimal rendering of `n` to `out`.
pub fn append_decimal(out: &mut String, n: u64)
    ensures
        final(out)@ == old(out)@ + decimal(n as nat),
    decreases n,
{
    if n >= 10 {
        append_decimal(out, n / 10);
    }
    out.append(digit_str(n % 10));
    assert(decimal(n as nat) =~= if n < 10 { seq![digit_char(n as nat)] } else { decimal((n / 10) as nat).push(digit_char((n % 10) as nat)) });
}

/// The decimal rendering of `n`, as `u64::to_string` gives it.
pub fn u64_to_decimal(n: u64) -> (s: String)
    ensures
        s@ == decimal(n as nat),
{
    let mut s = String::new();
    append_decimal(&mut s, n);
    assert(s@ =~= decimal(n as nat));
    s
}


/// Whether `c` is an ASCII decimal digit.
pub open spec fn is_digit(c: char) -> bool {
    '0' <= c && c <= '9'
}

/// Whether every character of `s` is an ASCII decimal digit.
pub open spec fn all_digits(s: Seq<char>) -> bool {
    forall|i: int| 0 <= i < s.len() ==> #[trigger] is_digit(s[i])
}

/// The value of a digit character.
pub open spec fn digit_value(c: char) -> nat {
    ((c as int) - ('0' as int)) as nat
}

/// The value of a string of digits read in base ten.
pub open spec fn digits_value(s: Seq<char>) -> nat
    decreases s.len(),
{
    if s.len() == 0 {
        0
    } else {
        digits_value(s.drop_last()) * 10 + digit_value(s.last())
    }
}

/// The digits that `u64::from_str` reads: the text after one optional
/// leading `+`.
pub open spec fn unsigned_body(s: Seq<char>) -> Seq<char> {
    if s.len() > 0 && s[0] == '+' {
        s.drop_first()
    } else {
        s
    }
}

/// What parsing `s` as a `u64` gives: an optional `+`, then one or more
/// decimal digits whose value fits in 64 bits; anything else is refused.
pub open spec fn parse_u64_spec(s: Seq<char>) -> Option<u64> {
    let b = unsigned_body(s);
    if b.len() > 0 && all_digits(b) && digits_value(b) <= u64::MAX {
        Some(digits_value(b) as u64)
    } else {
        None
    }
}

/// Whether `s` begins with `p`.
pub open spec fn seq_starts_with(s: Seq<char>, p: Seq<char>) -> bool {
    p.len() <= s.len() && s.subrange(0, p.len() as int) == p
}

/// Whether `p` occurs in `s` at position `i`.
pub open spec fn occurs_at(s: Seq<char>, p: Seq<char>, i: int) -> bool {
    0 <= i && i + p.len() <= s.len() && s.subrange(i, i + p.len()) == p
}

/// Whether `p` occurs somewhere in `s`.
pub open spec fn seq_contains(s: Seq<char>, p: Seq<char>) -> bool {
    exists|i: int| occurs_at(s, p, i)
}

/// The characters of `s`, in order.
pub fn to_chars(s: &str) -> (v: Vec<char>)
    ensures
        v@ == s@,
{
    let n = s.unicode_len();
    let mut v: Vec<char> = Vec::new();
    let mut i: usize = 0;
    while i < n
        invariant
            n == s@.len(),
            i <= n,
            v@ == s@.subrange(0, i as int),
        decreases n - i,
    {
        let c = s.get_char(i);
        v.push(c);
        i = i + 1;
        assert(v@ =~= s@.subrange(0, i as int));
    }
    assert(v@ =~= s@);
    v
}

proof fn lemma_digits_value_prefix(s: Seq<char>, k: int)
    requires
        0 <= k <= s.len(),
    ensures
        digits_value(s.subrange(0, k)) <= digits_value(s),
    decreases s.len() - k,
{
    if k < s.len() {
        lemma_digits_value_prefix(s, k + 1);
        let t = s.subrange(0, k + 1);
        assert(t.drop_last() =~= s.subrange(0, k));
    } else {
        assert(s.subrange(0, k) =~= s);
    }
}

/// Parses `s` as `u64::from_str` does.
pub fn parse_u64(s: &str) -> (r: Option<u64>)
    ensures
        r == parse_u64_spec(s@),
{
    let chars = to_chars(s);
    let n = chars.len();
    let mut start: usize = 0;
    if n > 0 && chars[0] == '+' {
        start = 1;
    }
    let ghost body = chars@.subrange(start as int, n as int);
    assert(body =~= unsigned_body(s@));
    if start == n {
        return None;
    }
    let mut value: u64 = 0;
    let mut i: usize = start;
    while i < n
        invariant
            chars@ == s@,
            n == chars@.len(),
            start <= i <= n,
            body == chars@.subrange(start as int, n as int),
            body == unsigned_body(s@),
            all_digits(chars@.subrange(start as int, i as int)),
            value as nat == digits_value(chars@.subrange(start as int, i as int)),
        decreases n - i,
    {
        let c = chars[i];
        let ghost pre = chars@.subrange(start as int, i as int);
        let ghost next = chars@.subrange(start as int, i + 1);
        assert(next.drop_last() =~= pre);
        assert(body[i - start] == c);
        if !('0' <= c && c <= '9') {
            assert(!is_digit(body[i - start]));
            return None;
        }
        let d: u64 = ((c as u32) - ('0' as u32)) as u64;
        assert(d as nat == digit_value(c));
        if value > (u64::MAX - d) / 10 {
            assert(digits_value(next) > u64::MAX) by (nonlinear_arith)
                requires
                    digits_value(next) == value * 10 + d,
                    value > (u64::MAX - d) / 10,
                    d < 10,
            ;
            proof {
                lemma_digits_value_prefix(body, i + 1 - start);
                assert(body.subrange(0, i + 1 - start) =~= next);
            }
            return None;
        }
        assert(value * 10 + d <= u64::MAX) by (nonlinear_arith)
            requires
                value <= (u64::MAX - d) / 10,
                d < 10,
        ;
        value = value * 10 + d;
        i = i + 1;
        assert(all_digits(next)) by {
            assert forall|j: int| 0 <= j < next.len() implies #[trigger] is_digit(next[j]) by {
                if j < pre.len() {
                    assert(next[j] == pre[j]);
                }
            }
        }
    }
    assert(chars@.subrange(start as int, n as int) =~= body);
    Some(value)
}


/// Rendering a number in decimal and reading it back gives the number:
/// the decimal text is non-empty, made of digits only, does not start with
/// `+`, and its value is `n`.
pub proof fn lemma_decimal_parses(n: u64)
    ensures
        decimal(n as nat).len() > 0,
        all_digits(decimal(n as nat)),
        decimal(n as nat)[0] != '+',
        digits_value(decimal(n as nat)) == n,
        parse_u64_spec(decimal(n as nat)) == Some(n),
{
    lemma_decimal_digits(n as nat);
}

/// The decimal rendering of `n` is a non-empty string of digits, starting
/// with a digit, whose value is `n`.
pub proof fn lemma_decimal_digits(n: nat)
    ensures
        decimal(n).len() > 0,
        all_digits(decimal(n)),
        is_digit(decimal(n)[0]),
        digits_value(decimal(n)) == n,
    decreases n,
{
    assert(digit_value(digit_char(n % 10)) == n % 10);
    if n < 10 {
        assert(decimal(n) =~= seq![digit_char(n)]);
        assert(seq![digit_char(n)].drop_last() =~= Seq::<char>::empty());
        assert(digits_value(decimal(n)) == digits_value(Seq::<char>::empty()) * 10 + digit_value(digit_char(n)));
    } else {
        lemma_decimal_digits(n / 10);
        let d = decimal(n);
        assert(d =~= decimal(n / 10).push(digit_char(n % 10)));
        assert(d.drop_last() =~= decimal(n / 10));
        assert(d.last() == digit_char(n % 10));
        assert(digits_value(d) == (n / 10) * 10 + n % 10);
        assert forall|i: int| 0 <= i < d.len() implies #[trigger] is_digit(d[i]) by {
            if i < d.len() - 1 {
                assert(d[i] == decimal(n / 10)[i]);
            }
        }
    }
}

/// Whether `s` begins with `p`.
pub fn chars_start_with(s: &Vec<char>, p: &Vec<char>) -> (r: bool)
    ensures
        r == seq_starts_with(s@, p@),
{
    if p.len() > s.len() {
        return false;
    }
    let mut i: usize = 0;
    while i < p.len()
        invariant
            p.len() <= s.len(),
            i <= p.len(),
            s@.subrange(0, i as int) == p@.subrange(0, i as int),
        decreases p.len() - i,
    {
        if s[i] != p[i] {
            assert(s@.subrange(0, p.len() as int)[i as int] != p@[i as int]);
            return false;
        }
        i = i + 1;
        assert(s@.subrange(0, i as int) =~= p@.subrange(0, i as int));
    }
    assert(p@.subrange(0, p.len() as int) =~= p@);
    true
}

fn chars_occur_at(s: &Vec<char>, p: &Vec<char>, at: usize) -> (r: bool)
    requires
        at + p.len() <= s.len(),
    ensures
        r == occurs_at(s@, p@, at as int),
{
    let mut i: usize = 0;
    while i < p.len()
        invariant
            at + p.len() <= s.len(),
            i <= p.len(),
            s@.subrange(at as int, at + i) == p@.subrange(0, i as int),
        decreases p.len() - i,
    {
        if s[at + i] != p[i] {
            assert(s@.subrange(at as int, at + p.len())[i as int] != p@[i as int]);
            return false;
        }
        i = i + 1;
        assert(s@.subrange(at as int, at + i) =~= p@.subrange(0, i as int));
    }
    assert(p@.subrange(0, p.len() as int) =~= p@);
    true
}

/// Whether `p` occurs somewhere in `s`.
pub fn chars_contain(s: &Vec<char>, p: &Vec<char>) -> (r: bool)
    ensures
        r == seq_contains(s@, p@),
{
    if p.len() > s.len() {
        return false;
    }
    let last = s.len() - p.len();
    let mut at: usize = 0;
    while at <= last
        invariant
            last == s.len() - p.len(),
            p.len() <= s.len(),
            at <= last,
            forall|j: int| 0 <= j < at ==> !occurs_at(s@, p@, j),
        ensures
            forall|j: int| 0 <= j <= last ==> !occurs_at(s@, p@, j),
        decreases last - at,
    {
        if chars_occur_at(s, p, at) {
            return true;
        }
        if at == last {
            break;
        }
        at = at + 1;
    }
    assert forall|j: int| !occurs_at(s@, p@, j) by {
        if 0 <= j && j + p.len() <= s.len() {
            assert(j <= last);
        }
    }
    false
}

/// Whether the text `s` begins with `p`, as `str::starts_with` answers.
pub fn str_starts_with(s: &str, p: &str) -> (r: bool)
    ensures
        r == seq_starts_with(s@, p@),
{
    let sc = to_chars(s);
    let pc = to_chars(p);
    chars_start_with(&sc, &pc)
}

/// Whether `p` occurs in the text `s`, as `str::contains` answers.
pub fn str_contains(s: &str, p: &str) -> (r: bool)
    ensures
        r == seq_contains(s@, p@),
{
    let sc = to_chars(s);
    let pc = to_chars(p);
    chars_contain(&sc, &pc)
}


/// Lexicographic order on character sequences, comparing code points, with
/// a proper prefix before the longer sequence. On texts this is the order of
/// their UTF-8 bytes, the order in which `str` compares; `Path` compares
/// component by component, so this is also its order on single file names
/// (and on paths in one directory), not on paths in general.
pub open spec fn seq_le(a: Seq<char>, b: Seq<char>) -> bool
    decreases a.len(),
{
    if a.len() == 0 {
        true
    } else if b.len() == 0 {
        false
    } else if a[0] != b[0] {
        (a[0] as int) < (b[0] as int)
    } else {
        seq_le(a.drop_first(), b.drop_first())
    }
}

/// `seq_le` is a total order.
pub proof fn lemma_seq_le_total_order()
    ensures
        vstd::relations::total_ordering(|a: Seq<char>, b: Seq<char>| seq_le(a, b)),
{
    let r = |a: Seq<char>, b: Seq<char>| seq_le(a, b);
    assert forall|x: Seq<char>| #[trigger] r(x, x) by {
        lemma_seq_le_reflexive(x);
    }
    assert forall|x: Seq<char>, y: Seq<char>| #[trigger] r(x, y) && #[trigger] r(y, x) implies x
        == y by {
        lemma_seq_le_antisymmetric(x, y);
    }
    assert forall|x: Seq<char>, y: Seq<char>, z: Seq<char>| #[trigger] r(x, y) && #[trigger] r(
        y,
        z,
    ) implies r(x, z) by {
        lemma_seq_le_transitive(x, y, z);
    }
    assert forall|x: Seq<char>, y: Seq<char>| #[trigger] r(x, y) || #[trigger] r(y, x) by {
        lemma_seq_le_connected(x, y);
    }
}

/// Every text comes before or equals itself.
pub proof fn lemma_seq_le_reflexive(a: Seq<char>)
    ensures
        seq_le(a, a),
    decreases a.len(),
{
    if a.len() > 0 {
        lemma_seq_le_reflexive(a.drop_first());
    }
}

proof fn lemma_seq_le_antisymmetric(a: Seq<char>, b: Seq<char>)
    requires
        seq_le(a, b),
        seq_le(b, a),
    ensures
        a == b,
    decreases a.len(),
{
    if a.len() > 0 && b.len() > 0 {
        assert(a[0] == b[0]);
        assert(seq_le(a.drop_first(), b.drop_first()));
        assert(seq_le(b.drop_first(), a.drop_first()));
        lemma_seq_le_antisymmetric(a.drop_first(), b.drop_first());
        assert(a =~= seq![a[0]] + a.drop_first());
        assert(b =~= seq![b[0]] + b.drop_first());
    } else {
        assert(a =~= b);
    }
}

proof fn lemma_seq_le_transitive(a: Seq<char>, b: Seq<char>, c: Seq<char>)
    requires
        seq_le(a, b),
        seq_le(b, c),
    ensures
        seq_le(a, c),
    decreases a.len(),
{
    if a.len() > 0 && b.len() > 0 && c.len() > 0 {
        if a[0] == b[0] && b[0] == c[0] {
            lemma_seq_le_transitive(a.drop_first(), b.drop_first(), c.drop_first());
        }
    }
}

proof fn lemma_seq_le_connected(a: Seq<char>, b: Seq<char>)
    ensures
        seq_le(a, b) || seq_le(b, a),
    decreases a.len(),
{
    if a.len() > 0 && b.len() > 0 && a[0] == b[0] {
        lemma_seq_le_connected(a.drop_first(), b.drop_first());
    }
}

/// Whether `a` comes before `b` or equals it, comparing as `str` does.
pub fn chars_le(a: &Vec<char>, b: &Vec<char>) -> (r: bool)
    ensures
        r == seq_le(a@, b@),
{
    let mut i: usize = 0;
    assert(a@.skip(0) =~= a@);
    assert(b@.skip(0) =~= b@);
    while i < a.len() && i < b.len()
        invariant
            i <= a.len(),
            i <= b.len(),
            seq_le(a@, b@) == seq_le(a@.skip(i as int), b@.skip(i as int)),
        decreases a.len() - i,
    {
        let ghost sa = a@.skip(i as int);
        let ghost sb = b@.skip(i as int);
        assert(sa[0] == a@[i as int]);
        assert(sb[0] == b@[i as int]);
        if a[i] != b[i] {
            return a[i] < b[i];
        }
        assert(sa.drop_first() =~= a@.skip(i + 1));
        assert(sb.drop_first() =~= b@.skip(i + 1));
        i = i + 1;
    }
    assert(a@.skip(i as int).len() == a.len() - i);
    assert(b@.skip(i as int).len() == b.len() - i);
    i == a.len()
}

/// Whether the text `a` comes before `b` or equals it.
pub fn str_le(a: &str, b: &str) -> (r: bool)
    ensures
        r == seq_le(a@, b@),
{
    let ac = to_chars(a);
    let bc = to_chars(b);
    chars_le(&ac, &bc)
}


/// The text of an optional string.
pub open spec fn opt_text(o: Option<String>) -> Option<Seq<char>> {
    match o {
        Some(s) => Some(s@),
        None => None,
    }
}

/// The text after the first `c` in `s`; `None` when `c` does not occur.
pub open spec fn after_first(s: Seq<char>, c: char) -> Option<Seq<char>>
    decreases s.len(),
{
    if s.len() == 0 {
        None
    } else if s[0] == c {
        Some(s.drop_first())
    } else {
        after_first(s.drop_first(), c)
    }
}

/// The text of `s` before its first `c`, or all of `s`.
pub open spec fn take_until(s: Seq<char>, c: char) -> Seq<char>
    decreases s.len(),
{
    if s.len() == 0 {
        s
    } else if s[0] == c {
        Seq::empty()
    } else {
        seq![s[0]] + take_until(s.drop_first(), c)
    }
}

/// Text without `c` in front of `q` does not change what follows the
/// first `c`.
pub proof fn lemma_after_first_append(p: Seq<char>, q: Seq<char>, c: char)
    requires
        forall|i: int| 0 <= i < p.len() ==> p[i] != c,
    ensures
        after_first(p + q, c) == after_first(q, c),
    decreases p.len(),
{
    if p.len() > 0 {
        assert((p + q).drop_first() =~= p.drop_first() + q);
        assert((p + q)[0] == p[0]);
        lemma_after_first_append(p.drop_first(), q, c);
    } else {
        assert(p + q =~= q);
    }
}

/// The text before the first `c` of `p + q`, where `p` holds no `c` and `q`
/// is empty or starts with `c`, is `p`.
pub proof fn lemma_take_until_append(p: Seq<char>, q: Seq<char>, c: char)
    requires
        forall|i: int| 0 <= i < p.len() ==> p[i] != c,
        q.len() == 0 || q[0] == c,
    ensures
        take_until(p + q, c) == p,
    decreases p.len(),
{
    if p.len() > 0 {
        assert((p + q).drop_first() =~= p.drop_first() + q);
        assert((p + q)[0] == p[0]);
        lemma_take_until_append(p.drop_first(), q, c);
        assert(seq![p[0]] + p.drop_first() =~= p);
    } else {
        assert(p + q =~= q);
    }
}


/// Whether `c` is a space or a tab.
pub open spec fn is_blank(c: char) -> bool {
    c == ' ' || c == '\t'
}

/// `s` without its leading spaces and tabs.
pub open spec fn trim_start(s: Seq<char>) -> Seq<char>
    decreases s.len(),
{
    if s.len() > 0 && is_blank(s[0]) {
        trim_start(s.drop_first())
    } else {
        s
    }
}

/// `s` without its trailing spaces and tabs.
pub open spec fn trim_end(s: Seq<char>) -> Seq<char>
    decreases s.len(),
{
    if s.len() > 0 && is_blank(s.last()) {
        trim_end(s.drop_last())
    } else {
        s
    }
}

/// `s` without its leading and trailing spaces and tabs.
pub open spec fn trim(s: Seq<char>) -> Seq<char> {
    trim_end(trim_start(s))
}

/// Whether `c` is `p` or, when `c` is an ASCII capital, its lower-case
/// letter is `p`.
pub open spec fn same_ignoring_case(c: char, p: char) -> bool {
    c == p || ('A' <= c && c <= 'Z' && (c as int) + 32 == (p as int))
}

/// Whether `t` starts with `p` when ASCII capitals of `t` are read as
/// lower-case letters (`p` is written in lower case).
pub open spec fn starts_with_ignoring_case(t: Seq<char>, p: Seq<char>) -> bool {
    p.len() <= t.len() && forall|i: int| 0 <= i < p.len() ==> #[trigger] same_ignoring_case(t[i], p[i])
}

/// The bounds of `s[from..to]` without its leading and trailing spaces and
/// tabs.
pub fn trim_bounds(s: &Vec<char>, from: usize, to: usize) -> (r: (usize, usize))
    requires
        from <= to <= s.len(),
    ensures
        from <= r.0 <= r.1 <= to,
        s@.subrange(r.0 as int, r.1 as int) == trim(s@.subrange(from as int, to as int)),
{
    let mut a = from;
    while a < to && (s[a] == ' ' || s[a] == '\t')
        invariant
            from <= a <= to <= s.len(),
            trim_start(s@.subrange(from as int, to as int)) == trim_start(s@.subrange(a as int, to as int)),
        decreases to - a,
    {
        assert(s@.subrange(a as int, to as int).drop_first() =~= s@.subrange(a + 1, to as int));
        a = a + 1;
    }
    assert(trim_start(s@.subrange(a as int, to as int)) == s@.subrange(a as int, to as int));
    let mut b = to;
    while b > a && (s[b - 1] == ' ' || s[b - 1] == '\t')
        invariant
            from <= a <= b <= to <= s.len(),
            trim_end(s@.subrange(a as int, to as int)) == trim_end(s@.subrange(a as int, b as int)),
        decreases b,
    {
        assert(s@.subrange(a as int, b as int).drop_last() =~= s@.subrange(a as int, b - 1));
        b = b - 1;
    }
    assert(trim_end(s@.subrange(a as int, b as int)) == s@.subrange(a as int, b as int));
    (a, b)
}

/// Whether `s[from..to]` starts with `p`, ignoring the case of ASCII
/// capitals in `s` (`p` is written in lower case).
pub fn starts_with_at_ignoring_case(s: &Vec<char>, from: usize, to: usize, p: &Vec<char>) -> (r: bool)
    requires
        from <= to <= s.len(),
    ensures
        r == starts_with_ignoring_case(s@.subrange(from as int, to as int), p@),
{
    let ghost t = s@.subrange(from as int, to as int);
    if p.len() > to - from {
        return false;
    }
    let mut i: usize = 0;
    while i < p.len()
        invariant
            from <= to <= s.len(),
            p.len() <= to - from,
            t == s@.subrange(from as int, to as int),
            i <= p.len(),
            forall|k: int| 0 <= k < i ==> #[trigger] same_ignoring_case(t[k], p@[k]),
        decreases p.len() - i,
    {
        let c = s[from + i];
        let q = p[i];
        assert(t[i as int] == c);
        let same = c == q || ('A' <= c && c <= 'Z' && 'a' <= q && q <= 'z' && (c as u32) + 32
            == (q as u32));
        assert(same == same_ignoring_case(t[i as int], p@[i as int]));
        if !same {
            assert(!same_ignoring_case(t[i as int], p@[i as int]));
            return false;
        }
        i = i + 1;
    }
    true
}


/// What follows the first `c` is shorter than the whole text.
pub proof fn lemma_after_first_shorter(s: Seq<char>, c: char)
    ensures
        after_first(s, c) matches Some(r) ==> r.len() < s.len(),
    decreases s.len(),
{
    if s.len() > 0 && s[0] != c {
        lemma_after_first_shorter(s.drop_first(), c);
    }
}


/// A common prefix does not change how two texts compare.
pub proof fn lemma_seq_le_common_prefix(p: Seq<char>, x: Seq<char>, y: Seq<char>)
    ensures
        seq_le(p + x, p + y) == seq_le(x, y),
    decreases p.len(),
{
    if p.len() > 0 {
        assert((p + x)[0] == p[0]);
        assert((p + y)[0] == p[0]);
        assert((p + x).drop_first() =~= p.drop_first() + x);
        assert((p + y).drop_first() =~= p.drop_first() + y);
        lemma_seq_le_common_prefix(p.drop_first(), x, y);
    } else {
        assert(p + x =~= x);
        assert(p + y =~= y);
    }
}

/// The text after the last `/` of `path`.
pub open spec fn after_last_slash(path: Seq<char>) -> Seq<char>
    decreases path.len(),
{
    if path.len() == 0 {
        path
    } else if path.last() == '/' {
        Seq::empty()
    } else {
        after_last_slash(path.drop_last()).push(path.last())
    }
}

/// Whether `s` holds no `c`.
pub open spec fn lacks(s: Seq<char>, c: char) -> bool {
    forall|i: int| 0 <= i < s.len() ==> s[i] != c
}

/// The position of the last `c` in `s`, if any.
pub open spec fn last_index_of(s: Seq<char>, c: char) -> Option<int>
    decreases s.len(),
{
    if s.len() == 0 {
        None
    } else if s.last() == c {
        Some(s.len() - 1)
    } else {
        last_index_of(s.drop_last(), c)
    }
}

/// The last `c` of `p + c + q`, where `q` holds no `c`, is the one after `p`.
pub proof fn lemma_last_index_of_append(p: Seq<char>, c: char, q: Seq<char>)
    requires
        lacks(q, c),
    ensures
        last_index_of(p + seq![c] + q, c) == Some(p.len() as int),
    decreases q.len(),
{
    let s = p + seq![c] + q;
    if q.len() == 0 {
        assert(s.last() == c);
        assert(s.len() == p.len() + 1);
    } else {
        assert(s.last() == q.last());
        assert(s.drop_last() =~= p + seq![c] + q.drop_last());
        lemma_last_index_of_append(p, c, q.drop_last());
    }
}

/// Text that holds no `/`, after text that is empty or ends with `/`, is
/// what follows the last `/`.
pub proof fn lemma_after_last_slash_append(d: Seq<char>, g: Seq<char>)
    requires
        d.len() == 0 || d.last() == '/',
        lacks(g, '/'),
    ensures
        after_last_slash(d + g) == g,
    decreases g.len(),
{
    if g.len() == 0 {
        assert(d + g =~= d);
        if d.len() == 0 {
            assert(d =~= g);
        }
    } else {
        assert((d + g).last() == g.last());
        assert((d + g).drop_last() =~= d + g.drop_last());
        lemma_after_last_slash_append(d, g.drop_last());
        assert(g.drop_last().push(g.last()) =~= g);
    }
}

/// A text is what comes up to and including its last `/`, followed by the
/// text after it, which holds no `/`.
pub proof fn lemma_after_last_slash_split(p: Seq<char>)
    ensures
        after_last_slash(p).len() <= p.len(),
        p == p.subrange(0, p.len() - after_last_slash(p).len()) + after_last_slash(p),
        lacks(after_last_slash(p), '/'),
        p.len() - after_last_slash(p).len() == 0 || p[p.len() - after_last_slash(p).len() - 1]
            == '/',
    decreases p.len(),
{
    if p.len() > 0 && p.last() != '/' {
        lemma_after_last_slash_split(p.drop_last());
        let a = after_last_slash(p.drop_last());
        assert(after_last_slash(p) == a.push(p.last()));
        let q = p.drop_last();
        let m = q.len() - a.len();
        assert(q.subrange(0, m) =~= p.subrange(0, m));
        assert(p =~= q.push(p.last()));
        assert(q.push(p.last()) =~= q.subrange(0, m) + a.push(p.last()));
        assert(p =~= p.subrange(0, p.len() - a.len() - 1) + a.push(p.last()));
        assert forall|i: int| 0 <= i < a.len() + 1 implies a.push(p.last())[i] != '/' by {
            if i < a.len() {
                assert(a.push(p.last())[i] == a[i]);
            }
        }
    } else if p.len() > 0 {
        assert(p.subrange(0, p.len() as int) =~= p);
    } else {
        assert(p.subrange(0, 0) + p =~= p);
    }
}

/// A text that neither starts nor ends with a space or a tab is its own
/// trimmed form.
pub proof fn lemma_trim_unchanged(s: Seq<char>)
    requires
        s.len() > 0,
        !is_blank(s[0]),
        !is_blank(s.last()),
    ensures
        trim(s) == s,
{
}

} // verus!
