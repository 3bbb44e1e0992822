//! Small string helpers shared by the lexer, the evaluator and the
//! directives: character classification, decimal formatting and parsing,
//! and conversions between `&str`, `String` and `Vec<char>`.

use vstd::prelude::*;

verus! {

/// The whitespace characters that separate arguments inside an
/// expression: the six ASCII blanks. The class is deliberately narrow —
/// a Unicode space such as a no-break space is ordinary text and does
/// not split arguments.
pub open spec fn spec_is_space(c: char) -> bool {
    c == ' ' || c == '\t' || c == '\n' || c == '\r' || c == '\u{b}' || c == '\u{c}'
}

/// Exec mirror of [`spec_is_space`].
pub fn is_space(c: char) -> (r: bool)
    ensures
        r == spec_is_space(c),
{
    c == ' ' || c == '\t' || c == '\n' || c == '\r' || c == '\u{b}' || c == '\u{c}'
}

/// True when every character of `s` is whitespace.
pub open spec fn spec_all_space(s: Seq<char>) -> bool {
    forall|i: int| 0 <= i < s.len() ==> spec_is_space(#[trigger] s[i])
}

/// True when `s` is non-empty and every character is whitespace.
pub fn str_is_whitespace(s: &str) -> (r: bool)
    ensures
        r == (s@.len() > 0 && spec_all_space(s@)),
{
    let n = s.unicode_len();
    if n == 0 {
        return false;
    }
    let mut i: usize = 0;
    while i < n
        invariant
            0 <= i <= n,
            n == s@.len(),
            forall|j: int| 0 <= j < i ==> spec_is_space(#[trigger] s@[j]),
        decreases n - i,
    {
        if !is_space(s.get_char(i)) {
            return false;
        }
        i += 1;
    }
    true
}

/// The characters of `s`, one element per `char`.
pub fn str_chars(s: &str) -> (v: Vec<char>)
    ensures
        v@ == s@,
{
    let n = s.unicode_len();
    let mut v: Vec<char> = Vec::new();
    let mut i: usize = 0;
    while i < n
        invariant
            0 <= i <= n,
            n == s@.len(),
            v@ == s@.subrange(0, i as int),
        decreases n - i,
    {
        v.push(s.get_char(i));
        i += 1;
        proof {
            assert(v@ =~= s@.subrange(0, i as int));
        }
    }
    proof {
        assert(v@ =~= s@);
    }
    v
}

/// Relies on `String::push`: appends one character to the string.
#[verifier::external_body]
pub fn push_char(s: &mut String, c: char)
    ensures
        final(s)@ == old(s)@.push(c),
{
    s.push(c);
}

/// A `String` holding exactly the characters `v[from..to]`.
pub fn chars_range_to_string(v: &Vec<char>, from: usize, to: usize) -> (s: String)
    requires
        from <= to <= v@.len(),
    ensures
        s@ == v@.subrange(from as int, to as int),
{
    let mut s = String::new();
    let mut i: usize = from;
    while i < to
        invariant
            from <= i <= to <= v@.len(),
            s@ == v@.subrange(from as int, i as int),
        decreases to - i,
    {
        push_char(&mut s, v[i]);
        i += 1;
        proof {
            assert(s@ =~= v@.subrange(from as int, i as int));
        }
    }
    s
}

/// The decimal digit `d` as a character; `'0'` for values past 9,
/// which [`spec_dec_digits`] never asks for.
pub open spec fn spec_digit_char(d: nat) -> char {
    if d == 0 {
        '0'
    } else if d == 1 {
        '1'
    } else if d == 2 {
        '2'
    } else if d == 3 {
        '3'
    } else if d == 4 {
        '4'
    } else if d == 5 {
        '5'
    } else if d == 6 {
        '6'
    } else if d == 7 {
        '7'
    } else if d == 8 {
        '8'
    } else if d == 9 {
        '9'
    } else {
        '0'
    }
}

/// The usual decimal rendering of `n`, most significant digit first.
pub open spec fn spec_dec_digits(n: nat) -> Seq<char>
    decreases n,
{
    if n < 10 {
        seq![spec_digit_char(n)]
    } else {
        spec_dec_digits(n / 10).push(spec_digit_char(n % 10))
    }
}

fn digit_char(d: u64) -> (c: char)
    requires
        d < 10,
    ensures
        c == spec_digit_char(d as nat),
{
    match d {
        0 => '0',
        1 => '1',
        2 => '2',
        3 => '3',
        4 => '4',
        5 => '5',
        6 => '6',
        7 => '7',
        8 => '8',
        _ => '9',
    }
}

/// `n` rendered in decimal.
pub fn u64_to_dec(n: u64) -> (r: String)
    ensures
        r@ == spec_dec_digits(n as nat),
    decreases n,
{
    if n < 10 {
        let mut s = String::new();
        push_char(&mut s, digit_char(n));
        proof {
            assert(s@ =~= spec_dec_digits(n as nat));
        }
        s
    } else {
        let mut s = u64_to_dec(n / 10);
        push_char(&mut s, digit_char(n % 10));
        s
    }
}

/// Whether `c` is a lowercase hexadecimal digit.
pub open spec fn spec_is_hex(c: char) -> bool {
    ('0' <= c && c <= '9') || ('a' <= c && c <= 'f')
}

fn hex_digit_char(d: u128) -> (c: char)
    requires
        d < 16,
    ensures
        spec_is_hex(c),
{
    match d {
        0 => '0',
        1 => '1',
        2 => '2',
        3 => '3',
        4 => '4',
        5 => '5',
        6 => '6',
        7 => '7',
        8 => '8',
        9 => '9',
        10 => 'a',
        11 => 'b',
        12 => 'c',
        13 => 'd',
        14 => 'e',
        _ => 'f',
    }
}

/// `n` rendered as exactly 32 lowercase hexadecimal digits.
pub fn u128_to_hex32(n: u128) -> (r: String)
    ensures
        r@.len() == 32,
        forall|i: int| 0 <= i < r@.len() ==> spec_is_hex(#[trigger] r@[i]),
{
    let mut r = String::new();
    let mut x = n;
    let mut k: usize = 0;
    while k < 32
        invariant
            0 <= k <= 32,
            r@.len() == k,
            forall|i: int| 0 <= i < r@.len() ==> spec_is_hex(#[trigger] r@[i]),
        decreases 32 - k,
    {
        push_char(&mut r, hex_digit_char(x % 16));
        x = x / 16;
        k += 1;
    }
    r
}

/// Whether `c` is an ASCII decimal digit.
pub open spec fn spec_is_digit(c: char) -> bool {
    '0' <= c && c <= '9'
}

/// Exec mirror of [`spec_is_digit`].
pub fn is_digit(c: char) -> (r: bool)
    ensures
        r == spec_is_digit(c),
{
    '0' <= c && c <= '9'
}

/// The numeric value of the digit `c`; meaningful only under [`spec_is_digit`].
pub open spec fn spec_digit_value(c: char) -> nat {
    (c as nat - '0' as nat) as nat
}

/// The value of the digit string `s` (most significant first), unbounded.
pub open spec fn spec_dec_value(s: Seq<char>) -> nat
    decreases s.len(),
{
    if s.len() == 0 {
        0
    } else {
        spec_dec_value(s.drop_last()) * 10 + spec_digit_value(s.last())
    }
}

/// True when `s` is one or more ASCII digits.
pub open spec fn spec_all_digits(s: Seq<char>) -> bool {
    s.len() > 0 && forall|i: int| 0 <= i < s.len() ==> spec_is_digit(#[trigger] s[i])
}

/// How Rust's `u16` parsing reads `s`: an optional leading `+`, then one
/// or more digits, valid when the value fits.
pub open spec fn spec_parse_u16(s: Seq<char>) -> Option<u16> {
    let body = if s.len() > 0 && s[0] == '+' {
        s.drop_first()
    } else {
        s
    };
    if spec_all_digits(body) && spec_dec_value(body) <= 65535 {
        Some(spec_dec_value(body) as u16)
    } else {
        None
    }
}

proof fn lemma_dec_value_leading_zero(t: Seq<char>)
    ensures
        spec_dec_value(seq!['0'] + t) == spec_dec_value(t),
    decreases t.len(),
{
    if t.len() == 0 {
        assert(seq!['0'] + t =~= seq!['0']);
        assert(seq!['0'].drop_last() =~= Seq::<char>::empty());
        assert(seq!['0'].last() == '0');
        assert(spec_dec_value(Seq::<char>::empty()) == 0);
        assert(spec_dec_value(seq!['0']) == spec_dec_value(seq!['0'].drop_last()) * 10
            + spec_digit_value(seq!['0'].last()));
        assert(spec_digit_value('0') == (('0' as nat) - ('0' as nat)) as nat);
        assert(spec_dec_value(seq!['0']) == 0);
    } else {
        assert((seq!['0'] + t).drop_last() =~= seq!['0'] + t.drop_last());
        assert((seq!['0'] + t).last() == t.last());
        lemma_dec_value_leading_zero(t.drop_last());
    }
}

/// Ten to the `n`.
pub open spec fn spec_pow10(n: nat) -> nat
    decreases n,
{
    if n == 0 {
        1
    } else {
        10 * spec_pow10((n - 1) as nat)
    }
}

proof fn lemma_pow10_small()
    ensures
        spec_pow10(0) == 1,
        spec_pow10(1) == 10,
        spec_pow10(2) == 100,
        spec_pow10(3) == 1000,
        spec_pow10(4) == 10000,
        spec_pow10(5) == 100000,
{
    assert(spec_pow10(0) == 1);
    assert(spec_pow10(1) == 10);
    assert(spec_pow10(2) == 100);
    assert(spec_pow10(3) == 1000);
    assert(spec_pow10(4) == 10000);
    assert(spec_pow10(5) == 100000);
}

proof fn lemma_dec_value_bound(s: Seq<char>, p: nat)
    requires
        forall|i: int| 0 <= i < s.len() ==> spec_is_digit(#[trigger] s[i]),
        s.len() <= p,
    ensures
        spec_dec_value(s) < spec_pow10(p),
    decreases s.len(), p,
{
    if s.len() == 0 {
        lemma_pow10_pos(p);
    } else {
        lemma_dec_value_bound(s.drop_last(), (p - 1) as nat);
        assert(spec_digit_value(s.last()) <= 9);
    }
}

proof fn lemma_pow10_pos(p: nat)
    ensures
        spec_pow10(p) >= 1,
    decreases p,
{
    if p > 0 {
        lemma_pow10_pos((p - 1) as nat);
    }
}

/// Parse `s` as Rust's `u16` parsing would.
pub fn parse_u16(s: &str) -> (r: Option<u16>)
    ensures
        r == spec_parse_u16(s@),
{
    let n = s.unicode_len();
    let start: usize = if n > 0 && s.get_char(0) == '+' {
        1
    } else {
        0
    };
    proof {
        if start == 1 {
            assert(s@.drop_first() =~= s@.subrange(1, n as int));
        } else {
            assert(s@ =~= s@.subrange(0, n as int));
        }
    }
    let ghost body = s@.subrange(start as int, n as int);
    proof {
        if s@.len() > 0 && s@[0] == '+' {
            assert(start == 1);
            assert(body =~= s@.drop_first());
        } else {
            assert(start == 0);
            assert(body =~= s@);
        }
    }
    if start >= n {
        return None;
    }
    let mut i: usize = start;
    while i < n
        invariant
            start <= i <= n,
            n == s@.len(),
            body == s@.subrange(start as int, n as int),
            if s@.len() > 0 && s@[0] == '+' {
                start == 1
            } else {
                start == 0
            },
            forall|j: int| start <= j < i ==> spec_is_digit(#[trigger] s@[j]),
        decreases n - i,
    {
        if !is_digit(s.get_char(i)) {
            proof {
                assert(body[i - start as int] == s@[i as int]);
                assert(!spec_all_digits(body));
                if s@.len() > 0 && s@[0] == '+' {
                    assert(body =~= s@.drop_first());
                } else {
                    assert(body =~= s@);
                }
            }
            return None;
        }
        i += 1;
    }
    let mut z: usize = start;
    while z < n && s.get_char(z) == '0'
        invariant
            start <= z <= n,
            n == s@.len(),
            forall|j: int| start <= j < z ==> s@[j] == '0',
        decreases n - z,
    {
        z += 1;
    }
    let ghost eff = s@.subrange(z as int, n as int);
    proof {
        lemma_strip_zeros(s@, start as int, z as int, n as int);
    }
    if n - z > 5 {
        proof {
            lemma_dec_value_suffix_ge(eff);
        }
        return None;
    }
    let mut value: u32 = 0;
    let mut k: usize = z;
    while k < n
        invariant
            z <= k <= n,
            n == s@.len(),
            n - z <= 5,
            eff == s@.subrange(z as int, n as int),
            forall|j: int| z <= j < n ==> spec_is_digit(#[trigger] s@[j]),
            value == spec_dec_value(eff.subrange(0, k - z as int)),
            value < 100000,
        decreases n - k,
    {
        proof {
            assert(eff.subrange(0, k - z + 1int).drop_last() =~= eff.subrange(0, k - z as int));
            assert(eff.subrange(0, k - z + 1int).last() == s@[k as int]);
            assert(spec_all_digits(eff.subrange(0, k - z + 1int)));
            lemma_dec_value_bound(eff.subrange(0, k - z + 1int), 5);
            lemma_pow10_small();
        }
        let c = s.get_char(k);
        let d: u32 = (c as u32) - ('0' as u32);
        value = value * 10 + d;
        k += 1;
    }
    proof {
        assert(eff.subrange(0, n - z as int) =~= eff);
    }
    if value <= 65535 {
        Some(value as u16)
    } else {
        None
    }
}

/// Dropping leading zeros keeps the numeric value.
proof fn lemma_strip_zeros(s: Seq<char>, start: int, z: int, n: int)
    requires
        0 <= start <= z <= n <= s.len(),
        forall|j: int| start <= j < z ==> s[j] == '0',
    ensures
        spec_dec_value(s.subrange(start, n)) == spec_dec_value(s.subrange(z, n)),
    decreases z - start,
{
    if z > start {
        assert(s.subrange(start, n) =~= seq!['0'] + s.subrange(start + 1, n));
        lemma_dec_value_leading_zero(s.subrange(start + 1, n));
        lemma_strip_zeros(s, start + 1, z, n);
    }
}

/// A digit string is worth at least its 5-digit prefix scaled.
proof fn lemma_dec_value_suffix_ge(s: Seq<char>)
    requires
        spec_all_digits(s),
        s.len() > 5,
        s[0] != '0',
    ensures
        spec_dec_value(s) > 65535,
    decreases s.len(),
{
    if s.len() == 6 {
        lemma_dec_value_ge_lead(s);
        lemma_pow10_small();
    } else {
        lemma_dec_value_suffix_ge(s.drop_last());
        assert(spec_dec_value(s) == spec_dec_value(s.drop_last()) * 10 + spec_digit_value(
            s.last(),
        ));
    }
}

/// A digit string with a nonzero lead is at least `10^(len-1)`.
proof fn lemma_dec_value_ge_lead(s: Seq<char>)
    requires
        spec_all_digits(s),
        s.len() >= 1,
        s[0] != '0',
    ensures
        spec_dec_value(s) >= spec_pow10((s.len() - 1) as nat),
    decreases s.len(),
{
    if s.len() == 1 {
        assert(spec_digit_value(s[0]) >= 1);
    } else {
        lemma_dec_value_ge_lead(s.drop_last());
        lemma_pow10_pos((s.len() - 2) as nat);
        assert(spec_dec_value(s) == spec_dec_value(s.drop_last()) * 10 + spec_digit_value(
            s.last(),
        ));
    }
}

/// The position of the first occurrence of `c` in `s`, if any.
pub open spec fn spec_find_first(s: Seq<char>, c: char) -> Option<int>
    decreases s.len(),
{
    if s.len() == 0 {
        None
    } else if s[0] == c {
        Some(0)
    } else {
        match spec_find_first(s.drop_first(), c) {
            Some(i) => Some(i + 1),
            None => None,
        }
    }
}

/// `s` split at every occurrence of `sep`: always at least one segment,
/// and empty segments kept.
pub open spec fn spec_split(s: Seq<char>, sep: char) -> Seq<Seq<char>>
    decreases s.len(),
{
    match spec_find_first(s, sep) {
        None => seq![s],
        Some(i) => if 0 <= i < s.len() {
            seq![s.subrange(0, i)] + spec_split(s.subrange(i + 1, s.len() as int), sep)
        } else {
            seq![s]
        },
    }
}

/// The segments joined with `sep` between each pair.
pub open spec fn spec_join(parts: Seq<Seq<char>>, sep: Seq<char>) -> Seq<char>
    decreases parts.len(),
{
    if parts.len() == 0 {
        Seq::<char>::empty()
    } else if parts.len() == 1 {
        parts[0]
    } else {
        spec_join(parts.drop_last(), sep) + sep + parts.last()
    }
}

/// The position of the first `c` in `s`, if any.
pub fn find_first(s: &str, c: char) -> (r: Option<usize>)
    ensures
        match r {
            Some(i) => (i as int) < s@.len() && spec_find_first(s@, c) == Some(i as int),
            None => spec_find_first(s@, c) is None,
        },
{
    let n = s.unicode_len();
    let mut i: usize = 0;
    while i < n
        invariant
            0 <= i <= n,
            n == s@.len(),
            forall|j: int| 0 <= j < i ==> s@[j] != c,
        decreases n - i,
    {
        if s.get_char(i) == c {
            proof {
                lemma_find_first_at(s@, c, i as int);
            }
            return Some(i);
        }
        i += 1;
    }
    proof {
        lemma_find_first_none(s@, c);
    }
    None
}

proof fn lemma_find_first_at(s: Seq<char>, c: char, i: int)
    requires
        0 <= i < s.len(),
        s[i] == c,
        forall|j: int| 0 <= j < i ==> s[j] != c,
    ensures
        spec_find_first(s, c) == Some(i),
    decreases i,
{
    if i > 0 {
        lemma_find_first_at(s.drop_first(), c, i - 1);
    }
}

proof fn lemma_find_first_none(s: Seq<char>, c: char)
    requires
        forall|j: int| 0 <= j < s.len() ==> s[j] != c,
    ensures
        spec_find_first(s, c) is None,
    decreases s.len(),
{
    if s.len() > 0 {
        lemma_find_first_none(s.drop_first(), c);
    }
}

/// Split `s` at every `sep`.
pub fn split_char(s: &str, sep: char) -> (r: Vec<String>)
    ensures
        r@.map_values(|p: String| p@) == spec_split(s@, sep),
    decreases s@.len(),
{
    let n = s.unicode_len();
    match find_first(s, sep) {
        None => {
            let mut r: Vec<String> = Vec::new();
            r.push(s.to_owned());
            proof {
                assert(r@.map_values(|p: String| p@) =~= spec_split(s@, sep));
            }
            r
        },
        Some(i) => {
            let head = s.substring_char(0, i).to_owned();
            let tail = s.substring_char(i + 1, n);
            let mut r = split_char(tail, sep);
            r.insert(0, head);
            proof {
                assert(r@.map_values(|p: String| p@) =~= spec_split(s@, sep));
            }
            r
        },
    }
}

/// Join the first `upto` segments of `parts` with `sep`.
pub fn join_prefix(parts: &Vec<String>, upto: usize, sep: &str) -> (r: String)
    requires
        upto <= parts@.len(),
    ensures
        r@ == spec_join(parts@.map_values(|p: String| p@).subrange(0, upto as int), sep@),
{
    let mut r = String::new();
    let mut i: usize = 0;
    while i < upto
        invariant
            0 <= i <= upto <= parts@.len(),
            r@ == spec_join(parts@.map_values(|p: String| p@).subrange(0, i as int), sep@),
        decreases upto - i,
    {
        if i > 0 {
            r.append(sep);
        }
        r.append(parts[i].as_str());
        proof {
            let m = parts@.map_values(|p: String| p@);
            assert(m.subrange(0, i + 1int).drop_last() =~= m.subrange(0, i as int));
            assert(m.subrange(0, i + 1int).last() == m[i as int]);
            if i == 0 {
                assert(Seq::<char>::empty() + m[0] =~= m[0]);
            }
        }
        i += 1;
    }
    r
}

} // verus!
