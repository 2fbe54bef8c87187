//! Character-level text utilities: ASCII decimal digits, whitespace trimming,
//! and conversions between strings and character vectors.

use vstd::prelude::*;

verus! {

/// An ASCII decimal digit.
pub open spec fn is_digit(c: char) -> bool {
    '0' <= c && c <= '9'
}

/// Numeric value of an ASCII digit character.
pub open spec fn digit_val(c: char) -> int {
    c as int - '0' as int
}

/// Every character of `s` is an ASCII decimal digit.
pub open spec fn all_digits(s: Seq<char>) -> bool {
    forall|i: int| 0 <= i < s.len() ==> is_digit(#[trigger] s[i])
}

/// The number denoted by a sequence of ASCII digits, most significant first.
pub open spec fn digits_value(s: Seq<char>) -> int
    decreases s.len(),
{
    if s.len() == 0 {
        0
    } else {
        digits_value(s.drop_last()) * 10 + digit_val(s.last())
    }
}

/// The digit character for a value in `0..=9`.
pub open spec fn digit_char(d: int) -> char {
    if d == 0 {
        '0'
    } else if d == 1 {
        '1'
    } else if d == 2 {
        '2'
    } else if d == 3 {
        '3'
    } else if d == 4 {
        '4'
    } else if d == 5 {
        '5'
    } else if d == 6 {
        '6'
    } else if d == 7 {
        '7'
    } else if d == 8 {
        '8'
    } else {
        '9'
    }
}

/// Shortest decimal rendering of a non-negative number (no leading zeros).
pub open spec fn nat_digits(n: int) -> Seq<char>
    decreases n,
{
    if n < 10 {
        seq![digit_char(n)]
    } else {
        nat_digits(n / 10).push(digit_char(n % 10))
    }
}

/// Two-digit zero-padded decimal rendering (for values up to 99).
pub open spec fn pad2(n: int) -> Seq<char> {
    seq![digit_char(n / 10), digit_char(n % 10)]
}

/// Four-digit zero-padded decimal rendering (for values up to 9999).
pub open spec fn pad4(n: int) -> Seq<char> {
    seq![
        digit_char(n / 1000),
        digit_char((n / 100) % 10),
        digit_char((n / 10) % 10),
        digit_char(n % 10),
    ]
}

/// The view of an optional string.
pub open spec fn view_opt(s: Option<String>) -> Option<Seq<char>> {
    match s {
        Some(v) => Some(v@),
        None => None,
    }
}

/// Whitespace, the characters removed when a body of text is trimmed: the
/// code points with the Unicode `White_Space` property, the set `str::trim`
/// removes.
pub open spec fn is_space(c: char) -> bool {
    ('\u{9}' <= c && c <= '\u{d}') || c == ' ' || c == '\u{85}' || c == '\u{a0}' || c == '\u{1680}'
        || ('\u{2000}' <= c && c <= '\u{200a}') || c == '\u{2028}' || c == '\u{2029}' || c
        == '\u{202f}' || c == '\u{205f}' || c == '\u{3000}'
}

/// Length of the longest all-whitespace prefix of `s`.
pub open spec fn ws_prefix_len(s: Seq<char>) -> int
    decreases s.len(),
{
    if s.len() == 0 || !is_space(s[0]) {
        0
    } else {
        1 + ws_prefix_len(s.drop_first())
    }
}

/// Length of the longest all-whitespace suffix of `s`.
pub open spec fn ws_suffix_len(s: Seq<char>) -> int
    decreases s.len(),
{
    if s.len() == 0 || !is_space(s.last()) {
        0
    } else {
        1 + ws_suffix_len(s.drop_last())
    }
}

/// `s` with leading and trailing whitespace removed.
pub open spec fn spec_trim(s: Seq<char>) -> Seq<char> {
    let a = ws_prefix_len(s);
    if a == s.len() {
        Seq::empty()
    } else {
        s.subrange(a, s.len() - ws_suffix_len(s))
    }
}

pub proof fn lemma_ws_prefix(s: Seq<char>)
    ensures
        0 <= ws_prefix_len(s) <= s.len(),
        forall|i: int| 0 <= i < ws_prefix_len(s) ==> is_space(#[trigger] s[i]),
        ws_prefix_len(s) < s.len() ==> !is_space(s[ws_prefix_len(s)]),
    decreases s.len(),
{
    if s.len() == 0 || !is_space(s[0]) {
    } else {
        let t = s.drop_first();
        lemma_ws_prefix(t);
        assert(ws_prefix_len(s) == 1 + ws_prefix_len(t));
        assert forall|i: int| 0 <= i < ws_prefix_len(s) implies is_space(#[trigger] s[i]) by {
            if i >= 1 {
                assert(s[i] == t[i - 1]);
            }
        }
        if ws_prefix_len(s) < s.len() {
            assert(s[ws_prefix_len(s)] == t[ws_prefix_len(t)]);
        }
    }
}

pub proof fn lemma_ws_suffix(s: Seq<char>)
    ensures
        0 <= ws_suffix_len(s) <= s.len(),
        forall|i: int| s.len() - ws_suffix_len(s) <= i < s.len() ==> is_space(#[trigger] s[i]),
        ws_suffix_len(s) < s.len() ==> !is_space(s[s.len() - ws_suffix_len(s) - 1]),
    decreases s.len(),
{
    if s.len() == 0 || !is_space(s.last()) {
    } else {
        lemma_ws_suffix(s.drop_last());
        let t = s.drop_last();
        assert forall|i: int| s.len() - ws_suffix_len(s) <= i < s.len() implies is_space(
            #[trigger] s[i],
        ) by {
            if i < s.len() - 1 {
                assert(s[i] == t[i]);
            }
        }
    }
}

/// Relies on `String::push` of std: appends the given character to the end
/// of the string.
#[verifier::external_body]
pub(crate) fn push_char(s: &mut String, c: char)
    ensures
        final(s)@ == old(s)@ + seq![c],
{
    s.push(c);
}

/// The characters of a string, as a vector.
pub fn str_to_chars(s: &str) -> (r: Vec<char>)
    ensures
        r@ == s@,
{
    let n: usize = s.unicode_len();
    let mut r: Vec<char> = Vec::new();
    let mut i: usize = 0;
    while i < n
        invariant
            i <= n,
            n == s@.len(),
            r@ == s@.subrange(0, i as int),
        decreases n - i,
    {
        r.push(s.get_char(i));
        i = i + 1;
        proof {
            assert(r@ =~= s@.subrange(0, i as int));
        }
    }
    proof {
        assert(r@ =~= s@);
    }
    r
}

/// Whether two string slices have equal character content.
pub fn str_eq(a: &str, b: &str) -> (r: bool)
    ensures
        r == (a@ == b@),
{
    let na: usize = a.unicode_len();
    let nb: usize = b.unicode_len();
    if na != nb {
        return false;
    }
    let mut i: usize = 0;
    while i < na
        invariant
            i <= na,
            na == a@.len(),
            na == b@.len(),
            forall|j: int| 0 <= j < i ==> a@[j] == b@[j],
        decreases na - i,
    {
        if a.get_char(i) != b.get_char(i) {
            return false;
        }
        i = i + 1;
    }
    proof {
        assert(a@ =~= b@);
    }
    true
}

/// The decimal digit `d` as a string slice.
pub fn digit_str(d: u64) -> (r: &'static str)
    requires
        d < 10,
    ensures
        r@ == seq![digit_char(d as int)],
{
    proof {
        reveal_strlit("0");
        reveal_strlit("1");
        reveal_strlit("2");
        reveal_strlit("3");
        reveal_strlit("4");
        reveal_strlit("5");
        reveal_strlit("6");
        reveal_strlit("7");
        reveal_strlit("8");
        reveal_strlit("9");
    }
    let r: &'static str = match d {
        0 => "0",
        1 => "1",
        2 => "2",
        3 => "3",
        4 => "4",
        5 => "5",
        6 => "6",
        7 => "7",
        8 => "8",
        _ => "9",
    };
    proof {
        assert(r@ =~= seq![digit_char(d as int)]);
    }
    r
}

/// Shortest decimal rendering of `n`.
pub fn u64_to_string(n: u64) -> (r: String)
    ensures
        r@ == nat_digits(n as int),
    decreases n,
{
    if n < 10 {
        digit_str(n).to_owned()
    } else {
        let mut s = u64_to_string(n / 10);
        s.append(digit_str(n % 10));
        proof {
            assert(s@ =~= nat_digits(n as int));
        }
        s
    }
}

/// Two-digit zero-padded rendering of `n`.
pub fn pad2_string(n: u32) -> (r: String)
    requires
        n <= 99,
    ensures
        r@ == pad2(n as int),
{
    let mut s = digit_str((n / 10) as u64).to_owned();
    s.append(digit_str((n % 10) as u64));
    proof {
        assert(s@ =~= pad2(n as int));
    }
    s
}

/// Four-digit zero-padded rendering of `n`.
pub fn pad4_string(n: u32) -> (r: String)
    requires
        n <= 9999,
    ensures
        r@ == pad4(n as int),
{
    let mut s = digit_str((n / 1000) as u64).to_owned();
    s.append(digit_str(((n / 100) % 10) as u64));
    s.append(digit_str(((n / 10) % 10) as u64));
    s.append(digit_str((n % 10) as u64));
    proof {
        assert(s@ =~= pad4(n as int));
    }
    s
}

/// The decimal rendering of `n` is a numeric token that denotes `n`: all
/// digits, at least one of them, no leading zero, and value `n`.
pub proof fn lemma_nat_digits(n: int)
    requires
        n >= 0,
    ensures
        nat_digits(n).len() >= 1,
        all_digits(nat_digits(n)),
        nat_digits(n).len() > 1 ==> nat_digits(n)[0] != '0',
        n >= 10 ==> nat_digits(n).len() > 1,
        digits_value(nat_digits(n)) == n,
    decreases n,
{
    if n < 10 {
        assert(nat_digits(n) == seq![digit_char(n)]);
        assert(nat_digits(n).drop_last() =~= Seq::<char>::empty());
        assert(digits_value(Seq::<char>::empty()) == 0);
        assert(digits_value(nat_digits(n)) == digit_val(digit_char(n)));
    } else {
        lemma_nat_digits(n / 10);
        let d = nat_digits(n);
        let p = nat_digits(n / 10);
        assert(d == p.push(digit_char(n % 10)));
        assert(d.drop_last() =~= p);
        assert(d.last() == digit_char(n % 10));
        assert(digits_value(d) == digits_value(p) * 10 + digit_val(digit_char(n % 10)));
        assert(digits_value(d) == (n / 10) * 10 + n % 10);
        assert(all_digits(d)) by {
            assert(forall|i: int| 0 <= i < d.len() - 1 ==> #[trigger] d[i] == p[i]);
        }
        assert(d[0] == p[0]);
        if p.len() == 1 {
            assert(p[0] == digit_char(n / 10));
            assert(n / 10 >= 1);
        }
    }
}

/// A two-digit rendering denotes its number.
pub proof fn lemma_pad2_value(n: int)
    requires
        0 <= n <= 99,
    ensures
        all_digits(pad2(n)),
        pad2(n).len() == 2,
        digits_value(pad2(n)) == n,
{
    let s = pad2(n);
    let s1 = s.drop_last();
    assert(s1 =~= seq![digit_char(n / 10)]);
    assert(s1.drop_last() =~= Seq::<char>::empty());
    assert(digits_value(Seq::<char>::empty()) == 0);
    assert(digits_value(s1) == digit_val(digit_char(n / 10)));
    assert(digits_value(s) == digits_value(s1) * 10 + digit_val(s.last()));
    assert(s.last() == digit_char(n % 10));
}

/// A four-digit rendering denotes its number.
pub proof fn lemma_pad4_value(n: int)
    requires
        0 <= n <= 9999,
    ensures
        all_digits(pad4(n)),
        pad4(n).len() == 4,
        digits_value(pad4(n)) == n,
{
    let s = pad4(n);
    let s1 = s.drop_last();
    let s2 = s1.drop_last();
    let s3 = s2.drop_last();
    assert(s1 =~= seq![
        digit_char(n / 1000),
        digit_char((n / 100) % 10),
        digit_char((n / 10) % 10),
    ]);
    assert(s2 =~= seq![digit_char(n / 1000), digit_char((n / 100) % 10)]);
    assert(s3 =~= seq![digit_char(n / 1000)]);
    assert(s3.drop_last() =~= Seq::<char>::empty());
    assert(digits_value(Seq::<char>::empty()) == 0);
    assert(digits_value(s3) == digits_value(s3.drop_last()) * 10 + digit_val(s3.last()));
    assert(digits_value(s3) == n / 1000);
    assert(digits_value(s2) == digits_value(s2.drop_last()) * 10 + digit_val(s2.last()));
    assert(s2.drop_last() =~= s3);
    assert(s2.last() == digit_char((n / 100) % 10));
    assert(digits_value(s2) == (n / 1000) * 10 + (n / 100) % 10);
    assert(digits_value(s1) == digits_value(s1.drop_last()) * 10 + digit_val(s1.last()));
    assert(s1.drop_last() =~= s2);
    assert(s1.last() == digit_char((n / 10) % 10));
    assert(digits_value(s) == digits_value(s1) * 10 + digit_val(s.last()));
    assert(s.last() == digit_char(n % 10));
    assert(digits_value(s) == (((n / 1000) * 10 + (n / 100) % 10) * 10 + (n / 10) % 10) * 10 + n
        % 10);
    assert((((n / 1000) * 10 + (n / 100) % 10) * 10 + (n / 10) % 10) * 10 + n % 10 == n) by (nonlinear_arith)
        requires
            0 <= n <= 9999,
    ;
}

/// Appending digits to a digit run never shrinks its value.
pub proof fn lemma_digits_value_nonneg(s: Seq<char>)
    requires
        all_digits(s),
    ensures
        digits_value(s) >= 0,
    decreases s.len(),
{
    if s.len() > 0 {
        assert(all_digits(s.drop_last())) by {
            assert(forall|i: int|
                0 <= i < s.len() - 1 ==> is_digit(#[trigger] s.drop_last()[i]) == is_digit(s[i]));
        }
        lemma_digits_value_nonneg(s.drop_last());
    }
}

/// The value of a digit-run prefix never exceeds the value of the whole run.
pub proof fn lemma_digits_value_prefix(s: Seq<char>, n: int)
    requires
        all_digits(s),
        0 <= n <= s.len(),
    ensures
        digits_value(s.subrange(0, n)) <= digits_value(s),
    decreases s.len() - n,
{
    if n == s.len() {
        assert(s.subrange(0, n) =~= s);
    } else {
        lemma_digits_value_prefix(s, n + 1);
        let p = s.subrange(0, n + 1);
        assert(p.drop_last() =~= s.subrange(0, n));
        assert(all_digits(p.drop_last()));
        lemma_digits_value_nonneg(p.drop_last());
        assert(digits_value(p) == digits_value(p.drop_last()) * 10 + digit_val(p.last()));
        assert(digits_value(p.drop_last()) * 10 >= digits_value(p.drop_last()));
    }
}

/// Ten to the power `n`.
pub open spec fn ten_pow(n: nat) -> int
    decreases n,
{
    if n == 0 {
        1
    } else {
        10 * ten_pow((n - 1) as nat)
    }
}

/// A digit run of length `n` denotes a value below ten to the `n`.
pub proof fn lemma_digits_value_bound(s: Seq<char>)
    requires
        all_digits(s),
    ensures
        0 <= digits_value(s) < ten_pow(s.len()),
    decreases s.len(),
{
    if s.len() == 0 {
    } else {
        let t = s.drop_last();
        assert(all_digits(t)) by {
            assert(forall|i: int| 0 <= i < t.len() ==> #[trigger] t[i] == s[i]);
        }
        lemma_digits_value_bound(t);
        assert(digits_value(t) * 10 <= (ten_pow(t.len()) - 1) * 10) by (nonlinear_arith)
            requires
                0 <= digits_value(t) <= ten_pow(t.len()) - 1,
        ;
    }
}

/// Reads the value of the ASCII digit run `chars[from..to]`, or `None` when
/// the value does not fit in a `u64`.
pub fn parse_digits_u64(chars: &Vec<char>, from: usize, to: usize) -> (r: Option<u64>)
    requires
        from <= to <= chars@.len(),
        all_digits(chars@.subrange(from as int, to as int)),
    ensures
        match r {
            Some(v) => v as int == digits_value(chars@.subrange(from as int, to as int)),
            None => digits_value(chars@.subrange(from as int, to as int)) > u64::MAX,
        },
{
    let ghost whole = chars@.subrange(from as int, to as int);
    let mut acc: u64 = 0;
    let mut i: usize = from;
    while i < to
        invariant
            from <= i <= to <= chars@.len(),
            all_digits(whole),
            whole == chars@.subrange(from as int, to as int),
            acc as int == digits_value(chars@.subrange(from as int, i as int)),
        decreases to - i,
    {
        let c = chars[i];
        proof {
            assert(whole[i - from] == c);
            assert(is_digit(c));
        }
        let d: u64 = (c as u32 as u64) - 48;
        if acc > (u64::MAX - d) / 10 {
            proof {
                let p = chars@.subrange(from as int, i as int + 1);
                assert(p.drop_last() =~= chars@.subrange(from as int, i as int));
                assert(all_digits(p)) by {
                    assert(forall|j: int|
                        0 <= j < p.len() ==> p[j] == whole[j] && is_digit(#[trigger] p[j]));
                }
                assert(digits_value(p) == acc * 10 + d);
                assert(acc * 10 + d > u64::MAX);
                assert(whole.subrange(0, i - from + 1) =~= p);
                lemma_digits_value_prefix(whole, i - from + 1);
            }
            return None;
        }
        proof {
            assert(acc <= (u64::MAX - d) / 10);
            assert(acc * 10 + d <= u64::MAX) by {
                assert(acc <= (u64::MAX - d) / 10 ==> acc * 10 <= u64::MAX - d) by (nonlinear_arith);
            }
            let p = chars@.subrange(from as int, i as int + 1);
            assert(p.drop_last() =~= chars@.subrange(from as int, i as int));
            assert(digits_value(p) == acc * 10 + d);
        }
        acc = acc * 10 + d;
        i = i + 1;
    }
    proof {
        assert(chars@.subrange(from as int, i as int) =~= whole);
    }
    Some(acc)
}

/// Trims whitespace from both ends of a string.
pub fn trim_str(s: &str) -> (r: String)
    ensures
        r@ == spec_trim(s@),
{
    let n: usize = s.unicode_len();
    proof {
        lemma_ws_prefix(s@);
        lemma_ws_suffix(s@);
    }
    let mut a: usize = 0;
    while a < n && is_space_char(s.get_char(a))
        invariant
            a <= n,
            n == s@.len(),
            forall|i: int| 0 <= i < a ==> is_space(#[trigger] s@[i]),
            ws_prefix_len(s@) >= a,
        decreases n - a,
    {
        proof {
            lemma_ws_prefix_step(s@, a as int);
        }
        a = a + 1;
    }
    proof {
        lemma_ws_prefix(s@);
        if a < n {
            assert(ws_prefix_len(s@) <= a) by {
                if ws_prefix_len(s@) > a {
                    assert(is_space(s@[a as int]));
                }
            }
        }
        assert(ws_prefix_len(s@) == a);
    }
    if a == n {
        proof {
            assert(spec_trim(s@) =~= Seq::<char>::empty());
        }
        return String::new();
    }
    let mut b: usize = n;
    while b > a && is_space_char(s.get_char(b - 1))
        invariant
            a <= b <= n,
            n == s@.len(),
            a == ws_prefix_len(s@),
            a < n,
            !is_space(s@[a as int]),
            forall|i: int| b <= i < n ==> is_space(#[trigger] s@[i]),
            ws_suffix_len(s@) >= n - b,
        decreases b,
    {
        proof {
            lemma_ws_suffix_step(s@, b as int - 1);
        }
        b = b - 1;
    }
    proof {
        lemma_ws_suffix(s@);
        if b > a {
            assert(ws_suffix_len(s@) <= n - b) by {
                if ws_suffix_len(s@) > n - b {
                    assert(is_space(s@[b as int - 1]));
                }
            }
        } else {
            assert(b == a);
            assert(ws_suffix_len(s@) <= n - b) by {
                if ws_suffix_len(s@) > n - a {
                    assert(is_space(s@[a as int]));
                }
            }
        }
        assert(ws_suffix_len(s@) == n - b);
    }
    let piece = s.substring_char(a, b);
    piece.to_owned()
}

/// Index of the first occurrence of `c` in `s` at or after `from`, or the
/// length of `s` when there is none.
pub open spec fn spec_find_char(s: Seq<char>, c: char, from: int) -> int
    decreases s.len() - from,
{
    if from < 0 || from >= s.len() {
        s.len() as int
    } else if s[from] == c {
        from
    } else {
        spec_find_char(s, c, from + 1)
    }
}

pub proof fn lemma_find_char(s: Seq<char>, c: char, from: int)
    requires
        0 <= from <= s.len(),
    ensures
        from <= spec_find_char(s, c, from) <= s.len(),
        forall|j: int| from <= j < spec_find_char(s, c, from) ==> s[j] != c,
        spec_find_char(s, c, from) < s.len() ==> s[spec_find_char(s, c, from)] == c,
    decreases s.len() - from,
{
    if from < s.len() && s[from] != c {
        lemma_find_char(s, c, from + 1);
    }
}

/// The first occurrence is exactly where the character first stands.
pub proof fn lemma_find_char_exact(s: Seq<char>, c: char, from: int, e: int)
    requires
        0 <= from <= e < s.len(),
        forall|j: int| from <= j < e ==> s[j] != c,
        s[e] == c,
    ensures
        spec_find_char(s, c, from) == e,
    decreases e - from,
{
    if from < e {
        lemma_find_char_exact(s, c, from + 1, e);
    }
}

/// The lines of `s` from position `from` on, split at each newline. The
/// split keeps empty lines; text without a final newline yields a last line
/// without one, and a final newline yields a last empty line.
pub open spec fn spec_lines_from(s: Seq<char>, from: int) -> Seq<Seq<char>>
    decreases s.len() - from,
    when 0 <= from <= s.len()
    via spec_lines_from_decreases
{
    let i = spec_find_char(s, '\n', from);
    if i >= s.len() {
        seq![s.subrange(from, s.len() as int)]
    } else {
        seq![s.subrange(from, i)] + spec_lines_from(s, i + 1)
    }
}

#[via_fn]
proof fn spec_lines_from_decreases(s: Seq<char>, from: int) {
    lemma_find_char(s, '\n', from);
}

/// The lines of `s`, split at each newline.
pub open spec fn spec_lines(s: Seq<char>) -> Seq<Seq<char>> {
    spec_lines_from(s, 0)
}

/// The lines joined by single newlines.
pub open spec fn spec_join_lines(ls: Seq<Seq<char>>) -> Seq<char>
    decreases ls.len(),
{
    if ls.len() == 0 {
        Seq::empty()
    } else if ls.len() == 1 {
        ls[0]
    } else {
        spec_join_lines(ls.drop_last()) + "\n"@ + ls.last()
    }
}

/// Splits a string into its lines.
pub fn split_lines(s: &str) -> (r: Vec<String>)
    ensures
        r@.map_values(|l: String| l@) == spec_lines(s@),
{
    let n: usize = s.unicode_len();
    let chars = str_to_chars(s);
    let mut out: Vec<String> = Vec::new();
    let mut from: usize = 0;
    loop
        invariant
            0 <= from <= n,
            n == s@.len(),
            chars@ == s@,
            out@.map_values(|l: String| l@) + spec_lines_from(s@, from as int) == spec_lines(s@),
        ensures
            out@.map_values(|l: String| l@) == spec_lines(s@),
        decreases n - from,
    {
        proof {
            lemma_find_char(s@, '\n', from as int);
        }
        let mut i: usize = from;
        while i < n && chars[i] != '\n'
            invariant
                from <= i <= n,
                n == s@.len(),
                chars@ == s@,
                spec_find_char(s@, '\n', from as int) == spec_find_char(s@, '\n', i as int),
            decreases n - i,
        {
            i = i + 1;
        }
        proof {
            assert(i as int == spec_find_char(s@, '\n', from as int));
        }
        let piece = s.substring_char(from, i).to_owned();
        let ghost old_map = out@.map_values(|l: String| l@);
        out.push(piece.clone());
        proof {
            assert(out@.map_values(|l: String| l@) =~= old_map.push(piece@));
        }
        if i >= n {
            proof {
                assert(spec_lines_from(s@, from as int) =~= seq![piece@]);
                assert(old_map.push(piece@) =~= old_map + seq![piece@]);
                assert(out@.map_values(|l: String| l@) =~= spec_lines(s@));
            }
            return out;
        }
        proof {
            assert(spec_lines_from(s@, from as int) =~= seq![piece@] + spec_lines_from(
                s@,
                i as int + 1,
            ));
            assert(old_map.push(piece@) + spec_lines_from(s@, i as int + 1) =~= old_map
                + spec_lines_from(s@, from as int));
        }
        from = i + 1;
    }
}

/// Joins lines with single newlines.
pub fn join_lines(ls: &Vec<String>) -> (r: String)
    ensures
        r@ == spec_join_lines(ls@.map_values(|l: String| l@)),
{
    let ghost views = ls@.map_values(|l: String| l@);
    let mut out = String::new();
    let mut i: usize = 0;
    while i < ls.len()
        invariant
            i <= ls@.len(),
            views == ls@.map_values(|l: String| l@),
            out@ == spec_join_lines(views.subrange(0, i as int)),
        decreases ls@.len() - i,
    {
        if i > 0 {
            out.append("\n");
        }
        out.append(ls[i].as_str());
        i = i + 1;
        proof {
            let p = views.subrange(0, i as int);
            assert(p.drop_last() =~= views.subrange(0, i as int - 1));
            assert(p.last() == views[i as int - 1]);
            assert(views[i as int - 1] == ls@[i as int - 1]@);
            assert(out@ =~= spec_join_lines(p));
        }
    }
    proof {
        assert(views.subrange(0, views.len() as int) =~= views);
    }
    out
}

/// Strict lexicographic order on the characters from position `k` on.
pub open spec fn spec_str_lt_from(a: Seq<char>, b: Seq<char>, k: int) -> bool
    decreases b.len() - k,
    when k >= 0
{
    if k >= b.len() {
        false
    } else if k >= a.len() {
        true
    } else if a[k] != b[k] {
        (a[k] as int) < (b[k] as int)
    } else {
        spec_str_lt_from(a, b, k + 1)
    }
}

/// Strict lexicographic order on character sequences, by character value.
pub open spec fn spec_str_lt(a: Seq<char>, b: Seq<char>) -> bool {
    spec_str_lt_from(a, b, 0)
}

/// Whether `a` is lexicographically before `b`.
pub fn str_lt(a: &str, b: &str) -> (r: bool)
    ensures
        r == spec_str_lt(a@, b@),
{
    let na: usize = a.unicode_len();
    let nb: usize = b.unicode_len();
    let mut k: usize = 0;
    while k < na && k < nb
        invariant
            0 <= k <= na,
            0 <= k <= nb,
            na == a@.len(),
            nb == b@.len(),
            spec_str_lt(a@, b@) == spec_str_lt_from(a@, b@, k as int),
        decreases na - k,
    {
        let ca = a.get_char(k);
        let cb = b.get_char(k);
        if ca != cb {
            return (ca as u32) < (cb as u32);
        }
        k = k + 1;
    }
    k < nb
}

/// Whether `c` is whitespace.
pub fn is_space_char(c: char) -> (r: bool)
    ensures
        r == is_space(c),
{
    (c >= '\u{9}' && c <= '\u{d}') || c == ' ' || c == '\u{85}' || c == '\u{a0}' || c == '\u{1680}'
        || (c >= '\u{2000}' && c <= '\u{200a}') || c == '\u{2028}' || c == '\u{2029}' || c
        == '\u{202f}' || c == '\u{205f}' || c == '\u{3000}'
}

/// If everything before position `i` is whitespace and `s[i]` is whitespace,
/// the whitespace prefix extends past `i`.
pub proof fn lemma_ws_prefix_step(s: Seq<char>, i: int)
    requires
        0 <= i < s.len(),
        forall|j: int| 0 <= j < i ==> is_space(#[trigger] s[j]),
        is_space(s[i]),
    ensures
        ws_prefix_len(s) >= i + 1,
    decreases i,
{
    if i == 0 {
        lemma_ws_prefix(s.drop_first());
        assert(ws_prefix_len(s) == 1 + ws_prefix_len(s.drop_first()));
    } else {
        let t = s.drop_first();
        assert(forall|j: int| 0 <= j < i - 1 ==> #[trigger] t[j] == s[j + 1]);
        assert(t[i - 1] == s[i]);
        lemma_ws_prefix_step(t, i - 1);
        assert(ws_prefix_len(s) == 1 + ws_prefix_len(t));
    }
}

/// If everything from position `i + 1` on is whitespace and `s[i]` is
/// whitespace, the whitespace suffix covers position `i` too.
pub proof fn lemma_ws_suffix_step(s: Seq<char>, i: int)
    requires
        0 <= i < s.len(),
        forall|j: int| i < j < s.len() ==> is_space(#[trigger] s[j]),
        is_space(s[i]),
    ensures
        ws_suffix_len(s) >= s.len() - i,
    decreases s.len() - i,
{
    if i == s.len() - 1 {
        lemma_ws_suffix(s.drop_last());
        assert(ws_suffix_len(s) == 1 + ws_suffix_len(s.drop_last()));
    } else {
        let t = s.drop_last();
        assert(forall|j: int| i < j < t.len() ==> #[trigger] t[j] == s[j]);
        assert(t[i] == s[i]);
        assert(is_space(s.last()));
        lemma_ws_suffix_step(t, i);
        assert(ws_suffix_len(s) == 1 + ws_suffix_len(t));
    }
}

} // verus!
