//! Character-level string helpers: Unicode trimming, trailing-character
//! stripping, and decimal integers.

use vstd::prelude::*;

verus! {

/// The characters of each string of a sequence.
pub open spec fn texts(strings: Seq<String>) -> Seq<Seq<char>> {
    strings.map_values(|s: String| s@)
}

/// Whether `strings` holds a string with the characters of `key`.
pub fn contains_text(strings: &Vec<String>, key: &String) -> (r: bool)
    ensures
        r == texts(strings@).contains(key@),
{
    let n = strings.len();
    let mut i: usize = 0;
    while i < n
        invariant
            n == strings@.len(),
            i <= n,
            forall|j: int| 0 <= j < i ==> strings@[j]@ != key@,
        decreases n - i,
    {
        if strings[i] == *key {
            proof {
                assert(texts(strings@)[i as int] == key@);
            }
            return true;
        }
        i = i + 1;
    }
    proof {
        if texts(strings@).contains(key@) {
            let j = choose|j: int| 0 <= j < texts(strings@).len() && texts(strings@)[j] == key@;
            assert(strings@[j]@ == key@);
        }
    }
    false
}

/// Whether a character has the Unicode `White_Space` property, the
/// property that `char::is_whitespace` tests: the controls U+0009 to U+000D,
/// space, U+0085, no-break space, U+1680, the spaces U+2000 to U+200A, the
/// line and paragraph separators U+2028 and U+2029, U+202F, U+205F and the
/// ideographic space U+3000.
pub open spec fn unicode_whitespace(c: char) -> bool {
    let u = c as u32;
    ||| 0x09 <= u <= 0x0D
    ||| u == 0x20
    ||| u == 0x85
    ||| u == 0xA0
    ||| u == 0x1680
    ||| 0x2000 <= u <= 0x200A
    ||| u == 0x2028
    ||| u == 0x2029
    ||| u == 0x202F
    ||| u == 0x205F
    ||| u == 0x3000
}

/// Whether `c` is Unicode whitespace, as `char::is_whitespace` decides.
pub fn is_whitespace(c: char) -> (r: bool)
    ensures
        r == unicode_whitespace(c),
{
    let u = c as u32;
    (0x09 <= u && u <= 0x0D) || u == 0x20 || u == 0x85 || u == 0xA0 || u == 0x1680 || (0x2000
        <= u && u <= 0x200A) || u == 0x2028 || u == 0x2029 || u == 0x202F || u == 0x205F || u
        == 0x3000
}

/// Number of whitespace characters at the start of `s`.
pub open spec fn leading_ws(s: Seq<char>) -> nat
    decreases s.len(),
{
    if s.len() > 0 && unicode_whitespace(s[0]) {
        1 + leading_ws(s.drop_first())
    } else {
        0
    }
}

/// Number of whitespace characters at the end of `s`.
pub open spec fn trailing_ws(s: Seq<char>) -> nat
    decreases s.len(),
{
    if s.len() > 0 && unicode_whitespace(s.last()) {
        1 + trailing_ws(s.drop_last())
    } else {
        0
    }
}

/// `s` without its leading and trailing whitespace.
pub open spec fn trimmed(s: Seq<char>) -> Seq<char> {
    let rest = s.skip(leading_ws(s) as int);
    rest.take(rest.len() - trailing_ws(rest))
}

/// A whitespace run of length `i` that stops at a non-whitespace character
/// (or at the end) is exactly the leading whitespace.
proof fn lemma_leading_ws_is(s: Seq<char>, i: int)
    requires
        0 <= i <= s.len(),
        forall|k: int| 0 <= k < i ==> unicode_whitespace(#[trigger] s[k]),
        i < s.len() ==> !unicode_whitespace(s[i]),
    ensures
        leading_ws(s) == i,
    decreases i,
{
    if i > 0 {
        assert forall|k: int| 0 <= k < i - 1 implies unicode_whitespace(
            #[trigger] s.drop_first()[k],
        ) by {
            assert(s.drop_first()[k] == s[k + 1]);
        }
        lemma_leading_ws_is(s.drop_first(), i - 1);
    }
}

/// A whitespace run of length `i` at the end that stops at a non-whitespace
/// character (or at the start) is exactly the trailing whitespace.
proof fn lemma_trailing_ws_is(s: Seq<char>, i: int)
    requires
        0 <= i <= s.len(),
        forall|k: int| s.len() - i <= k < s.len() ==> unicode_whitespace(#[trigger] s[k]),
        i < s.len() ==> !unicode_whitespace(s[s.len() - i - 1]),
    ensures
        trailing_ws(s) == i,
    decreases i,
{
    if i > 0 {
        let t = s.drop_last();
        assert forall|k: int| t.len() - (i - 1) <= k < t.len() implies unicode_whitespace(
            #[trigger] t[k],
        ) by {
            assert(t[k] == s[k]);
        }
        assert(unicode_whitespace(s[s.len() - 1]));
        if i - 1 < t.len() {
            assert(t[t.len() - (i - 1) - 1] == s[s.len() - i - 1]);
        }
        lemma_trailing_ws_is(t, i - 1);
    }
}

proof fn lemma_leading_ws_run(s: Seq<char>)
    ensures
        leading_ws(s) <= s.len(),
        forall|k: int| 0 <= k < leading_ws(s) ==> unicode_whitespace(#[trigger] s[k]),
        leading_ws(s) < s.len() ==> !unicode_whitespace(s[leading_ws(s) as int]),
    decreases s.len(),
{
    if s.len() > 0 && unicode_whitespace(s[0]) {
        let t = s.drop_first();
        lemma_leading_ws_run(t);
        assert forall|k: int| 0 <= k < leading_ws(s) implies unicode_whitespace(#[trigger] s[k]) by {
            if k > 0 {
                assert(s[k] == t[k - 1]);
            }
        }
        if leading_ws(s) < s.len() {
            assert(s[leading_ws(s) as int] == t[leading_ws(t) as int]);
        }
    }
}

proof fn lemma_trailing_ws_run(s: Seq<char>)
    ensures
        trailing_ws(s) <= s.len(),
        forall|k: int| s.len() - trailing_ws(s) <= k < s.len() ==> unicode_whitespace(#[trigger] s[k]),
        trailing_ws(s) < s.len() ==> !unicode_whitespace(s[s.len() - trailing_ws(s) - 1]),
    decreases s.len(),
{
    if s.len() > 0 && unicode_whitespace(s.last()) {
        let t = s.drop_last();
        lemma_trailing_ws_run(t);
        assert forall|k: int| s.len() - trailing_ws(s) <= k < s.len() implies unicode_whitespace(
            #[trigger] s[k],
        ) by {
            if k < s.len() - 1 {
                assert(s[k] == t[k]);
            }
        }
        if trailing_ws(s) < s.len() {
            assert(s[s.len() - trailing_ws(s) - 1] == t[t.len() - trailing_ws(t) - 1]);
        }
    }
}

/// Trimming a trimmed text changes nothing.
pub proof fn lemma_trimmed_idempotent(s: Seq<char>)
    ensures
        trimmed(trimmed(s)) == trimmed(s),
{
    lemma_leading_ws_run(s);
    let rest = s.skip(leading_ws(s) as int);
    lemma_trailing_ws_run(rest);
    let t = trimmed(s);
    let m = rest.len() - trailing_ws(rest);
    assert(t =~= rest.take(m));
    if t.len() > 0 {
        assert(rest[0] == s[leading_ws(s) as int]);
        assert(!unicode_whitespace(rest[0]));
        assert(trailing_ws(rest) < rest.len());
        assert(!unicode_whitespace(t[0]));
        assert(t[t.len() - 1] == rest[rest.len() - trailing_ws(rest) - 1]);
        assert(!unicode_whitespace(t.last()));
        assert(leading_ws(t) == 0);
        assert(trailing_ws(t) == 0);
        assert(t.skip(0) =~= t);
        assert(t.take(t.len() as int) =~= t);
    } else {
        assert(leading_ws(t) == 0);
        assert(t.skip(0) =~= t);
        assert(trailing_ws(t) == 0);
        assert(t.take(0) =~= t);
    }
}

/// `r` is `s` with its leading and trailing whitespace removed and nothing
/// else: a contiguous piece `s[a..b]` such that everything before `a` and
/// from `b` on is whitespace, and the piece neither starts nor ends with
/// whitespace.
pub open spec fn is_trim_of(r: Seq<char>, s: Seq<char>) -> bool {
    exists|a: int, b: int|
        #![trigger s.subrange(a, b)]
        0 <= a <= b <= s.len() && r == s.subrange(a, b) && (forall|k: int|
            0 <= k < a ==> unicode_whitespace(#[trigger] s[k])) && (forall|k: int|
            b <= k < s.len() ==> unicode_whitespace(#[trigger] s[k])) && (a < b ==> !unicode_whitespace(
            s[a],
        ) && !unicode_whitespace(s[b - 1]))
}

/// What trimming yields is the text without its surrounding whitespace,
/// with every inner character kept.
pub proof fn lemma_trimmed_is_trim(s: Seq<char>)
    ensures
        is_trim_of(trimmed(s), s),
{
    lemma_leading_ws_run(s);
    let a = leading_ws(s) as int;
    let rest = s.skip(a);
    lemma_trailing_ws_run(rest);
    let b = a + rest.len() - trailing_ws(rest);
    assert(trimmed(s) =~= s.subrange(a, b));
    assert forall|k: int| b <= k < s.len() implies unicode_whitespace(#[trigger] s[k]) by {
        assert(s[k] == rest[k - a]);
    }
    if a < b {
        assert(s[a] == rest[0]);
        assert(s[b - 1] == rest[rest.len() - trailing_ws(rest) - 1]);
    }
}

/// Returns `s` without leading and trailing Unicode whitespace, as
/// `str::trim` does.
pub fn trim(s: &str) -> (r: String)
    ensures
        r@ == trimmed(s@),
{
    let n = s.unicode_len();
    let mut start: usize = 0;
    while start < n && is_whitespace(s.get_char(start))
        invariant
            n == s@.len(),
            start <= n,
            forall|k: int| 0 <= k < start ==> unicode_whitespace(#[trigger] s@[k]),
        decreases n - start,
    {
        start = start + 1;
    }
    proof {
        lemma_leading_ws_is(s@, start as int);
    }
    let mut end: usize = n;
    while end > start && is_whitespace(s.get_char(end - 1))
        invariant
            n == s@.len(),
            start <= end <= n,
            forall|k: int| end <= k < n ==> unicode_whitespace(#[trigger] s@[k]),
        decreases end - start,
    {
        end = end - 1;
    }
    proof {
        let rest = s@.skip(start as int);
        let j = (n - end) as int;
        assert forall|k: int| rest.len() - j <= k < rest.len() implies unicode_whitespace(
            #[trigger] rest[k],
        ) by {
            assert(rest[k] == s@[k + start]);
        }
        if j < rest.len() {
            assert(rest[rest.len() - j - 1] == s@[end - 1]);
        }
        lemma_trailing_ws_is(rest, j);
        assert(s@.subrange(start as int, end as int) =~= rest.take(rest.len() - j));
    }
    String::from_str(s.substring_char(start, end))
}

/// `s` with every trailing occurrence of `c` removed.
pub open spec fn strip_trailing(s: Seq<char>, c: char) -> Seq<char>
    decreases s.len(),
{
    if s.len() > 0 && s.last() == c {
        strip_trailing(s.drop_last(), c)
    } else {
        s
    }
}

/// Stripping trailing `c` keeps a prefix of the text that does not end with
/// `c`, and removes only occurrences of `c`.
pub proof fn lemma_strip_trailing_prefix(s: Seq<char>, c: char)
    ensures
        strip_trailing(s, c).len() <= s.len(),
        strip_trailing(s, c) == s.take(strip_trailing(s, c).len() as int),
        forall|k: int| strip_trailing(s, c).len() <= k < s.len() ==> #[trigger] s[k] == c,
        strip_trailing(s, c).len() > 0 ==> strip_trailing(s, c).last() != c,
    decreases s.len(),
{
    if s.len() > 0 && s.last() == c {
        let t = s.drop_last();
        lemma_strip_trailing_prefix(t, c);
        let r = strip_trailing(s, c);
        assert(r == strip_trailing(t, c));
        assert(t.take(r.len() as int) =~= s.take(r.len() as int));
        assert forall|k: int| r.len() <= k < s.len() implies #[trigger] s[k] == c by {
            if k < t.len() {
                assert(s[k] == t[k]);
            }
        }
    } else {
        assert(s.take(s.len() as int) =~= s);
    }
}

/// Returns `s` with every trailing `c` removed, as `str::trim_end_matches`
/// does with a single character.
pub fn trim_end_char(s: &str, c: char) -> (r: String)
    ensures
        r@ == strip_trailing(s@, c),
{
    let n = s.unicode_len();
    let mut end: usize = n;
    proof {
        assert(s@.take(n as int) =~= s@);
    }
    while end > 0 && s.get_char(end - 1) == c
        invariant
            n == s@.len(),
            end <= n,
            strip_trailing(s@, c) == strip_trailing(s@.take(end as int), c),
        decreases end,
    {
        proof {
            let t = s@.take(end as int);
            assert(t.drop_last() =~= s@.take(end - 1));
        }
        end = end - 1;
    }
    String::from_str(s.substring_char(0, end))
}

/// The character of a decimal digit.
pub open spec fn digit_char(d: nat) -> char {
    if d == 0 { '0' }
    else if d == 1 { '1' }
    else if d == 2 { '2' }
    else if d == 3 { '3' }
    else if d == 4 { '4' }
    else if d == 5 { '5' }
    else if d == 6 { '6' }
    else if d == 7 { '7' }
    else if d == 8 { '8' }
    else { '9' }
}

/// The shortest decimal representation of a natural number.
pub open spec fn decimal(n: nat) -> Seq<char>
    decreases n,
{
    if n < 10 {
        seq![digit_char(n)]
    } else {
        decimal(n / 10).push(digit_char(n % 10))
    }
}

/// The decimal representation of an integer, with a leading `-` when negative.
pub open spec fn signed_decimal(n: int) -> Seq<char> {
    if n < 0 {
        seq!['-'] + decimal((-n) as nat)
    } else {
        decimal(n as nat)
    }
}

fn digit_text(d: u64) -> (r: &'static str)
    requires
        d < 10,
    ensures
        r@ == seq![digit_char(d as nat)],
{
    let r = if d == 0 { "0" }
    else if d == 1 { "1" }
    else if d == 2 { "2" }
    else if d == 3 { "3" }
    else if d == 4 { "4" }
    else if d == 5 { "5" }
    else if d == 6 { "6" }
    else if d == 7 { "7" }
    else if d == 8 { "8" }
    else { "9" };
    proof {
        reveal_strlit("0");
        reveal_strlit("1");
        reveal_strlit("2");
        reveal_strlit("3");
        reveal_strlit("4");
        reveal_strlit("5");
        reveal_strlit("6");
        reveal_strlit("7");
        reveal_strlit("8");
        reveal_strlit("9");
    }
    r
}

fn render_nat(n: u64) -> (r: String)
    ensures
        r@ == decimal(n as nat),
    decreases n,
{
    if n < 10 {
        String::from_str(digit_text(n))
    } else {
        let mut r = render_nat(n / 10);
        r.append(digit_text(n % 10));
        r
    }
}

/// Renders an `i32` in decimal, as its `Display` implementation does.
pub fn render_i32(n: i32) -> (r: String)
    ensures
        r@ == signed_decimal(n as int),
{
    if n < 0 {
        let magnitude: u64 = (0i64 - (n as i64)) as u64;
        let digits = render_nat(magnitude);
        let mut r = String::from_str("-");
        proof {
            reveal_strlit("-");
        }
        r.append(digits.as_str());
        r
    } else {
        render_nat(n as u64)
    }
}

/// Whether `c` is an ASCII decimal digit.
pub open spec fn is_digit(c: char) -> bool {
    '0' <= c && c <= '9'
}

/// The value of a sequence of decimal digits, most significant first.
pub open spec fn digits_value(d: Seq<char>) -> nat
    decreases d.len(),
{
    if d.len() == 0 {
        0
    } else {
        digits_value(d.drop_last()) * 10 + ((d.last() as nat) - ('0' as nat)) as nat
    }
}

/// A non-empty run of ASCII digits.
pub open spec fn all_digits(d: Seq<char>) -> bool {
    d.len() > 0 && forall|i: int| 0 <= i < d.len() ==> is_digit(#[trigger] d[i])
}

/// The part of `s` after an optional leading `+` or `-`.
pub open spec fn unsigned_part(s: Seq<char>) -> Seq<char> {
    if s.len() > 0 && (s[0] == '-' || s[0] == '+') { s.drop_first() } else { s }
}

/// What `str::parse::<i32>` accepts and returns: an optional `+` or `-`,
/// then at least one ASCII digit and nothing else, with a value that fits
/// in an `i32`.
pub open spec fn parsed_i32(s: Seq<char>) -> Option<i32> {
    let magnitude = digits_value(unsigned_part(s)) as int;
    let value = if s.len() > 0 && s[0] == '-' { -magnitude } else { magnitude };
    if all_digits(unsigned_part(s)) && i32::MIN <= value <= i32::MAX {
        Some(value as i32)
    } else {
        None
    }
}

proof fn lemma_parsed_rejects_nondigit(s: Seq<char>, k: int)
    requires
        0 <= k < unsigned_part(s).len(),
        !is_digit(unsigned_part(s)[k]),
    ensures
        parsed_i32(s) is None,
{
}

proof fn lemma_parsed_rejects_large(s: Seq<char>)
    requires
        digits_value(unsigned_part(s)) > (if s.len() > 0 && s[0] == '-' { 2147483648int } else { 2147483647int }),
    ensures
        parsed_i32(s) is None,
{
}

proof fn lemma_digits_value_prefix(d: Seq<char>, i: int)
    requires
        0 <= i <= d.len(),
        forall|k: int| 0 <= k < d.len() ==> is_digit(#[trigger] d[k]),
    ensures
        digits_value(d.take(i)) <= digits_value(d),
    decreases d.len() - i,
{
    if i < d.len() {
        let t = d.drop_last();
        assert forall|k: int| 0 <= k < t.len() implies is_digit(#[trigger] t[k]) by {
            assert(t[k] == d[k]);
        }
        assert(t.take(i) =~= d.take(i));
        lemma_digits_value_prefix(t, i);
    } else {
        assert(d.take(i) =~= d);
    }
}

proof fn lemma_digit_char_value(d: nat)
    requires
        d < 10,
    ensures
        (digit_char(d) as nat) - ('0' as nat) == d,
        is_digit(digit_char(d)),
{
}

proof fn lemma_decimal_digits(n: nat)
    ensures
        all_digits(decimal(n)),
        digits_value(decimal(n)) == n,
        decimal(n)[0] != '-' && decimal(n)[0] != '+',
    decreases n,
{
    lemma_digit_char_value(n % 10);
    let d = decimal(n);
    if n >= 10 {
        lemma_decimal_digits(n / 10);
        assert(d.drop_last() =~= decimal(n / 10));
        assert(d[0] == decimal(n / 10)[0]);
        assert(d.last() == digit_char(n % 10));
        assert(n == (n / 10) * 10 + n % 10);
        assert(digits_value(d) == digits_value(d.drop_last()) * 10 + (n % 10));
    } else {
        assert(d.drop_last() =~= Seq::<char>::empty());
        assert(n % 10 == n);
        assert(d.last() == digit_char(n));
        assert(digits_value(d) == digits_value(d.drop_last()) * 10 + n);
    }
}

/// Reading back the decimal text of an `i32` gives the number.
pub proof fn lemma_signed_decimal_round_trip(n: i32)
    ensures
        parsed_i32(signed_decimal(n as int)) == Some(n),
{
    if n < 0 {
        let m = (-(n as int)) as nat;
        lemma_decimal_digits(m);
        let t = signed_decimal(n as int);
        assert(t[0] == '-');
        assert(t.drop_first() =~= decimal(m));
    } else {
        lemma_decimal_digits(n as nat);
    }
}

/// Parses a decimal `i32`, accepting exactly what `str::parse::<i32>` accepts.
pub fn parse_i32(s: &str) -> (r: Option<i32>)
    ensures
        r == parsed_i32(s@),
{
    let n = s.unicode_len();
    let negative = n > 0 && s.get_char(0) == '-';
    let signed = n > 0 && (s.get_char(0) == '-' || s.get_char(0) == '+');
    let start: usize = if signed { 1 } else { 0 };
    let ghost digits = if signed { s@.drop_first() } else { s@ };
    assert(signed == (s@.len() > 0 && (s@[0] == '-' || s@[0] == '+')));
    assert(negative == (s@.len() > 0 && s@[0] == '-'));
    if start == n {
        return None;
    }
    let limit: u64 = if negative { 2147483648 } else { 2147483647 };
    let mut acc: u64 = 0;
    let mut i: usize = start;
    while i < n
        invariant
            n == s@.len(),
            start <= i <= n,
            start < n,
            digits =~= s@.skip(start as int),
            digits == (if signed { s@.drop_first() } else { s@ }),
            signed == (s@.len() > 0 && (s@[0] == '-' || s@[0] == '+')),
            negative == (s@.len() > 0 && s@[0] == '-'),
            limit == (if negative { 2147483648u64 } else { 2147483647u64 }),
            acc <= limit,
            acc == digits_value(digits.take(i - start)),
            forall|k: int| 0 <= k < i - start ==> is_digit(#[trigger] digits[k]),
        decreases n - i,
    {
        let c = s.get_char(i);
        assert(c == digits[i - start]);
        if !('0' <= c && c <= '9') {
            proof {
                lemma_parsed_rejects_nondigit(s@, i - start);
            }
            return None;
        }
        let d: u64 = (c as u32 - '0' as u32) as u64;
        assert(d <= 9);
        proof {
            assert(digits.take(i - start + 1).drop_last() =~= digits.take(i - start));
        }
        if acc > (limit - d) / 10 {
            proof {
                assert(acc * 10 + d > limit) by (nonlinear_arith)
                    requires
                        acc > (limit - d) / 10,
                        d <= limit,
                ;
                let j = (i - start + 1) as int;
                if forall|k: int| 0 <= k < digits.len() ==> is_digit(#[trigger] digits[k]) {
                    lemma_digits_value_prefix(digits, j);
                    lemma_parsed_rejects_large(s@);
                } else {
                    let k = choose|k: int| 0 <= k < digits.len() && !is_digit(#[trigger] digits[k]);
                    lemma_parsed_rejects_nondigit(s@, k);
                }
            }
            return None;
        }
        acc = acc * 10 + d;
        i = i + 1;
    }
    proof {
        assert(digits.take(n - start) =~= digits);
    }
    if negative {
        Some((0i64 - acc as i64) as i32)
    } else {
        Some(acc as i32)
    }
}

/// The ellipsis that marks a shortened text.
pub const ELLIPSIS: &'static str = "\u{2026}";

/// `s` itself when it has at most `max` characters; otherwise its first
/// `max - 1` characters (none when `max` is 0) followed by an ellipsis.
pub open spec fn shortened(s: Seq<char>, max: nat) -> Seq<char> {
    if s.len() <= max {
        s
    } else {
        s.take(if max >= 1 { max - 1 } else { 0 }) + seq!['\u{2026}']
    }
}

/// A shortened text is the text itself when it fits; otherwise it has exactly
/// `max` characters (one when `max` is 0): the first `max - 1` characters of
/// the text, unchanged, then an ellipsis.
pub proof fn lemma_shortened_keeps_prefix(s: Seq<char>, max: nat)
    ensures
        s.len() <= max ==> shortened(s, max) == s,
        s.len() > max ==> {
            let r = shortened(s, max);
            &&& r.len() == (if max >= 1 { max } else { 1 })
            &&& forall|i: int| 0 <= i < r.len() - 1 ==> #[trigger] r[i] == s[i]
            &&& r[r.len() - 1] == '\u{2026}'
        },
{
}

/// Shortens `s` to at most `max` characters for display, marking a cut with
/// an ellipsis.
pub fn truncate(s: &str, max: usize) -> (r: String)
    ensures
        r@ == shortened(s@, max as nat),
        s@.len() <= max ==> r@ == s@,
        max >= 1 ==> r@.len() <= max,
{
    let n = s.unicode_len();
    if n <= max {
        String::from_str(s)
    } else {
        let keep: usize = if max >= 1 { max - 1 } else { 0 };
        let mut r = String::from_str(s.substring_char(0, keep));
        proof {
            reveal_strlit("\u{2026}");
        }
        r.append(ELLIPSIS);
        r
    }
}

} // verus!
