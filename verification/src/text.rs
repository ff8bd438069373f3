//! Character-level helpers shared by the front end.
use vstd::prelude::*;

verus! {

/// Number of bytes in the UTF-8 encoding of `c`.
pub open spec fn char_width(c: char) -> nat {
    let v = c as u32;
    if v <= 0x7F {
        1
    } else if v <= 0x7FF {
        2
    } else if v <= 0xFFFF {
        3
    } else {
        4
    }
}

/// Number of bytes in the UTF-8 encoding of a character sequence.
pub open spec fn byte_len(cs: Seq<char>) -> nat
    decreases cs.len(),
{
    if cs.len() == 0 {
        0
    } else {
        byte_len(cs.drop_last()) + char_width(cs.last())
    }
}

/// Executable `char_width`.
pub fn width_of(c: char) -> (w: usize)
    ensures
        w == char_width(c),
        1 <= w <= 4,
{
    let v = c as u32;
    if v <= 0x7F {
        1
    } else if v <= 0x7FF {
        2
    } else if v <= 0xFFFF {
        3
    } else {
        4
    }
}

/// The characters of a string slice, in order.
pub fn chars_of(s: &str) -> (r: Vec<char>)
    ensures
        r@ == s@,
{
    let mut v: Vec<char> = Vec::new();
    for c in it: s.chars()
        invariant
            v@ == it.seq().take(it.index() as int),
    {
        v.push(c);
    }
    v
}

/// Taking one more character adds that character's width.
pub proof fn lemma_byte_len_take_step(cs: Seq<char>, k: int)
    requires
        0 <= k < cs.len(),
    ensures
        byte_len(cs.take(k + 1)) == byte_len(cs.take(k)) + char_width(cs[k]),
{
    assert(cs.take(k + 1).drop_last() =~= cs.take(k));
}

/// The byte length of a prefix never exceeds that of a longer prefix.
pub proof fn lemma_byte_len_take_mono(cs: Seq<char>, i: int, j: int)
    requires
        0 <= i <= j <= cs.len(),
    ensures
        byte_len(cs.take(i)) <= byte_len(cs.take(j)),
        i < j ==> byte_len(cs.take(i)) < byte_len(cs.take(j)),
    decreases j - i,
{
    if i < j {
        lemma_byte_len_take_step(cs, j - 1);
        lemma_byte_len_take_mono(cs, i, j - 1);
    }
}

/// A sequence has at least as many bytes as characters.
pub proof fn lemma_byte_len_ge_len(cs: Seq<char>)
    ensures
        byte_len(cs) >= cs.len(),
    decreases cs.len(),
{
    if cs.len() > 0 {
        lemma_byte_len_ge_len(cs.drop_last());
    }
}

/// Does the UTF-8 encoding of `s` take fewer than `u32::MAX` bytes (so that
/// every offset in it fits a `u32`).
pub fn byte_len_fits(s: &str) -> (b: bool)
    ensures
        b == (byte_len(s@) < u32::MAX),
{
    let cs = chars_of(s);
    let mut total: u64 = 0;
    let mut k: usize = 0;
    proof {
        assert(cs@.take(0) =~= Seq::<char>::empty());
    }
    while k < cs.len()
        invariant
            k <= cs@.len(),
            cs@ == s@,
            total == byte_len(cs@.take(k as int)),
            total < u32::MAX,
        decreases cs@.len() - k,
    {
        proof {
            lemma_byte_len_take_step(cs@, k as int);
        }
        total = total + width_of(cs[k]) as u64;
        if total >= 0xFFFF_FFFF {
            proof {
                lemma_byte_len_take_mono(cs@, k as int + 1, cs@.len() as int);
                assert(cs@.take(cs@.len() as int) =~= cs@);
            }
            return false;
        }
        k = k + 1;
    }
    proof {
        assert(cs@.take(cs@.len() as int) =~= cs@);
    }
    true
}

/// Builds a `String` from characters with `String::from_iter`.
/// Claims: the string holds exactly these characters, in order.
#[verifier::external_body]
pub(crate) fn string_from_chars(cs: &[char]) -> (s: String)
    ensures
        s@ == cs@,
{
    String::from_iter(cs)
}

/// The characters `cs[a..b]` as a vector.
pub fn sub_chars(cs: &Vec<char>, a: usize, b: usize) -> (r: Vec<char>)
    requires
        a <= b <= cs@.len(),
    ensures
        r@ == cs@.subrange(a as int, b as int),
{
    let mut r: Vec<char> = Vec::new();
    let mut i = a;
    while i < b
        invariant
            a <= i <= b <= cs@.len(),
            r@ == cs@.subrange(a as int, i as int),
        decreases b - i,
    {
        r.push(cs[i]);
        i = i + 1;
        proof {
            assert(r@ =~= cs@.subrange(a as int, i as int));
        }
    }
    r
}

/// Do `cs[a..b]` spell `lit`.
pub fn chars_match(cs: &Vec<char>, a: usize, b: usize, lit: &str) -> (r: bool)
    requires
        a <= b <= cs@.len(),
    ensures
        r == (cs@.subrange(a as int, b as int) == lit@),
{
    let l = chars_of(lit);
    if l.len() != b - a {
        proof {
            assert(cs@.subrange(a as int, b as int).len() != lit@.len());
        }
        return false;
    }
    let mut i: usize = 0;
    while i < l.len()
        invariant
            l@ == lit@,
            l@.len() == b - a,
            a <= b <= cs@.len(),
            0 <= i <= l@.len(),
            forall|k: int| 0 <= k < i ==> cs@[a + k] == l@[k],
        decreases l@.len() - i,
    {
        if cs[a + i] != l[i] {
            proof {
                assert(cs@.subrange(a as int, b as int)[i as int] != lit@[i as int]);
            }
            return false;
        }
        i = i + 1;
    }
    proof {
        assert(cs@.subrange(a as int, b as int) =~= lit@);
    }
    true
}

pub open spec fn is_digit(c: char) -> bool {
    '0' <= c && c <= '9'
}

pub open spec fn is_alpha(c: char) -> bool {
    ('a' <= c && c <= 'z') || ('A' <= c && c <= 'Z')
}

pub open spec fn is_upper(c: char) -> bool {
    'A' <= c && c <= 'Z'
}

pub open spec fn is_ident_char(c: char) -> bool {
    is_alpha(c) || is_digit(c) || c == '_'
}

pub fn is_digit_exec(c: char) -> (b: bool)
    ensures
        b == is_digit(c),
{
    '0' <= c && c <= '9'
}

pub fn is_alpha_exec(c: char) -> (b: bool)
    ensures
        b == is_alpha(c),
{
    ('a' <= c && c <= 'z') || ('A' <= c && c <= 'Z')
}

pub fn is_upper_exec(c: char) -> (b: bool)
    ensures
        b == is_upper(c),
{
    'A' <= c && c <= 'Z'
}

pub fn is_ident_char_exec(c: char) -> (b: bool)
    ensures
        b == is_ident_char(c),
{
    is_alpha_exec(c) || is_digit_exec(c) || c == '_'
}

/// The value of a digit character.
pub open spec fn digit_value(c: char) -> nat {
    (c as u32 - '0' as u32) as nat
}

/// The number a string of decimal digits spells.
pub open spec fn digits_value(s: Seq<char>) -> nat
    decreases s.len(),
{
    if s.len() == 0 {
        0
    } else {
        digits_value(s.drop_last()) * 10 + digit_value(s.last())
    }
}

/// Reads the decimal digits `cs[a..b]` as an `i64`; `None` when the number
/// exceeds `i64::MAX`.
pub fn parse_i64_digits(cs: &Vec<char>, a: usize, b: usize) -> (r: Option<i64>)
    requires
        a <= b <= cs@.len(),
        forall|k: int| a <= k < b ==> is_digit(#[trigger] cs@[k]),
    ensures
        r matches Some(v) ==> v as int == digits_value(cs@.subrange(a as int, b as int)),
        r is None <==> digits_value(cs@.subrange(a as int, b as int)) > i64::MAX,
{
    let mut v: i64 = 0;
    let mut i = a;
    proof {
        assert(cs@.subrange(a as int, a as int) =~= Seq::<char>::empty());
    }
    while i < b
        invariant
            a <= i <= b <= cs@.len(),
            forall|k: int| a <= k < b ==> is_digit(#[trigger] cs@[k]),
            v >= 0,
            v as int == digits_value(cs@.subrange(a as int, i as int)),
        decreases b - i,
    {
        let c = cs[i];
        let d = (c as u32 - '0' as u32) as i64;
        proof {
            assert(cs@.subrange(a as int, i + 1).drop_last() =~= cs@.subrange(a as int, i as int));
            assert(is_digit(cs@[i as int]));
        }
        if v > (i64::MAX - d) / 10 {
            proof {
                let s = cs@.subrange(a as int, i + 1);
                assert(digits_value(s) == v * 10 + d);
                assert(v * 10 + d > i64::MAX) by (nonlinear_arith)
                    requires v > (i64::MAX - d) / 10, 0 <= d <= 9;
                lemma_digits_prefix_mono(cs@.subrange(a as int, b as int), i + 1 - a);
                assert(cs@.subrange(a as int, b as int).take(i + 1 - a) =~= s);
            }
            return None;
        }
        proof {
            assert(v * 10 + d <= i64::MAX) by (nonlinear_arith)
                requires v <= (i64::MAX - d) / 10, 0 <= d <= 9;
        }
        v = v * 10 + d;
        i = i + 1;
    }
    Some(v)
}

/// A longer digit string never spells a smaller number.
pub proof fn lemma_digits_prefix_mono(s: Seq<char>, k: int)
    requires
        0 <= k <= s.len(),
    ensures
        digits_value(s.take(k)) <= digits_value(s),
    decreases s.len() - k,
{
    if k < s.len() {
        lemma_digits_prefix_mono(s, k + 1);
        assert(s.take(k + 1).drop_last() =~= s.take(k));
    }
    if k == s.len() {
        assert(s.take(k) =~= s);
    }
}

/// Every character is a decimal digit.
pub open spec fn all_digits(s: Seq<char>) -> bool {
    forall|k: int| 0 <= k < s.len() ==> is_digit(#[trigger] s[k])
}

/// What `str::parse::<i64>` accepts: an optional `+` or `-`, then at least one
/// decimal digit, the number within the range of `i64`.
pub open spec fn spec_parse_int(s: Seq<char>) -> Option<i64> {
    let signed = s.len() > 0 && (s[0] == '-' || s[0] == '+');
    let body = if signed {
        s.skip(1)
    } else {
        s
    };
    let v = digits_value(body) as int;
    let n = if s.len() > 0 && s[0] == '-' {
        -v
    } else {
        v
    };
    if body.len() == 0 || !all_digits(body) || n < i64::MIN || n > i64::MAX {
        None
    } else {
        Some(n as i64)
    }
}

/// Parses a decimal integer as `str::parse::<i64>` does.
pub fn parse_int(s: &str) -> (r: Option<i64>)
    ensures
        r == spec_parse_int(s@),
{
    let cs = chars_of(s);
    let n = cs.len();
    let signed = n > 0 && (cs[0] == '-' || cs[0] == '+');
    let negative = n > 0 && cs[0] == '-';
    let start: usize = if signed {
        1
    } else {
        0
    };
    let ghost body = if signed {
        s@.skip(1)
    } else {
        s@
    };
    assert(body =~= cs@.skip(start as int));
    if start == n {
        return None;
    }
    let mut k: usize = start;
    while k < n
        invariant
            start <= k <= n,
            n == cs@.len(),
            body =~= cs@.skip(start as int),
            body == (if signed { s@.skip(1) } else { s@ }),
            cs@ == s@,
            signed == (s@.len() > 0 && (s@[0] == '-' || s@[0] == '+')),
            start == (if signed { 1usize } else { 0usize }),
            forall|j: int| start <= j < k ==> is_digit(#[trigger] cs@[j]),
        decreases n - k,
    {
        if !is_digit_exec(cs[k]) {
            assert(body[k - start] == cs@[k as int]);
            assert(!all_digits(body));
            return None;
        }
        k = k + 1;
    }
    assert(all_digits(body)) by {
        assert forall|j: int| 0 <= j < body.len() implies is_digit(#[trigger] body[j]) by {
            assert(body[j] == cs@[j + start]);
        }
    }
    // accumulate, giving up once the magnitude exceeds any i64
    let mut v: i128 = 0;
    let mut i: usize = start;
    proof {
        assert(body.take(0) =~= Seq::<char>::empty());
    }
    while i < n
        invariant
            start <= i <= n,
            n == cs@.len(),
            body =~= cs@.skip(start as int),
            all_digits(body),
            0 <= v <= 10_000_000_000_000_000_000i128,
            v as int == digits_value(body.take(i - start)),
            body == (if signed { s@.skip(1) } else { s@ }),
            cs@ == s@,
            negative == (s@.len() > 0 && s@[0] == '-'),
            signed == (s@.len() > 0 && (s@[0] == '-' || s@[0] == '+')),
            body.len() > 0,
        decreases n - i,
    {
        proof {
            assert(body.take(i + 1 - start).drop_last() =~= body.take(i - start));
            assert(body[i - start] == cs@[i as int]);
            assert(is_digit(body[i - start]));
        }
        let d = (cs[i] as u32 - '0' as u32) as i128;
        v = v * 10 + d;
        if v > 10_000_000_000_000_000_000i128 {
            proof {
                lemma_digits_prefix_mono(body, i + 1 - start);
                assert(digits_value(body) > i64::MAX + 1);
            }
            return None;
        }
        i = i + 1;
    }
    proof {
        assert(body.take(n - start) =~= body);
    }
    let val: i128 = if negative {
        -v
    } else {
        v
    };
    if val < -9_223_372_036_854_775_808i128 || val > 9_223_372_036_854_775_807i128 {
        None
    } else {
        Some(val as i64)
    }
}

/// `a` sorts before `b`, character by character (the order of `str`, whose
/// bytes in UTF-8 order as the code points do).
pub open spec fn text_lt(a: Seq<char>, b: Seq<char>) -> bool
    decreases a.len(),
{
    if a.len() == 0 {
        b.len() > 0
    } else if b.len() == 0 {
        false
    } else if a[0] != b[0] {
        (a[0] as u32) < (b[0] as u32)
    } else {
        text_lt(a.drop_first(), b.drop_first())
    }
}

/// Is `a` before `b` in text order.
pub fn text_less(a: &str, b: &str) -> (r: bool)
    ensures
        r == text_lt(a@, b@),
{
    let x = chars_of(a);
    let y = chars_of(b);
    let mut i: usize = 0;
    proof {
        assert(x@.skip(0) =~= x@);
        assert(y@.skip(0) =~= y@);
    }
    while i < x.len() && i < y.len()
        invariant
            i <= x@.len(),
            i <= y@.len(),
            x@ == a@,
            y@ == b@,
            text_lt(x@, y@) == text_lt(x@.skip(i as int), y@.skip(i as int)),
        decreases x@.len() - i,
    {
        if x[i] != y[i] {
            proof {
                assert(x@.skip(i as int)[0] == x@[i as int]);
                assert(y@.skip(i as int)[0] == y@[i as int]);
            }
            return (x[i] as u32) < (y[i] as u32);
        }
        proof {
            assert(x@.skip(i as int).drop_first() =~= x@.skip(i + 1));
            assert(y@.skip(i as int).drop_first() =~= y@.skip(i + 1));
        }
        i = i + 1;
    }
    i == x.len() && i < y.len()
}

/// `b` occurs in `a` at position `i`.
pub open spec fn occurs_at(a: Seq<char>, b: Seq<char>, i: int) -> bool {
    0 <= i && i + b.len() <= a.len() && a.subrange(i, i + b.len()) == b
}

/// `b` occurs somewhere in `a`.
pub open spec fn occurs(a: Seq<char>, b: Seq<char>) -> bool {
    exists|i: int| occurs_at(a, b, i)
}

/// Does `b` occur in `a` (`str::contains`).
pub fn text_contains(a: &str, b: &str) -> (r: bool)
    ensures
        r == occurs(a@, b@),
{
    let x = chars_of(a);
    let y = chars_of(b);
    if y.len() > x.len() {
        assert forall|i: int| !occurs_at(a@, b@, i) by {}
        return false;
    }
    let mut i: usize = 0;
    while i <= x.len() - y.len()
        invariant
            x@ == a@,
            y@ == b@,
            y@.len() <= x@.len(),
            i <= x@.len() - y@.len() + 1,
            forall|j: int| 0 <= j < i ==> !occurs_at(a@, b@, j),
        decreases x@.len() - i,
    {
        let mut k: usize = 0;
        let mut hit = true;
        while k < y.len()
            invariant
                x@ == a@,
                y@ == b@,
                i + y@.len() <= x@.len(),
                x@.len() == x.len(),
                x.len() <= usize::MAX,
                k <= y@.len(),
                hit == forall|q: int| 0 <= q < k ==> x@[i + q] == y@[q],
            decreases y@.len() - k,
        {
            let p = i + k;
            if x[p] != y[k] {
                hit = false;
            }
            k = k + 1;
        }
        if hit {
            assert(x@.subrange(i as int, i + y@.len()) =~= y@);
            assert(occurs_at(a@, b@, i as int));
            return true;
        }
        assert(!occurs_at(a@, b@, i as int)) by {
            if occurs_at(a@, b@, i as int) {
                assert forall|q: int| 0 <= q < y@.len() implies x@[i + q] == y@[q] by {
                    assert(x@.subrange(i as int, i + y@.len())[q] == x@[i + q]);
                }
            }
        }
        i = i + 1;
    }
    assert forall|j: int| !occurs_at(a@, b@, j) by {
        if occurs_at(a@, b@, j) {
            assert(j < i);
        }
    }
    false
}

/// The text with its trailing line breaks (`\n`, `\r`) removed.
pub open spec fn without_line_end(s: Seq<char>) -> Seq<char>
    decreases s.len(),
{
    if s.len() > 0 && (s.last() == '\n' || s.last() == '\r') {
        without_line_end(s.drop_last())
    } else {
        s
    }
}

/// Drops the line break (`\n`, `\r\n` or any run of them) that ends a line read from input.
pub fn strip_line_end(s: &str) -> (r: String)
    ensures
        r@ == without_line_end(s@),
{
    let cs = chars_of(s);
    let mut n = cs.len();
    proof {
        assert(cs@.take(n as int) =~= cs@);
    }
    while n > 0 && (cs[n - 1] == '\n' || cs[n - 1] == '\r')
        invariant
            n <= cs@.len(),
            cs@ == s@,
            without_line_end(s@) == without_line_end(cs@.take(n as int)),
        decreases n,
    {
        proof {
            assert(cs@.take(n as int).drop_last() =~= cs@.take(n - 1));
        }
        n = n - 1;
    }
    let r = sub_chars(&cs, 0, n);
    let out = string_from_chars(r.as_slice());
    proof {
        assert(r@ =~= cs@.take(n as int));
    }
    out
}

/// A character of the Unicode property White_Space, the whitespace that
/// `str::trim` removes: tab to carriage return, space, next line, no-break
/// space, ogham space mark, en quad to hair space, line and paragraph
/// separators, narrow no-break space, medium mathematical space and
/// ideographic space.
pub open spec fn is_white_space(c: char) -> bool {
    let u = c as u32;
    (0x09 <= u <= 0x0D) || u == 0x20 || u == 0x85 || u == 0xA0 || u == 0x1680 || (0x2000 <= u <= 0x200A) || u
        == 0x2028 || u == 0x2029 || u == 0x202F || u == 0x205F || u == 0x3000
}

/// The text without the whitespace at its start.
pub open spec fn trim_start(s: Seq<char>) -> Seq<char>
    decreases s.len(),
{
    if s.len() > 0 && is_white_space(s[0]) {
        trim_start(s.drop_first())
    } else {
        s
    }
}

/// The text without the whitespace at its end.
pub open spec fn trim_end(s: Seq<char>) -> Seq<char>
    decreases s.len(),
{
    if s.len() > 0 && is_white_space(s.last()) {
        trim_end(s.drop_last())
    } else {
        s
    }
}

/// What `str::trim` leaves of a text: the text without the whitespace at
/// either end.
pub open spec fn trimmed(s: Seq<char>) -> Seq<char> {
    trim_end(trim_start(s))
}

/// What `str::to_lowercase` gives for a text.
pub uninterp spec fn lowercased(s: Seq<char>) -> Seq<char>;

/// What `str::to_uppercase` gives for a text.
pub uninterp spec fn uppercased(s: Seq<char>) -> Seq<char>;

/// Calls `str::trim`. Claims: the result is the text less the whitespace
/// (White_Space) at both ends, as `trimmed` states, and no longer than it.
#[verifier::external_body]
pub(crate) fn text_trim(s: &str) -> (r: String)
    ensures
        r@ == trimmed(s@),
        r@.len() <= s@.len(),
{
    s.trim().to_string()
}

/// Calls `str::to_lowercase`. Claims: the result is `lowercased` of the text.
#[verifier::external_body]
pub(crate) fn text_lower(s: &str) -> (r: String)
    ensures
        r@ == lowercased(s@),
{
    s.to_lowercase()
}

/// Calls `str::to_uppercase`. Claims: the result is `uppercased` of the text.
#[verifier::external_body]
pub(crate) fn text_upper(s: &str) -> (r: String)
    ensures
        r@ == uppercased(s@),
{
    s.to_uppercase()
}

/// A character's code as `u32` is the character's number.
pub proof fn lemma_char_code(x: char)
    ensures
        (x as u32) as int == x as int,
{
}

/// The digit character of `d < 10` is a digit of value `d`.
proof fn lemma_digit_char(d: nat)
    requires
        d < 10,
    ensures
        is_digit(crate::text_fmt::digit_char(d)),
        digit_value(crate::text_fmt::digit_char(d)) == d,
{
    if d == 0 {
    } else if d == 1 {
    } else if d == 2 {
    } else if d == 3 {
    } else if d == 4 {
    } else if d == 5 {
    } else if d == 6 {
    } else if d == 7 {
    } else if d == 8 {
    } else {
    }
}

/// The digits `digits(n)` spell `n`, and are digits.
proof fn lemma_digits_spell(n: nat)
    ensures
        digits_value(crate::text_fmt::digits(n)) == n,
        all_digits(crate::text_fmt::digits(n)),
        crate::text_fmt::digits(n).len() > 0,
    decreases n,
{
    let ds = crate::text_fmt::digits(n);
    if n < 10 {
        lemma_digit_char(n);
        assert(ds.drop_last() =~= Seq::<char>::empty());
        assert(is_digit(ds[0]));
        assert(ds.last() == crate::text_fmt::digit_char(n));
        assert(digits_value(ds) == digits_value(ds.drop_last()) * 10 + digit_value(ds.last()));
        assert(digits_value(Seq::<char>::empty()) == 0);
    } else {
        lemma_digit_char(n % 10);
        let hi = crate::text_fmt::digits(n / 10);
        lemma_digits_spell(n / 10);
        let c = crate::text_fmt::digit_char(n % 10);
        assert(ds == hi + seq![c]);
        assert(ds.drop_last() =~= hi);
        assert(ds.last() == c);
        assert(digits_value(ds) == digits_value(hi) * 10 + digit_value(c));
        assert(n == (n / 10) * 10 + n % 10);
        assert(digit_value(c) == n % 10);
        assert forall|k: int| 0 <= k < ds.len() implies is_digit(#[trigger] ds[k]) by {
            if k < hi.len() {
                assert(ds[k] == hi[k]);
            }
        }
    }
}

/// Reading back the text of an integer (`std.parseInt` after `std.int`)
/// gives the integer.
pub proof fn law_parse_int_reads_int_text(n: i64)
    ensures
        spec_parse_int(crate::text_fmt::int_text(n as int)) == Some(n),
{
    let t = crate::text_fmt::int_text(n as int);
    if n < 0 {
        let ds = crate::text_fmt::digits((-n) as nat);
        lemma_digits_spell((-n) as nat);
        assert(t == seq!['-'] + ds);
        assert(t.skip(1) =~= ds);
    } else {
        let ds = crate::text_fmt::digits(n as nat);
        lemma_digits_spell(n as nat);
        assert(is_digit(ds[0]));
    }
}

/// Text order is transitive.
pub proof fn law_text_lt_transitive(a: Seq<char>, b: Seq<char>, c: Seq<char>)
    requires
        text_lt(a, b),
        text_lt(b, c),
    ensures
        text_lt(a, c),
    decreases a.len(),
{
    if a.len() > 0 && b.len() > 0 && c.len() > 0 && a[0] == b[0] && b[0] == c[0] {
        law_text_lt_transitive(a.drop_first(), b.drop_first(), c.drop_first());
    }
}

/// `text_lt` is irreflexive and asymmetric, and any two different texts are
/// ordered one way or the other.
pub proof fn law_text_order(a: Seq<char>, b: Seq<char>)
    ensures
        !text_lt(a, a),
        text_lt(a, b) ==> !text_lt(b, a),
        a != b ==> text_lt(a, b) || text_lt(b, a),
    decreases a.len(),
{
    if a.len() > 0 {
        law_text_order(a.drop_first(), a.drop_first());
    }
    if a.len() > 0 && b.len() > 0 && a[0] == b[0] {
        law_text_order(a.drop_first(), b.drop_first());
        if a.drop_first() == b.drop_first() {
            assert(a =~= seq![a[0]] + a.drop_first());
            assert(b =~= seq![b[0]] + b.drop_first());
        }
    }
    if a.len() > 0 && b.len() > 0 && a[0] != b[0] {
        lemma_char_code(a[0]);
        lemma_char_code(b[0]);
        assert((a[0] as int) != (b[0] as int));
        assert((a[0] as u32) != (b[0] as u32));
    }
    if a.len() == 0 && b.len() == 0 {
        assert(a =~= b);
    }
    if a != b && a.len() > 0 && b.len() > 0 && a[0] == b[0] {
        assert(a.drop_first() != b.drop_first());
    }
}

} // verus!
