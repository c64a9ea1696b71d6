//! Text helpers: UTF-8 decoding through std, decimal formatting and parsing,
//! pattern replacement.

use vstd::prelude::*;

verus! {

/// What `String::from_utf8_lossy` makes of a byte sequence.
pub uninterp spec fn utf8_lossy(bytes: Seq<u8>) -> Seq<char>;

/// `String::from_utf8_lossy`, made owned. Its documentation: valid UTF-8 is
/// decoded as it is; invalid sequences become U+FFFD. The second clause states
/// the first part; what invalid input becomes is left to the name.
#[verifier::external_body]
pub(crate) fn utf8_lossy_string(bytes: &[u8]) -> (s: String)
    ensures
        s@ == utf8_lossy(bytes@),
        vstd::utf8::valid_utf8(bytes@) ==> s@ == vstd::utf8::decode_utf8(bytes@),
{
    String::from_utf8_lossy(bytes).into_owned()
}

} // verus!

verus! {

/// `std::str::from_utf8`: the text when the bytes are valid UTF-8, else nothing.
#[verifier::external_body]
pub(crate) fn utf8_str(bytes: &[u8]) -> (r: Option<&str>)
    ensures
        r is Some <==> vstd::utf8::valid_utf8(bytes@),
        r matches Some(s) ==> s@ == vstd::utf8::decode_utf8(bytes@),
{
    std::str::from_utf8(bytes).ok()
}

/// `String::push`: appends one character.
#[verifier::external_body]
fn string_push(s: &mut String, c: char)
    ensures
        final(s)@ == old(s)@.push(c),
{
    s.push(c)
}

/// A `String` made of the given characters.
pub fn string_from_chars(chars: &[char]) -> (s: String)
    ensures
        s@ == chars@,
{
    let mut s = String::new();
    let mut i: usize = 0;
    while i < chars.len()
        invariant
            i <= chars@.len(),
            s@ == chars@.take(i as int),
        decreases chars@.len() - i,
    {
        string_push(&mut s, chars[i]);
        proof {
            assert(chars@.take(i + 1) =~= chars@.take(i as int).push(chars@[i as int]));
        }
        i = i + 1;
    }
    proof {
        assert(chars@.take(chars@.len() as int) =~= chars@);
    }
    s
}

/// The characters of a string, in order.
pub fn chars_of(s: &str) -> (v: Vec<char>)
    ensures
        v@ == s@,
{
    let mut v: Vec<char> = Vec::new();
    for c in it: s.chars()
        invariant
            v@ == it.seq().take(it.index() as int),
            it.seq() == s@,
    {
        v.push(c);
        proof {
            assert(v@ =~= it.seq().take(it.index() + 1));
        }
    }
    proof {
        assert(v@ =~= s@);
    }
    v
}

} // verus!

verus! {

/// The ASCII digit for `d` (0 to 9).
pub open spec fn digit_char(d: nat) -> char {
    (d + 48) as char
}

/// `n` in decimal, without leading zeros (as `to_string` writes it).
pub open spec fn decimal(n: nat) -> Seq<char>
    decreases n,
{
    if n < 10 {
        seq![digit_char(n)]
    } else {
        decimal(n / 10).push(digit_char(n % 10))
    }
}

/// A signed value in decimal, with a leading `-` when negative.
pub open spec fn decimal_int(v: int) -> Seq<char> {
    if v < 0 {
        seq!['-'] + decimal((-v) as nat)
    } else {
        decimal(v as nat)
    }
}

/// Appends the decimal digits of `n`.
pub fn push_decimal(out: &mut Vec<char>, n: u64)
    ensures
        final(out)@ == old(out)@ + decimal(n as nat),
    decreases n,
{
    if n >= 10 {
        push_decimal(out, n / 10);
    }
    let d = (n % 10) as u8;
    out.push((48u8 + d) as char);
    proof {
        assert(((48u8 + d) as u8) as char == digit_char((n % 10) as nat));
        if n >= 10 {
            assert(decimal(n as nat) == decimal((n / 10) as nat).push(digit_char((n % 10) as nat)));
        }
    }
}

/// Appends `v` in decimal, with a leading `-` when negative.
pub fn push_decimal_i64(out: &mut Vec<char>, v: i64)
    ensures
        final(out)@ == old(out)@ + decimal_int(v as int),
{
    if v < 0 {
        out.push('-');
        let m: u64 = if v == i64::MIN {
            9223372036854775808u64
        } else {
            (-v) as u64
        };
        push_decimal(out, m);
        proof {
            assert(final(out)@ =~= old(out)@ + decimal_int(v as int));
        }
    } else {
        push_decimal(out, v as u64);
    }
}

/// `n` in decimal as a `String` (the std `to_string` of an unsigned integer).
pub fn u64_to_string(n: u64) -> (s: String)
    ensures
        s@ == decimal(n as nat),
{
    let mut v: Vec<char> = Vec::new();
    push_decimal(&mut v, n);
    proof {
        assert(v@ =~= decimal(n as nat));
    }
    string_from_chars(v.as_slice())
}

/// `v` in decimal as a `String` (the std `to_string` of a signed integer).
pub fn i64_to_string(v: i64) -> (s: String)
    ensures
        s@ == decimal_int(v as int),
{
    let mut out: Vec<char> = Vec::new();
    push_decimal_i64(&mut out, v);
    proof {
        assert(out@ =~= decimal_int(v as int));
    }
    string_from_chars(out.as_slice())
}

/// Every non-overlapping occurrence of `pat`, scanning left to right,
/// replaced by `rep` (as `str::replace` does for a non-empty pattern).
pub open spec fn replace_all(s: Seq<char>, pat: Seq<char>, rep: Seq<char>) -> Seq<char>
    decreases s.len(),
{
    if pat.len() == 0 || s.len() < pat.len() {
        s
    } else if s.take(pat.len() as int) == pat {
        rep + replace_all(s.skip(pat.len() as int), pat, rep)
    } else {
        seq![s[0]] + replace_all(s.skip(1), pat, rep)
    }
}

/// Whether `pat` occurs in `s` at position `i`.
fn occurs_at(s: &Vec<char>, i: usize, pat: &Vec<char>) -> (r: bool)
    requires
        i <= s@.len(),
    ensures
        r == (i + pat@.len() <= s@.len() && s@.subrange(i as int, i + pat@.len()) == pat@),
{
    if pat.len() > s.len() - i {
        return false;
    }
    let n = s.len();
    let mut j: usize = 0;
    while j < pat.len()
        invariant
            n == s@.len(),
            i + pat@.len() <= n,
            0 <= j <= pat@.len(),
            forall|k: int| 0 <= k < j ==> s@[i + k] == pat@[k],
        decreases pat@.len() - j,
    {
        if s[i + j] != pat[j] {
            proof {
                assert(s@.subrange(i as int, i + pat@.len())[j as int] != pat@[j as int]);
            }
            return false;
        }
        j = j + 1;
    }
    proof {
        assert(s@.subrange(i as int, i + pat@.len()) =~= pat@);
    }
    true
}

/// `s` with every occurrence of the non-empty `pat` replaced by `rep`.
pub fn replace(s: &str, pat: &str, rep: &str) -> (r: String)
    requires
        pat@.len() > 0,
    ensures
        r@ == replace_all(s@, pat@, rep@),
{
    let sc = chars_of(s);
    let pc = chars_of(pat);
    let rc = chars_of(rep);
    let mut out: Vec<char> = Vec::new();
    let mut i: usize = 0;
    proof {
        assert(sc@.skip(0) =~= sc@);
        assert(out@ + replace_all(sc@, pc@, rc@) =~= replace_all(sc@, pc@, rc@));
    }
    while i < sc.len()
        invariant
            sc@ == s@,
            pc@ == pat@,
            rc@ == rep@,
            pat@.len() > 0,
            0 <= i <= sc@.len(),
            out@ + replace_all(sc@.skip(i as int), pc@, rc@) == replace_all(sc@, pc@, rc@),
        decreases sc@.len() - i,
    {
        let ghost rest = sc@.skip(i as int);
        if occurs_at(&sc, i, &pc) {
            proof {
                assert(rest.take(pc@.len() as int) =~= sc@.subrange(i as int, i + pc@.len()));
                assert(rest.skip(pc@.len() as int) =~= sc@.skip(i + pc@.len()));
                assert(out@ + rc@ + replace_all(sc@.skip(i + pc@.len()), pc@, rc@) =~= out@
                    + replace_all(rest, pc@, rc@));
            }
            let mut k: usize = 0;
            let ghost out0 = out@;
            while k < rc.len()
                invariant
                    0 <= k <= rc@.len(),
                    out@ == out0 + rc@.take(k as int),
                decreases rc@.len() - k,
            {
                out.push(rc[k]);
                proof {
                    assert(rc@.take(k + 1) =~= rc@.take(k as int).push(rc@[k as int]));
                }
                k = k + 1;
            }
            proof {
                assert(rc@.take(rc@.len() as int) =~= rc@);
            }
            i = i + pc.len();
        } else {
            proof {
                if rest.len() >= pc@.len() {
                    assert(rest.take(pc@.len() as int) =~= sc@.subrange(i as int, i + pc@.len()));
                }
                assert(rest.skip(1) =~= sc@.skip(i + 1));
                assert(rest[0] == sc@[i as int]);
                if rest.len() < pc@.len() {
                    assert(replace_all(rest, pc@, rc@) == rest);
                    assert(rest.skip(1).len() < pc@.len());
                    assert(replace_all(rest.skip(1), pc@, rc@) == rest.skip(1));
                    assert(rest =~= seq![rest[0]] + rest.skip(1));
                }
                assert(out@.push(sc@[i as int]) + replace_all(sc@.skip(i + 1), pc@, rc@) =~= out@
                    + replace_all(rest, pc@, rc@));
            }
            out.push(sc[i]);
            i = i + 1;
        }
    }
    proof {
        assert(sc@.skip(sc@.len() as int) =~= Seq::<char>::empty());
        assert(out@ + Seq::<char>::empty() =~= out@);
    }
    string_from_chars(out.as_slice())
}

} // verus!

verus! {

pub open spec fn is_digit(c: char) -> bool {
    '0' <= c && c <= '9'
}

pub open spec fn all_digits(s: Seq<char>) -> bool {
    forall|i: int| 0 <= i < s.len() ==> is_digit(#[trigger] s[i])
}

/// The value of a run of decimal digits.
pub open spec fn digits_value(s: Seq<char>) -> int
    decreases s.len(),
{
    if s.len() == 0 {
        0
    } else {
        digits_value(s.drop_last()) * 10 + (s.last() as int - 48)
    }
}

/// The integer that `str::parse` reads: an optional `+` or `-`, then one or
/// more ASCII digits and nothing else. (The range check is the caller's.)
pub open spec fn parse_int(s: Seq<char>) -> Option<int> {
    if s.len() > 0 && (s[0] == '-' || s[0] == '+') {
        let body = s.skip(1);
        if body.len() > 0 && all_digits(body) {
            Some(
                if s[0] == '-' {
                    -digits_value(body)
                } else {
                    digits_value(body)
                },
            )
        } else {
            None
        }
    } else if s.len() > 0 && all_digits(s) {
        Some(digits_value(s))
    } else {
        None
    }
}

/// The value that `parse` gives for an integer type with range `lo..=hi`.
pub open spec fn parse_in_range(s: Seq<char>, lo: int, hi: int) -> Option<int> {
    match parse_int(s) {
        Some(v) => if lo <= v <= hi {
            Some(v)
        } else {
            None
        },
        None => None,
    }
}

/// Digits only make a value grow as more follow.
proof fn lemma_digits_value_grows(s: Seq<char>, k: int)
    requires
        all_digits(s),
        0 <= k <= s.len(),
    ensures
        0 <= digits_value(s.take(k)) <= digits_value(s),
    decreases s.len(),
{
    if s.len() == 0 {
        assert(s.take(k) =~= s);
    } else if k == s.len() {
        assert(s.take(k) =~= s);
        lemma_digits_value_grows(s.drop_last(), k - 1);
    } else {
        assert(s.take(k) =~= s.drop_last().take(k));
        lemma_digits_value_grows(s.drop_last(), k);
        lemma_digits_value_grows(s.drop_last(), s.len() - 1);
        assert(s.drop_last().take(s.len() - 1) =~= s.drop_last());
    }
}

/// Parses an integer the way `str::parse` does for an integer type whose
/// range is `lo..=hi`.
pub fn parse_integer(s: &[char], lo: i64, hi: i64) -> (r: Option<i64>)
    requires
        -1_000_000_000_000 <= lo <= 0 <= hi <= 1_000_000_000_000,
    ensures
        r matches Some(v) ==> parse_in_range(s@, lo as int, hi as int) == Some(v as int),
        r is None ==> parse_in_range(s@, lo as int, hi as int) is None,
{
    let n = s.len();
    if n == 0 {
        return None;
    }
    let negative = s[0] == '-';
    let start: usize = if s[0] == '-' || s[0] == '+' {
        1
    } else {
        0
    };
    if start == n {
        return None;
    }
    let ghost body = s@.skip(start as int);
    let limit: u64 = 1_000_000_000_000;
    let mut acc: u64 = 0;
    let mut i: usize = start;
    while i < n
        invariant
            n == s@.len(),
            start <= i <= n,
            start < n,
            body == s@.skip(start as int),
            all_digits(body.take(i - start)),
            acc == digits_value(body.take(i - start)),
            acc <= limit,
            limit == 1_000_000_000_000,
            -1_000_000_000_000 <= lo <= 0 <= hi <= 1_000_000_000_000,
            start == 1 <==> (s@[0] == '-' || s@[0] == '+'),
            start <= 1,
            negative == (s@[0] == '-'),
        decreases n - i,
    {
        let c = s[i];
        if !('0' <= c && c <= '9') {
            proof {
                assert(body[i - start] == c);
                assert(!all_digits(body));
                if start == 0 {
                    assert(body =~= s@);
                }
            }
            return None;
        }
        let d = (c as u32 - 48) as u64;
        proof {
            let t = body.take(i - start + 1);
            assert(t.drop_last() =~= body.take(i - start));
            assert(t.last() == c);
        }
        acc = acc * 10 + d;
        i = i + 1;
        proof {
            assert forall|k: int| 0 <= k < body.take(i - start).len() implies is_digit(
                #[trigger] body.take(i - start)[k],
            ) by {
                if k < i - 1 - start {
                    assert(body.take(i - start)[k] == body.take(i - 1 - start)[k]);
                }
            }
        }
        if acc > limit {
            proof {
                if all_digits(body) {
                    lemma_digits_value_grows(body, i - start);
                }
                if start == 0 {
                    assert(body =~= s@);
                }
            }
            return None;
        }
    }
    proof {
        assert(body.take(n - start) =~= body);
        if start == 0 {
            assert(body =~= s@);
        }
    }
    let v: i64 = if negative {
        -(acc as i64)
    } else {
        acc as i64
    };
    if v < lo || v > hi {
        return None;
    }
    Some(v)
}

/// White space as `char::is_whitespace` defines it (Unicode `White_Space`).
pub open spec fn is_white_space(c: char) -> bool {
    ||| c == '\t'
    ||| c == '\n'
    ||| c == '\u{0B}'
    ||| c == '\u{0C}'
    ||| c == '\r'
    ||| c == ' '
    ||| c == '\u{85}'
    ||| c == '\u{A0}'
    ||| c == '\u{1680}'
    ||| ('\u{2000}' <= c && c <= '\u{200A}')
    ||| c == '\u{2028}'
    ||| c == '\u{2029}'
    ||| c == '\u{202F}'
    ||| c == '\u{205F}'
    ||| c == '\u{3000}'
}

fn white_space(c: char) -> (r: bool)
    ensures
        r == is_white_space(c),
{
    c == '\t' || c == '\n' || c == '\u{0B}' || c == '\u{0C}' || c == '\r' || c == ' ' || c
        == '\u{85}' || c == '\u{A0}' || c == '\u{1680}' || ('\u{2000}' <= c && c <= '\u{200A}')
        || c == '\u{2028}' || c == '\u{2029}' || c == '\u{202F}' || c == '\u{205F}' || c
        == '\u{3000}'
}

/// `s` without its leading white space.
pub open spec fn trim_start(s: Seq<char>) -> Seq<char>
    decreases s.len(),
{
    if s.len() > 0 && is_white_space(s[0]) {
        trim_start(s.skip(1))
    } else {
        s
    }
}

/// `s` without its trailing white space.
pub open spec fn trim_end(s: Seq<char>) -> Seq<char>
    decreases s.len(),
{
    if s.len() > 0 && is_white_space(s.last()) {
        trim_end(s.drop_last())
    } else {
        s
    }
}

/// `s` without leading and trailing white space (as `str::trim`).
pub open spec fn trim(s: Seq<char>) -> Seq<char> {
    trim_end(trim_start(s))
}

/// The characters of `s` without leading and trailing white space.
pub fn trim_chars(s: &[char]) -> (r: Vec<char>)
    ensures
        r@ == trim(s@),
{
    let n = s.len();
    let mut a: usize = 0;
    proof {
        assert(s@.skip(0) =~= s@);
    }
    while a < n && white_space(s[a])
        invariant
            n == s@.len(),
            a <= n,
            trim_start(s@) == trim_start(s@.skip(a as int)),
        decreases n - a,
    {
        proof {
            assert(s@.skip(a as int).skip(1) =~= s@.skip(a + 1));
        }
        a = a + 1;
    }
    let ghost mid = s@.skip(a as int);
    proof {
        assert(trim_start(mid) == mid);
    }
    let mut b: usize = n;
    while b > a && white_space(s[b - 1])
        invariant
            n == s@.len(),
            a <= b <= n,
            mid == s@.skip(a as int),
            trim_end(mid) == trim_end(s@.subrange(a as int, b as int)),
        decreases b,
    {
        proof {
            assert(s@.subrange(a as int, b as int).drop_last() =~= s@.subrange(a as int, b - 1));
        }
        b = b - 1;
    }
    proof {
        assert(mid =~= s@.subrange(a as int, n as int));
    }
    let mut out: Vec<char> = Vec::new();
    let mut i: usize = a;
    while i < b
        invariant
            a <= i <= b <= n,
            n == s@.len(),
            out@ == s@.subrange(a as int, i as int),
        decreases b - i,
    {
        out.push(s[i]);
        proof {
            assert(out@ =~= s@.subrange(a as int, i + 1));
        }
        i = i + 1;
    }
    out
}

} // verus!

verus! {

/// Appends the characters of `s`.
pub fn push_str(out: &mut Vec<char>, s: &str)
    ensures
        final(out)@ == old(out)@ + s@,
{
    let cs = chars_of(s);
    let ghost start = out@;
    let mut i: usize = 0;
    while i < cs.len()
        invariant
            0 <= i <= cs@.len(),
            cs@ == s@,
            out@ == start + cs@.take(i as int),
        decreases cs@.len() - i,
    {
        out.push(cs[i]);
        proof {
            assert(cs@.take(i + 1) =~= cs@.take(i as int).push(cs@[i as int]));
        }
        i = i + 1;
    }
    proof {
        assert(cs@.take(cs@.len() as int) =~= cs@);
    }
}

} // verus!
