//! Character-level helpers shared by the grammars: UTF-8 widths, building
//! strings from character runs, and the small predicates the line parsers
//! scan with.
use vstd::prelude::*;

verus! {

/// Number of bytes the UTF-8 encoding of `c` takes.
pub open spec fn char_width(c: char) -> nat {
    if (c as u32) < 0x80 {
        1
    } else if (c as u32) < 0x800 {
        2
    } else if (c as u32) < 0x10000 {
        3
    } else {
        4
    }
}

/// Byte length of the UTF-8 encoding of `s`.
pub open spec fn utf8_len(s: Seq<char>) -> nat
    decreases s.len(),
{
    if s.len() == 0 {
        0
    } else {
        utf8_len(s.drop_last()) + char_width(s.last())
    }
}

pub proof fn lemma_utf8_len_concat(a: Seq<char>, b: Seq<char>)
    ensures
        utf8_len(a + b) == utf8_len(a) + utf8_len(b),
    decreases b.len(),
{
    if b.len() == 0 {
        assert(a + b =~= a);
    } else {
        lemma_utf8_len_concat(a, b.drop_last());
        assert((a + b).drop_last() =~= a + b.drop_last());
    }
}

pub proof fn lemma_utf8_len_prefix(s: Seq<char>, i: int, j: int)
    requires
        0 <= i <= j <= s.len(),
    ensures
        utf8_len(s.subrange(0, i)) + utf8_len(s.subrange(i, j)) == utf8_len(s.subrange(0, j)),
        utf8_len(s.subrange(0, i)) <= utf8_len(s.subrange(0, j)),
        utf8_len(s.subrange(0, j)) <= utf8_len(s),
{
    lemma_utf8_len_concat(s.subrange(0, i), s.subrange(i, j));
    assert(s.subrange(0, i) + s.subrange(i, j) =~= s.subrange(0, j));
    lemma_utf8_len_concat(s.subrange(0, j), s.subrange(j, s.len() as int));
    assert(s.subrange(0, j) + s.subrange(j, s.len() as int) =~= s);
}

/// The width agrees with the encoding vstd gives `str::len`.
pub proof fn lemma_utf8_len_is_encoding_len(s: Seq<char>)
    ensures
        utf8_len(s) == vstd::utf8::encode_utf8(s).len(),
    decreases s.len(),
{
    if s.len() > 0 {
        let c = s[0];
        vstd::utf8::char_is_scalar(c);
        lemma_utf8_len_is_encoding_len(s.drop_first());
        lemma_utf8_len_concat(seq![c], s.drop_first());
        assert(seq![c] + s.drop_first() =~= s);
        assert(seq![c].drop_last() =~= Seq::<char>::empty());
        assert(seq![c].last() == c);
        assert(utf8_len(Seq::<char>::empty()) == 0);
        assert(utf8_len(seq![c]) == utf8_len(seq![c].drop_last()) + char_width(seq![c].last()));
        assert(utf8_len(seq![c]) == char_width(c));
        assert(vstd::utf8::encode_scalar(c as u32).len() == char_width(c));
        assert(vstd::utf8::encode_utf8(s) == vstd::utf8::encode_scalar(c as u32)
            + vstd::utf8::encode_utf8(s.drop_first()));
    }
}

/// `c` is a space or a tab.
pub open spec fn is_blank(c: char) -> bool {
    c == ' ' || c == '\t'
}

/// Unicode `White_Space`, the set `char::is_whitespace` and `str::trim` use.
pub open spec fn is_unicode_ws(c: char) -> bool {
    ||| ('\u{9}' <= c && c <= '\u{d}')
    ||| c == ' '
    ||| c == '\u{85}'
    ||| c == '\u{a0}'
    ||| c == '\u{1680}'
    ||| ('\u{2000}' <= c && c <= '\u{200a}')
    ||| c == '\u{2028}'
    ||| c == '\u{2029}'
    ||| c == '\u{202f}'
    ||| c == '\u{205f}'
    ||| c == '\u{3000}'
}

pub fn is_unicode_ws_exec(c: char) -> (r: bool)
    ensures
        r == is_unicode_ws(c),
{
    ('\u{9}' <= c && c <= '\u{d}') || c == ' ' || c == '\u{85}' || c == '\u{a0}' || c
        == '\u{1680}' || ('\u{2000}' <= c && c <= '\u{200a}') || c == '\u{2028}' || c
        == '\u{2029}' || c == '\u{202f}' || c == '\u{205f}' || c == '\u{3000}'
}

/// Appends one character with `String::push`; the contract claims that the
/// string's characters afterwards are the old ones followed by `c`.
#[verifier::external_body]
pub(crate) fn push_char(s: &mut String, c: char)
    ensures
        final(s)@ == old(s)@.push(c),
{
    s.push(c)
}

/// Appends the characters of `t`.
pub fn push_str(s: &mut String, t: &str)
    ensures
        final(s)@ == old(s)@ + t@,
{
    let v = chars_of(t);
    let mut i: usize = 0;
    while i < v.len()
        invariant
            v@ == t@,
            i <= v@.len(),
            s@ == old(s)@ + v@.subrange(0, i as int),
        decreases v@.len() - i,
    {
        push_char(s, v[i]);
        i = i + 1;
        assert(s@ =~= old(s)@ + v@.subrange(0, i as int));
    }
    assert(v@.subrange(0, v@.len() as int) =~= v@);
}

/// `a`, `b` and `c` joined.
pub fn concat3(a: &str, b: &str, c: &str) -> (r: String)
    ensures
        r@ == a@ + b@ + c@,
{
    let mut s = String::new();
    push_str(&mut s, a);
    push_str(&mut s, b);
    push_str(&mut s, c);
    assert(s@ =~= a@ + b@ + c@);
    s
}

/// The texts of a list of string slices.
pub open spec fn str_views(v: Seq<&str>) -> Seq<Seq<char>> {
    v.map_values(|s: &str| s@)
}

/// The texts of a list of strings.
pub open spec fn string_views(v: Seq<String>) -> Seq<Seq<char>> {
    v.map_values(|s: String| s@)
}

pub proof fn lemma_string_views_push(v: Seq<String>, t: String)
    ensures
        string_views(v.push(t)) == string_views(v).push(t@),
{
    assert(string_views(v.push(t)) =~= string_views(v).push(t@));
}

/// A copy of a list of strings.
pub fn clone_strings(v: &Vec<String>) -> (r: Vec<String>)
    ensures
        string_views(r@) == string_views(v@),
{
    let mut out: Vec<String> = Vec::new();
    let mut i: usize = 0;
    while i < v.len()
        invariant
            i <= v@.len(),
            string_views(out@) == string_views(v@).subrange(0, i as int),
        decreases v@.len() - i,
    {
        let ghost before = out@;
        let t = v[i].clone();
        out.push(t);
        proof {
            lemma_string_views_push(before, t);
            assert(string_views(v@).subrange(0, i as int).push(v@[i as int]@) =~= string_views(v@).subrange(0, i + 1));
        }
        i = i + 1;
    }
    assert(string_views(v@).subrange(0, v@.len() as int) =~= string_views(v@));
    out
}

pub proof fn lemma_str_views_push(v: Seq<&str>, t: &str)
    ensures
        str_views(v.push(t)) == str_views(v).push(t@),
{
    assert(str_views(v.push(t)) =~= str_views(v).push(t@));
}

/// The characters of `s`, in order.
pub fn chars_of(s: &str) -> (r: Vec<char>)
    ensures
        r@ == s@,
{
    let n = s.unicode_len();
    let mut out: Vec<char> = Vec::new();
    let mut i: usize = 0;
    while i < n
        invariant
            n == s@.len(),
            i <= n,
            out@ == s@.subrange(0, i as int),
        decreases n - i,
    {
        out.push(s.get_char(i));
        i = i + 1;
        assert(out@ =~= s@.subrange(0, i as int));
    }
    assert(s@.subrange(0, n as int) =~= s@);
    out
}

/// A new string holding `v[a..b]`.
pub fn string_of(v: &Vec<char>, a: usize, b: usize) -> (r: String)
    requires
        a <= b <= v@.len(),
    ensures
        r@ == v@.subrange(a as int, b as int),
{
    let mut out = String::new();
    let mut i = a;
    while i < b
        invariant
            a <= i <= b <= v@.len(),
            out@ == v@.subrange(a as int, i as int),
        decreases b - i,
    {
        push_char(&mut out, v[i]);
        i = i + 1;
        assert(out@ =~= v@.subrange(a as int, i as int));
    }
    out
}

pub fn char_width_exec(c: char) -> (r: usize)
    ensures
        r == char_width(c),
{
    if (c as u32) < 0x80 {
        1
    } else if (c as u32) < 0x800 {
        2
    } else if (c as u32) < 0x10000 {
        3
    } else {
        4
    }
}

/// `offs[i]` is the byte offset of character `i`; `offs` has one entry
/// more than `v`.
pub fn byte_offsets(v: &Vec<char>) -> (offs: Vec<usize>)
    requires
        utf8_len(v@) <= usize::MAX,
    ensures
        offs@.len() == v@.len() + 1,
        forall|i: int| 0 <= i <= v@.len() ==> #[trigger] offs@[i] == utf8_len(v@.subrange(0, i)),
{
    let mut offs: Vec<usize> = Vec::new();
    offs.push(0);
    let mut i: usize = 0;
    let mut acc: usize = 0;
    assert(v@.subrange(0, 0) =~= Seq::<char>::empty());
    while i < v.len()
        invariant
            i <= v@.len(),
            utf8_len(v@) <= usize::MAX,
            offs@.len() == i + 1,
            acc == utf8_len(v@.subrange(0, i as int)),
            forall|j: int| 0 <= j <= i ==> #[trigger] offs@[j] == utf8_len(v@.subrange(0, j)),
        decreases v@.len() - i,
    {
        proof {
            lemma_utf8_len_prefix(v@, i + 1, i + 1);
            assert(v@.subrange(0, i + 1).drop_last() =~= v@.subrange(0, i as int));
        }
        let w = char_width_exec(v[i]);
        acc = acc + w;
        i = i + 1;
        offs.push(acc);
    }
    offs
}

} // verus!

verus! {

pub open spec fn digit_char(d: nat) -> char {
    if d == 0 { '0' } else if d == 1 { '1' } else if d == 2 { '2' } else if d == 3 { '3' }
    else if d == 4 { '4' } else if d == 5 { '5' } else if d == 6 { '6' } else if d == 7 { '7' }
    else if d == 8 { '8' } else { '9' }
}

/// The decimal digits of `n`, most significant first, with no leading zero.
pub open spec fn dec(n: nat) -> Seq<char>
    decreases n,
{
    if n < 10 {
        seq![digit_char(n)]
    } else {
        dec(n / 10).push(digit_char(n % 10))
    }
}

fn digit_char_exec(d: u64) -> (r: char)
    requires
        d < 10,
    ensures
        r == digit_char(d as nat),
{
    if d == 0 { '0' } else if d == 1 { '1' } else if d == 2 { '2' } else if d == 3 { '3' }
    else if d == 4 { '4' } else if d == 5 { '5' } else if d == 6 { '6' } else if d == 7 { '7' }
    else if d == 8 { '8' } else { '9' }
}

/// Appends the decimal digits of `n`.
pub fn push_dec(out: &mut String, n: u64)
    ensures
        final(out)@ == old(out)@ + dec(n as nat),
    decreases n,
{
    if n < 10 {
        push_char(out, digit_char_exec(n));
        assert(old(out)@.push(digit_char(n as nat)) =~= old(out)@ + dec(n as nat));
    } else {
        push_dec(out, n / 10);
        push_char(out, digit_char_exec(n % 10));
        assert(old(out)@ + dec((n / 10) as nat) + seq![digit_char((n % 10) as nat)] =~= old(out)@ + dec(n as nat));
    }
}

/// The decimal text of `n`.
pub fn dec_string(n: u64) -> (r: String)
    ensures
        r@ == dec(n as nat),
{
    let mut s = String::new();
    push_dec(&mut s, n);
    assert(s@ =~= dec(n as nat));
    s
}

/// The decimal text of an integer, with a leading `-` when negative.
pub open spec fn int_text(i: int) -> Seq<char> {
    if i < 0 {
        seq!['-'] + dec((-i) as nat)
    } else {
        dec(i as nat)
    }
}

/// Appends the decimal text of `i`.
pub fn push_i64(out: &mut String, i: i64)
    ensures
        final(out)@ == old(out)@ + int_text(i as int),
{
    if i < 0 {
        push_char(out, '-');
        let m: u64 = if i == i64::MIN {
            0x8000_0000_0000_0000u64
        } else {
            (-i) as u64
        };
        push_dec(out, m);
        assert(final(out)@ =~= old(out)@ + int_text(i as int));
    } else {
        push_dec(out, i as u64);
    }
}

pub open spec fn is_digit(c: char) -> bool {
    '0' <= c && c <= '9'
}

pub open spec fn digit_value(c: char) -> nat {
    ((c as u32) - ('0' as u32)) as nat
}

/// The number the decimal digits `d` spell.
pub open spec fn digits_value(d: Seq<char>) -> nat
    decreases d.len(),
{
    if d.len() == 0 {
        0
    } else {
        digits_value(d.drop_last()) * 10 + digit_value(d.last())
    }
}

pub open spec fn all_digits(d: Seq<char>) -> bool {
    forall|i: int| 0 <= i < d.len() ==> #[trigger] is_digit(d[i])
}

/// Unsigned decimal as `str::parse` reads it: an optional `+`, then at least
/// one digit; `None` when that is not the form or the value passes `max`.
pub open spec fn parse_unsigned(s: Seq<char>, max: nat) -> Option<nat> {
    let d = if s.len() > 0 && s[0] == '+' { s.subrange(1, s.len() as int) } else { s };
    if d.len() > 0 && all_digits(d) && digits_value(d) <= max {
        Some(digits_value(d))
    } else {
        None
    }
}

/// Signed decimal as `str::parse::<i64>` reads it: an optional `+` or `-`,
/// then at least one digit, within `i64`.
pub open spec fn parse_i64(s: Seq<char>) -> Option<int> {
    if s.len() > 0 && s[0] == '-' {
        let d = s.subrange(1, s.len() as int);
        if d.len() > 0 && all_digits(d) && digits_value(d) <= 0x8000_0000_0000_0000 {
            Some(-digits_value(d))
        } else {
            None
        }
    } else {
        match parse_unsigned(s, 0x7fff_ffff_ffff_ffff) {
            Some(v) => Some(v as int),
            None => None,
        }
    }
}

proof fn lemma_digits_value_push(d: Seq<char>, c: char)
    ensures
        digits_value(d.push(c)) == digits_value(d) * 10 + digit_value(c),
{
    assert(d.push(c).drop_last() =~= d);
}

/// Reads the digits of `s[a..b]` as a number no greater than `max`.
fn digits_exec(s: &Vec<char>, a: usize, b: usize, max: u64) -> (r: Option<u64>)
    requires
        a <= b <= s@.len(),
        max >= 9,
    ensures
        r == (if b > a && all_digits(s@.subrange(a as int, b as int)) && digits_value(
            s@.subrange(a as int, b as int),
        ) <= max {
            Some(digits_value(s@.subrange(a as int, b as int)) as u64)
        } else {
            None
        }),
{
    if a == b {
        return None;
    }
    let mut v: u64 = 0;
    let mut i = a;
    let mut over = false;
    assert(s@.subrange(a as int, a as int) =~= Seq::<char>::empty());
    while i < b
        invariant
            a <= i <= b <= s@.len(),
            max >= 9,
            all_digits(s@.subrange(a as int, i as int)),
            !over ==> v == digits_value(s@.subrange(a as int, i as int)) && v <= max,
            over ==> digits_value(s@.subrange(a as int, i as int)) > max,
        decreases b - i,
    {
        let c = s[i];
        if !('0' <= c && c <= '9') {
            assert(!all_digits(s@.subrange(a as int, b as int))) by {
                assert(s@.subrange(a as int, b as int)[i - a] == c);
                assert(!is_digit(s@.subrange(a as int, b as int)[i - a]));
            }
            return None;
        }
        proof {
            assert(s@.subrange(a as int, i + 1) =~= s@.subrange(a as int, i as int).push(c));
            lemma_digits_value_push(s@.subrange(a as int, i as int), c);
        }
        let dv = (c as u32 - '0' as u32) as u64;
        if !over {
            if v > (max - dv) / 10 {
                over = true;
                assert(v * 10 + dv > max) by (nonlinear_arith)
                    requires v > (max - dv) / 10, dv <= 9, max >= 9;
            } else {
                assert(v * 10 + dv <= max) by (nonlinear_arith)
                    requires v <= (max - dv) / 10, dv <= 9;
                v = v * 10 + dv;
            }
        } else {
            assert(digits_value(s@.subrange(a as int, i as int)) * 10 + dv > max) by (nonlinear_arith)
                requires digits_value(s@.subrange(a as int, i as int)) > max;
        }
        i = i + 1;
    }
    if over {
        None
    } else {
        Some(v)
    }
}

/// `str::parse` for an unsigned type whose largest value is `max`.
pub fn parse_unsigned_exec(s: &Vec<char>, max: u64) -> (r: Option<u64>)
    requires
        max >= 9,
    ensures
        r == (match parse_unsigned(s@, max as nat) {
            Some(v) => Some(v as u64),
            None => None,
        }),
{
    if s.len() > 0 && s[0] == '+' {
        let r = digits_exec(s, 1, s.len(), max);
        r
    } else {
        assert(s@.subrange(0, s@.len() as int) =~= s@);
        digits_exec(s, 0, s.len(), max)
    }
}

/// `str::parse::<i64>`.
pub fn parse_i64_exec(s: &Vec<char>) -> (r: Option<i64>)
    ensures
        r == (match parse_i64(s@) {
            Some(v) => Some(v as i64),
            None => None,
        }),
{
    if s.len() > 0 && s[0] == '-' {
        match digits_exec(s, 1, s.len(), 0x8000_0000_0000_0000u64) {
            Some(m) => {
                if m == 0x8000_0000_0000_0000u64 {
                    Some(i64::MIN)
                } else {
                    Some(-(m as i64))
                }
            },
            None => None,
        }
    } else {
        match parse_unsigned_exec(s, 0x7fff_ffff_ffff_ffffu64) {
            Some(v) => Some(v as i64),
            None => None,
        }
    }
}

/// Whether two strings hold the same characters.
pub fn str_eq(a: &str, b: &str) -> (r: bool)
    ensures
        r == (a@ == b@),
{
    let x = chars_of(a);
    let y = chars_of(b);
    if x.len() != y.len() {
        return false;
    }
    let mut i: usize = 0;
    while i < x.len()
        invariant
            x@ == a@,
            y@ == b@,
            x@.len() == y@.len(),
            i <= x@.len(),
            forall|j: int| 0 <= j < i ==> x@[j] == y@[j],
        decreases x@.len() - i,
    {
        if x[i] != y[i] {
            return false;
        }
        i = i + 1;
    }
    assert(x@ =~= y@);
    true
}

/// The code of `c` with ASCII capitals lowered.
pub open spec fn ascii_lower(c: char) -> u32 {
    if 'A' <= c && c <= 'Z' {
        ((c as u32) + 32) as u32
    } else {
        c as u32
    }
}

/// `a` and `b` are equal up to ASCII case (`eq_ignore_ascii_case`).
pub open spec fn eq_ignore_ascii_case(a: Seq<char>, b: Seq<char>) -> bool {
    a.len() == b.len() && forall|i: int| 0 <= i < a.len() ==> #[trigger] ascii_lower(a[i]) == ascii_lower(b[i])
}

pub fn ascii_lower_exec(c: char) -> (r: u32)
    ensures
        r == ascii_lower(c),
{
    if 'A' <= c && c <= 'Z' {
        c as u32 + 32
    } else {
        c as u32
    }
}

pub fn eq_ignore_ascii_case_exec(a: &str, b: &str) -> (r: bool)
    ensures
        r == eq_ignore_ascii_case(a@, b@),
{
    let x = chars_of(a);
    let y = chars_of(b);
    if x.len() != y.len() {
        return false;
    }
    let mut i: usize = 0;
    while i < x.len()
        invariant
            x@ == a@,
            y@ == b@,
            x@.len() == y@.len(),
            i <= x@.len(),
            forall|j: int| 0 <= j < i ==> #[trigger] ascii_lower(x@[j]) == ascii_lower(y@[j]),
        decreases x@.len() - i,
    {
        if ascii_lower_exec(x[i]) != ascii_lower_exec(y[i]) {
            return false;
        }
        i = i + 1;
    }
    true
}

/// `s` without its leading `ch` characters.
pub open spec fn trim_start_char(s: Seq<char>, ch: char) -> Seq<char>
    decreases s.len(),
{
    if s.len() > 0 && s[0] == ch {
        trim_start_char(s.subrange(1, s.len() as int), ch)
    } else {
        s
    }
}

/// `s` without leading and trailing Unicode whitespace (`str::trim`).
pub open spec fn trim_ws(s: Seq<char>) -> Seq<char> {
    trim_ws_end(trim_ws_start(s))
}

pub open spec fn trim_ws_start(s: Seq<char>) -> Seq<char>
    decreases s.len(),
{
    if s.len() > 0 && is_unicode_ws(s[0]) {
        trim_ws_start(s.subrange(1, s.len() as int))
    } else {
        s
    }
}

pub open spec fn trim_ws_end(s: Seq<char>) -> Seq<char>
    decreases s.len(),
{
    if s.len() > 0 && is_unicode_ws(s[s.len() - 1]) {
        trim_ws_end(s.subrange(0, s.len() - 1))
    } else {
        s
    }
}

/// Start index of `trim_start_char(s[a..b])`.
fn trim_start_char_pos(s: &Vec<char>, a: usize, b: usize, ch: char) -> (r: usize)
    requires
        a <= b <= s@.len(),
    ensures
        a <= r <= b,
        s@.subrange(r as int, b as int) == trim_start_char(s@.subrange(a as int, b as int), ch),
{
    let mut i = a;
    while i < b && s[i] == ch
        invariant
            a <= i <= b <= s@.len(),
            trim_start_char(s@.subrange(i as int, b as int), ch) == trim_start_char(s@.subrange(a as int, b as int), ch),
        decreases b - i,
    {
        assert(s@.subrange(i as int, b as int).subrange(1, (b - i) as int) =~= s@.subrange(i + 1, b as int));
        i = i + 1;
    }
    i
}

fn trim_ws_bounds(s: &Vec<char>, a: usize, b: usize) -> (r: (usize, usize))
    requires
        a <= b <= s@.len(),
    ensures
        a <= r.0 <= r.1 <= b,
        s@.subrange(r.0 as int, r.1 as int) == trim_ws(s@.subrange(a as int, b as int)),
{
    let mut i = a;
    while i < b && is_unicode_ws_exec(s[i])
        invariant
            a <= i <= b <= s@.len(),
            trim_ws_start(s@.subrange(i as int, b as int)) == trim_ws_start(s@.subrange(a as int, b as int)),
        decreases b - i,
    {
        assert(s@.subrange(i as int, b as int).subrange(1, (b - i) as int) =~= s@.subrange(i + 1, b as int));
        i = i + 1;
    }
    let mut j = b;
    while j > i && is_unicode_ws_exec(s[j - 1])
        invariant
            a <= i <= j <= b <= s@.len(),
            trim_ws_end(s@.subrange(i as int, j as int)) == trim_ws_end(s@.subrange(i as int, b as int)),
        decreases j,
    {
        assert(s@.subrange(i as int, j as int).subrange(0, (j - i - 1) as int) =~= s@.subrange(i as int, j - 1));
        j = j - 1;
    }
    (i, j)
}

/// `str::trim`.
pub fn trim_ws_string(s: &str) -> (r: String)
    ensures
        r@ == trim_ws(s@),
{
    let v = chars_of(s);
    let (i, j) = trim_ws_bounds(&v, 0, v.len());
    assert(v@.subrange(0, v@.len() as int) =~= v@);
    string_of(&v, i, j)
}

/// `s.trim_start_matches('#').trim()`, how comment tokens become comment values.
pub open spec fn comment_value(s: Seq<char>) -> Seq<char> {
    trim_ws(trim_start_char(s, '#'))
}

pub fn comment_value_exec(s: &str) -> (r: String)
    ensures
        r@ == comment_value(s@),
{
    let v = chars_of(s);
    let i = trim_start_char_pos(&v, 0, v.len(), '#');
    assert(v@.subrange(0, v@.len() as int) =~= v@);
    let (a, b) = trim_ws_bounds(&v, i, v.len());
    assert(v@.subrange(a as int, b as int) == trim_ws(v@.subrange(i as int, v@.len() as int)));
    string_of(&v, a, b)
}

/// Unicode control characters (general category Cc), what `char::is_control` tests.
pub open spec fn is_control(c: char) -> bool {
    (c as u32) <= 0x1f || (0x7f <= (c as u32) && (c as u32) <= 0x9f)
}

pub fn has_control(s: &str) -> (r: bool)
    ensures
        r == exists|i: int| 0 <= i < s@.len() && #[trigger] is_control(s@[i]),
{
    let v = chars_of(s);
    let mut i: usize = 0;
    while i < v.len()
        invariant
            v@ == s@,
            i <= v@.len(),
            forall|j: int| 0 <= j < i ==> !#[trigger] is_control(v@[j]),
        decreases v@.len() - i,
    {
        let u = v[i] as u32;
        if u <= 0x1f || (0x7f <= u && u <= 0x9f) {
            assert(is_control(s@[i as int]));
            return true;
        }
        i = i + 1;
    }
    false
}


/// The first index at or after `i` holding whitespace, or the end.
pub open spec fn ws_end(s: Seq<char>, i: int) -> int
    decreases s.len() - i,
{
    if i >= s.len() || is_unicode_ws(s[i]) {
        i
    } else {
        ws_end(s, i + 1)
    }
}

pub proof fn lemma_ws_end(s: Seq<char>, i: int)
    requires
        0 <= i <= s.len(),
    ensures
        i <= ws_end(s, i) <= s.len(),
        ws_end(s, i) < s.len() ==> is_unicode_ws(s[ws_end(s, i)]),
    decreases s.len() - i,
{
    if i < s.len() && !is_unicode_ws(s[i]) {
        lemma_ws_end(s, i + 1);
    }
}

/// The words of `s` between runs of whitespace (`str::split_whitespace`).
pub open spec fn split_ws(s: Seq<char>) -> Seq<Seq<char>>
    decreases s.len(),
{
    if s.len() == 0 {
        Seq::empty()
    } else if is_unicode_ws(s[0]) {
        split_ws(s.subrange(1, s.len() as int))
    } else {
        let e = ws_end(s, 0);
        if e <= 0 || e > s.len() {
            Seq::empty()
        } else {
            seq![s.subrange(0, e)] + split_ws(s.subrange(e, s.len() as int))
        }
    }
}

proof fn lemma_ws_end_shift(s: Seq<char>, i: int, k: int)
    requires
        0 <= i <= k <= s.len(),
    ensures
        ws_end(s.subrange(i, s.len() as int), k - i) == ws_end(s, k) - i,
    decreases s.len() - k,
{
    if k < s.len() && !is_unicode_ws(s[k]) {
        lemma_ws_end_shift(s, i, k + 1);
    }
}

/// `str::split_whitespace`.
pub fn split_whitespace_exec(s: &str) -> (r: Vec<String>)
    ensures
        string_views(r@) == split_ws(s@),
{
    let v = chars_of(s);
    let n = v.len();
    let mut out: Vec<String> = Vec::new();
    let mut i: usize = 0;
    assert(v@.subrange(0, n as int) =~= v@);
    while i < n
        invariant
            v@ == s@,
            n == v@.len(),
            i <= n,
            string_views(out@) + split_ws(v@.subrange(i as int, n as int)) == split_ws(s@),
        decreases n - i,
    {
        let ghost rest = v@.subrange(i as int, n as int);
        if is_unicode_ws_exec(v[i]) {
            assert(rest.subrange(1, rest.len() as int) =~= v@.subrange(i + 1, n as int));
            i = i + 1;
        } else {
            let mut e = i;
            while e < n && !is_unicode_ws_exec(v[e])
                invariant
                    i <= e <= n,
                    n == v@.len(),
                    ws_end(v@, e as int) == ws_end(v@, i as int),
                decreases n - e,
            {
                e = e + 1;
            }
            proof {
                lemma_ws_end_shift(v@, i as int, i as int);
                lemma_ws_end(v@, i as int);
                assert(ws_end(rest, 0) == e - i);
                assert(rest.subrange(0, (e - i) as int) =~= v@.subrange(i as int, e as int));
                assert(rest.subrange((e - i) as int, rest.len() as int) =~= v@.subrange(e as int, n as int));
            }
            let ghost before = out@;
            let w = string_of(&v, i, e);
            out.push(w);
            proof {
                lemma_string_views_push(before, w);
                assert(string_views(out@) + split_ws(v@.subrange(e as int, n as int)) =~= string_views(before)
                    + split_ws(rest));
            }
            i = e;
        }
    }
    assert(v@.subrange(n as int, n as int) =~= Seq::<char>::empty());
    assert(string_views(out@) + Seq::<Seq<char>>::empty() =~= string_views(out@));
    out
}

} // verus!
