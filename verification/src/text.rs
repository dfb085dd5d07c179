//! Character-level text helpers shared by the configuration codec and
//! the vault: string equality, filename sanitization, decimal digits,
//! and path joining, each specified over `Seq<char>` views.

use vstd::prelude::*;

verus! {

use vstd::string::StrSliceExecFns;
use vstd::string::StringExecFns;

/// Relies on String::push: appends exactly one character at the end.
#[verifier::external_body]
pub(crate) fn push_char(s: &mut String, c: char)
    ensures
        final(s)@ == old(s)@.push(c),
{
    s.push(c);
}

/// Character-wise equality of two string slices.
pub fn str_eq(a: &str, b: &str) -> (r: bool)
    ensures
        r == (a@ == b@),
{
    let alen = a.unicode_len();
    let blen = b.unicode_len();
    if alen != blen {
        return false;
    }
    let mut i: usize = 0;
    while i < alen
        invariant
            alen == a@.len(),
            blen == b@.len(),
            alen == blen,
            i <= alen,
            forall|k: int| 0 <= k < i ==> a@[k] == b@[k],
        decreases alen - i,
    {
        if a.get_char(i) != b.get_char(i) {
            return false;
        }
        i = i + 1;
    }
    proof {
        assert(a@ =~= b@);
    }
    true
}

/// The replacement `sanitize_filename` applies to one character:
/// path separators and shell-or-filesystem metacharacters become `_`.
pub open spec fn sanitize_char(c: char) -> char {
    if c == '/' || c == '\\' || c == '?' || c == '%' || c == '*' || c == ':' || c == '|'
        || c == '"' || c == '<' || c == '>' {
        '_'
    } else {
        c
    }
}

/// The view of a sanitized string: every character replaced pointwise.
pub open spec fn sanitized(s: Seq<char>) -> Seq<char> {
    s.map_values(|c: char| sanitize_char(c))
}

/// Replaces each of `/ \ ? % * : | " < >` with `_`; every other
/// character, non-ASCII included, passes through unchanged. Total:
/// it renders any string into a filesystem-safe file name.
pub fn sanitize_filename(name: &str) -> (r: String)
    ensures
        r@ == sanitized(name@),
{
    let len = name.unicode_len();
    let mut out = String::new();
    proof {
        assert(sanitized(name@.take(0)) =~= Seq::<char>::empty());
    }
    let mut i: usize = 0;
    while i < len
        invariant
            len == name@.len(),
            i <= len,
            out@ == sanitized(name@.take(i as int)),
        decreases len - i,
    {
        let c = name.get_char(i);
        let mapped: char = match c {
            '/' | '\\' | '?' | '%' | '*' | ':' | '|' | '"' | '<' | '>' => '_',
            _ => c,
        };
        proof {
            assert(mapped == sanitize_char(name@[i as int]));
        }
        push_char(&mut out, mapped);
        proof {
            assert(sanitized(name@.take(i + 1)) =~= sanitized(name@.take(i as int)).push(
                sanitize_char(name@[i as int]),
            ));
        }
        i = i + 1;
    }
    proof {
        assert(name@.take(len as int) =~= name@);
    }
    out
}

/// Sanitizing is idempotent: a second pass changes nothing, because
/// `_` is not itself a replaced character.
pub proof fn lemma_sanitize_idempotent(s: Seq<char>)
    ensures
        sanitized(sanitized(s)) == sanitized(s),
{
    assert(sanitized(sanitized(s)) =~= sanitized(s));
}

/// The character standing for one decimal digit.
pub open spec fn digit_char(d: int) -> char {
    if d == 0 {
        '0'
    } else if d == 1 {
        '1'
    } else if d == 2 {
        '2'
    } else if d == 3 {
        '3'
    } else if d == 4 {
        '4'
    } else if d == 5 {
        '5'
    } else if d == 6 {
        '6'
    } else if d == 7 {
        '7'
    } else if d == 8 {
        '8'
    } else {
        '9'
    }
}

/// Decimal rendering of a non-negative integer, most significant
/// digit first, without leading zeros.
pub open spec fn dec_digits(n: int) -> Seq<char>
    decreases n,
{
    if n < 10 {
        seq![digit_char(n)]
    } else {
        dec_digits(n / 10).push(digit_char(n % 10))
    }
}

pub open spec fn is_digit(c: char) -> bool {
    c == '0' || c == '1' || c == '2' || c == '3' || c == '4' || c == '5' || c == '6'
        || c == '7' || c == '8' || c == '9'
}

/// The numeric value of one digit character.
pub open spec fn digit_val(c: char) -> int {
    if c == '0' {
        0
    } else if c == '1' {
        1
    } else if c == '2' {
        2
    } else if c == '3' {
        3
    } else if c == '4' {
        4
    } else if c == '5' {
        5
    } else if c == '6' {
        6
    } else if c == '7' {
        7
    } else if c == '8' {
        8
    } else {
        9
    }
}

fn digit_of(d: u64) -> (c: char)
    requires
        d < 10,
    ensures
        c == digit_char(d as int),
{
    match d {
        0 => '0',
        1 => '1',
        2 => '2',
        3 => '3',
        4 => '4',
        5 => '5',
        6 => '6',
        7 => '7',
        8 => '8',
        _ => '9',
    }
}

/// Appends the decimal rendering of `n`.
pub fn append_u64(out: &mut String, n: u64)
    ensures
        final(out)@ == old(out)@ + dec_digits(n as int),
    decreases n,
{
    if n < 10 {
        push_char(out, digit_of(n));
        proof {
            assert(out@ =~= old(out)@ + dec_digits(n as int));
        }
    } else {
        append_u64(out, n / 10);
        push_char(out, digit_of(n % 10));
        proof {
            assert(out@ =~= old(out)@ + dec_digits(n as int));
        }
    }
}

/// How the configuration codec renders one character inside a quoted
/// string: only `"` and `\` take an escape; every other character
/// stands for itself.
pub open spec fn escape_char(c: char) -> Seq<char> {
    if c == '"' {
        seq!['\\', '"']
    } else if c == '\\' {
        seq!['\\', '\\']
    } else {
        seq![c]
    }
}

/// The escaped body of a quoted string.
pub open spec fn escaped(s: Seq<char>) -> Seq<char>
    decreases s.len(),
{
    if s.len() == 0 {
        Seq::empty()
    } else {
        escape_char(s[0]) + escaped(s.skip(1))
    }
}

/// A full quoted string: opening quote, escaped body, closing quote.
pub open spec fn quoted(s: Seq<char>) -> Seq<char> {
    seq!['"'] + escaped(s) + seq!['"']
}

proof fn lemma_escaped_concat(a: Seq<char>, b: Seq<char>)
    ensures
        escaped(a + b) == escaped(a) + escaped(b),
    decreases a.len(),
{
    if a.len() == 0 {
        assert(a + b =~= b);
        assert(escaped(a) + escaped(b) =~= escaped(b));
    } else {
        lemma_escaped_concat(a.skip(1), b);
        assert((a + b).skip(1) =~= a.skip(1) + b);
        assert((a + b)[0] == a[0]);
        assert(escape_char(a[0]) + (escaped(a.skip(1)) + escaped(b)) =~= (escape_char(a[0])
            + escaped(a.skip(1))) + escaped(b));
    }
}

proof fn lemma_escaped_push(s: Seq<char>, c: char)
    ensures
        escaped(s.push(c)) == escaped(s) + escape_char(c),
{
    lemma_escaped_concat(s, seq![c]);
    assert(s.push(c) =~= s + seq![c]);
    assert(seq![c].skip(1) =~= Seq::<char>::empty());
    assert(escaped(Seq::<char>::empty()) =~= Seq::<char>::empty());
    assert(escaped(seq![c]) == escape_char(c) + escaped(seq![c].skip(1)));
    assert(escaped(seq![c]) =~= escape_char(c));
    assert(escaped(s) + escaped(seq![c]) =~= escaped(s) + escape_char(c));
}

/// Appends `s` as a quoted, escaped string.
pub fn append_quoted(out: &mut String, s: &str)
    ensures
        final(out)@ == old(out)@ + quoted(s@),
{
    push_char(out, '"');
    let len = s.unicode_len();
    proof {
        assert(escaped(s@.take(0)) =~= Seq::<char>::empty());
        assert(out@ =~= old(out)@ + seq!['"'] + escaped(s@.take(0)));
    }
    let mut i: usize = 0;
    while i < len
        invariant
            len == s@.len(),
            i <= len,
            out@ == old(out)@ + seq!['"'] + escaped(s@.take(i as int)),
        decreases len - i,
    {
        let c = s.get_char(i);
        if c == '"' || c == '\\' {
            push_char(out, '\\');
        }
        push_char(out, c);
        proof {
            lemma_escaped_push(s@.take(i as int), s@[i as int]);
            assert(s@.take(i + 1) =~= s@.take(i as int).push(s@[i as int]));
            assert(out@ =~= old(out)@ + seq!['"'] + escaped(s@.take(i + 1)));
        }
        i = i + 1;
    }
    push_char(out, '"');
    proof {
        assert(s@.take(len as int) =~= s@);
        assert(out@ =~= old(out)@ + quoted(s@));
    }
}

/// The quoted-string grammar, from position `i` just past the opening
/// quote: characters up to an unescaped closing quote, `\"` and `\\`
/// being the only escapes.
pub open spec fn spec_parse_qbody(s: Seq<char>, i: int) -> Option<(Seq<char>, int)>
    decreases s.len() - i,
{
    if i < 0 || i >= s.len() {
        None
    } else if s[i] == '"' {
        Some((Seq::empty(), i + 1))
    } else if s[i] == '\\' {
        if i + 1 < s.len() && (s[i + 1] == '"' || s[i + 1] == '\\') {
            match spec_parse_qbody(s, i + 2) {
                Some((v, j)) => Some((seq![s[i + 1]] + v, j)),
                None => None,
            }
        } else {
            None
        }
    } else {
        match spec_parse_qbody(s, i + 1) {
            Some((v, j)) => Some((seq![s[i]] + v, j)),
            None => None,
        }
    }
}

/// A quoted string starting at `i`: an opening quote, then the body.
pub open spec fn spec_parse_qstring(s: Seq<char>, i: int) -> Option<(Seq<char>, int)> {
    if 0 <= i < s.len() && s[i] == '"' {
        spec_parse_qbody(s, i + 1)
    } else {
        None
    }
}

/// The body parser recovers exactly the string the escaper rendered.
proof fn lemma_parse_qbody_complete(s: Seq<char>, i: int, v: Seq<char>)
    requires
        0 <= i,
        i + escaped(v).len() + 1 <= s.len(),
        s.subrange(i, i + escaped(v).len() + 1) == escaped(v).push('"'),
    ensures
        spec_parse_qbody(s, i) == Some((v, i + escaped(v).len() + 1)),
    decreases v.len(),
{
    let e = escaped(v);
    let sub = s.subrange(i, i + e.len() + 1);
    if v.len() == 0 {
        assert(e =~= Seq::<char>::empty());
        assert(s[i] == sub[0]);
    } else {
        let c = v[0];
        let v1 = v.skip(1);
        let e1 = escaped(v1);
        assert(e == escape_char(c) + e1);
        if c == '"' || c == '\\' {
            assert(s[i] == sub[0]);
            assert(s[i + 1] == sub[1]);
            assert(sub[1] == c);
            assert forall|k: int| 0 <= k < e1.len() + 1 implies s.subrange(
                i + 2,
                i + 2 + e1.len() + 1,
            )[k] == e1.push('"')[k] by {
                assert(sub[2 + k] == s[i + 2 + k]);
            }
            assert(s.subrange(i + 2, i + 2 + e1.len() + 1) =~= e1.push('"'));
            lemma_parse_qbody_complete(s, i + 2, v1);
            assert(seq![c] + v1 =~= v);
        } else {
            assert(s[i] == sub[0]);
            assert(sub[0] == c);
            assert forall|k: int| 0 <= k < e1.len() + 1 implies s.subrange(
                i + 1,
                i + 1 + e1.len() + 1,
            )[k] == e1.push('"')[k] by {
                assert(sub[1 + k] == s[i + 1 + k]);
            }
            assert(s.subrange(i + 1, i + 1 + e1.len() + 1) =~= e1.push('"'));
            lemma_parse_qbody_complete(s, i + 1, v1);
            assert(seq![c] + v1 =~= v);
        }
    }
}

/// The body parse result with an already-read prefix put in front.
spec fn qbody_with_prefix(s: Seq<char>, i: int, p: Seq<char>) -> Option<(Seq<char>, int)> {
    match spec_parse_qbody(s, i) {
        Some((v, j)) => Some((p + v, j)),
        None => None,
    }
}

/// Reads a quoted string at position `i`; `None` where none starts there.
pub fn parse_qstring(s: &str, i: usize) -> (r: Option<(String, usize)>)
    ensures
        match r {
            Some((v, j)) => spec_parse_qstring(s@, i as int) == Some((v@, j as int)) && j
                <= s@.len(),
            None => spec_parse_qstring(s@, i as int) is None,
        },
{
    let slen = s.unicode_len();
    if i >= slen || s.get_char(i) != '"' {
        return None;
    }
    let mut j: usize = i + 1;
    let mut acc = String::new();
    proof {
        match spec_parse_qbody(s@, j as int) {
            Some((v, k)) => {
                assert(acc@ + v =~= v);
            },
            None => {},
        }
    }
    loop
        invariant
            slen == s@.len(),
            i < slen,
            i + 1 <= j <= slen,
            spec_parse_qstring(s@, i as int) == qbody_with_prefix(s@, j as int, acc@),
        decreases slen - j,
    {
        if j >= slen {
            return None;
        }
        let c = s.get_char(j);
        if c == '"' {
            proof {
                assert(acc@ + Seq::<char>::empty() =~= acc@);
            }
            return Some((acc, j + 1));
        } else if c == '\\' {
            if j + 1 < slen {
                let e = s.get_char(j + 1);
                if e == '"' || e == '\\' {
                    proof {
                        match spec_parse_qbody(s@, j + 2) {
                            Some((v, k)) => {
                                assert(acc@ + (seq![s@[j + 1]] + v) =~= acc@.push(s@[j + 1]) + v);
                            },
                            None => {},
                        }
                    }
                    push_char(&mut acc, e);
                    j = j + 2;
                } else {
                    return None;
                }
            } else {
                return None;
            }
        } else {
            proof {
                match spec_parse_qbody(s@, j + 1) {
                    Some((v, k)) => {
                        assert(acc@ + (seq![s@[j as int]] + v) =~= acc@.push(s@[j as int]) + v);
                    },
                    None => {},
                }
            }
            push_char(&mut acc, c);
            j = j + 1;
        }
    }
}

pub open spec fn pow10(k: nat) -> int
    decreases k,
{
    if k == 0 {
        1
    } else {
        10 * pow10((k - 1) as nat)
    }
}

/// A maximal digit run folded left-to-right onto an accumulator.
pub open spec fn spec_parse_digits(s: Seq<char>, i: int, acc: int) -> (int, int)
    decreases s.len() - i,
{
    if 0 <= i < s.len() && is_digit(s[i]) {
        spec_parse_digits(s, i + 1, acc * 10 + digit_val(s[i]))
    } else {
        (acc, i)
    }
}

/// A canonical decimal number at `i`: either a single `0`, or a run of
/// digits with a non-zero leading digit.
pub open spec fn spec_parse_number(s: Seq<char>, i: int) -> Option<(int, int)> {
    if 0 <= i < s.len() && is_digit(s[i]) {
        if s[i] == '0' {
            Some((0, i + 1))
        } else {
            Some(spec_parse_digits(s, i, 0))
        }
    } else {
        None
    }
}

proof fn lemma_dec_digits_first(n: int)
    requires
        n >= 0,
    ensures
        dec_digits(n).len() >= 1,
        is_digit(dec_digits(n)[0]),
        n >= 1 ==> dec_digits(n)[0] != '0',
    decreases n,
{
    if n >= 10 {
        lemma_dec_digits_first(n / 10);
    }
}

/// Reading the rendered digits of `n` from `i` carries the accumulator
/// across them.
proof fn lemma_parse_digits_chunk(s: Seq<char>, i: int, acc: int, n: int)
    requires
        0 <= i,
        n >= 0,
        i + dec_digits(n).len() <= s.len(),
        s.subrange(i, i + dec_digits(n).len()) == dec_digits(n),
    ensures
        spec_parse_digits(s, i, acc) == spec_parse_digits(
            s,
            i + dec_digits(n).len(),
            acc * pow10(dec_digits(n).len() as nat) + n,
        ),
    decreases n,
{
    let d = dec_digits(n);
    let sub = s.subrange(i, i + d.len());
    if n < 10 {
        assert(s[i] == sub[0]);
        assert(sub[0] == digit_char(n));
        assert(digit_val(digit_char(n)) == n);
        assert(acc * pow10(1) + n == acc * 10 + n) by {
            assert(pow10(1) == 10 * pow10(0));
        }
    } else {
        let d1 = dec_digits(n / 10);
        let last = digit_char(n % 10);
        assert(d == d1.push(last));
        assert forall|k: int| 0 <= k < d1.len() implies s.subrange(i, i + d1.len())[k]
            == d1[k] by {
            assert(sub[k] == s[i + k]);
        }
        assert(s.subrange(i, i + d1.len()) =~= d1);
        lemma_parse_digits_chunk(s, i, acc, n / 10);
        let mid = i + d1.len();
        assert(s[mid] == sub[d.len() - 1]);
        assert(sub[d.len() - 1] == last);
        assert(is_digit(last));
        assert(digit_val(last) == n % 10);
        let acc1 = acc * pow10(d1.len() as nat) + n / 10;
        assert(spec_parse_digits(s, mid, acc1) == spec_parse_digits(
            s,
            mid + 1,
            acc1 * 10 + n % 10,
        ));
        assert(acc1 * 10 + n % 10 == acc * pow10(d.len() as nat) + n) by {
            assert(pow10(d.len() as nat) == 10 * pow10(d1.len() as nat));
            assert((acc * pow10(d1.len() as nat) + n / 10) * 10 == acc * (10 * pow10(
                d1.len() as nat,
            )) + (n / 10) * 10) by (nonlinear_arith);
            assert((n / 10) * 10 + n % 10 == n);
        }
    }
}

/// The number parser recovers exactly the rendered value, given that
/// the character after the digits is not itself a digit.
proof fn lemma_parse_number_complete(s: Seq<char>, i: int, n: int)
    requires
        0 <= i,
        n >= 0,
        i + dec_digits(n).len() <= s.len(),
        s.subrange(i, i + dec_digits(n).len()) == dec_digits(n),
        i + dec_digits(n).len() == s.len() || !is_digit(s[i + dec_digits(n).len()]),
    ensures
        spec_parse_number(s, i) == Some((n, i + dec_digits(n).len())),
{
    let d = dec_digits(n);
    let sub = s.subrange(i, i + d.len());
    lemma_dec_digits_first(n);
    assert(s[i] == sub[0]);
    assert(sub[0] == d[0]);
    if n == 0 {
        assert(d =~= seq!['0']);
    } else {
        assert(s[i] != '0');
        lemma_parse_digits_chunk(s, i, 0, n);
        assert(0 * pow10(d.len() as nat) + n == n);
        assert(spec_parse_digits(s, i + d.len(), n) == (n, i + d.len()));
    }
}

fn exec_is_digit(c: char) -> (r: bool)
    ensures
        r == is_digit(c),
{
    match c {
        '0' | '1' | '2' | '3' | '4' | '5' | '6' | '7' | '8' | '9' => true,
        _ => false,
    }
}

fn exec_digit_val(c: char) -> (r: u64)
    requires
        is_digit(c),
    ensures
        r as int == digit_val(c),
{
    match c {
        '0' => 0,
        '1' => 1,
        '2' => 2,
        '3' => 3,
        '4' => 4,
        '5' => 5,
        '6' => 6,
        '7' => 7,
        '8' => 8,
        _ => 9,
    }
}

/// Reads a canonical decimal number at `i`, accepting only values that
/// fit the byte-sized fields of the configuration.
pub fn parse_number_u8(s: &str, i: usize) -> (r: Option<(u8, usize)>)
    ensures
        match r {
            Some((v, j)) => spec_parse_number(s@, i as int) == Some((v as int, j as int)) && j
                <= s@.len(),
            None => match spec_parse_number(s@, i as int) {
                Some((n, j)) => n > 255,
                None => true,
            },
        },
{
    let slen = s.unicode_len();
    if i >= slen {
        return None;
    }
    let c0 = s.get_char(i);
    if !exec_is_digit(c0) {
        return None;
    }
    if c0 == '0' {
        return Some((0, i + 1));
    }
    let mut j: usize = i;
    let mut clamped: u64 = 0;
    let ghost mut acc: int = 0int;
    loop
        invariant
            slen == s@.len(),
            i <= j <= slen,
            i < slen,
            is_digit(s@[i as int]),
            s@[i as int] != '0',
            spec_parse_digits(s@, i as int, 0) == spec_parse_digits(s@, j as int, acc),
            acc >= 0,
            acc <= 255 ==> clamped == acc,
            acc > 255 ==> clamped == 256,
            clamped <= 256,
        decreases slen - j,
    {
        if j >= slen || !exec_is_digit(s.get_char(j)) {
            if clamped <= 255 {
                return Some((clamped as u8, j));
            } else {
                return None;
            }
        }
        let c = s.get_char(j);
        let d = exec_digit_val(c);
        if clamped <= 255 {
            clamped = clamped * 10 + d;
            if clamped > 255 {
                clamped = 256;
            }
        }
        proof {
            acc = acc * 10 + digit_val(s@[j as int]);
        }
        j = j + 1;
    }
}

/// The literal `lit` standing at position `i` of `s`.
pub open spec fn spec_expect(s: Seq<char>, i: int, lit: Seq<char>) -> Option<int> {
    if 0 <= i && i + lit.len() <= s.len() && s.subrange(i, i + lit.len()) == lit {
        Some(i + lit.len())
    } else {
        None
    }
}

/// Matches the fixed text `lit` at position `i`.
pub fn expect_lit(s: &str, i: usize, lit: &str) -> (r: Option<usize>)
    ensures
        match r {
            Some(j) => spec_expect(s@, i as int, lit@) == Some(j as int) && j <= s@.len(),
            None => spec_expect(s@, i as int, lit@) is None,
        },
{
    let slen = s.unicode_len();
    let n = lit.unicode_len();
    if i > slen || n > slen - i {
        return None;
    }
    let mut k: usize = 0;
    while k < n
        invariant
            slen == s@.len(),
            n == lit@.len(),
            i + n <= slen,
            k <= n,
            forall|m: int| 0 <= m < k ==> s@[i + m] == lit@[m],
        decreases n - k,
    {
        if s.get_char(i + k) != lit.get_char(k) {
            proof {
                assert(s@.subrange(i as int, i + n) != lit@) by {
                    assert(s@.subrange(i as int, i + n)[k as int] == s@[i + k]);
                }
            }
            return None;
        }
        k = k + 1;
    }
    proof {
        assert(s@.subrange(i as int, i + n) =~= lit@);
    }
    Some(i + n)
}

/// Everything from `i` to the end of `s` is whitespace.
pub open spec fn all_ws_from(s: Seq<char>, i: int) -> bool {
    forall|k: int| i <= k < s.len() ==> is_ws(s[k])
}

pub open spec fn is_ws(c: char) -> bool {
    c == ' ' || c == '\t' || c == '\n' || c == '\r'
}

/// Decides whether only whitespace remains from position `i` on.
pub fn rest_is_ws(s: &str, i: usize) -> (r: bool)
    ensures
        r == all_ws_from(s@, i as int),
{
    let slen = s.unicode_len();
    let mut j: usize = i;
    while j < slen
        invariant
            slen == s@.len(),
            i <= j,
            j <= slen || j == i,
            forall|k: int| i <= k < j ==> is_ws(s@[k]),
        decreases slen - j,
    {
        let c = s.get_char(j);
        if !(c == ' ' || c == '\t' || c == '\n' || c == '\r') {
            return false;
        }
        j = j + 1;
    }
    true
}

/// A literal standing at the head of the remaining input is consumed.
pub proof fn lemma_expect_at(s: Seq<char>, i: int, lit: Seq<char>, rest: Seq<char>)
    requires
        0 <= i <= s.len(),
        s.skip(i) == lit + rest,
    ensures
        i + lit.len() <= s.len(),
        spec_expect(s, i, lit) == Some(i + lit.len()),
        s.skip(i + lit.len()) == rest,
{
    assert(s.skip(i).len() == lit.len() + rest.len());
    assert forall|k: int| 0 <= k < lit.len() implies s.subrange(i, i + lit.len())[k] == lit[k] by {
        assert(s.skip(i)[k] == s[i + k]);
    }
    assert(s.subrange(i, i + lit.len()) =~= lit);
    assert forall|k: int| 0 <= k < rest.len() implies s.skip(i + lit.len())[k] == rest[k] by {
        assert(s.skip(i)[lit.len() + k] == s[i + lit.len() + k]);
    }
    assert(s.skip(i + lit.len()) =~= rest);
}

/// A quoted string at the head of the remaining input is read back as
/// the string it renders.
pub proof fn lemma_qstring_at(s: Seq<char>, i: int, v: Seq<char>, rest: Seq<char>)
    requires
        0 <= i <= s.len(),
        s.skip(i) == quoted(v) + rest,
    ensures
        i + quoted(v).len() <= s.len(),
        spec_parse_qstring(s, i) == Some((v, i + quoted(v).len())),
        s.skip(i + quoted(v).len()) == rest,
{
    let q = quoted(v);
    let e = escaped(v);
    assert(s.skip(i).len() == q.len() + rest.len());
    assert(q.len() == e.len() + 2);
    assert(s[i] == s.skip(i)[0]);
    assert(q[0] == '"');
    assert forall|k: int| 0 <= k < e.len() + 1 implies s.subrange(i + 1, i + 1 + e.len() + 1)[k]
        == e.push('"')[k] by {
        assert(s.skip(i)[1 + k] == s[i + 1 + k]);
        assert((q + rest)[1 + k] == q[1 + k]);
    }
    assert(s.subrange(i + 1, i + 1 + e.len() + 1) =~= e.push('"'));
    lemma_parse_qbody_complete(s, i + 1, v);
    assert forall|k: int| 0 <= k < rest.len() implies s.skip(i + q.len())[k] == rest[k] by {
        assert(s.skip(i)[q.len() + k] == s[i + q.len() + k]);
    }
    assert(s.skip(i + q.len()) =~= rest);
}

/// A rendered number at the head of the remaining input, with a
/// non-digit after it, is read back as its value.
pub proof fn lemma_number_at(s: Seq<char>, i: int, n: int, rest: Seq<char>)
    requires
        0 <= i <= s.len(),
        n >= 0,
        s.skip(i) == dec_digits(n) + rest,
        rest.len() > 0,
        !is_digit(rest[0]),
    ensures
        i + dec_digits(n).len() <= s.len(),
        spec_parse_number(s, i) == Some((n, i + dec_digits(n).len())),
        s.skip(i + dec_digits(n).len()) == rest,
{
    let d = dec_digits(n);
    assert(s.skip(i).len() == d.len() + rest.len());
    assert forall|k: int| 0 <= k < d.len() implies s.subrange(i, i + d.len())[k] == d[k] by {
        assert(s.skip(i)[k] == s[i + k]);
    }
    assert(s.subrange(i, i + d.len()) =~= d);
    assert(s[i + d.len()] == s.skip(i)[d.len() as int]);
    assert((d + rest)[d.len() as int] == rest[0]);
    lemma_parse_number_complete(s, i, n);
    assert forall|k: int| 0 <= k < rest.len() implies s.skip(i + d.len())[k] == rest[k] by {
        assert(s.skip(i)[d.len() + k] == s[i + d.len() + k]);
    }
    assert(s.skip(i + d.len()) =~= rest);
}

/// The body parser yields only what the escaper writes: whatever it
/// accepts from `i` is exactly the escaped rendering of its result,
/// closing quote included.
proof fn lemma_parse_qbody_sound(s: Seq<char>, i: int)
    requires
        0 <= i <= s.len(),
        spec_parse_qbody(s, i) is Some,
    ensures
        match spec_parse_qbody(s, i) {
            Some((v, j)) => i < j <= s.len() && s.subrange(i, j) == escaped(v).push('"'),
            None => true,
        },
    decreases s.len() - i,
{
    let (v, j) = spec_parse_qbody(s, i).unwrap();
    if s[i] == '"' {
        assert(escaped(v) =~= Seq::<char>::empty());
        assert(s.subrange(i, j) =~= escaped(v).push('"'));
    } else if s[i] == '\\' {
        let e = s[i + 1];
        let (v1, j1) = spec_parse_qbody(s, i + 2).unwrap();
        lemma_parse_qbody_sound(s, i + 2);
        assert(v == seq![e] + v1);
        assert(v[0] == e);
        assert(v.skip(1) =~= v1);
        assert(escaped(v) == escape_char(e) + escaped(v1));
        assert(s.subrange(i, j) =~= escaped(v).push('"')) by {
            assert(forall|m: int|
                0 <= m < j - (i + 2) ==> #[trigger] s.subrange(i + 2, j)[m] == s[i + 2 + m]);
        }
    } else {
        let c = s[i];
        let (v1, j1) = spec_parse_qbody(s, i + 1).unwrap();
        lemma_parse_qbody_sound(s, i + 1);
        assert(v == seq![c] + v1);
        assert(v[0] == c);
        assert(v.skip(1) =~= v1);
        assert(escaped(v) == escape_char(c) + escaped(v1));
        assert(s.subrange(i, j) =~= escaped(v).push('"')) by {
            assert(forall|m: int|
                0 <= m < j - (i + 1) ==> #[trigger] s.subrange(i + 1, j)[m] == s[i + 1 + m]);
        }
    }
}

/// The numeric value of a run of digit characters, most significant
/// first.
spec fn val_of(d: Seq<char>) -> int
    decreases d.len(),
{
    if d.len() == 0 {
        0
    } else {
        val_of(d.take(d.len() - 1)) * 10 + digit_val(d[d.len() - 1])
    }
}

proof fn lemma_val_of_cons(c: char, d: Seq<char>)
    ensures
        val_of(seq![c] + d) == digit_val(c) * pow10(d.len()) + val_of(d),
    decreases d.len(),
{
    if d.len() == 0 {
        assert(seq![c] + d =~= seq![c]);
        assert(seq![c].take(0) =~= Seq::<char>::empty());
        assert(val_of(Seq::<char>::empty()) == 0);
        assert(val_of(seq![c]) == digit_val(c));
        assert(pow10(0) == 1);
    } else {
        let d1 = d.take(d.len() - 1);
        lemma_val_of_cons(c, d1);
        assert((seq![c] + d).take((seq![c] + d).len() - 1) =~= seq![c] + d1);
        assert(val_of(seq![c] + d) == val_of(seq![c] + d1) * 10 + digit_val(d[d.len() - 1]));
        assert((digit_val(c) * pow10(d1.len()) + val_of(d1)) * 10 == digit_val(c) * (10 * pow10(
            d1.len(),
        )) + val_of(d1) * 10) by (nonlinear_arith);
        assert(pow10(d.len()) == 10 * pow10(d1.len()));
    }
}

/// A non-empty digit run without a leading zero is the decimal
/// rendering of its own value.
proof fn lemma_digits_canonical(d: Seq<char>)
    requires
        d.len() >= 1,
        forall|k: int| 0 <= k < d.len() ==> is_digit(d[k]),
        d[0] != '0' || d.len() == 1,
    ensures
        val_of(d) >= 0,
        d[0] != '0' ==> val_of(d) >= 1,
        dec_digits(val_of(d)) == d,
    decreases d.len(),
{
    if d.len() == 1 {
        assert(d.take(0) =~= Seq::<char>::empty());
        assert(val_of(Seq::<char>::empty()) == 0);
        assert(val_of(d) == digit_val(d[0]));
        assert(dec_digits(val_of(d)) =~= d);
    } else {
        let d1 = d.take(d.len() - 1);
        lemma_digits_canonical(d1);
        let v1 = val_of(d1);
        let last = digit_val(d[d.len() - 1]);
        assert(val_of(d) == v1 * 10 + last);
        assert(v1 >= 1);
        assert(val_of(d) >= 10);
        assert(val_of(d) / 10 == v1);
        assert(val_of(d) % 10 == last);
        assert(dec_digits(val_of(d)) == dec_digits(v1).push(digit_char(last)));
        assert(dec_digits(val_of(d)) =~= d);
    }
}

/// The digit run the accumulator parser consumes, and the value it
/// folds it to.
proof fn lemma_parse_digits_sound(s: Seq<char>, i: int, acc: int)
    requires
        0 <= i <= s.len(),
    ensures
        ({
            let (val, j) = spec_parse_digits(s, i, acc);
            &&& i <= j <= s.len()
            &&& (j == s.len() || !is_digit(s[j]))
            &&& (forall|k: int| i <= k < j ==> is_digit(s[k]))
            &&& val == acc * pow10((j - i) as nat) + val_of(s.subrange(i, j))
        }),
    decreases s.len() - i,
{
    let (val, j) = spec_parse_digits(s, i, acc);
    if i < s.len() && is_digit(s[i]) {
        let dv = digit_val(s[i]);
        lemma_parse_digits_sound(s, i + 1, acc * 10 + dv);
        assert(s.subrange(i, j) =~= seq![s[i]] + s.subrange(i + 1, j)) by {
            assert(forall|m: int|
                0 <= m < j - (i + 1) ==> #[trigger] s.subrange(i + 1, j)[m] == s[i + 1 + m]);
        }
        lemma_val_of_cons(s[i], s.subrange(i + 1, j));
        let p1 = pow10((j - i - 1) as nat);
        assert((acc * 10 + dv) * p1 == acc * (10 * p1) + dv * p1) by (nonlinear_arith);
        assert(pow10((j - i) as nat) == 10 * p1);
    } else {
        assert(s.subrange(i, i) =~= Seq::<char>::empty());
        assert(val_of(Seq::<char>::empty()) == 0);
        assert(pow10(0) == 1);
    }
}

/// The number parser yields only canonical renderings: whatever it
/// accepts from `i` is exactly `dec_digits` of its value.
pub proof fn lemma_parse_number_sound(s: Seq<char>, i: int)
    requires
        0 <= i <= s.len(),
        spec_parse_number(s, i) is Some,
    ensures
        match spec_parse_number(s, i) {
            Some((n, j)) => n >= 0 && i < j <= s.len() && s.subrange(i, j) == dec_digits(n),
            None => true,
        },
{
    let (n, j) = spec_parse_number(s, i).unwrap();
    if s[i] == '0' {
        assert(s.subrange(i, i + 1) =~= dec_digits(0));
    } else {
        lemma_parse_digits_sound(s, i, 0);
        let d = s.subrange(i, j);
        assert(i < j) by {
            if j == i {
                assert(is_digit(s[i]));
            }
        }
        assert(d[0] == s[i]);
        assert(n == val_of(d));
        lemma_digits_canonical(d);
    }
}

/// The string parser yields only what the renderer writes: whatever
/// it accepts from `i` is exactly the quoted rendering of its result.
pub proof fn lemma_qstring_sound(s: Seq<char>, i: int)
    requires
        0 <= i <= s.len(),
        spec_parse_qstring(s, i) is Some,
    ensures
        match spec_parse_qstring(s, i) {
            Some((v, j)) => i < j <= s.len() && s.subrange(i, j) == quoted(v),
            None => true,
        },
{
    let (v, j) = spec_parse_qstring(s, i).unwrap();
    lemma_parse_qbody_sound(s, i + 1);
    assert(s.subrange(i + 1, j) == escaped(v).push('"'));
    lemma_subrange_split(s, i, i + 1, j);
    assert(s.subrange(i, i + 1) =~= seq!['"']);
    assert(quoted(v) =~= seq!['"'] + s.subrange(i + 1, j));
}

/// A subrange splits at any interior point into the two adjoining
/// subranges.
pub proof fn lemma_subrange_split(s: Seq<char>, a: int, b: int, c: int)
    requires
        0 <= a <= b <= c <= s.len(),
    ensures
        s.subrange(a, c) == s.subrange(a, b) + s.subrange(b, c),
{
    assert(s.subrange(a, c) =~= s.subrange(a, b) + s.subrange(b, c));
}

/// The view of joining a file name onto a directory, as `PathBuf::join`
/// does for a relative name: a separator is inserted unless the
/// directory already ends with one or is empty.
pub open spec fn path_joined(dir: Seq<char>, name: Seq<char>) -> Seq<char> {
    if dir.len() == 0 || dir[dir.len() - 1] == '/' {
        dir + name
    } else {
        dir + seq!['/'] + name
    }
}

/// Joins a relative file name onto a directory path.
pub fn path_join(dir: &str, name: &str) -> (r: String)
    ensures
        r@ == path_joined(dir@, name@),
{
    let dlen = dir.unicode_len();
    let mut out = String::from_str(dir);
    if dlen == 0 || dir.get_char(dlen - 1) == '/' {
        out.append(name);
        out
    } else {
        push_char(&mut out, '/');
        out.append(name);
        proof {
            assert(dir@ + seq!['/'] =~= dir@.push('/'));
        }
        out
    }
}

} // verus!
