//! Character-level string rules shared by the configuration, symbol and
//! key parsers.

use vstd::prelude::*;
use vstd::string::StrSliceExecFns;

verus! {

broadcast use vstd::string::group_string_axioms;

/// Unicode `White_Space`, the set `char::is_whitespace` and `str::trim` use.
pub open spec fn is_whitespace(c: char) -> bool {
    ||| ('\u{9}' <= c && c <= '\u{d}')
    ||| c == ' '
    ||| c == '\u{85}'
    ||| c == '\u{a0}'
    ||| c == '\u{1680}'
    ||| ('\u{2000}' <= c && c <= '\u{200a}')
    ||| c == '\u{2028}'
    ||| c == '\u{2029}'
    ||| c == '\u{202f}'
    ||| c == '\u{205f}'
    ||| c == '\u{3000}'
}

/// `s` without its leading whitespace.
pub open spec fn trim_start(s: Seq<char>) -> Seq<char>
    decreases s.len(),
{
    if s.len() > 0 && is_whitespace(s[0]) {
        trim_start(s.drop_first())
    } else {
        s
    }
}

/// `s` without its trailing whitespace.
pub open spec fn trim_end(s: Seq<char>) -> Seq<char>
    decreases s.len(),
{
    if s.len() > 0 && is_whitespace(s.last()) {
        trim_end(s.drop_last())
    } else {
        s
    }
}

/// `str::trim`.
pub open spec fn trim(s: Seq<char>) -> Seq<char> {
    trim_end(trim_start(s))
}

/// ASCII digit.
pub open spec fn is_digit(c: char) -> bool {
    '0' <= c && c <= '9'
}

/// ASCII uppercase letter.
pub open spec fn is_upper(c: char) -> bool {
    'A' <= c && c <= 'Z'
}

/// ASCII lowercase letter.
pub open spec fn is_lower(c: char) -> bool {
    'a' <= c && c <= 'z'
}

/// ASCII letter or digit.
pub open spec fn is_alnum(c: char) -> bool {
    is_digit(c) || is_upper(c) || is_lower(c)
}

/// `char::to_ascii_lowercase`.
pub open spec fn lower_char(c: char) -> char {
    if is_upper(c) {
        ((c as u32) + 32) as char
    } else {
        c
    }
}

/// `char::to_ascii_uppercase`.
pub open spec fn upper_char(c: char) -> char {
    if is_lower(c) {
        ((c as u32) - 32) as char
    } else {
        c
    }
}

/// `str::to_ascii_lowercase`.
pub open spec fn ascii_lower(s: Seq<char>) -> Seq<char> {
    s.map_values(|c: char| lower_char(c))
}

/// `str::to_ascii_uppercase`.
pub open spec fn ascii_upper(s: Seq<char>) -> Seq<char> {
    s.map_values(|c: char| upper_char(c))
}

/// Appends one character (`String::push`).
#[verifier::external_body]
pub fn push_char(s: &mut String, c: char)
    ensures
        final(s)@ == old(s)@.push(c),
{
    s.push(c);
}

/// A printable ASCII character that `str`'s `Debug` writes as it is.
pub open spec fn debug_plain(c: char) -> bool {
    ' ' <= c <= '~' && c != '"' && c != '\\'
}

/// What `str`'s `Debug` makes of a text: the text in double quotes, each
/// character as `char::escape_debug` writes it.
pub uninterp spec fn debug_quoted(s: Seq<char>) -> Seq<char>;

/// `format!("{:?}", s)` through `<str as Debug>::fmt`. The result is named
/// by `debug_quoted`; of a text made only of printable ASCII characters
/// other than `"` and `\` it is that text between double quotes, since
/// `escape_debug` leaves those characters as they are. What it writes for
/// other characters (escapes such as `\n`, `\"` or `\u{..}`) is left unsaid.
#[verifier::external_body]
pub fn debug_string(s: &str) -> (r: String)
    ensures
        r@ == debug_quoted(s@),
        (forall|i: int| 0 <= i < s@.len() ==> debug_plain(#[trigger] s@[i])) ==> r@ == seq!['"']
            + s@ + seq!['"'],
{
    format!("{:?}", s)
}

/// The characters of `s`.
pub fn chars_of(s: &str) -> (r: Vec<char>)
    ensures
        r@ == s@,
{
    let n = s.unicode_len();
    let mut out: Vec<char> = Vec::new();
    let mut i: usize = 0;
    while i < n
        invariant
            n == s@.len(),
            i <= n,
            out@ == s@.take(i as int),
        decreases n - i,
    {
        out.push(s.get_char(i));
        i = i + 1;
        assert(out@ =~= s@.take(i as int));
    }
    assert(s@.take(n as int) =~= s@);
    out
}

/// A `String` holding the characters of `cs`.
pub fn string_of(cs: &[char]) -> (r: String)
    ensures
        r@ == cs@,
{
    let mut out = String::new();
    let mut i: usize = 0;
    while i < cs.len()
        invariant
            i <= cs@.len(),
            out@ == cs@.take(i as int),
        decreases cs@.len() - i,
    {
        push_char(&mut out, cs[i]);
        i = i + 1;
        assert(out@ =~= cs@.take(i as int));
    }
    assert(cs@.take(cs@.len() as int) =~= cs@);
    out
}

/// An owned copy of `s`.
pub fn owned(s: &str) -> (r: String)
    ensures
        r@ == s@,
{
    s.to_string()
}

/// The concatenation of two strings.
pub fn concat2(a: &str, b: &str) -> (r: String)
    ensures
        r@ == a@ + b@,
{
    let mut out = a.to_string();
    out.append(b);
    out
}

/// The concatenation of three strings.
pub fn concat3(a: &str, b: &str, c: &str) -> (r: String)
    ensures
        r@ == a@ + b@ + c@,
{
    let mut out = a.to_string();
    out.append(b);
    out.append(c);
    out
}

/// `char::is_whitespace`.
pub fn char_is_whitespace(c: char) -> (r: bool)
    ensures
        r == is_whitespace(c),
{
    ('\u{9}' <= c && c <= '\u{d}') || c == ' ' || c == '\u{85}' || c == '\u{a0}' || c
        == '\u{1680}' || ('\u{2000}' <= c && c <= '\u{200a}') || c == '\u{2028}' || c
        == '\u{2029}' || c == '\u{202f}' || c == '\u{205f}' || c == '\u{3000}'
}

/// `char::is_ascii_alphanumeric`.
pub fn char_is_alnum(c: char) -> (r: bool)
    ensures
        r == is_alnum(c),
{
    ('0' <= c && c <= '9') || ('A' <= c && c <= 'Z') || ('a' <= c && c <= 'z')
}

/// `char::to_ascii_lowercase`.
pub fn char_lower(c: char) -> (r: char)
    ensures
        r == lower_char(c),
{
    if 'A' <= c && c <= 'Z' {
        let v: u8 = (c as u8) + 32;
        v as char
    } else {
        c
    }
}

/// `char::to_ascii_uppercase`.
pub fn char_upper(c: char) -> (r: char)
    ensures
        r == upper_char(c),
{
    if 'a' <= c && c <= 'z' {
        let v: u8 = (c as u8) - 32;
        v as char
    } else {
        c
    }
}

/// The bounds `(start, end)` of `s` with leading and trailing whitespace cut.
pub fn trim_bounds(s: &[char]) -> (r: (usize, usize))
    ensures
        r.0 <= r.1 <= s@.len(),
        s@.subrange(r.0 as int, r.1 as int) == trim(s@),
{
    let mut i: usize = 0;
    assert(s@.skip(0) =~= s@);
    while i < s.len() && char_is_whitespace(s[i])
        invariant
            i <= s@.len(),
            trim_start(s@) == trim_start(s@.skip(i as int)),
        decreases s@.len() - i,
    {
        assert(s@.skip(i as int).drop_first() =~= s@.skip(i + 1));
        i = i + 1;
    }
    let ghost t = s@.skip(i as int);
    assert(trim_start(t) == t);
    let mut j: usize = s.len();
    while j > i && char_is_whitespace(s[j - 1])
        invariant
            i <= j <= s@.len(),
            trim_end(t) == trim_end(s@.subrange(i as int, j as int)),
        decreases j,
    {
        assert(s@.subrange(i as int, j as int).drop_last() =~= s@.subrange(i as int, j - 1));
        j = j - 1;
    }
    assert(trim_end(s@.subrange(i as int, j as int)) == s@.subrange(i as int, j as int));
    (i, j)
}

/// `str::trim`, as an owned string.
pub fn trimmed(s: &str) -> (r: String)
    ensures
        r@ == trim(s@),
{
    let cs = chars_of(s);
    let (a, b) = trim_bounds(cs.as_slice());
    string_of(slice_range(cs.as_slice(), a, b).as_slice())
}

/// `str::trim`, borrowing from `s`.
pub fn trim_str(s: &str) -> (r: &str)
    ensures
        r@ == trim(s@),
{
    let cs = chars_of(s);
    let (a, b) = trim_bounds(cs.as_slice());
    s.substring_char(a, b)
}

/// `s.trim().is_empty()`: `s` holds only whitespace.
pub fn is_blank(s: &str) -> (r: bool)
    ensures
        r == (trim(s@).len() == 0),
{
    let cs = chars_of(s);
    let (a, b) = trim_bounds(cs.as_slice());
    a == b
}

/// A copy of `s[a..b]`.
pub fn slice_range<T: Copy>(s: &[T], a: usize, b: usize) -> (r: Vec<T>)
    requires
        a <= b <= s@.len(),
    ensures
        r@ == s@.subrange(a as int, b as int),
{
    let mut out: Vec<T> = Vec::new();
    let mut k = a;
    while k < b
        invariant
            a <= k <= b,
            b <= s@.len(),
            out@ == s@.subrange(a as int, k as int),
        decreases b - k,
    {
        out.push(s[k]);
        k = k + 1;
        assert(out@ =~= s@.subrange(a as int, k as int));
    }
    out
}

/// Whether two character sequences are equal.
pub fn chars_eq(a: &[char], b: &[char]) -> (r: bool)
    ensures
        r == (a@ == b@),
{
    if a.len() != b.len() {
        return false;
    }
    let mut i: usize = 0;
    while i < a.len()
        invariant
            a@.len() == b@.len(),
            i <= a@.len(),
            forall|k: int| 0 <= k < i ==> a@[k] == b@[k],
        decreases a@.len() - i,
    {
        if a[i] != b[i] {
            return false;
        }
        i = i + 1;
    }
    assert(a@ =~= b@);
    true
}

/// Whether two strings are equal.
pub fn str_eq(a: &str, b: &str) -> (r: bool)
    ensures
        r == (a@ == b@),
{
    let x = chars_of(a);
    let y = chars_of(b);
    chars_eq(x.as_slice(), y.as_slice())
}

/// `a` starts with `p`.
pub fn chars_start_with(a: &[char], p: &[char]) -> (r: bool)
    ensures
        r == (p@.len() <= a@.len() && a@.take(p@.len() as int) == p@),
{
    if p.len() > a.len() {
        return false;
    }
    let mut i: usize = 0;
    while i < p.len()
        invariant
            p@.len() <= a@.len(),
            i <= p@.len(),
            forall|k: int| 0 <= k < i ==> a@[k] == p@[k],
        decreases p@.len() - i,
    {
        if a[i] != p[i] {
            assert(a@.take(p@.len() as int)[i as int] != p@[i as int]);
            return false;
        }
        i = i + 1;
    }
    assert(a@.take(p@.len() as int) =~= p@);
    true
}

/// `str::to_ascii_lowercase`.
pub fn to_ascii_lower(s: &[char]) -> (r: Vec<char>)
    ensures
        r@ == ascii_lower(s@),
{
    let mut out: Vec<char> = Vec::new();
    let mut i: usize = 0;
    while i < s.len()
        invariant
            i <= s@.len(),
            out@ == ascii_lower(s@.take(i as int)),
        decreases s@.len() - i,
    {
        out.push(char_lower(s[i]));
        i = i + 1;
        assert(ascii_lower(s@.take(i as int)) =~= ascii_lower(s@.take(i - 1)).push(
            lower_char(s@[i - 1]),
        ));
    }
    assert(s@.take(s@.len() as int) =~= s@);
    out
}

/// `str::to_ascii_uppercase`.
pub fn to_ascii_upper(s: &[char]) -> (r: Vec<char>)
    ensures
        r@ == ascii_upper(s@),
{
    let mut out: Vec<char> = Vec::new();
    let mut i: usize = 0;
    while i < s.len()
        invariant
            i <= s@.len(),
            out@ == ascii_upper(s@.take(i as int)),
        decreases s@.len() - i,
    {
        out.push(char_upper(s[i]));
        i = i + 1;
        assert(ascii_upper(s@.take(i as int)) =~= ascii_upper(s@.take(i - 1)).push(
            upper_char(s@[i - 1]),
        ));
    }
    assert(s@.take(s@.len() as int) =~= s@);
    out
}

/// Position of the first `c` in `s`, if any.
pub fn find_char(s: &[char], c: char) -> (r: Option<usize>)
    ensures
        r matches Some(i) ==> i < s@.len() && s@[i as int] == c && forall|k: int|
            0 <= k < i ==> s@[k] != c,
        r is None ==> forall|k: int| 0 <= k < s@.len() ==> s@[k] != c,
{
    let mut i: usize = 0;
    while i < s.len()
        invariant
            i <= s@.len(),
            forall|k: int| 0 <= k < i ==> s@[k] != c,
        decreases s@.len() - i,
    {
        if s[i] == c {
            return Some(i);
        }
        i = i + 1;
    }
    None
}

/// ASCII digit character of `d < 10`.
pub open spec fn digit_char(d: int) -> char {
    ((d + 48) as u8) as char
}

/// Decimal representation of `n`, as `Display` writes an unsigned integer.
pub open spec fn decimal(n: nat) -> Seq<char>
    decreases n,
{
    if n < 10 {
        seq![digit_char(n as int)]
    } else {
        decimal(n / 10).push(digit_char((n % 10) as int))
    }
}

/// Decimal value of a digit string (`0` for the empty string).
pub open spec fn digits_value(s: Seq<char>) -> nat
    decreases s.len(),
{
    if s.len() == 0 {
        0
    } else {
        digits_value(s.drop_last()) * 10 + ((s.last() as u32) - 48) as nat
    }
}

/// Decimal text of `n`.
pub fn decimal_string(n: u64) -> (r: String)
    ensures
        r@ == decimal(n as nat),
    decreases n,
{
    if n < 10 {
        let mut s = String::new();
        let c: char = ((n as u8) + 48) as char;
        push_char(&mut s, c);
        assert(s@ =~= seq![digit_char(n as int)]);
        s
    } else {
        let mut s = decimal_string(n / 10);
        let c: char = (((n % 10) as u8) + 48) as char;
        push_char(&mut s, c);
        s
    }
}

/// `digits` with `'0'`s in front up to `width` characters, as a `{:0w}`
/// format writes an unsigned integer.
pub open spec fn zero_padded(digits: Seq<char>, width: nat) -> Seq<char> {
    if digits.len() < width {
        Seq::new((width - digits.len()) as nat, |i: int| '0') + digits
    } else {
        digits
    }
}

/// `x` as a `{:0w}` format writes a signed integer: the sign, then zeros up
/// to `width` characters in all.
pub open spec fn signed_zero_padded(x: int, width: nat) -> Seq<char> {
    if x < 0 {
        "-"@ + zero_padded(decimal((-x) as nat), (if width >= 1 { width - 1 } else { 0 }) as nat)
    } else {
        zero_padded(decimal(x as nat), width)
    }
}

/// `n` in decimal, zero-padded to `width` characters.
pub fn zero_padded_decimal(n: u64, width: usize) -> (r: String)
    ensures
        r@ == zero_padded(decimal(n as nat), width as nat),
{
    let digits = decimal_string(n);
    let len = digits.as_str().unicode_len();
    let mut out = String::new();
    if len < width {
        let fill = width - len;
        let mut i: usize = 0;
        while i < fill
            invariant
                i <= fill,
                out@ == Seq::new(i as nat, |k: int| '0'),
            decreases fill - i,
        {
            push_char(&mut out, '0');
            i = i + 1;
            assert(out@ =~= Seq::new(i as nat, |k: int| '0'));
        }
    }
    out.append(digits.as_str());
    assert(out@ =~= zero_padded(decimal(n as nat), width as nat));
    out
}

/// `x` in decimal, sign first, zero-padded to `width` characters in all.
pub fn signed_zero_padded_decimal(x: i64, width: usize) -> (r: String)
    ensures
        r@ == signed_zero_padded(x as int, width as nat),
{
    if x < 0 {
        let magnitude: u64 = ((-(x + 1)) as u64) + 1;
        let rest = zero_padded_decimal(magnitude, if width >= 1 { width - 1 } else { 0 });
        concat2("-", rest.as_str())
    } else {
        zero_padded_decimal(x as u64, width)
    }
}

/// `s.split(c)`: the pieces between occurrences of `c` (one empty piece for
/// the empty string).
pub open spec fn split_on(s: Seq<char>, c: char) -> Seq<Seq<char>>
    decreases s.len(),
{
    if s.len() == 0 {
        seq![Seq::<char>::empty()]
    } else {
        let rest = split_on(s.drop_last(), c);
        if s.last() == c {
            rest.push(Seq::<char>::empty())
        } else {
            rest.update(rest.len() - 1, rest.last().push(s.last()))
        }
    }
}

/// `split_on` always yields at least one piece.
pub proof fn lemma_split_on_nonempty(s: Seq<char>, c: char)
    ensures
        split_on(s, c).len() >= 1,
    decreases s.len(),
{
    if s.len() > 0 {
        lemma_split_on_nonempty(s.drop_last(), c);
    }
}

/// The views of a vector of character vectors.
pub open spec fn views(v: Seq<Vec<char>>) -> Seq<Seq<char>> {
    v.map_values(|x: Vec<char>| x@)
}

/// `s.split(c)`, as character vectors.
pub fn split_chars(s: &[char], c: char) -> (r: Vec<Vec<char>>)
    ensures
        views(r@) == split_on(s@, c),
{
    let mut parts: Vec<Vec<char>> = Vec::new();
    parts.push(Vec::new());
    let mut i: usize = 0;
    assert(s@.take(0) =~= Seq::<char>::empty());
    assert(views(parts@) =~= split_on(s@.take(0), c));
    while i < s.len()
        invariant
            i <= s@.len(),
            parts@.len() >= 1,
            views(parts@) == split_on(s@.take(i as int), c),
        decreases s@.len() - i,
    {
        let ch = s[i];
        assert(s@.take(i + 1).drop_last() =~= s@.take(i as int));
        if ch == c {
            parts.push(Vec::new());
            assert(views(parts@) =~= split_on(s@.take(i + 1), c));
        } else {
            let last = parts.len() - 1;
            let mut piece = parts.pop().unwrap();
            piece.push(ch);
            parts.push(piece);
            assert(views(parts@) =~= split_on(s@.take(i + 1), c));
        }
        i = i + 1;
    }
    assert(s@.take(s@.len() as int) =~= s@);
    parts
}

/// `str::trim` on characters.
pub fn trim_chars(s: &[char]) -> (r: Vec<char>)
    ensures
        r@ == trim(s@),
{
    let (a, b) = trim_bounds(s);
    slice_range(s, a, b)
}

/// `s.split_once(c)`: the text before and after the first `c`.
pub open spec fn split_once(s: Seq<char>, c: char) -> Option<(Seq<char>, Seq<char>)> {
    if exists|i: int| 0 <= i < s.len() && s[i] == c {
        let i = choose|i: int| 0 <= i < s.len() && s[i] == c && forall|k: int| 0 <= k < i ==> s[k] != c;
        Some((s.take(i), s.skip(i + 1)))
    } else {
        None
    }
}

/// `split_once` on characters.
pub fn split_once_chars(s: &[char], c: char) -> (r: Option<(Vec<char>, Vec<char>)>)
    ensures
        r is None <==> split_once(s@, c) is None,
        r matches Some((a, b)) ==> split_once(s@, c) == Some((a@, b@)),
{
    match find_char(s, c) {
        None => None,
        Some(i) => {
            assert(s@.len() == s.len());
            let a = slice_range(s, 0, i);
            let b = slice_range(s, i + 1, s.len());
            proof {
                let j = choose|j: int|
                    0 <= j < s@.len() && s@[j] == c && forall|k: int| 0 <= k < j ==> s@[k] != c;
                assert(0 <= j < s@.len() && s@[j] == c && forall|k: int| 0 <= k < j ==> s@[k] != c);
                assert(j == i);
                assert(a@ =~= s@.take(i as int));
                assert(b@ =~= s@.skip(i + 1));
            }
            Some((a, b))
        },
    }
}

/// Decimal text of an integer, with `-` before a negative one.
pub open spec fn signed_decimal(x: int) -> Seq<char> {
    if x < 0 {
        "-"@ + decimal((-x) as nat)
    } else {
        decimal(x as nat)
    }
}

/// The decimal text of an `i64`.
pub fn signed_decimal_string(x: i64) -> (r: String)
    ensures
        r@ == signed_decimal(x as int),
{
    if x < 0 {
        let magnitude: u64 = ((-(x + 1)) as u64) + 1;
        let digits = decimal_string(magnitude);
        concat2("-", digits.as_str())
    } else {
        decimal_string(x as u64)
    }
}
/// A digit string's value is at least that of any of its prefixes.
pub proof fn lemma_digits_value_prefix(s: Seq<char>, i: int)
    requires
        0 <= i <= s.len(),
        forall|k: int| 0 <= k < s.len() ==> is_digit(#[trigger] s[k]),
    ensures
        digits_value(s.take(i)) <= digits_value(s),
    decreases s.len() - i,
{
    if i < s.len() {
        lemma_digits_value_prefix(s, i + 1);
        assert(s.take(i + 1).drop_last() =~= s.take(i));
    } else {
        assert(s.take(i) =~= s);
    }
}

/// Every character is an ASCII digit.
pub open spec fn all_digits(d: Seq<char>) -> bool {
    forall|i: int| 0 <= i < d.len() ==> is_digit(#[trigger] d[i])
}

/// `str::parse::<i64>`: an optional sign, then one or more ASCII digits
/// whose value fits an `i64`.
pub open spec fn parse_i64_spec(s: Seq<char>) -> Option<i64> {
    let neg = s.len() > 0 && s[0] == '-';
    let d = if s.len() > 0 && (s[0] == '+' || s[0] == '-') {
        s.skip(1)
    } else {
        s
    };
    let fits = if neg {
        digits_value(d) <= 0x8000_0000_0000_0000
    } else {
        digits_value(d) <= i64::MAX
    };
    if d.len() > 0 && all_digits(d) && fits {
        Some(
            (if neg {
                -(digits_value(d) as int)
            } else {
                digits_value(d) as int
            }) as i64,
        )
    } else {
        None
    }
}

/// Parses a decimal `i64` as `str::parse` does.
pub fn parse_i64(s: &[char]) -> (r: Option<i64>)
    ensures
        r == parse_i64_spec(s@),
{
    let neg = s.len() > 0 && s[0] == '-';
    let start: usize = if s.len() > 0 && (s[0] == '+' || s[0] == '-') {
        1
    } else {
        0
    };
    let limit: u64 = if neg {
        0x8000_0000_0000_0000
    } else {
        0x7FFF_FFFF_FFFF_FFFF
    };
    let ghost d = s@.skip(start as int);
    assert(d =~= if s@.len() > 0 && (s@[0] == '+' || s@[0] == '-') {
        s@.skip(1)
    } else {
        s@
    });
    if start == s.len() {
        return None;
    }
    let mut v: u64 = 0;
    let mut i: usize = start;
    while i < s.len()
        invariant
            start <= i <= s@.len(),
            start < s@.len(),
            d == s@.skip(start as int),
            d == (if s@.len() > 0 && (s@[0] == '+' || s@[0] == '-') {
                s@.skip(1)
            } else {
                s@
            }),
            neg == (s@.len() > 0 && s@[0] == '-'),
            limit == (if neg {
                0x8000_0000_0000_0000u64
            } else {
                0x7FFF_FFFF_FFFF_FFFFu64
            }),
            forall|k: int| 0 <= k < i - start ==> is_digit(#[trigger] d[k]),
            v as nat == digits_value(d.take(i - start)),
            v <= limit,
            0x7FFF_FFFF_FFFF_FFFF <= limit <= 0x8000_0000_0000_0000,
        decreases s@.len() - i,
    {
        let c = s[i];
        assert(d[i - start] == c);
        if c < '0' || c > '9' {
            assert(!is_digit(d[i - start]));
            return None;
        }
        assert(d.take(i - start + 1).drop_last() =~= d.take(i - start));
        assert(d.take(i - start + 1).last() == c);
        let digit: u64 = ((c as u32) - 48) as u64;
        if v > (limit - digit) / 10 {
            proof {
                assert(v * 10 + digit > limit) by (nonlinear_arith)
                    requires
                        v > (limit - digit) / 10,
                        digit <= 9,
                        digit <= limit,
                ;
                if forall|k: int| 0 <= k < d.len() ==> is_digit(#[trigger] d[k]) {
                    lemma_digits_value_prefix(d, i - start + 1);
                }
            }
            return None;
        }
        assert(v * 10 + digit <= limit) by (nonlinear_arith)
            requires
                v <= (limit - digit) / 10,
                digit <= 9,
                digit <= limit,
        ;
        v = v * 10 + digit;
        i = i + 1;
    }
    assert(d.take(d.len() as int) =~= d);
    if neg {
        if v == 0x8000_0000_0000_0000 {
            Some(i64::MIN)
        } else {
            Some(-(v as i64))
        }
    } else {
        Some(v as i64)
    }
}

} // verus!
