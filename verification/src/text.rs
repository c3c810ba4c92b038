//! Text building blocks: decimal rendering, character classes and
//! string assembly, each with a contract over `Seq<char>`.

use vstd::prelude::*;
use vstd::string::*;

verus! {

/// The decimal digit character for `d < 10`.
pub open spec fn digit_char(d: nat) -> char {
    if d == 0 { '0' }
    else if d == 1 { '1' }
    else if d == 2 { '2' }
    else if d == 3 { '3' }
    else if d == 4 { '4' }
    else if d == 5 { '5' }
    else if d == 6 { '6' }
    else if d == 7 { '7' }
    else if d == 8 { '8' }
    else { '9' }
}

/// Base-10 rendering of `n` without leading zeros (`0` renders as `"0"`).
pub open spec fn decimal(n: nat) -> Seq<char>
    decreases n,
{
    if n < 10 {
        seq![digit_char(n)]
    } else {
        decimal(n / 10).push(digit_char(n % 10))
    }
}

fn exec_digit_char(d: u64) -> (c: char)
    requires
        d < 10,
    ensures
        c == digit_char(d as nat),
{
    if d == 0 { '0' }
    else if d == 1 { '1' }
    else if d == 2 { '2' }
    else if d == 3 { '3' }
    else if d == 4 { '4' }
    else if d == 5 { '5' }
    else if d == 6 { '6' }
    else if d == 7 { '7' }
    else if d == 8 { '8' }
    else { '9' }
}

/// Appends one character (`String::push`).
#[verifier::external_body]
pub(crate) fn push_char(s: &mut String, c: char)
    ensures
        final(s)@ == old(s)@.push(c),
{
    s.push(c);
}

/// Appends a string slice.
pub(crate) fn push_str(s: &mut String, t: &str)
    ensures
        final(s)@ == old(s)@ + t@,
{
    s.append(t);
}

/// Appends every character of `cs` in order.
pub(crate) fn push_chars(s: &mut String, cs: &Vec<char>)
    ensures
        final(s)@ == old(s)@ + cs@,
{
    let ghost start = s@;
    let mut i: usize = 0;
    while i < cs.len()
        invariant
            0 <= i <= cs.len(),
            s@ == start + cs@.subrange(0, i as int),
        decreases cs.len() - i,
    {
        push_char(s, cs[i]);
        i = i + 1;
        assert(cs@.subrange(0, i as int) == cs@.subrange(0, i - 1 as int).push(cs@[i - 1]));
    }
    assert(cs@.subrange(0, cs.len() as int) == cs@);
}

/// The characters of a string slice, in order.
pub fn chars_of(s: &str) -> (r: Vec<char>)
    ensures
        r@ == s@,
{
    broadcast use vstd::string::group_string_axioms;

    let mut out: Vec<char> = Vec::new();
    for c in it: s.chars()
        invariant
            out@ == it.seq().take(it.index() as int),
            it.seq() == s@,
    {
        out.push(c);
    }
    out
}

/// Appends the decimal rendering of `n`.
pub fn push_decimal(s: &mut String, n: u64)
    ensures
        final(s)@ == old(s)@ + decimal(n as nat),
    decreases n,
{
    if n < 10 {
        let c = exec_digit_char(n);
        push_char(s, c);
    } else {
        push_decimal(s, n / 10);
        let c = exec_digit_char(n % 10);
        push_char(s, c);
    }
}

} // verus!

verus! {

/// ASCII decimal digit.
pub open spec fn is_ascii_digit(c: char) -> bool {
    '0' <= c && c <= '9'
}

/// ASCII letter or digit.
pub open spec fn is_ascii_alphanumeric(c: char) -> bool {
    is_ascii_digit(c) || ('a' <= c && c <= 'z') || ('A' <= c && c <= 'Z')
}

pub fn exec_is_ascii_digit(c: char) -> (r: bool)
    ensures
        r == is_ascii_digit(c),
{
    '0' <= c && c <= '9'
}

pub fn exec_is_ascii_alphanumeric(c: char) -> (r: bool)
    ensures
        r == is_ascii_alphanumeric(c),
{
    ('0' <= c && c <= '9') || ('a' <= c && c <= 'z') || ('A' <= c && c <= 'Z')
}

/// Value of an ASCII digit.
pub open spec fn digit_value(c: char) -> nat {
    (c as int - '0' as int) as nat
}

/// The number an ASCII digit string spells (most significant first).
pub open spec fn digits_value(ds: Seq<char>) -> nat
    decreases ds.len(),
{
    if ds.len() == 0 { 0 } else { digits_value(ds.drop_last()) * 10 + digit_value(ds.last()) }
}

/// The Unicode `White_Space` property: tab to carriage return, space,
/// next line, no-break space, ogham space mark, the spaces from en quad to
/// hair space, the line and paragraph separators, narrow no-break space,
/// medium mathematical space and ideographic space.
pub open spec fn char_is_whitespace(c: char) -> bool {
    let u = c as u32;
    ||| 0x09 <= u <= 0x0d
    ||| u == 0x20 || u == 0x85 || u == 0xa0 || u == 0x1680
    ||| 0x2000 <= u <= 0x200a
    ||| u == 0x2028 || u == 0x2029 || u == 0x202f || u == 0x205f || u == 0x3000
}

/// Whether `c` has the Unicode `White_Space` property, as
/// `char::is_whitespace` answers.
pub fn is_whitespace(c: char) -> (r: bool)
    ensures
        r == char_is_whitespace(c),
{
    let u = c as u32;
    (0x09 <= u && u <= 0x0d) || u == 0x20 || u == 0x85 || u == 0xa0 || u == 0x1680 || (0x2000 <= u && u
        <= 0x200a) || u == 0x2028 || u == 0x2029 || u == 0x202f || u == 0x205f || u == 0x3000
}

/// Index of the first character of `s` at or after `i` that is not whitespace.
pub open spec fn skip_ws_forward(s: Seq<char>, i: int) -> int
    decreases s.len() - i,
{
    if i < s.len() && char_is_whitespace(s[i]) { skip_ws_forward(s, i + 1) } else { i }
}

/// One past the last character before `j` that is not whitespace, but not
/// below `lo`.
pub open spec fn skip_ws_backward(s: Seq<char>, lo: int, j: int) -> int
    decreases j - lo,
{
    if j > lo && char_is_whitespace(s[j - 1]) { skip_ws_backward(s, lo, j - 1) } else { j }
}

/// `str::trim`: leading and trailing whitespace removed.
pub open spec fn trim_spec(s: Seq<char>) -> Seq<char> {
    let a = skip_ws_forward(s, 0);
    s.subrange(a, skip_ws_backward(s, a, s.len() as int))
}

/// The characters of `s` with leading and trailing whitespace removed.
pub fn trim_chars(s: &Vec<char>) -> (r: Vec<char>)
    ensures
        r@ == trim_spec(s@),
{
    let mut a: usize = 0;
    while a < s.len() && is_whitespace(s[a])
        invariant
            0 <= a <= s@.len(),
            skip_ws_forward(s@, 0) == skip_ws_forward(s@, a as int),
        decreases s@.len() - a,
    {
        a = a + 1;
    }
    let mut b: usize = s.len();
    while b > a && is_whitespace(s[b - 1])
        invariant
            a <= b <= s@.len(),
            skip_ws_forward(s@, 0) == a,
            skip_ws_backward(s@, a as int, s@.len() as int) == skip_ws_backward(s@, a as int, b as int),
        decreases b - a,
    {
        b = b - 1;
    }
    let mut out: Vec<char> = Vec::new();
    let mut k: usize = a;
    while k < b
        invariant
            a <= k <= b <= s@.len(),
            out@ == s@.subrange(a as int, k as int),
        decreases b - k,
    {
        out.push(s[k]);
        k = k + 1;
        assert(out@ =~= s@.subrange(a as int, k as int));
    }
    out
}

/// Parses an ASCII digit string as a `u32`: `None` when it does not fit.
pub fn parse_u32_digits(ds: &Vec<char>, from: usize, to: usize) -> (r: Option<u32>)
    requires
        from <= to <= ds@.len(),
        forall|k: int| from <= k < to ==> is_ascii_digit(#[trigger] ds@[k]),
    ensures
        r matches Some(v) ==> v as nat == digits_value(ds@.subrange(from as int, to as int)),
        r is None <==> digits_value(ds@.subrange(from as int, to as int)) > u32::MAX,
{
    let mut acc: u64 = 0;
    let mut over = false;
    let mut k: usize = from;
    while k < to
        invariant
            from <= k <= to <= ds@.len(),
            forall|j: int| from <= j < to ==> is_ascii_digit(#[trigger] ds@[j]),
            !over ==> acc as nat == digits_value(ds@.subrange(from as int, k as int)) && acc
                <= u32::MAX,
            over ==> digits_value(ds@.subrange(from as int, k as int)) > u32::MAX,
        decreases to - k,
    {
        let c = ds[k];
        let ghost pre = ds@.subrange(from as int, k as int);
        let ghost post = ds@.subrange(from as int, k + 1 as int);
        assert(post.drop_last() == pre);
        assert(post.last() == c);
        let d = (c as u32 - '0' as u32) as u64;
        if !over {
            acc = acc * 10 + d;
            if acc > 0xFFFF_FFFF {
                over = true;
            }
        } else {
            assert(digits_value(post) >= digits_value(pre)) by (nonlinear_arith)
                requires
                    digits_value(post) == digits_value(pre) * 10 + digit_value(c),
            ;
        }
        k = k + 1;
    }
    if over {
        None
    } else {
        Some(acc as u32)
    }
}

} // verus!

verus! {

/// Result of `char::is_alphanumeric`: the Unicode `Alphabetic` or `Numeric`
/// property.
pub uninterp spec fn char_is_alphanumeric(c: char) -> bool;

/// `char::is_alphanumeric`. For ASCII this is exactly the letters and digits;
/// beyond ASCII the result is named, not spelled out.
#[verifier::external_body]
pub(crate) fn is_alphanumeric(c: char) -> (r: bool)
    ensures
        r == char_is_alphanumeric(c),
        (c as u32) < 128 ==> (r <==> is_ascii_alphanumeric(c)),
{
    c.is_alphanumeric()
}

/// Result of `str::to_lowercase` (Unicode `Lowercase` mapping, including the
/// context-dependent final sigma).
pub uninterp spec fn lowercase(s: Seq<char>) -> Seq<char>;

/// An ASCII character lowered: `A`-`Z` become `a`-`z`, the rest stay.
pub open spec fn ascii_lower(c: char) -> char {
    if 'A' <= c && c <= 'Z' {
        ((c as u32) + 32) as char
    } else {
        c
    }
}

/// `str::to_lowercase`; the result is named by `lowercase`. std documents
/// the mapping as Unicode `Lowercase`, which on ASCII text maps `A`-`Z` to
/// `a`-`z` one for one and leaves every other ASCII character as it is.
#[verifier::external_body]
pub(crate) fn to_lowercase(s: &str) -> (r: String)
    ensures
        r@ == lowercase(s@),
        (forall|i: int| 0 <= i < s@.len() ==> (#[trigger] s@[i] as u32) < 128) ==> r@ == s@.map_values(
            |c: char| ascii_lower(c),
        ),
{
    s.to_lowercase()
}

} // verus!

verus! {

/// `n < 10^width` rendered with zeros on the left to `width` digits
/// (width 2 or 3).
pub open spec fn zero_padded(n: nat, width: nat) -> Seq<char> {
    if width == 3 && n < 10 {
        seq!['0', '0'] + decimal(n)
    } else if (width == 3 && n < 100) || (width == 2 && n < 10) {
        seq!['0'] + decimal(n)
    } else {
        decimal(n)
    }
}

/// Appends `n` zero-padded to `width` (2 or 3) digits.
pub fn push_zero_padded(s: &mut String, n: u64, width: u64)
    requires
        width == 2 || width == 3,
    ensures
        final(s)@ == old(s)@ + zero_padded(n as nat, width as nat),
{
    if width == 3 && n < 10 {
        push_char(s, '0');
        push_char(s, '0');
    } else if (width == 3 && n < 100) || (width == 2 && n < 10) {
        push_char(s, '0');
    }
    push_decimal(s, n);
}

/// `n` rendered right-aligned in a field of at least `width` characters.
pub open spec fn right_aligned(n: nat, width: nat) -> Seq<char> {
    let d = decimal(n);
    if d.len() >= width {
        d
    } else {
        Seq::new((width - d.len()) as nat, |i: int| ' ') + d
    }
}

/// The number of characters of `decimal(n)`.
pub fn decimal_len(n: u64) -> (r: u64)
    ensures
        r == decimal(n as nat).len(),
        r <= n + 1,
    decreases n,
{
    if n < 10 {
        1
    } else {
        let k = decimal_len(n / 10);
        k + 1
    }
}

/// Appends `n` right-aligned in a field of at least `width` characters.
pub fn push_right_aligned(s: &mut String, n: u64, width: u64)
    ensures
        final(s)@ == old(s)@ + right_aligned(n as nat, width as nat),
{
    let ghost start = s@;
    let len = decimal_len(n);
    if len < width {
        let pad = width - len;
        let mut k: u64 = 0;
        while k < pad
            invariant
                0 <= k <= pad,
                s@ == start + Seq::new(k as nat, |i: int| ' '),
            decreases pad - k,
        {
            push_char(s, ' ');
            k = k + 1;
            assert(s@ =~= start + Seq::new(k as nat, |i: int| ' '));
        }
    }
    push_decimal(s, n);
    assert(s@ =~= start + right_aligned(n as nat, width as nat));
}


/// Lexicographic order of texts by code point, as `str`'s `<` orders them
/// (UTF-8 byte order and code-point order agree).
pub open spec fn text_less(a: Seq<char>, b: Seq<char>) -> bool
    decreases a.len(),
{
    if a.len() == 0 {
        b.len() > 0
    } else if b.len() == 0 {
        false
    } else if a[0] != b[0] {
        (a[0] as u32) < (b[0] as u32)
    } else {
        text_less(a.drop_first(), b.drop_first())
    }
}

/// `text_less` never holds of a text and itself.
pub proof fn lemma_text_less_irreflexive(a: Seq<char>)
    ensures
        !text_less(a, a),
    decreases a.len(),
{
    if a.len() > 0 {
        lemma_text_less_irreflexive(a.drop_first());
    }
}

/// `text_less` is asymmetric.
pub proof fn lemma_text_less_asymmetric(a: Seq<char>, b: Seq<char>)
    ensures
        text_less(a, b) ==> !text_less(b, a),
    decreases a.len(),
{
    if a.len() > 0 && b.len() > 0 && a[0] == b[0] {
        lemma_text_less_asymmetric(a.drop_first(), b.drop_first());
    }
}

/// `text_less` is transitive.
pub proof fn lemma_text_less_transitive(a: Seq<char>, b: Seq<char>, c: Seq<char>)
    ensures
        text_less(a, b) && text_less(b, c) ==> text_less(a, c),
    decreases a.len(),
{
    if a.len() > 0 && b.len() > 0 && c.len() > 0 && a[0] == b[0] && b[0] == c[0] {
        lemma_text_less_transitive(a.drop_first(), b.drop_first(), c.drop_first());
    }
}

/// Two different texts are ordered one way or the other.
pub proof fn lemma_text_less_total(a: Seq<char>, b: Seq<char>)
    ensures
        a != b ==> text_less(a, b) || text_less(b, a),
    decreases a.len(),
{
    if a.len() > 0 && b.len() > 0 && a[0] == b[0] {
        lemma_text_less_total(a.drop_first(), b.drop_first());
        if a.drop_first() == b.drop_first() {
            assert forall|i: int| 0 <= i < a.len() implies a[i] == b[i] by {
                if i > 0 {
                    assert(a[i] == a.drop_first()[i - 1]);
                    assert(b[i] == b.drop_first()[i - 1]);
                }
            }
            assert(a =~= b);
        }
    } else if a.len() == 0 && b.len() == 0 {
        assert(a =~= b);
    } else if a.len() > 0 && b.len() > 0 {
        vstd::utf8::char_u32_cast(a[0], a[0] as u32);
        vstd::utf8::char_u32_cast(b[0], b[0] as u32);
    }
}

/// "Not less than" is transitive.
pub proof fn lemma_text_not_less_transitive(a: Seq<char>, b: Seq<char>, c: Seq<char>)
    ensures
        !text_less(a, b) && !text_less(b, c) ==> !text_less(a, c),
{
    lemma_text_less_total(a, b);
    lemma_text_less_transitive(b, a, c);
}

/// `a < b` in the order of `text_less`.
pub fn text_lt(a: &str, b: &str) -> (r: bool)
    ensures
        r == text_less(a@, b@),
{
    let x = chars_of(a);
    let y = chars_of(b);
    let mut i: usize = 0;
    assert(a@.skip(0) =~= a@ && b@.skip(0) =~= b@);
    while i < x.len() && i < y.len() && x[i] == y[i]
        invariant
            i <= x.len(),
            i <= y.len(),
            x@ == a@,
            y@ == b@,
            text_less(a@, b@) == text_less(a@.skip(i as int), b@.skip(i as int)),
        decreases x.len() - i,
    {
        let ghost (sa, sb) = (a@.skip(i as int), b@.skip(i as int));
        assert(sa.drop_first() =~= a@.skip(i + 1));
        assert(sb.drop_first() =~= b@.skip(i + 1));
        i = i + 1;
    }
    let ghost (sa, sb) = (a@.skip(i as int), b@.skip(i as int));
    if i == x.len() {
        assert(sa.len() == 0);
        i < y.len()
    } else if i == y.len() {
        assert(sb.len() == 0);
        false
    } else {
        assert(sa[0] == x[i as int] && sb[0] == y[i as int]);
        (x[i] as u32) < (y[i] as u32)
    }
}


/// The decimal rendering of a signed integer: a `-` before the magnitude
/// of a negative one.
pub open spec fn signed_decimal(n: int) -> Seq<char> {
    if n < 0 {
        seq!['-'] + decimal((-n) as nat)
    } else {
        decimal(n as nat)
    }
}

/// Appends the decimal rendering of `n`.
pub fn push_signed_decimal(s: &mut String, n: i64)
    ensures
        final(s)@ == old(s)@ + signed_decimal(n as int),
{
    if n < 0 {
        push_char(s, '-');
        let m: u64 = (0i128 - n as i128) as u64;
        push_decimal(s, m);
    } else {
        push_decimal(s, n as u64);
    }
}


/// The UTF-8 length of a text in bytes.
pub open spec fn utf8_len(s: Seq<char>) -> nat {
    vstd::utf8::encode_utf8(s).len()
}

/// Appending a character appends its encoding.
pub proof fn lemma_encode_utf8_push(s: Seq<char>, c: char)
    ensures
        vstd::utf8::encode_utf8(s.push(c)) == vstd::utf8::encode_utf8(s) + vstd::utf8::encode_scalar(
            c as u32,
        ),
    decreases s.len(),
{
    if s.len() == 0 {
        assert(s.push(c).drop_first() =~= Seq::<char>::empty());
        assert(vstd::utf8::encode_utf8(Seq::<char>::empty()) =~= Seq::<u8>::empty());
        assert(vstd::utf8::encode_scalar(c as u32) + Seq::<u8>::empty() =~= vstd::utf8::encode_scalar(
            c as u32,
        ));
        assert(vstd::utf8::encode_utf8(s) =~= Seq::<u8>::empty());
        assert(Seq::<u8>::empty() + vstd::utf8::encode_scalar(c as u32) =~= vstd::utf8::encode_scalar(
            c as u32,
        ));
    } else {
        assert(s.push(c).drop_first() =~= s.drop_first().push(c));
        lemma_encode_utf8_push(s.drop_first(), c);
        assert(s.push(c)[0] == s[0]);
        assert(vstd::utf8::encode_utf8(s.push(c)) =~= vstd::utf8::encode_scalar(s[0] as u32) + (
        vstd::utf8::encode_utf8(s.drop_first()) + vstd::utf8::encode_scalar(c as u32)));
    }
}

/// The number of bytes UTF-8 takes for `c`.
pub fn char_utf8_width(c: char) -> (r: usize)
    ensures
        r == vstd::utf8::encode_scalar(c as u32).len(),
{
    let v = c as u32;
    proof {
        vstd::utf8::char_is_scalar(c);
    }
    if v < 0x80 {
        1
    } else if v < 0x800 {
        2
    } else if v < 0x10000 {
        3
    } else {
        4
    }
}

/// The UTF-8 length of `s` in bytes, or `usize::MAX` when it is at least
/// that.
pub fn utf8_len_capped(s: &str) -> (r: usize)
    ensures
        r == if utf8_len(s@) < usize::MAX {
            utf8_len(s@)
        } else {
            usize::MAX as nat
        },
{
    broadcast use vstd::string::group_string_axioms;

    let mut n: usize = 0;
    for c in it: s.chars()
        invariant
            it.seq() == s@,
            n == if utf8_len(it.seq().take(it.index() as int)) < usize::MAX {
                utf8_len(it.seq().take(it.index() as int))
            } else {
                usize::MAX as nat
            },
    {
        let ghost k = it.index() as int;
        proof {
            lemma_encode_utf8_push(s@.take(k), c);
            assert(s@.take(k + 1) =~= s@.take(k).push(c));
        }
        let w = char_utf8_width(c);
        n = n.saturating_add(w);
    }
    assert(s@.take(s@.len() as int) =~= s@);
    n
}

} // verus!
