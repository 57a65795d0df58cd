//! Strings as sequences of characters: building, comparing, cutting and
//! parsing them.
use vstd::prelude::*;

verus! {

/// `String::push`: appends one character.
pub assume_specification[ String::push ](s: &mut String, c: char)
    ensures
        final(s)@ == old(s)@.push(c),
;

/// The digit of value `d` below sixteen, in lower case.
pub open spec fn digit(d: nat) -> char {
    if d < 10 {
        ('0' as nat + d) as char
    } else {
        ('a' as nat + d - 10) as char
    }
}

/// `n` in decimal, without leading zeros.
pub open spec fn decimal(n: nat) -> Seq<char>
    decreases n,
{
    if n < 10 {
        seq![digit(n)]
    } else {
        decimal(n / 10).push(digit(n % 10))
    }
}

/// `n` in lower-case hexadecimal, without leading zeros.
pub open spec fn hex(n: nat) -> Seq<char>
    decreases n,
{
    if n < 16 {
        seq![digit(n)]
    } else {
        hex(n / 16).push(digit(n % 16))
    }
}

/// The low `width` hexadecimal digits of `n`, in lower case.
pub open spec fn hex_digits(n: nat, width: nat) -> Seq<char>
    decreases width,
{
    if width == 0 {
        Seq::empty()
    } else {
        hex_digits(n / 16, (width - 1) as nat).push(digit(n % 16))
    }
}

/// The digit of value `d`.
pub fn digit_char(d: u8) -> (c: char)
    requires
        d < 16,
    ensures
        c == digit(d as nat),
{
    if d < 10 {
        (48 + d) as char
    } else {
        (97 + (d - 10)) as char
    }
}

/// Appends `n` in decimal.
pub fn push_decimal(s: &mut String, n: u64)
    ensures
        final(s)@ == old(s)@ + decimal(n as nat),
    decreases n,
{
    if n >= 10 {
        push_decimal(s, n / 10);
    }
    s.push(digit_char((n % 10) as u8));
}

/// Appends `n` in decimal, for numbers that 64 bits may not hold.
pub fn push_decimal_wide(s: &mut String, n: u128)
    ensures
        final(s)@ == old(s)@ + decimal(n as nat),
    decreases n,
{
    if n >= 10 {
        push_decimal_wide(s, n / 10);
    }
    s.push(digit_char((n % 10) as u8));
}

/// Appends `n` in hexadecimal.
pub fn push_hex(s: &mut String, n: u64)
    ensures
        final(s)@ == old(s)@ + hex(n as nat),
    decreases n,
{
    if n >= 16 {
        push_hex(s, n / 16);
    }
    s.push(digit_char((n % 16) as u8));
}

/// Appends the low `width` hexadecimal digits of `n`.
pub fn push_hex_digits(s: &mut String, n: u128, width: usize)
    ensures
        final(s)@ == old(s)@ + hex_digits(n as nat, width as nat),
    decreases width,
{
    if width > 0 {
        push_hex_digits(s, n / 16, width - 1);
        s.push(digit_char((n % 16) as u8));
    }
}

/// `n` in decimal.
pub fn decimal_text(n: u64) -> (s: String)
    ensures
        s@ == decimal(n as nat),
{
    let mut s = String::new();
    push_decimal(&mut s, n);
    assert(s@ =~= decimal(n as nat));
    s
}

/// The characters of a string.
pub fn to_chars(s: &str) -> (v: Vec<char>)
    ensures
        v@ == s@,
{
    let mut v: Vec<char> = Vec::new();
    for c in it: s.chars()
        invariant
            v@ == it.seq().take(it.index() as int),
            it.seq() == s@,
    {
        v.push(c);
        assert(it.seq().take(it.index() + 1) =~= it.seq().take(it.index() as int).push(c));
    }
    assert(s@.take(s@.len() as int) =~= s@);
    v
}

/// The string of the characters `from..to`.
pub fn from_chars(v: &[char], from: usize, to: usize) -> (s: String)
    requires
        from <= to <= v@.len(),
    ensures
        s@ == v@.subrange(from as int, to as int),
{
    let mut s = String::new();
    let mut i: usize = from;
    while i < to
        invariant
            from <= i <= to <= v@.len(),
            s@ == v@.subrange(from as int, i as int),
        decreases to - i,
    {
        s.push(v[i]);
        assert(v@.subrange(from as int, i + 1) =~= v@.subrange(from as int, i as int).push(
            v@[i as int],
        ));
        i = i + 1;
    }
    s
}

/// Whether `v` holds `want` from `at` on.
pub fn chars_match(v: &[char], at: usize, want: &[char]) -> (yes: bool)
    requires
        at <= v@.len(),
    ensures
        yes == (at + want@.len() <= v@.len() && v@.subrange(at as int, at + want@.len()) == want@),
{
    if v.len() - at < want.len() {
        return false;
    }
    let mut i: usize = 0;
    while i < want.len()
        invariant
            i <= want@.len(),
            at + want@.len() <= v@.len() <= usize::MAX,
            forall|j: int| 0 <= j < i ==> v@[at + j] == want@[j],
        decreases want@.len() - i,
    {
        if v[at + i] != want[i] {
            assert(v@.subrange(at as int, at + want@.len())[i as int] != want@[i as int]);
            return false;
        }
        i = i + 1;
    }
    assert(v@.subrange(at as int, at + want@.len()) =~= want@);
    true
}

/// Whether two strings hold the same characters.
pub fn same_text(a: &str, b: &str) -> (yes: bool)
    ensures
        yes == (a@ == b@),
{
    let x = to_chars(a);
    let y = to_chars(b);
    if x.len() != y.len() {
        return false;
    }
    assert(x@.subrange(0, x@.len() as int) =~= x@);
    chars_match(&x, 0, &y)
}

/// The first index from `from` on that holds `c`.
pub fn find_char(v: &[char], from: usize, c: char) -> (at: Option<usize>)
    requires
        from <= v@.len(),
    ensures
        match at {
            Some(i) => from <= i < v@.len() && v@[i as int] == c && forall|j: int|
                from <= j < i ==> v@[j] != c,
            None => forall|j: int| from <= j < v@.len() ==> v@[j] != c,
        },
{
    let mut i: usize = from;
    while i < v.len()
        invariant
            from <= i <= v@.len(),
            forall|j: int| from <= j < i ==> v@[j] != c,
        decreases v@.len() - i,
    {
        if v[i] == c {
            return Some(i);
        }
        i = i + 1;
    }
    None
}

/// Whether a character has the Unicode property `White_Space`.
pub open spec fn is_white(c: char) -> bool {
    let u = c as u32;
    9 <= u <= 13 || u == 0x20 || u == 0x85 || u == 0xa0 || u == 0x1680 || 0x2000 <= u <= 0x200a || u
        == 0x2028 || u == 0x2029 || u == 0x202f || u == 0x205f || u == 0x3000
}

/// Whether `c` is white space.
pub fn white(c: char) -> (yes: bool)
    ensures
        yes == is_white(c),
{
    let u: u32 = c as u32;
    (9 <= u && u <= 13) || u == 0x20 || u == 0x85 || u == 0xa0 || u == 0x1680 || (0x2000 <= u && u
        <= 0x200a) || u == 0x2028 || u == 0x2029 || u == 0x202f || u == 0x205f || u == 0x3000
}

/// `s` without white space at its end.
pub open spec fn trim_end(s: Seq<char>) -> Seq<char>
    decreases s.len(),
{
    if s.len() > 0 && is_white(s.last()) {
        trim_end(s.drop_last())
    } else {
        s
    }
}

/// `s` without white space at its start.
pub open spec fn trim_start(s: Seq<char>) -> Seq<char>
    decreases s.len(),
{
    if s.len() > 0 && is_white(s[0]) {
        trim_start(s.drop_first())
    } else {
        s
    }
}

/// `s` without white space at either end.
pub open spec fn trimmed(s: Seq<char>) -> Seq<char> {
    trim_start(trim_end(s))
}

/// `s` without white space at either end.
pub fn trim_text(s: &str) -> (r: String)
    ensures
        r@ == trimmed(s@),
{
    let v = to_chars(s);
    let mut to: usize = v.len();
    assert(v@.subrange(0, to as int) =~= v@);
    while to > 0 && white(v[to - 1])
        invariant
            to <= v@.len(),
            trim_end(v@) == trim_end(v@.subrange(0, to as int)),
        decreases to,
    {
        assert(v@.subrange(0, to as int).drop_last() =~= v@.subrange(0, to - 1));
        to = to - 1;
    }
    let ghost kept = v@.subrange(0, to as int);
    assert(trim_end(v@) == kept);
    let mut from: usize = 0;
    assert(kept.subrange(0, to as int) =~= kept);
    while from < to && white(v[from])
        invariant
            from <= to <= v@.len(),
            kept == v@.subrange(0, to as int),
            trim_start(kept) == trim_start(kept.subrange(from as int, to as int)),
        decreases to - from,
    {
        assert(kept.subrange(from as int, to as int).drop_first() =~= kept.subrange(
            from + 1,
            to as int,
        ));
        from = from + 1;
    }
    assert(v@.subrange(from as int, to as int) =~= kept.subrange(from as int, to as int));
    from_chars(&v, from, to)
}

/// What follows `prefix`, where `s` begins with it.
pub open spec fn without_prefix(s: Seq<char>, prefix: Seq<char>) -> Option<Seq<char>> {
    if prefix.len() <= s.len() && s.take(prefix.len() as int) == prefix {
        Some(s.skip(prefix.len() as int))
    } else {
        None
    }
}

/// The index of the first `c`, or the length where there is none.
pub open spec fn first_at(s: Seq<char>, c: char) -> int
    decreases s.len(),
{
    if s.len() == 0 || s[0] == c {
        0
    } else {
        1 + first_at(s.drop_first(), c)
    }
}

/// What `first_at` means.
pub proof fn lemma_first_at(s: Seq<char>, c: char)
    ensures
        0 <= first_at(s, c) <= s.len(),
        first_at(s, c) < s.len() ==> s[first_at(s, c)] == c,
        forall|j: int| 0 <= j < first_at(s, c) ==> s[j] != c,
    decreases s.len(),
{
    if s.len() > 0 && s[0] != c {
        lemma_first_at(s.drop_first(), c);
        assert forall|j: int| 0 <= j < first_at(s, c) implies s[j] != c by {
            if j > 0 {
                assert(s.drop_first()[j - 1] != c);
            }
        }
    }
}

/// What stands before and after the first `c`, where there is one.
pub open spec fn split_once(s: Seq<char>, c: char) -> Option<(Seq<char>, Seq<char>)> {
    let i = first_at(s, c);
    if i < s.len() {
        Some((s.take(i), s.skip(i + 1)))
    } else {
        None
    }
}

/// Whether `c` is a decimal digit.
pub open spec fn is_digit(c: char) -> bool {
    '0' <= c <= '9'
}

/// The number that decimal digits spell.
pub open spec fn digits_value(s: Seq<char>) -> nat
    decreases s.len(),
{
    if s.len() == 0 {
        0
    } else {
        10 * digits_value(s.drop_last()) + (s.last() as nat - '0' as nat) as nat
    }
}

/// Whether `s` is nothing but decimal digits.
pub open spec fn all_digits(s: Seq<char>) -> bool {
    forall|i: int| 0 <= i < s.len() ==> is_digit(#[trigger] s[i])
}

/// `s` without a plus sign at its start.
pub open spec fn without_plus(s: Seq<char>) -> Seq<char> {
    if s.len() > 0 && s[0] == '+' {
        s.skip(1)
    } else {
        s
    }
}

/// The unsigned number `s` spells, up to `max`: decimal digits, at least one,
/// with a plus sign before them or not.
pub open spec fn parsed(s: Seq<char>, max: nat) -> Option<nat> {
    let d = without_plus(s);
    if d.len() > 0 && all_digits(d) && digits_value(d) <= max {
        Some(digits_value(d))
    } else {
        None
    }
}

/// What follows `prefix`, where `v` begins with it.
pub fn strip_prefix(v: &[char], prefix: &str) -> (r: Option<Vec<char>>)
    ensures
        match r {
            Some(rest) => without_prefix(v@, prefix@) == Some(rest@),
            None => without_prefix(v@, prefix@) is None,
        },
{
    let p = to_chars(prefix);
    assert(p@.len() <= v@.len() ==> v@.subrange(0, p@.len() as int) =~= v@.take(p@.len() as int));
    if chars_match(v, 0, &p) {
        let rest = copy_chars(v, p.len(), v.len());
        assert(rest@ =~= v@.skip(p@.len() as int));
        Some(rest)
    } else {
        None
    }
}

/// The characters `from..to`.
pub fn copy_chars(v: &[char], from: usize, to: usize) -> (r: Vec<char>)
    requires
        from <= to <= v@.len(),
    ensures
        r@ == v@.subrange(from as int, to as int),
{
    let mut r: Vec<char> = Vec::new();
    let mut i: usize = from;
    while i < to
        invariant
            from <= i <= to <= v@.len(),
            r@ == v@.subrange(from as int, i as int),
        decreases to - i,
    {
        r.push(v[i]);
        i = i + 1;
        assert(r@ =~= v@.subrange(from as int, i as int));
    }
    r
}

/// What stands before and after the first `c`, where there is one.
pub fn split(v: &[char], c: char) -> (r: Option<(Vec<char>, Vec<char>)>)
    ensures
        match r {
            Some((a, b)) => split_once(v@, c) == Some((a@, b@)),
            None => split_once(v@, c) is None,
        },
{
    proof {
        lemma_first_at(v@, c);
    }
    match find_char(v, 0, c) {
        Some(i) => {
            let len: usize = v.len();
            let a = copy_chars(v, 0, i);
            let b = copy_chars(v, i + 1, len);
            proof {
                let k = first_at(v@, c);
                assert(k == i);
                assert(a@ =~= v@.take(k));
                assert(b@ =~= v@.skip(k + 1));
            }
            Some((a, b))
        },
        None => None,
    }
}

/// More digits never make a smaller number.
proof fn lemma_digits_grow(s: Seq<char>, i: int)
    requires
        0 <= i <= s.len(),
        all_digits(s),
    ensures
        digits_value(s.take(i)) <= digits_value(s),
    decreases s.len() - i,
{
    if i == s.len() {
        assert(s.take(i) =~= s);
    } else {
        assert(s.take(i + 1).drop_last() =~= s.take(i));
        lemma_digits_grow(s, i + 1);
    }
}

/// The unsigned number `v` spells, up to `max`.
pub fn parse_number(v: &[char], max: u64) -> (r: Option<u64>)
    ensures
        match r {
            Some(n) => parsed(v@, max as nat) == Some(n as nat),
            None => parsed(v@, max as nat) is None,
        },
{
    let from: usize = if v.len() > 0 && v[0] == '+' {
        1
    } else {
        0
    };
    let ghost d = without_plus(v@);
    assert(v@.skip(from as int) =~= d);
    if from == v.len() {
        return None;
    }
    let mut n: u64 = 0;
    let mut i: usize = from;
    assert(d.take(0) =~= Seq::<char>::empty());
    while i < v.len()
        invariant
            from <= i <= v@.len(),
            d == v@.skip(from as int),
            d == without_plus(v@),
            all_digits(d.take(i - from)),
            n == digits_value(d.take(i - from)),
            n <= max,
        decreases v@.len() - i,
    {
        let c: char = v[i];
        let ghost k = i - from;
        assert(c == d[k]);
        if c < '0' || c > '9' {
            assert(!is_digit(d[k]));
            assert(!all_digits(d));
            return None;
        }
        let digit: u64 = (c as u32 - 48) as u64;
        let next: u128 = 10 * n as u128 + digit as u128;
        proof {
            assert(d.take(k + 1).drop_last() =~= d.take(k));
            assert(next == digits_value(d.take(k + 1)));
        }
        if next > max as u128 {
            proof {
                if all_digits(d) {
                    lemma_digits_grow(d, k + 1);
                }
            }
            return None;
        }
        assert(all_digits(d.take(k + 1))) by {
            assert forall|m: int| 0 <= m < k + 1 implies is_digit(#[trigger] d.take(k + 1)[m]) by {
                if m < k {
                    assert(d.take(k)[m] == d[m]);
                    assert(is_digit(d.take(k)[m]));
                }
            }
        }
        n = next as u64;
        i = i + 1;
    }
    assert(d.take(d.len() as int) =~= d);
    Some(n)
}

/// What `{:?}` makes of a string: in quotes, with escapes.
pub uninterp spec fn quoted(s: Seq<char>) -> Seq<char>;

/// `format!` with `{:?}` on a string: the string in quotes, its control
/// characters, quotes and backslashes escaped, a function of the string alone.
#[verifier::external_body]
pub(crate) fn quoted_text(s: &str) -> (r: String)
    ensures
        r@ == quoted(s@),
{
    format!("{:?}", s)
}

/// What `String::from_utf8_lossy` gives for bytes that are not valid UTF-8.
pub uninterp spec fn utf8_lossy(data: Seq<u8>) -> Seq<char>;

/// The text that bytes stand for: what they encode where they are valid UTF-8,
/// the replacement text otherwise.
pub open spec fn lossy(data: Seq<u8>) -> Seq<char> {
    if vstd::utf8::valid_utf8(data) {
        vstd::utf8::decode_utf8(data)
    } else {
        utf8_lossy(data)
    }
}

/// `String::from_utf8_lossy`: the characters that `data` encodes. Where it is
/// not valid UTF-8 the invalid parts are replaced; that result is named, and
/// is a function of the bytes alone.
#[verifier::external_body]
pub(crate) fn lossy_text(data: &[u8]) -> (s: String)
    ensures
        s@ == (if vstd::utf8::valid_utf8(data@) {
            vstd::utf8::decode_utf8(data@)
        } else {
            utf8_lossy(data@)
        }),
{
    String::from_utf8_lossy(data).into_owned()
}

/// The bytes of a text stand for that text.
pub proof fn lossy_of_text(s: Seq<char>)
    ensures
        lossy(vstd::utf8::encode_utf8(s)) == s,
{
    vstd::utf8::encode_utf8_valid_utf8(s);
    vstd::utf8::encode_utf8_decode_utf8(s);
}

/// `n` times the character zero.
pub open spec fn nulls(n: nat) -> Seq<char> {
    Seq::new(n, |i: int| '\0')
}

/// Two texts one behind the other are encoded one behind the other.
pub proof fn lemma_encode_joined(a: Seq<char>, b: Seq<char>)
    ensures
        vstd::utf8::encode_utf8(a + b) == vstd::utf8::encode_utf8(a) + vstd::utf8::encode_utf8(b),
    decreases a.len(),
{
    if a.len() == 0 {
        assert(a + b =~= b);
        assert(vstd::utf8::encode_utf8(a) + vstd::utf8::encode_utf8(b) =~= vstd::utf8::encode_utf8(
            b,
        ));
    } else {
        assert((a + b).drop_first() =~= a.drop_first() + b);
        lemma_encode_joined(a.drop_first(), b);
        assert(vstd::utf8::encode_utf8(a + b) =~= vstd::utf8::encode_utf8(a)
            + vstd::utf8::encode_utf8(b));
    }
}

proof fn lemma_encode_nulls(n: nat)
    ensures
        vstd::utf8::encode_utf8(nulls(n)) == crate::bytes::zeros(n),
    decreases n,
{
    if n > 0 {
        lemma_encode_nulls((n - 1) as nat);
        assert(nulls(n).drop_first() =~= nulls((n - 1) as nat));
        assert(0u32 & 0x7F == 0u32) by (bit_vector);
        assert(vstd::utf8::encode_scalar('\0' as u32) =~= seq![0u8]);
        assert(vstd::utf8::encode_utf8(nulls(n)) =~= crate::bytes::zeros(n));
    } else {
        assert(vstd::utf8::encode_utf8(nulls(0)) =~= crate::bytes::zeros(0));
    }
}

proof fn lemma_trim_nulls(s: Seq<char>, n: nat)
    requires
        s.len() == 0 || s.last() != '\0',
    ensures
        trim_end_char(s + nulls(n), '\0') == s,
    decreases n,
{
    let all = s + nulls(n);
    if n > 0 {
        assert(all.drop_last() =~= s + nulls((n - 1) as nat));
        assert(all.last() == '\0');
        lemma_trim_nulls(s, (n - 1) as nat);
    } else {
        assert(all =~= s);
    }
}

/// A text in a field that is filled up with zeros reads back, unless it ends
/// in zeros itself.
pub proof fn padded_text_reads_back(s: Seq<char>, n: nat)
    requires
        s.len() == 0 || s.last() != '\0',
    ensures
        trim_end_char(lossy(vstd::utf8::encode_utf8(s) + crate::bytes::zeros(n)), '\0') == s,
{
    lemma_encode_joined(s, nulls(n));
    lemma_encode_nulls(n);
    lossy_of_text(s + nulls(n));
    lemma_trim_nulls(s, n);
}

/// `s` without any `c` at its end.
pub open spec fn trim_end_char(s: Seq<char>, c: char) -> Seq<char>
    decreases s.len(),
{
    if s.len() > 0 && s.last() == c {
        trim_end_char(s.drop_last(), c)
    } else {
        s
    }
}

/// `s` without any `c` at its start.
pub open spec fn trim_start_char(s: Seq<char>, c: char) -> Seq<char>
    decreases s.len(),
{
    if s.len() > 0 && s[0] == c {
        trim_start_char(s.drop_first(), c)
    } else {
        s
    }
}

/// `v` without any `c` at its end.
pub fn drop_end_char(v: &[char], c: char) -> (r: Vec<char>)
    ensures
        r@ == trim_end_char(v@, c),
{
    let mut to: usize = v.len();
    assert(v@.subrange(0, to as int) =~= v@);
    while to > 0 && v[to - 1] == c
        invariant
            to <= v@.len(),
            trim_end_char(v@, c) == trim_end_char(v@.subrange(0, to as int), c),
        decreases to,
    {
        assert(v@.subrange(0, to as int).drop_last() =~= v@.subrange(0, to - 1));
        to = to - 1;
    }
    copy_chars(v, 0, to)
}

/// `v` without any `c` at its start.
pub fn drop_start_char(v: &[char], c: char) -> (r: Vec<char>)
    ensures
        r@ == trim_start_char(v@, c),
{
    let n: usize = v.len();
    let mut from: usize = 0;
    assert(v@.subrange(0, n as int) =~= v@);
    while from < n && v[from] == c
        invariant
            from <= n == v@.len(),
            trim_start_char(v@, c) == trim_start_char(v@.subrange(from as int, n as int), c),
        decreases n - from,
    {
        assert(v@.subrange(from as int, n as int).drop_first() =~= v@.subrange(
            from + 1,
            n as int,
        ));
        from = from + 1;
    }
    copy_chars(v, from, n)
}

/// The string of all of `v`.
pub fn text_of(v: &[char]) -> (s: String)
    ensures
        s@ == v@,
{
    assert(v@.subrange(0, v@.len() as int) =~= v@);
    from_chars(v, 0, v.len())
}

/// The pieces between the occurrences of `c`: one more than there are
/// occurrences, empty ones included.
pub open spec fn pieces(s: Seq<char>, c: char) -> Seq<Seq<char>>
    decreases s.len(),
{
    let i = first_at(s, c);
    if s.len() == 0 || i < 0 || i >= s.len() {
        seq![s]
    } else {
        seq![s.take(i)] + pieces(s.skip(i + 1), c)
    }
}

/// The pieces between the occurrences of `c`.
pub fn split_all(v: &[char], c: char) -> (r: Vec<Vec<char>>)
    ensures
        r@.len() == pieces(v@, c).len(),
        forall|i: int| 0 <= i < r@.len() ==> (#[trigger] r@[i])@ == pieces(v@, c)[i],
{
    let mut r: Vec<Vec<char>> = Vec::new();
    let mut from: usize = 0;
    let ghost all = pieces(v@, c);
    let n: usize = v.len();
    assert(v@.skip(0) =~= v@);
    assert(Seq::<Seq<char>>::empty() + all =~= all);
    let ghost mut done: Seq<Seq<char>> = Seq::empty();
    loop
        invariant
            from <= n == v@.len(),
            all == pieces(v@, c),
            done.len() == r@.len(),
            forall|i: int| 0 <= i < r@.len() ==> (#[trigger] r@[i])@ == done[i],
            all == done + pieces(v@.skip(from as int), c),
        decreases n - from,
    {
        let ghost rest = v@.skip(from as int);
        proof {
            lemma_first_at(rest, c);
        }
        match find_char(v, from, c) {
            Some(i) => {
                let piece = copy_chars(v, from, i);
                proof {
                    let k = first_at(rest, c);
                    assert(rest[i - from] == c);
                    if k < i - from {
                        assert(v@[from + k] == rest[k]);
                    }
                    assert(k == i - from);
                    assert(piece@ =~= rest.take(k));
                    assert(rest.skip(k + 1) =~= v@.skip(i + 1));
                    let before = done;
                    done = done.push(piece@);
                    assert(before + (seq![rest.take(k)] + pieces(rest.skip(k + 1), c)) =~= done
                        + pieces(v@.skip(i + 1), c));
                }
                r.push(piece);
                from = i + 1;
            },
            None => {
                let piece = copy_chars(v, from, n);
                proof {
                    let k = first_at(rest, c);
                    if k < rest.len() {
                        assert(v@[from + k] == c);
                    }
                    assert(piece@ =~= rest);
                    assert(pieces(rest, c) =~= seq![rest]);
                    assert(all =~= done.push(piece@));
                }
                r.push(piece);
                return r;
            },
        }
    }
}

/// A number written in decimal reads back as itself.
pub proof fn decimal_round_trip(n: nat, max: nat)
    requires
        n <= max,
    ensures
        parsed(decimal(n), max) == Some(n),
        decimal(n).len() > 0,
        all_digits(decimal(n)),
{
    lemma_decimal(n);
    let d = decimal(n);
    assert(is_digit(d[0]));
    assert(without_plus(d) == d);
}

proof fn lemma_decimal(n: nat)
    ensures
        decimal(n).len() > 0,
        all_digits(decimal(n)),
        digits_value(decimal(n)) == n,
    decreases n,
{
    let d = decimal(n);
    if n < 10 {
        assert(d.drop_last() =~= Seq::<char>::empty());
        assert(digits_value(d.drop_last()) == 0);
    } else {
        lemma_decimal(n / 10);
        assert(d.drop_last() =~= decimal(n / 10));
        assert forall|i: int| 0 <= i < d.len() implies is_digit(#[trigger] d[i]) by {
            if i < d.len() - 1 {
                assert(is_digit(decimal(n / 10)[i]));
            }
        }
    }
}

/// A string without `c` is one piece.
pub proof fn lemma_one_piece(s: Seq<char>, c: char)
    requires
        !s.contains(c),
    ensures
        first_at(s, c) == s.len(),
        pieces(s, c) == seq![s],
{
    lemma_first_at(s, c);
    if first_at(s, c) < s.len() {
        assert(s.contains(s[first_at(s, c)]));
    }
}

/// The first `c` of a string that continues a part without `c` by `c`.
pub proof fn lemma_first_of_joined(a: Seq<char>, c: char, b: Seq<char>)
    requires
        !a.contains(c),
    ensures
        first_at(a + seq![c] + b, c) == a.len(),
        split_once(a + seq![c] + b, c) == Some((a, b)),
        pieces(a + seq![c] + b, c) == seq![a] + pieces(b, c),
{
    let s = a + seq![c] + b;
    lemma_first_at(s, c);
    let k = first_at(s, c);
    assert(s[a.len() as int] == c);
    if k < a.len() {
        assert(a[k] == c);
        assert(a.contains(c));
    }
    assert(s.take(k) =~= a);
    assert(s.skip(k + 1) =~= b);
}

} // verus!
