//! What the texts that are written and read have to be.
use crate::fs::files;
use crate::ids::Uuid;
use crate::text;
use vstd::prelude::*;

verus! {

/// A text is trimmed of white space at its ends and of nothing else: what is
/// left is a piece of it that neither begins nor ends in white space, and what
/// stood around that piece is white space.
pub proof fn trimming_takes_white_space_only(s: Seq<char>)
    ensures
        exists|a: int, b: int| #[trigger] cut_out(s, a, b) && text::trimmed(s) == s.subrange(a, b),
        text::trimmed(s).len() > 0 ==> !text::is_white(text::trimmed(s)[0]) && !text::is_white(
            text::trimmed(s).last(),
        ),
{
    let e = text::trim_end(s);
    let t = text::trim_start(e);
    lemma_trim_end(s);
    lemma_trim_start(e);
    let b = e.len() as int;
    let a = b - t.len();
    assert(t =~= s.subrange(a, b));
    assert forall|i: int| 0 <= i < a implies text::is_white(#[trigger] s[i]) by {
        assert(e[i] == s[i]);
    }
    assert(cut_out(s, a, b));
}

/// Whether all that stands around a piece of a text is white space.
pub open spec fn cut_out(s: Seq<char>, a: int, b: int) -> bool {
    &&& 0 <= a <= b <= s.len()
    &&& forall|i: int| 0 <= i < a || b <= i < s.len() ==> text::is_white(#[trigger] s[i])
}

proof fn lemma_trim_end(s: Seq<char>)
    ensures
        text::trim_end(s).len() <= s.len(),
        text::trim_end(s) == s.take(text::trim_end(s).len() as int),
        forall|i: int| text::trim_end(s).len() <= i < s.len() ==> text::is_white(#[trigger] s[i]),
        text::trim_end(s).len() > 0 ==> !text::is_white(text::trim_end(s).last()),
    decreases s.len(),
{
    let t = text::trim_end(s);
    if s.len() > 0 && text::is_white(s.last()) {
        let r = s.drop_last();
        lemma_trim_end(r);
        assert(r.take(t.len() as int) =~= s.take(t.len() as int));
        assert forall|i: int| t.len() <= i < s.len() implies text::is_white(#[trigger] s[i]) by {
            if i < r.len() {
                assert(r[i] == s[i]);
            }
        }
    } else {
        assert(s.take(s.len() as int) =~= s);
    }
}

proof fn lemma_trim_start(s: Seq<char>)
    ensures
        text::trim_start(s).len() <= s.len(),
        text::trim_start(s) == s.skip(s.len() - text::trim_start(s).len()),
        forall|i: int|
            0 <= i < s.len() - text::trim_start(s).len() ==> text::is_white(#[trigger] s[i]),
        text::trim_start(s).len() > 0 ==> !text::is_white(text::trim_start(s)[0]),
        text::trim_start(s).len() > 0 ==> text::trim_start(s).last() == s.last(),
    decreases s.len(),
{
    let t = text::trim_start(s);
    if s.len() > 0 && text::is_white(s[0]) {
        let r = s.drop_first();
        lemma_trim_start(r);
        assert(r.skip(r.len() - t.len()) =~= s.skip(s.len() - t.len()));
        assert forall|i: int| 0 <= i < s.len() - t.len() implies text::is_white(#[trigger] s[i]) by {
            if i > 0 {
                assert(r[i - 1] == s[i]);
            }
        }
    } else {
        assert(s.skip(0) =~= s);
    }
}

/// Blanks, tabs and the ends of lines are white space; no letter, digit or
/// mark of ASCII is.
pub proof fn what_is_white(c: char)
    ensures
        text::is_white(' ') && text::is_white('\t') && text::is_white('\n') && text::is_white('\r'),
        0x21 <= c as u32 <= 0x7e ==> !text::is_white(c),
        c as u32 == 0 ==> !text::is_white(c),
{
}

/// The pieces of a text, put together again with the character between them,
/// are the text; none of them has that character in it.
pub proof fn pieces_make_up_the_text(s: Seq<char>, c: char)
    ensures
        text::pieces(s, c).len() > 0,
        joined(text::pieces(s, c), c) == s,
        forall|k: int, j: int|
            0 <= k < text::pieces(s, c).len() && 0 <= j < text::pieces(s, c)[k].len() ==> (
            #[trigger] text::pieces(s, c)[k][j]) != c,
    decreases s.len(),
{
    text::lemma_first_at(s, c);
    let i = text::first_at(s, c);
    let all = text::pieces(s, c);
    if i < s.len() {
        let rest = s.skip(i + 1);
        pieces_make_up_the_text(rest, c);
        assert(all.drop_first() =~= text::pieces(rest, c));
        assert(s =~= s.take(i) + seq![c] + rest);
        assert forall|k: int, j: int| 0 <= k < all.len() && 0 <= j < all[k].len() implies (
        #[trigger] all[k][j]) != c by {
            if k > 0 {
                assert(all[k] == text::pieces(rest, c)[k - 1]);
                assert(text::pieces(rest, c)[k - 1][j] != c);
            } else {
                assert(all[0] == s.take(i));
            }
        }
    } else {
        assert(all =~= seq![s]);
    }
}

/// Pieces, with a character between each two.
pub open spec fn joined(p: Seq<Seq<char>>, c: char) -> Seq<char>
    decreases p.len(),
{
    if p.len() == 0 {
        Seq::empty()
    } else if p.len() == 1 {
        p[0]
    } else {
        p[0] + seq![c] + joined(p.drop_first(), c)
    }
}

/// A text is split at the first occurrence of the character, and only where it
/// has one.
pub proof fn a_text_is_split_at_the_first(a: Seq<char>, c: char, b: Seq<char>)
    requires
        !a.contains(c),
    ensures
        text::split_once(a + seq![c] + b, c) == Some((a, b)),
        text::split_once(a, c) is None,
{
    let s = a + seq![c] + b;
    text::lemma_first_at(s, c);
    text::lemma_first_at(a, c);
    let i = text::first_at(s, c);
    assert(s[a.len() as int] == c);
    if i < a.len() {
        assert(s[i] == a[i]);
    }
    if i > a.len() {
        assert(s[a.len() as int] != c);
    }
    assert(s.take(i) =~= a);
    assert(s.skip(i + 1) =~= b);
}

/// A prefix is taken off where it stands, and only there.
pub proof fn a_prefix_is_taken_off(s: Seq<char>, prefix: Seq<char>)
    ensures
        text::without_prefix(prefix + s, prefix) == Some(s),
        text::without_prefix(s, prefix) matches Some(r) ==> s == prefix + r,
        s.len() < prefix.len() ==> text::without_prefix(s, prefix) is None,
{
    assert((prefix + s).take(prefix.len() as int) =~= prefix);
    assert((prefix + s).skip(prefix.len() as int) =~= s);
    if prefix.len() <= s.len() && s.take(prefix.len() as int) == prefix {
        assert(s =~= s.take(prefix.len() as int) + s.skip(prefix.len() as int));
    }
}

/// A number is read digit by digit, each worth ten of the next; a text with
/// anything else in it is none, nor is one that stands for more than fits.
pub proof fn numbers_are_read_in_tens(s: Seq<char>, max: nat, i: int)
    ensures
        text::parsed(Seq::<char>::empty(), max) is None,
        text::parsed(s, max) matches Some(n) ==> n <= max && s.len() > 0,
        s.len() > 1 && '0' <= s.last() <= '9' && s[0] != '+' ==> (text::parsed(s, max) matches Some(
            n,
        ) ==> text::parsed(s.drop_last(), max) == Some(n / 10) && n % 10 == s.last() as nat
            - '0' as nat),
        s.len() == 1 && '0' <= s[0] <= '9' && max >= 9 ==> text::parsed(s, max) == Some(
            (s[0] as nat - '0' as nat) as nat,
        ),
        0 < i < s.len() && !('0' <= s[i] <= '9') ==> text::parsed(s, max) is None,
        s.len() > 0 && !('0' <= s[0] <= '9') && s[0] != '+' ==> text::parsed(s, max) is None,
{
    let d = text::without_plus(s);
    if 0 < i < s.len() && !('0' <= s[i] <= '9') {
        if s[0] == '+' {
            assert(d[i - 1] == s[i]);
            assert(!text::is_digit(d[i - 1]));
        } else {
            assert(!text::is_digit(d[i]));
        }
    }
    if s.len() > 0 && s[0] != '+' {
        assert(d == s);
        if s.len() == 1 {
            assert(text::digits_value(s.drop_last()) == 0);
            if '0' <= s[0] <= '9' {
                assert(text::all_digits(s));
            }
        } else if text::parsed(s, max) is Some {
            let t = s.drop_last();
            assert(t[0] == s[0]);
            assert forall|j: int| 0 <= j < t.len() implies text::is_digit(#[trigger] t[j]) by {
                assert(text::is_digit(s[j]));
            }
            assert(text::is_digit(s[s.len() - 1]));
        } else {
            assert(!text::is_digit(s[0]) ==> !text::all_digits(s));
        }
        if !('0' <= s[0] <= '9') {
            assert(!text::is_digit(s[0]));
        }
    }
}

/// The digits of a number in hexadecimal stand for it, most significant first,
/// from zero to nine and from a to f.
pub proof fn hexadecimal_stands_for_its_number(n: nat, width: nat)
    ensures
        text::hex_digits(n, width).len() == width,
        forall|i: int| 0 <= i < width ==> is_hex_digit(#[trigger] text::hex_digits(n, width)[i]),
        sixteens(text::hex_digits(n, width)) == n % pow16(width),
        sixteens(text::hex(n)) == n,
    decreases width, n,
{
    if n >= 16 {
        hexadecimal_stands_for_its_number(n / 16, 0);
        assert(text::hex(n).drop_last() =~= text::hex(n / 16));
    } else {
        assert(text::hex(n).drop_last() =~= Seq::<char>::empty());
        assert(sixteens(Seq::<char>::empty()) == 0);
    }
    if width > 0 {
        let w = (width - 1) as nat;
        hexadecimal_stands_for_its_number(n / 16, w);
        let t = text::hex_digits(n, width);
        assert(t.drop_last() =~= text::hex_digits(n / 16, w));
        lemma_pow16(w);
        vstd::arithmetic::div_mod::lemma_breakdown(n as int, 16, pow16(w) as int);
        assert(16 * pow16(w) == pow16(width));
    } else {
        assert(sixteens(text::hex_digits(n, width)) == 0);
        assert(n % 1 == 0);
    }
}

proof fn lemma_pow16(w: nat)
    ensures
        pow16(w) > 0,
    decreases w,
{
    if w > 0 {
        lemma_pow16((w - 1) as nat);
    }
}

/// Sixteen to the power of `w`.
pub open spec fn pow16(w: nat) -> nat
    decreases w,
{
    if w == 0 {
        1
    } else {
        16 * pow16((w - 1) as nat)
    }
}

/// Whether a character is one of the sixteen digits.
pub open spec fn is_hex_digit(c: char) -> bool {
    '0' <= c <= '9' || 'a' <= c <= 'f'
}

/// The number that hexadecimal digits stand for.
pub open spec fn sixteens(s: Seq<char>) -> nat
    decreases s.len(),
{
    if s.len() == 0 {
        0
    } else {
        16 * sixteens(s.drop_last()) + (if s.last() <= '9' {
            (s.last() as nat - 48) as nat
        } else {
            (s.last() as nat - 87) as nat
        })
    }
}

/// A UUID is written with hyphens behind its first 8, 12, 16 and 20 digits,
/// which together are its number.
pub proof fn a_uuid_is_written_out(u: Uuid)
    ensures
        ({
            let t = u.text();
            &&& t.len() == 36
            &&& t[8] == '-' && t[13] == '-' && t[18] == '-' && t[23] == '-'
            &&& sixteens(
                t.subrange(0, 8) + t.subrange(9, 13) + t.subrange(14, 18) + t.subrange(19, 23)
                    + t.subrange(24, 36),
            ) == u.bits
        }),
{
    let h = text::hex_digits(u.bits as nat, 32);
    hexadecimal_stands_for_its_number(u.bits as nat, 32);
    let t = u.text();
    assert(t.subrange(0, 8) + t.subrange(9, 13) + t.subrange(14, 18) + t.subrange(19, 23)
        + t.subrange(24, 36) =~= h);
    assert(pow16(32) == 0x1_0000_0000_0000_0000_0000_0000_0000_0000) by {
        reveal_with_fuel(pow16, 33);
    }
    vstd::arithmetic::div_mod::lemma_small_mod(u.bits as nat, pow16(32));
}

/// A UUID in a partition table has its first three numbers least significant
/// byte first, and the rest as it is written.
pub proof fn a_guid_is_laid_out(u: Uuid)
    ensures
        u.guid_bytes().len() == 16,
        crate::bytes::le_value(u.guid_bytes().subrange(0, 4)) == crate::bytes::be_value(
            u.bytes().subrange(0, 4),
        ),
        crate::bytes::le_value(u.guid_bytes().subrange(4, 6)) == crate::bytes::be_value(
            u.bytes().subrange(4, 6),
        ),
        crate::bytes::le_value(u.guid_bytes().subrange(6, 8)) == crate::bytes::be_value(
            u.bytes().subrange(6, 8),
        ),
        u.guid_bytes().subrange(8, 16) == u.bytes().subrange(8, 16),
{
    crate::bytes::lemma_be_bytes_len(u.bits as nat, 16);
    let g = u.guid_bytes();
    let b = u.bytes();
    assert(g.subrange(0, 4) =~= b.subrange(0, 4).reverse());
    assert(g.subrange(4, 6) =~= b.subrange(4, 6).reverse());
    assert(g.subrange(6, 8) =~= b.subrange(6, 8).reverse());
    lemma_reversed(b.subrange(0, 4));
    lemma_reversed(b.subrange(4, 6));
    lemma_reversed(b.subrange(6, 8));
    assert(g.subrange(8, 16) =~= b.subrange(8, 16));
}

proof fn lemma_reversed(b: Seq<u8>)
    ensures
        crate::bytes::le_value(b.reverse()) == crate::bytes::be_value(b),
    decreases b.len(),
{
    if b.len() > 0 {
        lemma_reversed(b.drop_last());
        assert(b.reverse().drop_first() =~= b.drop_last().reverse());
        assert(b.reverse()[0] == b.last());
    }
}

/// A file in a directory lies in that directory.
pub proof fn a_child_lies_in_its_directory(dir: Seq<char>, name: Seq<char>)
    requires
        dir.len() > 0,
        dir.last() != '/',
        name.len() > 0,
        !name.contains('/'),
    ensures
        files::parent(files::child(dir, name)) == Some(dir),
        files::child(dir.push('/'), name) == files::child(dir, name),
{
    reveal_strlit("/");
    let p = files::child(dir, name);
    assert(p =~= dir + seq!['/'] + name);
    assert(p.last() == name.last());
    assert(name[name.len() - 1] != '/');
    lemma_last_is(dir, name);
    assert(p.take(dir.len() as int) =~= dir);
    assert(files::child(dir.push('/'), name) =~= p);
}

proof fn lemma_last_is(dir: Seq<char>, name: Seq<char>)
    requires
        !name.contains('/'),
    ensures
        files::last_at(dir + seq!['/'] + name, '/') == dir.len(),
    decreases name.len(),
{
    let p = dir + seq!['/'] + name;
    if name.len() > 0 {
        let n = name.drop_last();
        assert forall|i: int| 0 <= i < n.len() implies n[i] != '/' by {
            assert(name[i] == n[i]);
        }
        lemma_last_is(dir, n);
        assert(p.drop_last() =~= dir + seq!['/'] + n);
        assert(p.last() == name[name.len() - 1]);
    } else {
        assert(p.last() == '/');
    }
}

/// The name of a device is what stands behind the last slash.
pub proof fn a_device_is_named_by_its_path(dir: Seq<char>, name: Seq<char>)
    requires
        !name.contains('/'),
    ensures
        crate::drive::sas::name_in(dir + seq!['/'] + name) == name,
        crate::drive::sas::name_in(name) == name,
{
    lemma_last_is(dir, name);
    assert((dir + seq!['/'] + name).skip(dir.len() as int + 1) =~= name);
    lemma_last_is_none(name);
    assert(name.skip(0) =~= name);
}

proof fn lemma_last_is_none(name: Seq<char>)
    requires
        !name.contains('/'),
    ensures
        files::last_at(name, '/') == -1,
    decreases name.len(),
{
    if name.len() > 0 {
        let n = name.drop_last();
        assert forall|i: int| 0 <= i < n.len() implies n[i] != '/' by {
            assert(name[i] == n[i]);
        }
        lemma_last_is_none(n);
        assert(name[name.len() - 1] != '/');
    }
}

/// A path is absolute by its first character.
pub proof fn a_path_is_absolute_by_its_slash(s: Seq<char>)
    ensures
        files::absolute(seq!['/'] + s),
        !files::absolute(Seq::<char>::empty()),
        s.len() > 0 && s[0] != '/' ==> !files::absolute(s),
{
}

proof fn lemma_digit_at(n: nat, w: nat, i: int)
    requires
        0 <= i < w,
    ensures
        text::hex_digits(n, w).len() == w,
        text::hex_digits(n, w)[i] == text::digit((n / pow16((w - 1 - i) as nat)) % 16),
    decreases w,
{
    crate::ids::lemma_hex_digits_len(n, w);
    if i == w - 1 {
        assert(n / 1 == n);
    } else {
        let k = (w - 2 - i) as nat;
        lemma_digit_at(n / 16, (w - 1) as nat, i);
        lemma_pow16(k);
        vstd::arithmetic::div_mod::lemma_div_denominator(n as int, 16, pow16(k) as int);
        assert(16 * pow16(k) == pow16((k + 1) as nat));
    }
}

/// The version of a UUID is the first digit of its third group, and its variant
/// is told by the first digit of its fourth.
pub proof fn a_version_is_read_off(u: Uuid)
    ensures
        u.text()[14] == text::digit(crate::ids::uuid_version(u.bits) as nat),
        crate::ids::uuid_variant(u.bits) == 2 <==> u.text()[19] == '8' || u.text()[19] == '9'
            || u.text()[19] == 'a' || u.text()[19] == 'b',
{
    let n = u.bits as nat;
    lemma_digit_at(n, 32, 12);
    lemma_digit_at(n, 32, 16);
    assert(pow16(19) == 0x1000_0000_0000_0000_0000) by {
        reveal_with_fuel(pow16, 20);
    }
    assert(pow16(15) == 0x1000_0000_0000_0000) by {
        reveal_with_fuel(pow16, 16);
    }
    let h = text::hex_digits(n, 32);
    assert(u.text()[14] == h[12]);
    assert(u.text()[19] == h[16]);
    let d = (n / 0x1000_0000_0000_0000) % 16;
    assert((n / 0x4000_0000_0000_0000) % 4 == d / 4);
}

} // verus!
