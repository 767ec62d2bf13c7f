//! The MAC address field of the "add classroom" form: it keeps the first
//! twelve hexadecimal digits typed, in upper case, grouped in pairs by `:`,
//! moves the cursor to where the user was typing, and tells when the form is
//! complete.
use vstd::prelude::*;
use vstd::utf8::*;
use crate::text::{
    chars_of, is_blank, lemma_trimmed_empty, owned, push_char, string_from_chars, trim,
    trim_end, trim_start, trimmed,
};

verus! {

broadcast use vstd::utf8::is_ascii_chars_encode_utf8;

/// The number of hexadecimal digits of a MAC address.
pub const MAC_DIGITS: usize = 12;

/// The length of a MAC address written as six pairs joined by `:`.
pub const MAC_TEXT_LEN: usize = 17;

/// `char::is_ascii_hexdigit`.
pub open spec fn is_hex_digit(c: char) -> bool {
    ('0' <= c && c <= '9') || ('a' <= c && c <= 'f') || ('A' <= c && c <= 'F')
}

/// `char::to_ascii_uppercase` on a hexadecimal digit.
pub open spec fn upper_hex(c: char) -> char {
    if c == 'a' {
        'A'
    } else if c == 'b' {
        'B'
    } else if c == 'c' {
        'C'
    } else if c == 'd' {
        'D'
    } else if c == 'e' {
        'E'
    } else if c == 'f' {
        'F'
    } else {
        c
    }
}

/// A digit as the field shows it: `0`-`9` or `A`-`F`.
pub open spec fn is_upper_hex_digit(c: char) -> bool {
    ('0' <= c && c <= '9') || ('A' <= c && c <= 'F')
}

/// The hexadecimal digits of `s`, in order, in upper case.
pub open spec fn hex_digits(s: Seq<char>) -> Seq<char>
    decreases s.len(),
{
    if s.len() == 0 {
        Seq::empty()
    } else if is_hex_digit(s.last()) {
        hex_digits(s.drop_last()).push(upper_hex(s.last()))
    } else {
        hex_digits(s.drop_last())
    }
}

/// The first twelve hexadecimal digits of `s` (all of them if there are fewer).
pub open spec fn mac_digits(s: Seq<char>) -> Seq<char> {
    let h = hex_digits(s);
    if h.len() <= MAC_DIGITS {
        h
    } else {
        h.take(MAC_DIGITS as int)
    }
}

/// `d` with a `:` before every digit at an even position other than the first:
/// `AABBC` becomes `AA:BB:C`.
pub open spec fn grouped(d: Seq<char>) -> Seq<char>
    decreases d.len(),
{
    if d.len() == 0 {
        Seq::empty()
    } else {
        let i = d.len() - 1;
        let prev = grouped(d.drop_last());
        if i > 0 && i % 2 == 0 {
            prev.push(':').push(d.last())
        } else {
            prev.push(d.last())
        }
    }
}

/// The text that the field shows for what was typed.
pub open spec fn formatted_mac(s: Seq<char>) -> Seq<char> {
    grouped(mac_digits(s))
}

/// `position` kept within `0..=len`.
pub open spec fn clamp_position(position: int, len: int) -> int {
    if position <= 0 {
        0
    } else if position >= len {
        len
    } else {
        position
    }
}

/// The place in the formatted text after its `c`-th digit: past the `c`
/// digits and the `(c - 1) / 2` separators among them.
pub open spec fn place_after_digits(c: int) -> int {
    if c >= 1 {
        c + (c - 1) / 2
    } else {
        0
    }
}

/// Where the cursor goes when the field is rewritten from `original`, with
/// the cursor at `position`: right after the digit that was the last one
/// before it.
pub open spec fn cursor_after(original: Seq<char>, position: int) -> int {
    place_after_digits(
        hex_digits(original.take(clamp_position(position, original.len() as int))).len() as int,
    )
}

/// `s` without its `:` characters.
pub open spec fn without_colons(s: Seq<char>) -> Seq<char>
    decreases s.len(),
{
    if s.len() == 0 {
        Seq::empty()
    } else if s.last() == ':' {
        without_colons(s.drop_last())
    } else {
        without_colons(s.drop_last()).push(s.last())
    }
}

/// What `str::len` returns for a text: the length of its UTF-8 encoding.
pub open spec fn byte_len(s: Seq<char>) -> usize {
    encode_utf8(s).len() as usize
}

/// What `str::to_lowercase` returns for a text.
pub uninterp spec fn lowercase(s: Seq<char>) -> Seq<char>;

/// `str::to_lowercase`. Its contract names the result and states nothing
/// more of it: the Unicode case tables it follows are not written out here.
#[verifier::external_body]
pub(crate) fn to_lowercase(s: &str) -> (r: String)
    ensures
        r@ == lowercase(s@),
{
    s.to_lowercase()
}

/// `char::is_ascii_hexdigit`.
pub fn hex_digit(c: char) -> (r: bool)
    ensures
        r == is_hex_digit(c),
{
    ('0' <= c && c <= '9') || ('a' <= c && c <= 'f') || ('A' <= c && c <= 'F')
}

/// `char::to_ascii_uppercase` on a hexadecimal digit.
fn upper(c: char) -> (r: char)
    ensures
        r == upper_hex(c),
{
    match c {
        'a' => 'A',
        'b' => 'B',
        'c' => 'C',
        'd' => 'D',
        'e' => 'E',
        'f' => 'F',
        _ => c,
    }
}

/// The digits of a concatenation are the digits of its parts.
pub proof fn lemma_hex_digits_append(a: Seq<char>, b: Seq<char>)
    ensures
        hex_digits(a + b) == hex_digits(a) + hex_digits(b),
    decreases b.len(),
{
    if b.len() == 0 {
        assert(a + b =~= a);
        assert(hex_digits(a) + hex_digits(b) =~= hex_digits(a));
    } else {
        lemma_hex_digits_append(a, b.drop_last());
        assert((a + b).drop_last() =~= a + b.drop_last());
        assert((a + b).last() == b.last());
        if is_hex_digit(b.last()) {
            assert(hex_digits(a) + hex_digits(b) =~= (hex_digits(a) + hex_digits(b.drop_last())).push(
                upper_hex(b.last()),
            ));
        }
    }
}

/// The digits of a text are all shown in upper case.
pub proof fn lemma_hex_digits_upper(s: Seq<char>)
    ensures
        forall|i: int| 0 <= i < hex_digits(s).len() ==> is_upper_hex_digit(#[trigger] hex_digits(s)[i]),
        hex_digits(s).len() <= s.len(),
    decreases s.len(),
{
    if s.len() > 0 {
        lemma_hex_digits_upper(s.drop_last());
    }
}

/// The separators of `grouped` are not digits, so its digits are the grouped ones.
pub proof fn lemma_hex_digits_grouped(d: Seq<char>)
    requires
        forall|i: int| 0 <= i < d.len() ==> is_upper_hex_digit(#[trigger] d[i]),
    ensures
        hex_digits(grouped(d)) == d,
    decreases d.len(),
{
    if d.len() > 0 {
        let p = d.drop_last();
        assert forall|i: int| 0 <= i < p.len() implies is_upper_hex_digit(#[trigger] p[i]) by {
            assert(p[i] == d[i]);
        }
        lemma_hex_digits_grouped(p);
        let i = d.len() - 1;
        let c = d.last();
        assert(is_upper_hex_digit(d[i]));
        assert(upper_hex(c) == c);
        let g = grouped(d);
        if i > 0 && i % 2 == 0 {
            let q = grouped(p).push(':');
            assert(q.drop_last() =~= grouped(p));
            assert(q.last() == ':');
            assert(hex_digits(q) == hex_digits(q.drop_last()));
            assert(g.drop_last() =~= q);
        } else {
            assert(g.drop_last() =~= grouped(p));
        }
        assert(g.last() == c);
        assert(hex_digits(g) == hex_digits(g.drop_last()).push(upper_hex(g.last())));
        assert(p.push(c) =~= d);
    }
}

/// The length of `grouped(d)`: one `:` between each two pairs.
pub proof fn lemma_grouped_len(d: Seq<char>)
    ensures
        grouped(d).len() == d.len() + (if d.len() >= 1 {
            (d.len() - 1) / 2
        } else {
            0
        }),
    decreases d.len(),
{
    if d.len() > 0 {
        lemma_grouped_len(d.drop_last());
    }
}

/// In `grouped(d)` a `:` stands exactly at the places `3k + 2`.
pub proof fn lemma_grouped_separators(d: Seq<char>)
    requires
        forall|i: int| 0 <= i < d.len() ==> is_upper_hex_digit(#[trigger] d[i]),
    ensures
        forall|j: int| 0 <= j < grouped(d).len() ==> (#[trigger] grouped(d)[j] == ':' <==> j % 3 == 2),
    decreases d.len(),
{
    if d.len() > 0 {
        let p = d.drop_last();
        assert forall|i: int| 0 <= i < p.len() implies is_upper_hex_digit(#[trigger] p[i]) by {
            assert(p[i] == d[i]);
        }
        lemma_grouped_separators(p);
        lemma_grouped_len(p);
        let i = d.len() - 1;
        let gp = grouped(p);
        let g = grouped(d);
        assert(is_upper_hex_digit(d[i]));
        assert forall|j: int| 0 <= j < g.len() implies (#[trigger] g[j] == ':' <==> j % 3 == 2) by {
            if j < gp.len() {
                assert(g[j] == gp[j]);
            }
        }
    }
}

/// The length of a non-empty grouped text is never a multiple of three.
proof fn lemma_grouped_len_mod(n: int)
    requires
        n >= 1,
    ensures
        place_after_digits(n) % 3 != 0,
{
}

/// Grouping a prefix of the digits gives a prefix of the grouped text.
proof fn lemma_grouped_prefix(d: Seq<char>, c: int)
    requires
        0 <= c <= d.len(),
    ensures
        grouped(d.take(c)).len() <= grouped(d).len(),
        grouped(d).take(grouped(d.take(c)).len() as int) == grouped(d.take(c)),
    decreases d.len(),
{
    if c == d.len() {
        assert(d.take(c) =~= d);
        assert(grouped(d).take(grouped(d).len() as int) =~= grouped(d));
    } else {
        let p = d.drop_last();
        lemma_grouped_prefix(p, c);
        assert(p.take(c) =~= d.take(c));
        let gp = grouped(p);
        let g = grouped(d);
        let n = grouped(d.take(c)).len() as int;
        assert(g.take(n) =~= gp.take(n));
    }
}

/// `grouped(d)` holds the digits of `d` and separators only.
pub proof fn lemma_grouped_chars(d: Seq<char>)
    requires
        forall|i: int| 0 <= i < d.len() ==> is_upper_hex_digit(#[trigger] d[i]),
    ensures
        forall|i: int|
            0 <= i < grouped(d).len() ==> is_upper_hex_digit(#[trigger] grouped(d)[i])
                || grouped(d)[i] == ':',
    decreases d.len(),
{
    if d.len() > 0 {
        let p = d.drop_last();
        assert forall|i: int| 0 <= i < p.len() implies is_upper_hex_digit(#[trigger] p[i]) by {
            assert(p[i] == d[i]);
        }
        lemma_grouped_chars(p);
        let gp = grouped(p);
        let g = grouped(d);
        assert(is_upper_hex_digit(d[d.len() - 1]));
        assert forall|i: int| 0 <= i < g.len() implies is_upper_hex_digit(#[trigger] g[i])
            || g[i] == ':' by {
            if i < gp.len() {
                assert(g[i] == gp[i]);
            }
        }
    }
}

/// Removing the separators of `grouped(d)` gives back `d`.
pub proof fn lemma_without_colons_grouped(d: Seq<char>)
    requires
        forall|i: int| 0 <= i < d.len() ==> is_upper_hex_digit(#[trigger] d[i]),
    ensures
        without_colons(grouped(d)) == d,
    decreases d.len(),
{
    if d.len() > 0 {
        let p = d.drop_last();
        assert forall|i: int| 0 <= i < p.len() implies is_upper_hex_digit(#[trigger] p[i]) by {
            assert(p[i] == d[i]);
        }
        lemma_without_colons_grouped(p);
        let i = d.len() - 1;
        let c = d.last();
        assert(is_upper_hex_digit(d[i]));
        let g = grouped(d);
        if i > 0 && i % 2 == 0 {
            let q = grouped(p).push(':');
            assert(q.drop_last() =~= grouped(p));
            assert(q.last() == ':');
            assert(without_colons(q) == without_colons(q.drop_last()));
            assert(g.drop_last() =~= q);
        } else {
            assert(g.drop_last() =~= grouped(p));
        }
        assert(g.last() == c);
        assert(without_colons(g) == without_colons(g.drop_last()).push(c));
        assert(p.push(c) =~= d);
    }
}

/// The digits kept for a MAC address are shown in upper case and are at most twelve.
pub proof fn lemma_mac_digits_shape(s: Seq<char>)
    ensures
        forall|i: int| 0 <= i < mac_digits(s).len() ==> is_upper_hex_digit(#[trigger] mac_digits(s)[i]),
        mac_digits(s).len() <= MAC_DIGITS,
        mac_digits(s).len() == MAC_DIGITS <==> hex_digits(s).len() >= MAC_DIGITS,
{
    lemma_hex_digits_upper(s);
    let h = hex_digits(s);
    assert forall|i: int| 0 <= i < mac_digits(s).len() implies is_upper_hex_digit(
        #[trigger] mac_digits(s)[i],
    ) by {
        assert(mac_digits(s)[i] == h[i]);
    }
}

/// The first twelve digits of a text, in upper case.
pub fn clean_mac(text: &str) -> (r: Vec<char>)
    ensures
        r@ == mac_digits(text@),
{
    let v = chars_of(text);
    let n = v.len();
    let mut clean: Vec<char> = Vec::new();
    let mut i: usize = 0;
    while i < n && clean.len() < MAC_DIGITS
        invariant
            v@ == text@,
            n == v.len(),
            i <= n,
            clean@ == hex_digits(v@.take(i as int)),
            clean.len() <= MAC_DIGITS,
        decreases n - i,
    {
        let c = v[i];
        assert(v@.take(i + 1).drop_last() =~= v@.take(i as int));
        if hex_digit(c) {
            clean.push(upper(c));
        }
        i = i + 1;
    }
    proof {
        lemma_hex_digits_append(v@.take(i as int), v@.skip(i as int));
        assert(v@.take(i as int) + v@.skip(i as int) =~= v@);
        if i == n {
            assert(v@.take(i as int) =~= v@);
        } else {
            let h = hex_digits(v@);
            assert(h.take(MAC_DIGITS as int) =~= clean@);
        }
    }
    clean
}

/// Digits grouped in pairs by `:`.
pub fn group_digits(d: &Vec<char>) -> (r: Vec<char>)
    ensures
        r@ == grouped(d@),
{
    let mut out: Vec<char> = Vec::new();
    let n = d.len();
    for i in 0..n
        invariant
            n == d.len(),
            out@ == grouped(d@.take(i as int)),
    {
        assert(d@.take(i + 1).drop_last() =~= d@.take(i as int));
        if i > 0 && i % 2 == 0 {
            out.push(':');
        }
        out.push(d[i]);
    }
    assert(d@.take(n as int) =~= d@);
    out
}

/// The text that the MAC field shows for what was typed: the first twelve
/// hexadecimal digits, in upper case, in pairs joined by `:`.
pub fn format_mac(text: &str) -> (r: String)
    ensures
        r@ == formatted_mac(text@),
{
    let clean = clean_mac(text);
    let out = group_digits(&clean);
    string_from_chars(&out)
}

/// How many of the first `position` characters of `text` are hexadecimal digits.
fn digits_before(v: &Vec<char>, position: i32) -> (r: usize)
    ensures
        r == hex_digits(v@.take(clamp_position(position as int, v.len() as int))).len(),
        r <= clamp_position(position as int, v.len() as int),
        r <= i32::MAX,
{
    let n = v.len();
    let mut count: usize = 0;
    let mut i: usize = 0;
    while i < n && (i as i32) < position
        invariant
            n == v.len(),
            i <= n,
            i <= clamp_position(position as int, n as int),
            count == hex_digits(v@.take(i as int)).len(),
            count <= i,
        decreases n - i,
    {
        assert(v@.take(i + 1).drop_last() =~= v@.take(i as int));
        if hex_digit(v[i]) {
            count = count + 1;
        }
        i = i + 1;
    }
    proof {
        assert(i == clamp_position(position as int, n as int));
        lemma_hex_digits_upper(v@.take(i as int));
    }
    count
}

/// When some digits stand before the cursor, the field shows at least one character.
proof fn lemma_digits_before_nonempty(s: Seq<char>, k: int)
    requires
        0 <= k <= s.len(),
        hex_digits(s.take(k)).len() > 0,
    ensures
        formatted_mac(s).len() > 0,
{
    lemma_hex_digits_append(s.take(k), s.skip(k));
    assert(s.take(k) + s.skip(k) =~= s);
    lemma_grouped_len(mac_digits(s));
}

/// What the MAC field does when its text changes. When the text differs from
/// its formatted form, the field is to be rewritten: the result is the new
/// text and where the cursor goes. `None` when the text is already formatted.
pub fn reformat_mac_entry(text: &str, position: i32) -> (r: Option<(String, usize)>)
    ensures
        r is None <==> formatted_mac(text@) == text@,
        r matches Some((f, p)) ==> f@ == formatted_mac(text@) && p as int == cursor_after(
            text@,
            position as int,
        ),
{
    let v = chars_of(text);
    let clean = clean_mac(text);
    let fv = group_digits(&clean);
    let formatted = string_from_chars(&fv);
    let original = owned(text);
    if original == formatted {
        return None;
    }
    let before = digits_before(&v, position);
    let mut p: usize = if before >= 1 {
        before + (before - 1) / 2
    } else {
        0
    };
    let flen = fv.len();
    // Past a separator at the end, or back before one after a deletion:
    // grouped text has no separator at either place, so neither step moves it.
    proof {
        lemma_mac_digits_shape(text@);
        lemma_grouped_separators(clean@);
        lemma_grouped_len(clean@);
        if before >= 1 {
            lemma_grouped_len_mod(before as int);
        }
    }
    if p > 0 && p % 3 == 2 {
        proof {
            lemma_digits_before_nonempty(
                text@,
                clamp_position(position as int, text@.len() as int),
            );
            lemma_grouped_len_mod(clean@.len() as int);
        }
        if p == flen - 1 {
            p = p + 1;
        }
    }
    if p > 0 && original.as_str().len() > formatted.as_str().len() {
        if p - 1 < flen && fv[p - 1] == ':' {
            p = p - 1;
        }
    }
    Some((formatted, p))
}

/// Whether the form may be submitted: a name that is not blank and a MAC
/// text of seventeen bytes.
pub fn is_form_ready(name: &str, mac: &str) -> (r: bool)
    ensures
        r == (!is_blank(name@) && byte_len(mac@) == MAC_TEXT_LEN),
{
    let t = trim(name);
    proof {
        lemma_trimmed_empty(name@);
    }
    let name_ready = !t.as_str().is_empty();
    let mac_ready = mac.len() == MAC_TEXT_LEN;
    name_ready && mac_ready
}

/// `s` without its `:` characters.
pub fn remove_colons(s: &str) -> (r: String)
    ensures
        r@ == without_colons(s@),
{
    let v = chars_of(s);
    let mut out = String::new();
    let n = v.len();
    for i in 0..n
        invariant
            n == v.len(),
            v@ == s@,
            out@ == without_colons(v@.take(i as int)),
    {
        assert(v@.take(i + 1).drop_last() =~= v@.take(i as int));
        if v[i] != ':' {
            push_char(&mut out, v[i]);
        }
    }
    assert(v@.take(n as int) =~= v@);
    out
}

/// The MAC address as it is stored and sent: without separators, trimmed,
/// in lower case.
pub fn storage_mac(mac: &str) -> (r: String)
    ensures
        r@ == lowercase(trimmed(without_colons(mac@))),
{
    let bare = remove_colons(mac);
    let t = trim(bare.as_str());
    to_lowercase(t.as_str())
}

/// Formatting is stable: the formatted text formats to itself, so the field
/// is rewritten at most once for each change.
pub proof fn law_format_idempotent(s: Seq<char>)
    ensures
        formatted_mac(formatted_mac(s)) == formatted_mac(s),
{
    let d = mac_digits(s);
    lemma_mac_digits_shape(s);
    lemma_hex_digits_grouped(d);
    assert(mac_digits(grouped(d)) == d);
}

/// The form's MAC check on formatted text holds exactly when twelve digits
/// were typed.
pub proof fn law_formatted_ready(s: Seq<char>)
    ensures
        (encode_utf8(formatted_mac(s)).len() == MAC_TEXT_LEN) <==> hex_digits(s).len()
            >= MAC_DIGITS,
{
    let d = mac_digits(s);
    lemma_mac_digits_shape(s);
    lemma_grouped_len(d);
    lemma_grouped_chars(d);
    let f = grouped(d);
    assert(is_ascii_chars(f)) by {
        assert forall|i: int| 0 <= i < f.len() implies '\0' <= #[trigger] f[i] <= '\u{7f}' by {
            assert(is_upper_hex_digit(f[i]) || f[i] == ':');
        }
    }
    assert(encode_utf8(f).len() == f.len());
}

/// Storing a formatted MAC keeps exactly its digits: the separators go and the
/// digits are put in lower case.
pub proof fn law_storage_of_formatted(s: Seq<char>)
    ensures
        lowercase(trimmed(without_colons(formatted_mac(s)))) == lowercase(mac_digits(s)),
{
    let d = mac_digits(s);
    lemma_mac_digits_shape(s);
    lemma_without_colons_grouped(d);
    assert(trim_start(d) == d) by {
        if d.len() > 0 {
            assert(is_upper_hex_digit(d[0]));
        }
    }
    assert(trim_end(d) == d) by {
        if d.len() > 0 {
            assert(is_upper_hex_digit(d[d.len() - 1]));
        }
    }
}

/// In the formatted text a `:` stands exactly at the places `3k + 2`, and
/// never last.
pub proof fn law_separator_positions(s: Seq<char>)
    ensures
        forall|j: int|
            0 <= j < formatted_mac(s).len() ==> (#[trigger] formatted_mac(s)[j] == ':' <==> j % 3 == 2),
        formatted_mac(s).len() > 0 ==> formatted_mac(s).last() != ':',
{
    let d = mac_digits(s);
    lemma_mac_digits_shape(s);
    lemma_grouped_separators(d);
    lemma_grouped_len(d);
    if d.len() > 0 {
        lemma_grouped_len_mod(d.len() as int);
    }
}

/// When the field is rewritten, the cursor lands right after the digits that
/// stood before it: the formatted text before the new place holds the same
/// digits as the typed text before the old one, as long as no more than
/// twelve digits stood there.
pub proof fn law_cursor_after_digits(s: Seq<char>, position: int)
    requires
        hex_digits(s.take(clamp_position(position, s.len() as int))).len() <= MAC_DIGITS,
    ensures
        0 <= cursor_after(s, position) <= formatted_mac(s).len(),
        hex_digits(formatted_mac(s).take(cursor_after(s, position))) == hex_digits(
            s.take(clamp_position(position, s.len() as int)),
        ),
{
    let k = clamp_position(position, s.len() as int);
    let before = hex_digits(s.take(k));
    let c = before.len() as int;
    let d = mac_digits(s);
    lemma_hex_digits_append(s.take(k), s.skip(k));
    assert(s.take(k) + s.skip(k) =~= s);
    lemma_mac_digits_shape(s);
    assert(d.take(c) =~= before) by {
        assert forall|i: int| 0 <= i < c implies d.take(c)[i] == before[i] by {
            assert(hex_digits(s)[i] == before[i]);
        }
    }
    lemma_grouped_prefix(d, c);
    lemma_grouped_len(d.take(c));
    lemma_hex_digits_upper(s);
    assert forall|i: int| 0 <= i < d.take(c).len() implies is_upper_hex_digit(#[trigger] d.take(c)[i]) by {
        assert(d.take(c)[i] == d[i]);
    }
    lemma_hex_digits_grouped(d.take(c));
}

} // verus!
