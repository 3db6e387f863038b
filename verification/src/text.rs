//! Text primitives over characters: white space, trimming, splitting,
//! prefixes, decimal and hexadecimal notation.

use vstd::arithmetic::div_mod::*;
use vstd::arithmetic::power::*;
use vstd::prelude::*;
use vstd::string::*;

verus! {

/// The Unicode `White_Space` property.
pub open spec fn is_white_space(c: char) -> bool {
    let u = c as u32;
    ||| 0x9 <= u <= 0xd
    ||| u == 0x20
    ||| u == 0x85
    ||| u == 0xa0
    ||| u == 0x1680
    ||| 0x2000 <= u <= 0x200a
    ||| u == 0x2028
    ||| u == 0x2029
    ||| u == 0x202f
    ||| u == 0x205f
    ||| u == 0x3000
}

/// `s` without its leading white space.
pub open spec fn trimmed_start(s: Seq<char>) -> Seq<char>
    decreases s.len(),
{
    if s.len() > 0 && is_white_space(s[0]) {
        trimmed_start(s.drop_first())
    } else {
        s
    }
}

/// `s` without its trailing white space.
pub open spec fn trimmed_end(s: Seq<char>) -> Seq<char>
    decreases s.len(),
{
    if s.len() > 0 && is_white_space(s.last()) {
        trimmed_end(s.drop_last())
    } else {
        s
    }
}

/// `s` without its leading and trailing white space.
pub open spec fn trimmed(s: Seq<char>) -> Seq<char> {
    trimmed_end(trimmed_start(s))
}

/// Does `c` have the Unicode `White_Space` property?
pub fn white_space(c: char) -> (r: bool)
    ensures
        r == is_white_space(c),
{
    let u: u32 = c as u32;
    (0x9 <= u && u <= 0xd) || u == 0x20 || u == 0x85 || u == 0xa0 || u == 0x1680 || (0x2000 <= u
        && u <= 0x200a) || u == 0x2028 || u == 0x2029 || u == 0x202f || u == 0x205f || u == 0x3000
}

proof fn lemma_trimmed_start_at(s: Seq<char>, a: int)
    requires
        0 <= a <= s.len(),
        forall|i: int| 0 <= i < a ==> is_white_space(#[trigger] s[i]),
        a < s.len() ==> !is_white_space(s[a]),
    ensures
        trimmed_start(s) == s.skip(a),
    decreases a,
{
    if a == 0 {
        assert(s.skip(0) =~= s);
    } else {
        let rest = s.drop_first();
        assert forall|i: int| 0 <= i < a - 1 implies is_white_space(#[trigger] rest[i]) by {
            assert(rest[i] == s[i + 1]);
        }
        lemma_trimmed_start_at(rest, a - 1);
        assert(rest.skip(a - 1) =~= s.skip(a));
    }
}

proof fn lemma_trimmed_end_at(s: Seq<char>, b: int)
    requires
        0 <= b <= s.len(),
        forall|i: int| b <= i < s.len() ==> is_white_space(#[trigger] s[i]),
        b > 0 ==> !is_white_space(s[b - 1]),
    ensures
        trimmed_end(s) == s.take(b),
    decreases s.len() - b,
{
    if b == s.len() {
        assert(s.take(b) =~= s);
    } else {
        let rest = s.drop_last();
        lemma_trimmed_end_at(rest, b);
        assert(rest.take(b) =~= s.take(b));
    }
}

/// The trimmed text is the range between the outermost characters that are
/// not white space.
pub proof fn lemma_trimmed_range(s: Seq<char>, a: int, b: int)
    requires
        0 <= a <= b <= s.len(),
        forall|i: int| 0 <= i < a ==> is_white_space(#[trigger] s[i]),
        forall|i: int| b <= i < s.len() ==> is_white_space(#[trigger] s[i]),
        a < b ==> !is_white_space(s[a]) && !is_white_space(s[b - 1]),
    ensures
        trimmed(s) == s.subrange(a, b),
{
    if a < b {
        lemma_trimmed_start_at(s, a);
        let t = s.skip(a);
        assert forall|i: int| b - a <= i < t.len() implies is_white_space(#[trigger] t[i]) by {
            assert(t[i] == s[a + i]);
        }
        assert(t[b - a - 1] == s[b - 1]);
        lemma_trimmed_end_at(t, b - a);
        assert(t.take(b - a) =~= s.subrange(a, b));
    } else {
        lemma_trimmed_start_at(s, s.len() as int);
        assert(s.skip(s.len() as int) =~= s.subrange(a, b));
    }
}

/// The characters of `s`.
pub fn chars_of(s: &str) -> (r: Vec<char>)
    ensures
        r@ == s@,
{
    let mut r: Vec<char> = Vec::new();
    for c in it: s.chars()
        invariant
            it.seq() == s@,
            r@ == s@.take(it.index() as int),
    {
        r.push(c);
    }
    assert(s@.take(s@.len() as int) =~= s@);
    r
}

/// `s` without its leading and trailing white space.
pub fn trim<'a>(s: &'a str) -> (r: &'a str)
    ensures
        r@ == trimmed(s@),
{
    let chars: Vec<char> = chars_of(s);
    let n: usize = chars.len();
    let mut a: usize = 0;
    while a < n && white_space(chars[a])
        invariant
            a <= n == chars@.len(),
            forall|i: int| 0 <= i < a ==> is_white_space(#[trigger] chars@[i]),
        decreases n - a,
    {
        a = a + 1;
    }
    let mut b: usize = n;
    while a < b && white_space(chars[b - 1])
        invariant
            a <= b <= n == chars@.len(),
            forall|i: int| b <= i < n ==> is_white_space(#[trigger] chars@[i]),
        decreases b,
    {
        b = b - 1;
    }
    proof {
        lemma_trimmed_range(s@, a as int, b as int);
    }
    s.substring_char(a, b)
}

proof fn lemma_trimmed_start_head(s: Seq<char>)
    ensures
        trimmed_start(s).len() > 0 ==> !is_white_space(trimmed_start(s)[0]),
    decreases s.len(),
{
    if s.len() > 0 && is_white_space(s[0]) {
        lemma_trimmed_start_head(s.drop_first());
    }
}

proof fn lemma_trimmed_end_ends(s: Seq<char>)
    ensures
        trimmed_end(s).len() > 0 ==> trimmed_end(s)[0] == s[0] && !is_white_space(
            trimmed_end(s).last(),
        ),
        trimmed_end(s).len() <= s.len(),
    decreases s.len(),
{
    if s.len() > 0 && is_white_space(s.last()) {
        lemma_trimmed_end_ends(s.drop_last());
    }
}

/// Trimmed text neither begins nor ends with white space.
pub proof fn law_trimmed_ends(s: Seq<char>)
    ensures
        trimmed(s).len() > 0 ==> !is_white_space(trimmed(s)[0]) && !is_white_space(
            trimmed(s).last(),
        ),
{
    lemma_trimmed_start_head(s);
    lemma_trimmed_end_ends(trimmed_start(s));
}

/// Trimming a second time changes nothing.
pub proof fn law_trimmed_idempotent(s: Seq<char>)
    ensures
        trimmed(trimmed(s)) == trimmed(s),
{
    let t = trimmed(s);
    law_trimmed_ends(s);
    lemma_trimmed_range(t, 0, t.len() as int);
    assert(t.subrange(0, t.len() as int) =~= t);
}

proof fn lemma_trimmed_start_subset(s: Seq<char>, c: char)
    requires
        trimmed_start(s).contains(c),
    ensures
        s.contains(c),
    decreases s.len(),
{
    if s.len() > 0 && is_white_space(s[0]) {
        let rest = s.drop_first();
        lemma_trimmed_start_subset(rest, c);
        let k = choose|k: int| 0 <= k < rest.len() && rest[k] == c;
        assert(s[k + 1] == c);
    }
}

proof fn lemma_trimmed_end_subset(s: Seq<char>, c: char)
    requires
        trimmed_end(s).contains(c),
    ensures
        s.contains(c),
    decreases s.len(),
{
    if s.len() > 0 && is_white_space(s.last()) {
        let rest = s.drop_last();
        lemma_trimmed_end_subset(rest, c);
        let k = choose|k: int| 0 <= k < rest.len() && rest[k] == c;
        assert(s[k] == c);
    }
}

/// Trimming adds no character.
pub proof fn law_trimmed_adds_nothing(s: Seq<char>, c: char)
    requires
        trimmed(s).contains(c),
    ensures
        s.contains(c),
{
    lemma_trimmed_end_subset(trimmed_start(s), c);
    lemma_trimmed_start_subset(s, c);
}

/// The pieces of `s` between the occurrences of `sep`: one more piece than
/// there are occurrences, empty pieces among them.
pub open spec fn split(s: Seq<char>, sep: char) -> Seq<Seq<char>>
    decreases s.len(),
{
    if s.len() == 0 {
        seq![Seq::<char>::empty()]
    } else {
        let pieces = split(s.drop_last(), sep);
        if s.last() == sep {
            pieces.push(Seq::<char>::empty())
        } else {
            pieces.drop_last().push(pieces.last().push(s.last()))
        }
    }
}

/// No piece of a split holds the separator.
pub proof fn law_split_pieces_hold_no_separator(s: Seq<char>, sep: char)
    ensures
        split(s, sep).len() > 0,
        forall|i: int| 0 <= i < split(s, sep).len() ==> !(#[trigger] split(s, sep)[i]).contains(sep),
    decreases s.len(),
{
    if s.len() > 0 {
        let pieces = split(s.drop_last(), sep);
        law_split_pieces_hold_no_separator(s.drop_last(), sep);
        if s.last() != sep {
            let last = pieces.last();
            let grown = last.push(s.last());
            assert(!grown.contains(sep)) by {
                if grown.contains(sep) {
                    let k = choose|k: int| 0 <= k < grown.len() && grown[k] == sep;
                    assert(last[k] == sep);
                    assert(last.contains(sep));
                }
            }
        }
    }
}

/// `pieces` with one `sep` between each two neighbours.
pub open spec fn joined(pieces: Seq<Seq<char>>, sep: char) -> Seq<char>
    decreases pieces.len(),
{
    if pieces.len() == 0 {
        Seq::<char>::empty()
    } else if pieces.len() == 1 {
        pieces[0]
    } else {
        joined(pieces.drop_last(), sep).push(sep) + pieces.last()
    }
}

/// Joining the pieces of a split with the separator gives the text back.
pub proof fn law_joined_split(s: Seq<char>, sep: char)
    ensures
        joined(split(s, sep), sep) == s,
    decreases s.len(),
{
    law_split_pieces_hold_no_separator(s, sep);
    if s.len() > 0 {
        let front = s.drop_last();
        let pieces = split(front, sep);
        law_split_pieces_hold_no_separator(front, sep);
        law_joined_split(front, sep);
        let all = split(s, sep);
        if s.last() == sep {
            assert(all.drop_last() =~= pieces);
            assert(joined(all, sep) =~= s);
        } else {
            assert(all.drop_last() =~= pieces.drop_last());
            assert(joined(all, sep) =~= joined(pieces, sep).push(s.last()));
            assert(joined(all, sep) =~= s);
        }
    }
}

proof fn lemma_split_append(a: Seq<char>, b: Seq<char>, sep: char)
    requires
        !b.contains(sep),
    ensures
        split(a + b, sep) == split(a, sep).drop_last().push(split(a, sep).last() + b),
    decreases b.len(),
{
    law_split_pieces_hold_no_separator(a, sep);
    let pieces = split(a, sep);
    if b.len() == 0 {
        assert(a + b =~= a);
        assert(pieces.last() + b =~= pieces.last());
        assert(pieces.drop_last().push(pieces.last()) =~= pieces);
    } else {
        let front = b.drop_last();
        assert(!front.contains(sep)) by {
            if front.contains(sep) {
                let k = choose|k: int| 0 <= k < front.len() && front[k] == sep;
                assert(b[k] == sep);
            }
        }
        lemma_split_append(a, front, sep);
        assert((a + b).drop_last() =~= a + front);
        assert(b.contains(b.last()));
        let grown = split(a + front, sep);
        assert(grown.drop_last() =~= pieces.drop_last());
        assert((pieces.last() + front).push(b.last()) =~= pieces.last() + b);
        assert(split(a + b, sep) =~= pieces.drop_last().push(pieces.last() + b));
    }
}

/// Splitting undoes joining, for any non-empty list of pieces that do not
/// hold the separator.
pub proof fn law_split_joined(pieces: Seq<Seq<char>>, sep: char)
    requires
        pieces.len() > 0,
        forall|i: int| 0 <= i < pieces.len() ==> !(#[trigger] pieces[i]).contains(sep),
    ensures
        split(joined(pieces, sep), sep) == pieces,
    decreases pieces.len(),
{
    let last = pieces.last();
    if pieces.len() == 1 {
        let empty = Seq::<char>::empty();
        lemma_split_append(empty, last, sep);
        assert(empty + last =~= last);
        assert(split(empty, sep).drop_last().push(split(empty, sep).last() + last) =~= pieces);
    } else {
        let front = pieces.drop_last();
        law_split_joined(front, sep);
        let head = joined(front, sep).push(sep);
        assert(head.drop_last() =~= joined(front, sep));
        assert(split(head, sep) == front.push(Seq::<char>::empty()));
        lemma_split_append(head, last, sep);
        assert(split(head, sep).drop_last() =~= front);
        assert(split(head, sep).last() + last =~= last);
        assert(front.push(last) =~= pieces);
    }
}

/// Do `a` and `b` hold the same characters?
pub fn same_text(a: &str, b: &str) -> (r: bool)
    ensures
        r == (a@ == b@),
{
    let x = a.as_bytes();
    let y = b.as_bytes();
    proof {
        vstd::utf8::encode_utf8_decode_utf8(a@);
        vstd::utf8::encode_utf8_decode_utf8(b@);
    }
    if x.len() != y.len() {
        return false;
    }
    let n: usize = x.len();
    let mut i: usize = 0;
    while i < n
        invariant
            i <= n == x@.len() == y@.len(),
            forall|k: int| 0 <= k < i ==> x@[k] == y@[k],
            x@ == a.spec_bytes(),
            y@ == b.spec_bytes(),
        decreases n - i,
    {
        if x[i] != y[i] {
            return false;
        }
        i = i + 1;
    }
    assert(x@ =~= y@);
    true
}

/// What follows `prefix` in `s`, if `s` begins with it.
pub open spec fn after_prefix(s: Seq<char>, prefix: Seq<char>) -> Option<Seq<char>> {
    if prefix.is_prefix_of(s) {
        Some(s.skip(prefix.len() as int))
    } else {
        None
    }
}

/// What follows `prefix` in `s`, if `s` begins with it.
pub fn strip_prefix<'a>(s: &'a str, prefix: &str) -> (r: Option<&'a str>)
    ensures
        r.deep_view() == after_prefix(s@, prefix@),
{
    let n: usize = s.unicode_len();
    let k: usize = prefix.unicode_len();
    if k > n {
        return None;
    }
    let head: &str = s.substring_char(0, k);
    if same_text(head, prefix) {
        let rest: &'a str = s.substring_char(k, n);
        assert(rest@ =~= s@.skip(k as int));
        assert(prefix@ =~= s@.subrange(0, k as int));
        Some(rest)
    } else {
        None
    }
}

/// The character of a decimal digit.
pub open spec fn decimal_digit(d: nat) -> char {
    ('0' as int + d) as char
}

/// `n` in decimal notation, without leading zeros.
pub open spec fn decimal(n: nat) -> Seq<char>
    decreases n,
{
    if n < 10 {
        seq![decimal_digit(n)]
    } else {
        decimal(n / 10).push(decimal_digit(n % 10))
    }
}

/// Appends the one-character text of the hexadecimal digit `d`.
fn push_digit(buf: &mut String, d: u8)
    requires
        d < 16,
    ensures
        final(buf)@ == old(buf)@.push(hex_digit(d as nat)),
{
    proof {
        reveal_strlit("0");
        reveal_strlit("1");
        reveal_strlit("2");
        reveal_strlit("3");
        reveal_strlit("4");
        reveal_strlit("5");
        reveal_strlit("6");
        reveal_strlit("7");
        reveal_strlit("8");
        reveal_strlit("9");
        reveal_strlit("a");
        reveal_strlit("b");
        reveal_strlit("c");
        reveal_strlit("d");
        reveal_strlit("e");
        reveal_strlit("f");
    }
    let digit: &str = match d {
        0 => "0",
        1 => "1",
        2 => "2",
        3 => "3",
        4 => "4",
        5 => "5",
        6 => "6",
        7 => "7",
        8 => "8",
        9 => "9",
        10 => "a",
        11 => "b",
        12 => "c",
        13 => "d",
        14 => "e",
        _ => "f",
    };
    assert(digit@ =~= seq![hex_digit(d as nat)]);
    buf.append(digit);
    assert(buf@ =~= old(buf)@.push(hex_digit(d as nat)));
}

/// Appends `n` in decimal notation to `buf`.
pub fn push_decimal(buf: &mut String, n: u64)
    ensures
        final(buf)@ == old(buf)@ + decimal(n as nat),
    decreases n,
{
    if n < 10 {
        push_digit(buf, n as u8);
        assert(buf@ =~= old(buf)@ + decimal(n as nat));
    } else {
        push_decimal(buf, n / 10);
        push_digit(buf, (n % 10) as u8);
        assert(buf@ =~= old(buf)@ + decimal(n as nat));
    }
}

/// The character of a lowercase hexadecimal digit.
pub open spec fn hex_digit(d: nat) -> char {
    if d < 10 {
        decimal_digit(d)
    } else {
        ('a' as int + (d - 10)) as char
    }
}

/// `bytes` in lowercase hexadecimal notation: two digits for each byte, the
/// high half first.
pub open spec fn hex(bytes: Seq<u8>) -> Seq<char> {
    Seq::new(
        2 * bytes.len(),
        |i: int|
            hex_digit(
                if i % 2 == 0 {
                    bytes[i / 2] as nat / 16
                } else {
                    bytes[i / 2] as nat % 16
                },
            ),
    )
}

/// Appends `bytes` in lowercase hexadecimal notation to `buf`.
pub fn push_hex(buf: &mut String, bytes: &[u8])
    ensures
        final(buf)@ == old(buf)@ + hex(bytes@),
{
    let n: usize = bytes.len();
    let mut i: usize = 0;
    assert(buf@ =~= old(buf)@ + hex(bytes@.take(0)));
    while i < n
        invariant
            i <= n == bytes@.len(),
            buf@ == old(buf)@ + hex(bytes@.take(i as int)),
        decreases n - i,
    {
        let b: u8 = bytes[i];
        push_digit(buf, b / 16);
        push_digit(buf, b % 16);
        i = i + 1;
        assert(buf@ =~= old(buf)@ + hex(bytes@.take(i as int)));
    }
    assert(bytes@.take(n as int) =~= bytes@);
}

proof fn lemma_hex_digit_injective(d: nat, e: nat)
    requires
        d < 16,
        e < 16,
        hex_digit(d) == hex_digit(e),
    ensures
        d == e,
{
}

/// Different bytes have different hexadecimal notations.
pub proof fn law_hex_injective(a: Seq<u8>, b: Seq<u8>)
    requires
        hex(a) == hex(b),
    ensures
        a == b,
{
    assert(hex(a).len() == 2 * a.len());
    assert(hex(b).len() == 2 * b.len());
    assert forall|i: int| 0 <= i < a.len() implies a[i] == b[i] by {
        assert((2 * i) % 2 == 0 && (2 * i) / 2 == i);
        assert((2 * i + 1) % 2 == 1 && (2 * i + 1) / 2 == i);
        assert(hex(a)[2 * i] == hex_digit(a[i] as nat / 16));
        assert(hex(b)[2 * i] == hex_digit(b[i] as nat / 16));
        assert(hex(a)[2 * i + 1] == hex_digit(a[i] as nat % 16));
        assert(hex(b)[2 * i + 1] == hex_digit(b[i] as nat % 16));
        lemma_hex_digit_injective(a[i] as nat / 16, b[i] as nat / 16);
        lemma_hex_digit_injective(a[i] as nat % 16, b[i] as nat % 16);
    }
    assert(a =~= b);
}

/// Hexadecimal notation holds lowercase hexadecimal digits only.
pub proof fn law_hex_alphabet(bytes: Seq<u8>, i: int)
    requires
        0 <= i < hex(bytes).len(),
    ensures
        '0' <= hex(bytes)[i] <= '9' || 'a' <= hex(bytes)[i] <= 'f',
{
}

/// Different texts have different UTF-8 encodings.
pub proof fn law_utf8_injective(a: Seq<char>, b: Seq<char>)
    requires
        vstd::utf8::encode_utf8(a) == vstd::utf8::encode_utf8(b),
    ensures
        a == b,
{
    vstd::utf8::encode_utf8_decode_utf8(a);
    vstd::utf8::encode_utf8_decode_utf8(b);
}

/// Which code points are white space: among ASCII the tab, the line breaks and
/// the space, and beyond it the next-line character, the no-break space and
/// the spaces and separators of the general and CJK punctuation.
pub proof fn law_white_space_code_points(c: char)
    ensures
        (c as u32) < 0x80 ==> (is_white_space(c) <==> c == ' ' || c == '\t' || c == '\n' || c
            == '\r' || c == '\u{b}' || c == '\u{c}'),
        (c as u32) >= 0x80 ==> (is_white_space(c) <==> c == '\u{85}' || c == '\u{a0}' || c
            == '\u{1680}' || '\u{2000}' <= c <= '\u{200a}' || c == '\u{2028}' || c == '\u{2029}'
            || c == '\u{202f}' || c == '\u{205f}' || c == '\u{3000}'),
{
}

/// Trimming undoes padding: white space put around a text that neither begins
/// nor ends with white space is taken off again, all of it and nothing else.
pub proof fn law_trimming_undoes_padding(left: Seq<char>, core: Seq<char>, right: Seq<char>)
    requires
        forall|i: int| 0 <= i < left.len() ==> is_white_space(#[trigger] left[i]),
        forall|i: int| 0 <= i < right.len() ==> is_white_space(#[trigger] right[i]),
        core.len() > 0 ==> !is_white_space(core[0]) && !is_white_space(core.last()),
    ensures
        trimmed(left + core + right) == core,
{
    let s = left + core + right;
    let a = left.len() as int;
    let b = a + core.len();
    assert forall|i: int| 0 <= i < a implies is_white_space(#[trigger] s[i]) by {
        assert(s[i] == left[i]);
    }
    assert forall|i: int| b <= i < s.len() implies is_white_space(#[trigger] s[i]) by {
        assert(s[i] == right[i - b]);
    }
    if core.len() > 0 {
        assert(s[a] == core[0]);
        assert(s[b - 1] == core.last());
    }
    lemma_trimmed_range(s, a, b);
    assert(s.subrange(a, b) =~= core);
}

/// Every text is its trim with white space put around it.
pub proof fn law_a_text_is_its_trim_with_padding(s: Seq<char>) -> (pads: (Seq<char>, Seq<char>))
    ensures
        s == pads.0 + trimmed(s) + pads.1,
        forall|i: int| 0 <= i < pads.0.len() ==> is_white_space(#[trigger] pads.0[i]),
        forall|i: int| 0 <= i < pads.1.len() ==> is_white_space(#[trigger] pads.1[i]),
    decreases s.len(),
{
    if s.len() > 0 && is_white_space(s[0]) {
        let rest = s.drop_first();
        let (l, r) = law_a_text_is_its_trim_with_padding(rest);
        let left = seq![s[0]] + l;
        assert(trimmed(s) == trimmed(rest));
        assert(s =~= seq![s[0]] + rest);
        assert(s =~= left + trimmed(s) + r);
        (left, r)
    } else if s.len() > 0 && is_white_space(s.last()) {
        let rest = s.drop_last();
        assert(rest.len() > 0);
        assert(rest[0] == s[0]);
        let (l, r) = law_a_text_is_its_trim_with_padding(rest);
        let right = r.push(s.last());
        assert(trimmed(s) == trimmed(rest));
        assert(s =~= rest.push(s.last()));
        assert(s =~= l + trimmed(s) + right);
        (l, right)
    } else {
        let none = Seq::<char>::empty();
        assert(s =~= none + trimmed(s) + none);
        (none, none)
    }
}

/// A text without the separator is one piece.
pub proof fn law_split_without_separator(s: Seq<char>, sep: char)
    requires
        !s.contains(sep),
    ensures
        split(s, sep) == seq![s],
{
    let empty = Seq::<char>::empty();
    lemma_split_append(empty, s, sep);
    assert(empty + s =~= s);
    assert(split(empty, sep).drop_last().push(split(empty, sep).last() + s) =~= seq![s]);
}

/// Splitting at one separator splits both sides on their own: the pieces of
/// the left side come first, those of the right side after them.
pub proof fn law_split_on_both_sides(a: Seq<char>, b: Seq<char>, sep: char)
    ensures
        split(a.push(sep) + b, sep) == split(a, sep) + split(b, sep),
    decreases b.len(),
{
    let whole = a.push(sep) + b;
    law_split_pieces_hold_no_separator(b, sep);
    if b.len() == 0 {
        assert(whole.drop_last() =~= a);
        assert(whole.last() == sep);
        assert(split(whole, sep) =~= split(a, sep) + split(b, sep));
    } else {
        let front = b.drop_last();
        law_split_on_both_sides(a, front, sep);
        law_split_pieces_hold_no_separator(front, sep);
        assert(whole.drop_last() =~= a.push(sep) + front);
        assert(whole.last() == b.last());
        let pieces = split(a, sep) + split(front, sep);
        assert(pieces.last() == split(front, sep).last());
        assert(split(whole, sep) =~= split(a, sep) + split(b, sep));
    }
}

/// Joining puts one separator in front of every piece but the first.
pub proof fn law_joining_one_more_piece(pieces: Seq<Seq<char>>, piece: Seq<char>, sep: char)
    ensures
        joined(pieces.push(piece), sep) == if pieces.len() == 0 {
            piece
        } else {
            joined(pieces, sep).push(sep) + piece
        },
{
    assert(pieces.push(piece).drop_last() =~= pieces);
}

/// What follows a prefix is what was put behind it, and nothing follows a
/// prefix that is not there.
pub proof fn law_after_prefix_undoes_prepending(s: Seq<char>, prefix: Seq<char>, rest: Seq<char>)
    ensures
        after_prefix(prefix + rest, prefix) == Some(rest),
        after_prefix(s, prefix) == Some(rest) <==> s == prefix + rest,
        after_prefix(s, prefix) is None ==> s != prefix + rest,
{
    assert(prefix.is_prefix_of(prefix + rest));
    assert((prefix + rest).skip(prefix.len() as int) =~= rest);
    if after_prefix(s, prefix) == Some(rest) {
        assert(s =~= prefix + rest);
    }
}

/// Decimal notation is positional: the digit at distance `k` from the end
/// counts the `k`-th power of ten, the digits suffice for the number, and the
/// first of several is not zero.
pub proof fn law_decimal_is_positional(n: nat)
    ensures
        decimal(n).len() > 0,
        n < pow(10, decimal(n).len()),
        decimal(n).len() > 1 ==> n >= pow(10, (decimal(n).len() - 1) as nat),
        forall|k: int|
            0 <= k < decimal(n).len() ==> #[trigger] decimal(n)[decimal(n).len() - 1 - k] as int
                == 48 + (n as int / pow(10, k as nat)) % 10,
    decreases n,
{
    let d = decimal(n);
    lemma_pow0(10);
    lemma_pow1(10);
    if n >= 10 {
        let m = n / 10;
        let front = decimal(m);
        law_decimal_is_positional(m);
        let l = front.len();
        reveal(pow);
        assert(pow(10, l + 1) == 10 * pow(10, l));
        if l > 1 {
            assert(pow(10, l) == 10 * pow(10, (l - 1) as nat));
        }
        assert forall|k: int| 0 <= k < d.len() implies #[trigger] d[d.len() - 1 - k] as int == 48 + (
        n as int / pow(10, k as nat)) % 10 by {
            if k > 0 {
                let p = pow(10, (k - 1) as nat);
                assert(pow(10, k as nat) == 10 * p);
                lemma_pow_positive(10, (k - 1) as nat);
                lemma_div_denominator(n as int, 10, p);
                assert(d[d.len() - 1 - k] == front[front.len() - 1 - (k - 1)]);
            }
        }
    }
}

/// Hexadecimal notation gives every byte its two digits, the high half first,
/// and nothing else.
pub proof fn law_hex_is_two_digits_for_each_byte(bytes: Seq<u8>, i: int)
    ensures
        hex(bytes).len() == 2 * bytes.len(),
        0 <= i < bytes.len() ==> {
            let digits = seq![
                '0',
                '1',
                '2',
                '3',
                '4',
                '5',
                '6',
                '7',
                '8',
                '9',
                'a',
                'b',
                'c',
                'd',
                'e',
                'f',
            ];
            &&& hex(bytes)[2 * i] == digits[bytes[i] as int / 16]
            &&& hex(bytes)[2 * i + 1] == digits[bytes[i] as int % 16]
        },
{
    if 0 <= i < bytes.len() {
        assert((2 * i) % 2 == 0 && (2 * i) / 2 == i);
        assert((2 * i + 1) % 2 == 1 && (2 * i + 1) / 2 == i);
    }
}

} // verus!
