//! Text handling on `str` and `String`, with every result stated over
//! sequences of characters.

use vstd::prelude::*;
use vstd::utf8::*;

verus! {

/// `String::push`: the character is appended to the end of the string.
pub assume_specification[ String::push ](s: &mut String, c: char)
    ensures
        final(s)@ == old(s)@.push(c),
;

/// `String::pop`: the last character is removed and returned; an empty
/// string stays empty and gives `None`.
pub assume_specification[ String::pop ](s: &mut String) -> (last: Option<char>)
    ensures
        old(s)@.len() == 0 ==> last is None && final(s)@ == old(s)@,
        old(s)@.len() > 0 ==> last == Some(old(s)@.last()) && final(s)@ == old(s)@.drop_last(),
;

/// What `str::to_lowercase` makes of a text: the Unicode lowercase mapping,
/// which is a table of its own and is not written out here.
pub uninterp spec fn lowercase(s: Seq<char>) -> Seq<char>;

/// `str::to_lowercase`: the result depends on the characters of the argument
/// alone and is known under the name [`lowercase`].
pub assume_specification[ str::to_lowercase ](s: &str) -> (r: String)
    ensures
        r@ == lowercase(s@),
;

/// The number of bytes of the UTF-8 encoding of a text.
pub open spec fn byte_len(s: Seq<char>) -> nat {
    encode_utf8(s).len()
}

/// The number of bytes of a text.
pub fn size(s: &str) -> (r: usize)
    ensures
        r == byte_len(s@),
{
    s.as_bytes().len()
}

/// Two texts with the same encoding are the same text.
pub proof fn lemma_encoding_is_injective(a: Seq<char>, b: Seq<char>)
    requires
        encode_utf8(a) == encode_utf8(b),
    ensures
        a == b,
{
    encode_utf8_decode_utf8(a);
    encode_utf8_decode_utf8(b);
}

/// The characters of a string.
pub fn chars_of(s: &str) -> (r: Vec<char>)
    ensures
        r@ == s@,
{
    let mut out: Vec<char> = Vec::new();
    for c in it: s.chars()
        invariant
            out@ == s@.take(it.index()),
            it.seq() == s@,
    {
        out.push(c);
    }
    out
}

/// The string made of the characters `v[from..to]`.
pub fn string_of(v: &Vec<char>, from: usize, to: usize) -> (r: String)
    requires
        from <= to <= v@.len(),
    ensures
        r@ == v@.subrange(from as int, to as int),
{
    let mut out = String::new();
    let mut i: usize = from;
    while i < to
        invariant
            from <= i <= to <= v@.len(),
            out@ == v@.subrange(from as int, i as int),
        decreases to - i,
    {
        out.push(v[i]);
        i += 1;
    }
    out
}

/// Equality of two texts.
pub fn same(a: &str, b: &str) -> (r: bool)
    ensures
        r == (a@ == b@),
{
    let x = a.as_bytes();
    let y = b.as_bytes();
    if x.len() != y.len() {
        return false;
    }
    let mut i: usize = 0;
    while i < x.len()
        invariant
            x@ == encode_utf8(a@),
            y@ == encode_utf8(b@),
            x@.len() == y@.len(),
            i <= x@.len(),
            forall|j: int| 0 <= j < i ==> x@[j] == y@[j],
        decreases x@.len() - i,
    {
        if x[i] != y[i] {
            return false;
        }
        i += 1;
    }
    proof {
        assert(x@ =~= y@);
        lemma_encoding_is_injective(a@, b@);
    }
    true
}

/// The characters with the Unicode property `White_Space`.
pub open spec fn white(c: char) -> bool {
    ||| '\u{9}' <= c <= '\u{d}'
    ||| c == '\u{20}'
    ||| c == '\u{85}'
    ||| c == '\u{a0}'
    ||| c == '\u{1680}'
    ||| '\u{2000}' <= c <= '\u{200a}'
    ||| c == '\u{2028}'
    ||| c == '\u{2029}'
    ||| c == '\u{202f}'
    ||| c == '\u{205f}'
    ||| c == '\u{3000}'
}

/// Whether a character is white space.
pub fn is_white(c: char) -> (r: bool)
    ensures
        r == white(c),
{
    ('\u{9}' <= c && c <= '\u{d}') || c == '\u{20}' || c == '\u{85}' || c == '\u{a0}'
        || c == '\u{1680}' || ('\u{2000}' <= c && c <= '\u{200a}') || c == '\u{2028}'
        || c == '\u{2029}' || c == '\u{202f}' || c == '\u{205f}' || c == '\u{3000}'
}

/// A text without the white space at its start.
pub open spec fn trimmed_start(s: Seq<char>) -> Seq<char>
    decreases s.len(),
{
    if s.len() > 0 && white(s.first()) {
        trimmed_start(s.drop_first())
    } else {
        s
    }
}

/// A text without the white space at its end.
pub open spec fn trimmed_end(s: Seq<char>) -> Seq<char>
    decreases s.len(),
{
    if s.len() > 0 && white(s.last()) {
        trimmed_end(s.drop_last())
    } else {
        s
    }
}

/// A text without the white space at either end.
pub open spec fn trimmed(s: Seq<char>) -> Seq<char> {
    trimmed_end(trimmed_start(s))
}

/// A copy of the text without the white space at either end.
pub fn trim(s: &str) -> (r: String)
    ensures
        r@ == trimmed(s@),
{
    let v = chars_of(s);
    let mut from: usize = 0;
    assert(v@.skip(0) == v@);
    while from < v.len() && is_white(v[from])
        invariant
            v@ == s@,
            from <= v@.len(),
            trimmed_start(s@) == trimmed_start(v@.skip(from as int)),
        decreases v@.len() - from,
    {
        assert(v@.skip(from as int).drop_first() == v@.skip(from + 1));
        from += 1;
    }
    let ghost start = v@.skip(from as int);
    assert(trimmed_start(s@) == start);
    let mut to: usize = v.len();
    assert(v@.subrange(from as int, to as int) == start);
    while from < to && is_white(v[to - 1])
        invariant
            v@ == s@,
            from <= to <= v@.len(),
            trimmed(s@) == trimmed_end(v@.subrange(from as int, to as int)),
        decreases to,
    {
        let ghost cut = v@.subrange(from as int, to as int);
        assert(cut.last() == v@[to - 1]);
        assert(cut.drop_last() == v@.subrange(from as int, to - 1));
        to -= 1;
    }
    proof {
        let cut = v@.subrange(from as int, to as int);
        if from < to {
            assert(cut.last() == v@[to - 1]);
        }
        assert(trimmed_end(cut) == cut);
    }
    string_of(&v, from, to)
}

/// The decimal digits of a number, most significant first.
pub open spec fn digits(n: nat) -> Seq<char>
    decreases n,
{
    if n < 10 {
        seq![(48 + n) as char]
    } else {
        digits(n / 10).push((48 + n % 10) as char)
    }
}

/// A number in decimal.
pub fn decimal(n: u64) -> (r: String)
    ensures
        r@ == digits(n as nat),
    decreases n,
{
    if n < 10 {
        let mut s = String::new();
        s.push((48 + n as u8) as char);
        s
    } else {
        let mut s = decimal(n / 10);
        s.push((48 + (n % 10) as u8) as char);
        s
    }
}

/// The text held by the first `n` bytes of the encoding of `s`, where `n` is a
/// character boundary.
pub open spec fn first_bytes(s: Seq<char>, n: int) -> Option<Seq<char>> {
    if is_char_boundary(encode_utf8(s), n) {
        Some(decode_utf8(encode_utf8(s).subrange(0, n)))
    } else {
        None
    }
}

/// The views of an optional string.
pub open spec fn text_option(s: Option<String>) -> Option<Seq<char>> {
    match s {
        Some(t) => Some(t@),
        None => None,
    }
}

/// The first `n` bytes of a text, or `None` where they do not end between two
/// characters of it.
pub fn byte_prefix(s: &str, n: usize) -> (r: Option<String>)
    ensures
        text_option(r) == first_bytes(s@, n as int),
{
    if s.is_char_boundary(n) {
        let (head, _) = s.split_at(n);
        proof {
            encode_utf8_decode_utf8(head@);
        }
        Some(head.to_owned())
    } else {
        None
    }
}

/// A prefix cut at a character boundary of the encoding is a prefix of the text.
pub proof fn lemma_first_bytes_is_prefix(s: Seq<char>, n: int)
    requires
        first_bytes(s, n) is Some,
    ensures
        first_bytes(s, n)->0.is_prefix_of(s),
        byte_len(first_bytes(s, n)->0) == n,
{
    let b = encode_utf8(s);
    encode_utf8_valid_utf8(s);
    encode_utf8_decode_utf8(s);
    valid_utf8_split(b, n);
    decode_utf8_split(b, n);
    decode_utf8_encode_utf8(b.subrange(0, n));
    lemma_boundary_in_range(b, n);
}

/// Of an ASCII text, any number of bytes are that number of characters.
pub proof fn lemma_ascii_boundary(s: Seq<char>, n: int)
    requires
        is_ascii_chars(s),
        0 <= n <= s.len(),
    ensures
        first_bytes(s, n) == Some(s.take(n)),
{
    let b = encode_utf8(s);
    encode_utf8_valid_utf8(s);
    is_ascii_chars_encode_utf8(s);
    if n < s.len() {
        is_char_boundary_iff_not_is_continuation_byte(b, n);
        let byte = b[n];
        assert(s[n] as u8 == byte);
        assert('\0' <= s[n] <= '\u{7f}');
        assert(byte < 128);
    } else {
        is_char_boundary_start_end_of_seq(b);
    }
    assert(is_ascii_chars(s.take(n)));
    is_ascii_chars_encode_utf8(s.take(n));
    assert(encode_utf8(s.take(n)) =~= b.subrange(0, n)) by {
        assert forall|i: int| 0 <= i < n implies encode_utf8(s.take(n))[i] == b[i] by {
            assert(s.take(n)[i] == s[i]);
        }
    }
    encode_utf8_decode_utf8(s.take(n));
}

proof fn lemma_boundary_in_range(b: Seq<u8>, n: int)
    requires
        valid_utf8(b),
        is_char_boundary(b, n),
    ensures
        0 <= n <= b.len(),
{
}

/// The views of a sequence of strings.
pub open spec fn texts(v: Seq<String>) -> Seq<Seq<char>> {
    v.map_values(|s: String| s@)
}

/// The place of the first `c` in `s`, or the length of `s` where there is none.
pub open spec fn first_index(s: Seq<char>, c: char) -> int
    decreases s.len(),
{
    if s.len() == 0 || s.first() == c {
        0
    } else {
        1 + first_index(s.drop_first(), c)
    }
}

/// What [`first_index`] gives: a `c` with none before it, or the length.
pub proof fn lemma_first_index(s: Seq<char>, c: char)
    ensures
        0 <= first_index(s, c) <= s.len(),
        first_index(s, c) < s.len() ==> s[first_index(s, c)] == c,
        forall|i: int| 0 <= i < first_index(s, c) ==> s[i] != c,
    decreases s.len(),
{
    if s.len() > 0 && s.first() != c {
        let rest = s.drop_first();
        lemma_first_index(rest, c);
        assert forall|i: int| 0 <= i < first_index(s, c) implies s[i] != c by {
            if i > 0 {
                assert(s[i] == rest[i - 1]);
            }
        }
    }
}

/// A text cut at the first `n - 1` places where `sep` stands.
pub open spec fn split(s: Seq<char>, sep: char, n: nat) -> Seq<Seq<char>>
    decreases n,
{
    let i = first_index(s, sep);
    if n <= 1 || i == s.len() {
        seq![s]
    } else {
        seq![s.take(i)] + split(s.skip(i + 1), sep, (n - 1) as nat)
    }
}

/// A text that starts with a part without `sep`, then `sep`, is cut there.
pub proof fn lemma_split_cuts(a: Seq<char>, sep: char, rest: Seq<char>, n: nat)
    requires
        n >= 2,
        !a.contains(sep),
    ensures
        split(a.push(sep) + rest, sep, n) == seq![a] + split(rest, sep, (n - 1) as nat),
{
    let s = a.push(sep) + rest;
    let i = first_index(s, sep);
    lemma_first_index(s, sep);
    assert(s[a.len() as int] == sep);
    if i < a.len() {
        assert(s[i] == a[i]);
        assert(a.contains(a[i]));
    }
    assert(i == a.len());
    assert(s.take(i) =~= a);
    assert(s.skip(i + 1) =~= rest);
}

/// Where the first `sep` at or after `from` stands.
fn find_from(v: &Vec<char>, from: usize, sep: char) -> (r: usize)
    requires
        from <= v@.len(),
    ensures
        r == from + first_index(v@.skip(from as int), sep),
        from <= r <= v@.len(),
{
    let mut i: usize = from;
    while i < v.len() && v[i] != sep
        invariant
            from <= i <= v@.len(),
            from + first_index(v@.skip(from as int), sep) == i + first_index(v@.skip(i as int), sep),
        decreases v@.len() - i,
    {
        assert(v@.skip(i as int).drop_first() == v@.skip(i + 1));
        i += 1;
    }
    i
}

/// Cuts a text at the first `n - 1` places where `sep` stands.
pub fn split_limited(s: &str, sep: char, n: usize) -> (r: Vec<String>)
    requires
        n >= 1,
    ensures
        texts(r@) == split(s@, sep, n as nat),
{
    let v = chars_of(s);
    let mut out: Vec<String> = Vec::new();
    let mut from: usize = 0;
    let mut left: usize = n;
    assert(v@.skip(0) == v@);
    assert(texts(out@) + split(v@.skip(0), sep, n as nat) == split(s@, sep, n as nat));
    while left > 1
        invariant
            v@ == s@,
            from <= v@.len(),
            1 <= left <= n,
            texts(out@) + split(v@.skip(from as int), sep, left as nat) == split(
                s@,
                sep,
                n as nat,
            ),
        decreases left,
    {
        let ghost rest = v@.skip(from as int);
        let at = find_from(&v, from, sep);
        if at == v.len() {
            proof {
                assert(split(rest, sep, left as nat) == split(rest, sep, 1));
            }
            left = 1;
        } else {
            let piece = string_of(&v, from, at);
            let ghost before = texts(out@);
            proof {
                let i = first_index(rest, sep);
                lemma_first_index(rest, sep);
                assert(rest.take(i) == v@.subrange(from as int, at as int));
                assert(rest.skip(i + 1) == v@.skip(at + 1));
            }
            out.push(piece);
            assert(texts(out@) == before.push(piece@));
            assert(texts(out@) + split(v@.skip(at + 1), sep, (left - 1) as nat) == before
                + split(rest, sep, left as nat));
            from = at + 1;
            left -= 1;
        }
    }
    let last = string_of(&v, from, v.len());
    let ghost before = texts(out@);
    assert(last@ == v@.skip(from as int));
    out.push(last);
    assert(texts(out@) == before.push(last@));
    assert(before + seq![last@] == before.push(last@));
    out
}

/// The text after `prefix`, where `s` starts with it.
pub open spec fn after_prefix(s: Seq<char>, prefix: Seq<char>) -> Option<Seq<char>> {
    if prefix.is_prefix_of(s) {
        Some(s.skip(prefix.len() as int))
    } else {
        None
    }
}

/// Removes `prefix` from the start of a text.
pub fn strip_prefix(s: &str, prefix: &str) -> (r: Option<String>)
    ensures
        text_option(r) == after_prefix(s@, prefix@),
{
    let v = chars_of(s);
    let p = chars_of(prefix);
    if v.len() < p.len() {
        return None;
    }
    let mut i: usize = 0;
    while i < p.len()
        invariant
            v@ == s@,
            p@ == prefix@,
            i <= p@.len() <= v@.len(),
            forall|j: int| 0 <= j < i ==> p@[j] == v@[j],
        decreases p@.len() - i,
    {
        if v[i] != p[i] {
            assert(s@.subrange(0, p@.len() as int)[i as int] != prefix@[i as int]);
            return None;
        }
        i += 1;
    }
    assert(prefix@ =~= s@.subrange(0, prefix@.len() as int));
    assert(s@.skip(prefix@.len() as int) == v@.subrange(p@.len() as int, v@.len() as int));
    Some(string_of(&v, p.len(), v.len()))
}

/// Whether `needle` stands somewhere in `s`.
pub open spec fn holds(s: Seq<char>, needle: Seq<char>) -> bool {
    exists|i: int|
        0 <= i <= s.len() - needle.len() && #[trigger] s.subrange(i, i + needle.len()) == needle
}

/// Whether `needle` stands somewhere in `s`.
pub fn contains(s: &str, needle: &str) -> (r: bool)
    ensures
        r == holds(s@, needle@),
{
    let v = chars_of(s);
    let p = chars_of(needle);
    if v.len() < p.len() {
        return false;
    }
    let size: usize = v.len();
    let last: usize = size - p.len();
    let mut i: usize = 0;
    while i <= last
        invariant
            v@ == s@,
            p@ == needle@,
            size == v@.len(),
            last == v@.len() - p@.len(),
            i <= last + 1,
            forall|k: int|
                0 <= k < i ==> #[trigger] s@.subrange(k, k + needle@.len()) != needle@,
        decreases last + 1 - i,
    {
        let mut j: usize = 0;
        while j < p.len() && v[i + j] == p[j]
            invariant
                v@ == s@,
                p@ == needle@,
                size == v@.len(),
                last == v@.len() - p@.len(),
                i <= last,
                j <= p@.len(),
                forall|k: int| 0 <= k < j ==> v@[i + k] == p@[k],
            decreases p@.len() - j,
        {
            j += 1;
        }
        if j == p.len() {
            assert(s@.subrange(i as int, i + needle@.len()) =~= needle@);
            return true;
        }
        assert(s@.subrange(i as int, i + needle@.len())[j as int] != needle@[j as int]);
        if i == last {
            return false;
        }
        i += 1;
    }
    false
}

/// `n` times the same character.
pub open spec fn repeated(c: char, n: int) -> Seq<char> {
    Seq::new(
        if n > 0 {
            n as nat
        } else {
            0
        },
        |i: int| c,
    )
}

/// A text filled up at its end to `width` characters.
pub open spec fn padded(s: Seq<char>, width: int, fill: char) -> Seq<char> {
    s + repeated(fill, width - s.len())
}

/// Fills a text up at its end to `width` characters.
pub fn pad(s: &str, width: usize, fill: char) -> (r: String)
    ensures
        r@ == padded(s@, width as int, fill),
{
    let v = chars_of(s);
    let mut out = s.to_owned();
    let mut n: usize = v.len();
    while n < width
        invariant
            v@ == s@,
            v@.len() <= n,
            n <= width || n == v@.len(),
            out@ == s@ + repeated(fill, n - s@.len()),
        decreases width - n,
    {
        out.push(fill);
        n += 1;
        assert(out@ =~= s@ + repeated(fill, n - s@.len()));
    }
    assert(out@ =~= padded(s@, width as int, fill));
    out
}

/// Texts put together with `sep` between each two.
pub open spec fn joined(parts: Seq<Seq<char>>, sep: Seq<char>) -> Seq<char>
    decreases parts.len(),
{
    if parts.len() == 0 {
        Seq::empty()
    } else if parts.len() == 1 {
        parts.last()
    } else {
        joined(parts.drop_last(), sep) + sep + parts.last()
    }
}

/// Puts texts together with `sep` between each two.
pub fn join(parts: &Vec<String>, sep: &str) -> (r: String)
    ensures
        r@ == joined(texts(parts@), sep@),
{
    let mut out = String::new();
    let mut i: usize = 0;
    while i < parts.len()
        invariant
            i <= parts@.len(),
            out@ == joined(texts(parts@).take(i as int), sep@),
        decreases parts@.len() - i,
    {
        let ghost done = texts(parts@).take(i as int);
        let ghost next = texts(parts@).take(i + 1);
        assert(next.drop_last() == done);
        assert(next.last() == parts@[i as int]@);
        if i > 0 {
            out.append(sep);
        }
        out.append(parts[i].as_str());
        i += 1;
        assert(out@ =~= joined(next, sep@));
    }
    assert(texts(parts@).take(parts@.len() as int) == texts(parts@));
    out
}

/// The larger of two numbers.
pub open spec fn max(a: int, b: int) -> int {
    if a < b {
        b
    } else {
        a
    }
}

/// Three texts in a row.
pub fn concat3(a: &str, b: &str, c: &str) -> (r: String)
    ensures
        r@ == a@ + b@ + c@,
{
    let mut out = a.to_owned();
    out.append(b);
    out.append(c);
    out
}

/// A text that has no white space at either end stays as it is.
pub proof fn lemma_trimmed_ends(s: Seq<char>)
    requires
        s.len() > 0,
        !white(s.first()),
        !white(s.last()),
    ensures
        trimmed(s) == s,
{
}

// ---------------------------------------------------------------------------
// Laws
// ---------------------------------------------------------------------------

proof fn lemma_trimmed_start(s: Seq<char>) -> (k: int)
    ensures
        0 <= k <= s.len(),
        trimmed_start(s) == s.skip(k),
        forall|i: int| 0 <= i < k ==> white(#[trigger] s[i]),
        k < s.len() ==> !white(s[k]),
    decreases s.len(),
{
    if s.len() > 0 && white(s.first()) {
        let rest = s.drop_first();
        let k = lemma_trimmed_start(rest);
        assert(rest.skip(k) =~= s.skip(k + 1));
        assert forall|i: int| 0 <= i < k + 1 implies white(#[trigger] s[i]) by {
            if i > 0 {
                assert(rest[i - 1] == s[i]);
            }
        }
        if k < rest.len() {
            assert(rest[k] == s[k + 1]);
        }
        k + 1
    } else {
        assert(s.skip(0) =~= s);
        0
    }
}

proof fn lemma_trimmed_end(s: Seq<char>) -> (m: int)
    ensures
        0 <= m <= s.len(),
        trimmed_end(s) == s.take(m),
        forall|i: int| m <= i < s.len() ==> white(#[trigger] s[i]),
        m > 0 ==> !white(s[m - 1]),
    decreases s.len(),
{
    if s.len() > 0 && white(s.last()) {
        let rest = s.drop_last();
        let m = lemma_trimmed_end(rest);
        assert(rest.take(m) =~= s.take(m));
        assert forall|i: int| m <= i < s.len() implies white(#[trigger] s[i]) by {
            if i < rest.len() {
                assert(rest[i] == s[i]);
            }
        }
        if m > 0 {
            assert(rest[m - 1] == s[m - 1]);
        }
        m
    } else {
        assert(s.take(s.len() as int) =~= s);
        s.len() as int
    }
}

/// Trimming takes white space off both ends, all of it, and nothing else.
pub proof fn law_trimming_takes_the_white_ends(s: Seq<char>) -> (cut: (int, int))
    ensures
        0 <= cut.0 <= cut.1 <= s.len(),
        trimmed(s) == s.subrange(cut.0, cut.1),
        forall|i: int| 0 <= i < cut.0 ==> white(#[trigger] s[i]),
        forall|i: int| cut.1 <= i < s.len() ==> white(#[trigger] s[i]),
        trimmed(s).len() > 0 ==> !white(trimmed(s).first()) && !white(trimmed(s).last()),
{
    let k = lemma_trimmed_start(s);
    let t = s.skip(k);
    let m = lemma_trimmed_end(t);
    assert(t.take(m) =~= s.subrange(k, k + m));
    assert forall|i: int| k + m <= i < s.len() implies white(#[trigger] s[i]) by {
        assert(t[i - k] == s[i]);
    }
    if m > 0 {
        assert(t.take(m).last() == t[m - 1]);
        assert(t.take(m).first() == s[k]);
    }
    (k, k + m)
}

/// White space around a text that has none at its own ends is what trimming
/// takes off.
pub proof fn law_trimming_gives_back_the_core(a: Seq<char>, core: Seq<char>, b: Seq<char>)
    requires
        forall|i: int| 0 <= i < a.len() ==> white(#[trigger] a[i]),
        forall|i: int| 0 <= i < b.len() ==> white(#[trigger] b[i]),
        core.len() > 0 ==> !white(core.first()) && !white(core.last()),
    ensures
        trimmed(a + core + b) == core,
{
    let s = a + core + b;
    let (x, y) = law_trimming_takes_the_white_ends(s);
    if core.len() == 0 {
        assert forall|i: int| 0 <= i < s.len() implies white(#[trigger] s[i]) by {
            if i < a.len() {
                assert(s[i] == a[i]);
            } else {
                assert(s[i] == b[i - a.len()]);
            }
        }
        if x < y {
            assert(trimmed(s).first() == s[x]);
        }
        assert(trimmed(s) =~= core);
    } else {
        let n = a.len() as int;
        let m = n + core.len();
        assert(s[n] == core.first());
        assert(s[m - 1] == core.last());
        assert(x <= n);
        assert(m <= y);
        if x < n {
            assert(s[x] == a[x]);
            assert(trimmed(s).first() == s[x]);
        }
        if m < y {
            assert(s[y - 1] == b[y - 1 - m]);
            assert(trimmed(s).last() == s[y - 1]);
        }
        assert(s.subrange(n, m) =~= core);
    }
}

/// Joining goes from the front as well as from the back: the first part, the
/// separator, and the rest joined.
pub proof fn law_joining_starts_with_the_first_part(
    first: Seq<char>,
    rest: Seq<Seq<char>>,
    sep: Seq<char>,
)
    ensures
        joined(Seq::<Seq<char>>::empty(), sep) == Seq::<char>::empty(),
        joined(seq![first], sep) == first,
        rest.len() > 0 ==> joined(seq![first] + rest, sep) == first + sep + joined(rest, sep),
    decreases rest.len(),
{
    if rest.len() > 0 {
        let all = seq![first] + rest;
        assert(all.last() == rest.last());
        assert(all.drop_last() =~= seq![first] + rest.drop_last());
        if rest.len() == 1 {
            assert(all.drop_last() =~= seq![first]);
            assert(joined(seq![first], sep) == first);
            assert(joined(rest, sep) == rest.last());
            assert(joined(all, sep) =~= first + sep + joined(rest, sep));
        } else {
            law_joining_starts_with_the_first_part(first, rest.drop_last(), sep);
            assert(joined(all, sep) =~= first + sep + joined(rest, sep));
        }
    }
}

/// Every part stands in what the parts are joined to.
pub proof fn law_joining_keeps_every_part(parts: Seq<Seq<char>>, sep: Seq<char>, i: int)
    requires
        0 <= i < parts.len(),
    ensures
        holds(joined(parts, sep), parts[i]),
    decreases parts.len(),
{
    let all = joined(parts, sep);
    let part = parts[i];
    if i == parts.len() - 1 {
        let at = all.len() - part.len();
        assert(all.subrange(at, at + part.len()) =~= part);
    } else {
        let front = parts.drop_last();
        law_joining_keeps_every_part(front, sep, i);
        assert(front[i] == part);
        let before = joined(front, sep);
        let at = choose|at: int|
            0 <= at <= before.len() - part.len() && #[trigger] before.subrange(
                at,
                at + part.len(),
            ) == part;
        assert(all.subrange(at, at + part.len()) =~= before.subrange(at, at + part.len()));
    }
}

/// A text that is split is cut at separators only, at the first ones, and
/// nothing is lost: the parts joined by the separator are the text.
pub proof fn law_splitting_cuts_at_the_first_separators(s: Seq<char>, sep: char, n: nat)
    requires
        n >= 1,
    ensures
        1 <= split(s, sep, n).len() <= n,
        joined(split(s, sep, n), seq![sep]) == s,
        forall|i: int|
            0 <= i < split(s, sep, n).len() - 1 ==> !(#[trigger] split(s, sep, n)[i]).contains(sep),
        split(s, sep, n).len() < n ==> !split(s, sep, n).last().contains(sep),
    decreases n,
{
    let i = first_index(s, sep);
    lemma_first_index(s, sep);
    let parts = split(s, sep, n);
    if n <= 1 || i == s.len() {
        law_joining_starts_with_the_first_part(s, Seq::empty(), seq![sep]);
        if s.contains(sep) {
            let j = choose|j: int| 0 <= j < s.len() && s[j] == sep;
            assert(j >= i);
        }
    } else {
        let head = s.take(i);
        let tail = s.skip(i + 1);
        let rest = split(tail, sep, (n - 1) as nat);
        law_splitting_cuts_at_the_first_separators(tail, sep, (n - 1) as nat);
        law_joining_starts_with_the_first_part(head, rest, seq![sep]);
        assert(head + seq![sep] + tail =~= s);
        if head.contains(sep) {
            let j = choose|j: int| 0 <= j < head.len() && head[j] == sep;
            assert(s[j] == sep);
        }
        assert forall|j: int| 0 <= j < parts.len() - 1 implies !(#[trigger] parts[j]).contains(
            sep,
        ) by {
            if j > 0 {
                assert(parts[j] == rest[j - 1]);
            }
        }
        assert(parts.last() == rest.last());
    }
}

/// The number that a text of decimal digits stands for.
pub open spec fn number_of(s: Seq<char>) -> nat
    decreases s.len(),
{
    if s.len() == 0 {
        0
    } else {
        (10 * number_of(s.drop_last()) + (s.last() as int - '0' as int)) as nat
    }
}

/// A number in decimal is read back as that number, and starts with a zero only
/// if it is zero.
pub proof fn law_numbers_are_read_back(n: nat)
    ensures
        number_of(digits(n)) == n,
        digits(n).len() >= 1,
        forall|i: int| 0 <= i < digits(n).len() ==> '0' <= #[trigger] digits(n)[i] <= '9',
        digits(n)[0] == '0' <==> n == 0,
    decreases n,
{
    let d = digits(n);
    if n >= 10 {
        law_numbers_are_read_back(n / 10);
        let head = digits(n / 10);
        assert(d.drop_last() =~= head);
        assert(d.last() as int == 48 + n % 10);
        assert forall|i: int| 0 <= i < d.len() implies '0' <= #[trigger] d[i] <= '9' by {
            if i < head.len() {
                assert(d[i] == head[i]);
            }
        }
        assert(d[0] == head[0]);
    } else {
        assert(d.drop_last() =~= Seq::<char>::empty());
        assert(number_of(d.drop_last()) == 0);
        assert(d.last() as int == 48 + n);
    }
}

/// What follows a prefix is found exactly where the text starts with it.
pub proof fn law_prefixes_are_taken_off(s: Seq<char>, prefix: Seq<char>, rest: Seq<char>)
    ensures
        after_prefix(s, prefix) == Some(rest) <==> s == prefix + rest,
        after_prefix(s, prefix) is None <==> !(s.len() >= prefix.len() && s.take(
            prefix.len() as int,
        ) == prefix),
{
    if s.len() >= prefix.len() {
        assert(s.subrange(0, prefix.len() as int) =~= s.take(prefix.len() as int));
        assert(s =~= s.take(prefix.len() as int) + s.skip(prefix.len() as int));
    }
    if s == prefix + rest {
        assert(s.take(prefix.len() as int) =~= prefix);
        assert(s.skip(prefix.len() as int) =~= rest);
    }
}

/// A text holds another exactly where it is that text with something, or
/// nothing, on either side.
pub proof fn law_what_a_text_holds(a: Seq<char>, needle: Seq<char>, b: Seq<char>)
    ensures
        holds(a + needle + b, needle),
{
    let s = a + needle + b;
    let at = a.len() as int;
    assert(s.subrange(at, at + needle.len()) =~= needle);
}

/// What a text holds can be cut out of it.
pub proof fn law_what_is_held_can_be_cut_out(s: Seq<char>, needle: Seq<char>) -> (cut: (
    Seq<char>,
    Seq<char>,
))
    requires
        holds(s, needle),
    ensures
        s == cut.0 + needle + cut.1,
{
    let i = choose|i: int|
        0 <= i <= s.len() - needle.len() && #[trigger] s.subrange(i, i + needle.len()) == needle;
    let a = s.take(i);
    let b = s.skip(i + needle.len());
    assert(s =~= a + needle + b);
    (a, b)
}

/// A filled-up text starts with the text, has the width, or its own length if
/// that is larger, and is filled with the one character.
pub proof fn law_padding_fills_up_to_the_width(s: Seq<char>, width: int, fill: char)
    ensures
        padded(s, width, fill).take(s.len() as int) == s,
        padded(s, width, fill).len() == if width > s.len() {
            width
        } else {
            s.len() as int
        },
        forall|i: int|
            s.len() <= i < padded(s, width, fill).len() ==> #[trigger] padded(s, width, fill)[i]
                == fill,
{
    assert(padded(s, width, fill).take(s.len() as int) =~= s);
}

proof fn lemma_encoding_in_parts(a: Seq<char>, b: Seq<char>)
    ensures
        encode_utf8(a + b) == encode_utf8(a) + encode_utf8(b),
    decreases a.len(),
{
    if a.len() == 0 {
        assert(a + b =~= b);
        assert(encode_utf8(a) =~= Seq::<u8>::empty());
    } else {
        lemma_encoding_in_parts(a.drop_first(), b);
        assert((a + b).drop_first() =~= a.drop_first() + b);
        assert((a + b)[0] == a[0]);
        assert(encode_utf8(a + b) =~= encode_utf8(a) + encode_utf8(b));
    }
}

proof fn lemma_boundary_between(a: Seq<u8>, b: Seq<u8>)
    requires
        valid_utf8(a),
        valid_utf8(b),
    ensures
        valid_utf8(a + b),
        is_char_boundary(a + b, a.len() as int),
{
    valid_utf8_concat(a, b);
    let s = a + b;
    if b.len() == 0 {
        is_char_boundary_start_end_of_seq(s);
    } else {
        is_char_boundary_start_end_of_seq(b);
        is_char_boundary_iff_not_is_continuation_byte(b, 0);
        assert(s[a.len() as int] == b[0]);
        is_char_boundary_iff_not_is_continuation_byte(s, a.len() as int);
    }
}

/// The bytes of the beginning of a text are cut off as that beginning.
pub proof fn law_bytes_of_a_beginning_are_that_beginning(a: Seq<char>, b: Seq<char>)
    ensures
        byte_len(a + b) == byte_len(a) + byte_len(b),
        first_bytes(a + b, byte_len(a) as int) == Some(a),
{
    lemma_encoding_in_parts(a, b);
    encode_utf8_valid_utf8(a);
    encode_utf8_valid_utf8(b);
    lemma_boundary_between(encode_utf8(a), encode_utf8(b));
    assert((encode_utf8(a) + encode_utf8(b)).subrange(0, byte_len(a) as int) =~= encode_utf8(a));
    encode_utf8_decode_utf8(a);
}

/// Whether `s` starts with `head`.
pub open spec fn begins(s: Seq<char>, head: Seq<char>) -> bool {
    s.len() >= head.len() && s.take(head.len() as int) == head
}

/// A text starts with another exactly where something, or nothing, follows it.
pub proof fn law_how_a_text_begins(head: Seq<char>, rest: Seq<char>, s: Seq<char>)
    ensures
        begins(head + rest, head),
        begins(s, head) ==> s == head + s.skip(head.len() as int),
{
    assert((head + rest).take(head.len() as int) =~= head);
    if begins(s, head) {
        assert(s =~= head + s.skip(head.len() as int));
    }
}

/// Among the characters of ASCII, white space is the tab, the line feed, the
/// vertical tab, the form feed, the carriage return and the blank; beyond them
/// it is the next line, the two blanks that do not break, the mark of Ogham, the
/// blanks of a fixed width, the separators of lines and paragraphs, the blank of
/// mathematics and that of ideographs.
pub proof fn law_which_characters_are_white(c: char)
    ensures
        (c as int) < 128 ==> (white(c) <==> c == '\t' || c == '\n' || c as int == 11 || c as int
            == 12 || c == '\r' || c == ' '),
        128 <= c as int <= 0x1fff ==> (white(c) <==> c as int == 0x85 || c as int == 0xa0 || c as int
            == 0x1680),
        0x2000 <= c as int <= 0x2fff ==> (white(c) <==> (c as int) < 0x200b || c as int == 0x2028
            || c as int == 0x2029 || c as int == 0x202f || c as int == 0x205f),
        0x3000 <= c as int ==> (white(c) <==> c as int == 0x3000),
{
}

/// The texts of strings are theirs, one for each, in order.
pub proof fn law_texts_are_those_of_the_strings(v: Seq<String>, s: String, i: int)
    ensures
        texts(v).len() == v.len(),
        0 <= i < v.len() ==> texts(v)[i] == v[i]@,
        text_option(Some(s)) == Some(s@),
        text_option(None) is None,
{
}

} // verus!
