//! Text as sequences of characters, and the few operations the client needs on it.

use vstd::prelude::*;
use vstd::utf8::{
    decode_utf8, decode_utf8_encode_utf8, decode_utf8_split, encode_utf8, encode_utf8_decode_utf8,
    encode_utf8_valid_utf8, is_char_boundary, valid_utf8_split,
};

verus! {

/// The views of the elements of a sequence.
pub open spec fn views<T: View>(s: Seq<T>) -> Seq<T::V> {
    Seq::new(s.len(), |i: int| s[i]@)
}

/// Appends one character to a `String`: `std::string::String::push` leaves the
/// old text followed by that character.
pub assume_specification[ String::push ](s: &mut String, c: char)
    ensures
        final(s)@ == old(s)@.push(c),
;

/// The characters of a text.
pub fn chars_of(s: &str) -> (r: Vec<char>)
    ensures
        r@ == s@,
{
    let mut out: Vec<char> = Vec::new();
    for c in it: s.chars()
        invariant
            out@ == s@.take(it.index()),
            it.seq() == s@,
    {
        out.push(c);
    }
    proof {
        assert(s@.take(s@.len() as int) =~= s@);
    }
    out
}

/// The text made of the characters `v[from..to]`.
pub fn text_of(v: &Vec<char>, from: usize, to: usize) -> (r: String)
    requires
        from <= to <= v@.len(),
    ensures
        r@ == v@.subrange(from as int, to as int),
{
    let mut out = String::new();
    let mut i: usize = from;
    while i < to
        invariant
            from <= i <= to <= v@.len(),
            out@ == v@.subrange(from as int, i as int),
        decreases to - i,
    {
        out.push(v[i]);
        i = i + 1;
        assert(v@.subrange(from as int, i as int) =~= v@.subrange(from as int, i - 1).push(v@[i - 1]));
    }
    out
}

/// Whether two texts are the same.
pub fn same(a: &str, b: &str) -> (r: bool)
    ensures
        r == (a@ == b@),
{
    let x = chars_of(a);
    let y = chars_of(b);
    if x.len() != y.len() {
        return false;
    }
    let mut i: usize = 0;
    while i < x.len()
        invariant
            i <= x@.len(),
            x@.len() == y@.len(),
            x@ == a@,
            y@ == b@,
            forall|k: int| 0 <= k < i ==> x@[k] == y@[k],
        decreases x@.len() - i,
    {
        if x[i] != y[i] {
            return false;
        }
        i = i + 1;
    }
    assert(x@ =~= y@);
    true
}

/// Whether `p` stands in `s` at position `i`.
pub open spec fn occurs_at(s: Seq<char>, p: Seq<char>, i: int) -> bool {
    0 <= i && i + p.len() <= s.len() && s.subrange(i, i + p.len()) == p
}

/// Whether `p` stands somewhere in `s`.
pub open spec fn contains_text(s: Seq<char>, p: Seq<char>) -> bool {
    exists|i: int| occurs_at(s, p, i)
}

/// Whether `s` begins with `p`.
pub open spec fn begins_with(s: Seq<char>, p: Seq<char>) -> bool {
    occurs_at(s, p, 0)
}

fn stands_at(s: &Vec<char>, p: &Vec<char>, i: usize) -> (r: bool)
    ensures
        r == occurs_at(s@, p@, i as int),
{
    if p.len() > s.len() || i > s.len() - p.len() {
        return false;
    }
    let mut k: usize = 0;
    while k < p.len()
        invariant
            k <= p@.len(),
            i + p.len() <= s.len(),
            forall|j: int| 0 <= j < k ==> s@[i + j] == p@[j],
        decreases p@.len() - k,
    {
        if s[i + k] != p[k] {
            assert(s@.subrange(i as int, i + p@.len())[k as int] != p@[k as int]);
            return false;
        }
        k = k + 1;
    }
    assert(s@.subrange(i as int, i + p@.len()) =~= p@);
    true
}

/// Whether the text `p` stands somewhere in `s`.
pub fn contains(s: &str, p: &str) -> (r: bool)
    ensures
        r == contains_text(s@, p@),
{
    let x = chars_of(s);
    let y = chars_of(p);
    let mut i: usize = 0;
    while i < x.len()
        invariant
            i <= x@.len(),
            x@ == s@,
            y@ == p@,
            forall|j: int| 0 <= j < i ==> !occurs_at(x@, y@, j),
        decreases x@.len() - i,
    {
        if stands_at(&x, &y, i) {
            return true;
        }
        i = i + 1;
    }
    stands_at(&x, &y, i)
}

/// Whether `s` begins with the text `p`.
pub fn starts_with(s: &str, p: &str) -> (r: bool)
    ensures
        r == begins_with(s@, p@),
{
    let x = chars_of(s);
    let y = chars_of(p);
    stands_at(&x, &y, 0)
}

/// The position of the first `c` in `s`, or the length of `s` if there is none.
pub open spec fn find_char(s: Seq<char>, c: char) -> int
    decreases s.len(),
{
    if s.len() == 0 || s[0] == c {
        0
    } else {
        1 + find_char(s.drop_first(), c)
    }
}

/// The first position of a character is the one that no earlier occurrence precedes.
pub proof fn find_char_is(s: Seq<char>, c: char, i: int)
    requires
        0 <= i <= s.len(),
        forall|k: int| 0 <= k < i ==> s[k] != c,
        i < s.len() ==> s[i] == c,
    ensures
        find_char(s, c) == i,
    decreases s.len(),
{
    if s.len() > 0 && s[0] != c {
        let t = s.drop_first();
        assert forall|k: int| 0 <= k < i - 1 implies t[k] != c by {
            assert(t[k] == s[k + 1]);
        }
        find_char_is(t, c, i - 1);
    }
}

/// What the first position of a character says of the text.
pub proof fn find_char_bounds(s: Seq<char>, c: char)
    ensures
        0 <= find_char(s, c) <= s.len(),
        forall|k: int| 0 <= k < find_char(s, c) ==> s[k] != c,
        find_char(s, c) < s.len() ==> s[find_char(s, c)] == c,
    decreases s.len(),
{
    if s.len() > 0 && s[0] != c {
        let t = s.drop_first();
        find_char_bounds(t, c);
        assert forall|k: int| 0 <= k < find_char(s, c) implies s[k] != c by {
            if k > 0 {
                assert(t[k - 1] == s[k]);
            }
        }
    }
}

/// The position of the first `c` at or after `from`.
pub fn position_from(v: &Vec<char>, c: char, from: usize) -> (r: usize)
    requires
        from <= v@.len(),
    ensures
        from <= r <= v@.len(),
        r == from + find_char(v@.skip(from as int), c),
{
    let mut i: usize = from;
    while i < v.len() && v[i] != c
        invariant
            from <= i <= v@.len(),
            forall|k: int| from <= k < i ==> v@[k] != c,
        decreases v@.len() - i,
    {
        i = i + 1;
    }
    proof {
        find_char_is(v@.skip(from as int), c, i - from);
    }
    i
}

/// The part of `s` before the first `c`; all of `s` if there is none.
pub open spec fn before(s: Seq<char>, c: char) -> Seq<char> {
    s.take(find_char(s, c))
}

/// Whether `c` stands in `s`.
pub open spec fn has_char(s: Seq<char>, c: char) -> bool {
    find_char(s, c) < s.len()
}

/// The part of a text before the first `c`.
pub fn text_before(s: &str, c: char) -> (r: String)
    ensures
        r@ == before(s@, c),
{
    let v = chars_of(s);
    let i: usize = position_from(&v, c, 0);
    proof {
        assert(v@.skip(0) =~= v@);
        assert(v@.subrange(0, i as int) =~= s@.take(i as int));
    }
    text_of(&v, 0, i)
}

/// The pieces of `s` between the occurrences of `c`.
pub open spec fn pieces(s: Seq<char>, c: char) -> Seq<Seq<char>>
    decreases s.len(),
{
    let i = find_char(s, c);
    if 0 <= i < s.len() {
        seq![s.take(i)] + pieces(s.skip(i + 1), c)
    } else {
        seq![s]
    }
}

/// A line without the carriage return that may end it.
pub open spec fn without_return(s: Seq<char>) -> Seq<char> {
    if s.len() > 0 && s.last() == '\r' {
        s.drop_last()
    } else {
        s
    }
}

/// The lines of `s`. A line ends at a line feed, and a carriage return just before
/// the line feed is not part of it; text after the last line feed is a line too.
pub open spec fn lines(s: Seq<char>) -> Seq<Seq<char>>
    decreases s.len(),
{
    let i = find_char(s, '\n');
    if s.len() == 0 {
        seq![]
    } else if 0 <= i < s.len() {
        seq![without_return(s.take(i))] + lines(s.skip(i + 1))
    } else {
        seq![s]
    }
}

/// Splits a text at each `c`.
pub fn split(s: &str, c: char) -> (r: Vec<String>)
    ensures
        views(r@) == pieces(s@, c),
{
    let v = chars_of(s);
    let mut out: Vec<String> = Vec::new();
    let mut from: usize = 0;
    let mut i: usize = position_from(&v, c, 0);
    assert(v@.skip(0) =~= v@);
    while i < v.len()
        invariant
            v@ == s@,
            from <= i <= v@.len(),
            i == from + find_char(v@.skip(from as int), c),
            pieces(s@, c) == views(out@) + pieces(v@.skip(from as int), c),
        decreases v@.len() - from,
    {
        let ghost rest = v@.skip(from as int);
        let ghost old_out = out@;
        let piece = text_of(&v, from, i);
        out.push(piece);
        proof {
            assert(v@.subrange(from as int, i as int) =~= rest.take(i - from));
            assert(rest.skip(i - from + 1) =~= v@.skip(i + 1));
            assert(views(out@) =~= views(old_out).push(rest.take(i - from)));
            assert(views(out@) + pieces(v@.skip(i + 1), c) =~= views(old_out) + (seq![
                rest.take(i - from),
            ] + pieces(v@.skip(i + 1), c)));
        }
        from = i + 1;
        i = position_from(&v, c, from);
    }
    let ghost old_out = out@;
    let piece = text_of(&v, from, i);
    out.push(piece);
    proof {
        assert(v@.subrange(from as int, i as int) =~= v@.skip(from as int));
        assert(views(out@) =~= views(old_out) + seq![v@.skip(from as int)]);
    }
    out
}

/// Splits a text into its lines.
pub fn split_lines(s: &str) -> (r: Vec<String>)
    ensures
        views(r@) == lines(s@),
{
    let v = chars_of(s);
    let mut out: Vec<String> = Vec::new();
    let mut from: usize = 0;
    assert(v@.skip(0) =~= v@);
    assert(views(out@) + lines(v@) =~= lines(v@));
    while from < v.len()
        invariant
            v@ == s@,
            from <= v@.len(),
            lines(s@) == views(out@) + lines(v@.skip(from as int)),
        decreases v@.len() - from,
    {
        let ghost rest = v@.skip(from as int);
        let ghost old_out = out@;
        let i: usize = position_from(&v, '\n', from);
        if i < v.len() {
            let end: usize = if i > from && v[i - 1] == '\r' {
                i - 1
            } else {
                i
            };
            let line = text_of(&v, from, end);
            out.push(line);
            proof {
                assert(v@.subrange(from as int, end as int) =~= without_return(rest.take(i - from)));
                assert(rest.skip(i - from + 1) =~= v@.skip(i + 1));
                assert(views(out@) =~= views(old_out).push(without_return(rest.take(i - from))));
                assert(views(out@) + lines(v@.skip(i + 1)) =~= views(old_out) + (seq![
                    without_return(rest.take(i - from)),
                ] + lines(v@.skip(i + 1))));
            }
            from = i + 1;
        } else {
            let line = text_of(&v, from, i);
            out.push(line);
            proof {
                assert(v@.subrange(from as int, i as int) =~= rest);
                assert(views(out@) =~= views(old_out).push(rest));
                assert(v@.skip(i as int) =~= Seq::<char>::empty());
                assert(lines(v@.skip(i as int)) =~= Seq::<Seq<char>>::empty());
                assert(views(out@) + lines(v@.skip(i as int)) =~= views(old_out) + seq![rest]);
            }
            from = i;
        }
    }
    proof {
        assert(v@.skip(from as int) =~= Seq::<char>::empty());
        assert(views(out@) + lines(v@.skip(from as int)) =~= views(out@));
    }
    out
}

/// The characters with the Unicode property White_Space.
pub open spec fn is_white(c: char) -> bool {
    let n = c as int;
    ||| 0x9 <= n <= 0xd
    ||| n == 0x20
    ||| n == 0x85
    ||| n == 0xa0
    ||| n == 0x1680
    ||| 0x2000 <= n <= 0x200a
    ||| n == 0x2028
    ||| n == 0x2029
    ||| n == 0x202f
    ||| n == 0x205f
    ||| n == 0x3000
}

/// Whether a character is white space.
pub fn white(c: char) -> (r: bool)
    ensures
        r == is_white(c),
{
    let n: u32 = c as u32;
    (0x9 <= n && n <= 0xd) || n == 0x20 || n == 0x85 || n == 0xa0 || n == 0x1680 || (0x2000 <= n
        && n <= 0x200a) || n == 0x2028 || n == 0x2029 || n == 0x202f || n == 0x205f || n == 0x3000
}

/// `s` without the characters at its start that satisfy `p`.
pub open spec fn drop_front(s: Seq<char>, p: spec_fn(char) -> bool) -> Seq<char>
    decreases s.len(),
{
    if s.len() > 0 && p(s[0]) {
        drop_front(s.drop_first(), p)
    } else {
        s
    }
}

/// `s` without the characters at its end that satisfy `p`.
pub open spec fn drop_back(s: Seq<char>, p: spec_fn(char) -> bool) -> Seq<char>
    decreases s.len(),
{
    if s.len() > 0 && p(s.last()) {
        drop_back(s.drop_last(), p)
    } else {
        s
    }
}

proof fn drop_front_is(s: Seq<char>, p: spec_fn(char) -> bool, i: int)
    requires
        0 <= i <= s.len(),
        forall|k: int| 0 <= k < i ==> p(s[k]),
        i < s.len() ==> !p(s[i]),
    ensures
        drop_front(s, p) == s.skip(i),
    decreases s.len(),
{
    if i > 0 {
        let t = s.drop_first();
        assert forall|k: int| 0 <= k < i - 1 implies p(t[k]) by {
            assert(t[k] == s[k + 1]);
        }
        drop_front_is(t, p, i - 1);
        assert(t.skip(i - 1) =~= s.skip(i));
    } else {
        assert(s.skip(0) =~= s);
    }
}

proof fn drop_back_is(s: Seq<char>, p: spec_fn(char) -> bool, i: int)
    requires
        0 <= i <= s.len(),
        forall|k: int| i <= k < s.len() ==> p(s[k]),
        i > 0 ==> !p(s[i - 1]),
    ensures
        drop_back(s, p) == s.take(i),
    decreases s.len(),
{
    if i < s.len() {
        drop_back_is(s.drop_last(), p, i);
        assert(s.drop_last().take(i) =~= s.take(i));
    } else {
        assert(s.take(i) =~= s);
    }
}

/// White space, as a predicate.
pub open spec fn white_space() -> spec_fn(char) -> bool {
    |c: char| is_white(c)
}

/// `s` without the white space around it.
pub open spec fn trimmed(s: Seq<char>) -> Seq<char> {
    drop_back(drop_front(s, white_space()), white_space())
}

/// Removes the white space around a text.
pub fn trim(s: &str) -> (r: String)
    ensures
        r@ == trimmed(s@),
{
    let v = chars_of(s);
    let mut i: usize = 0;
    while i < v.len() && white(v[i])
        invariant
            i <= v@.len(),
            forall|k: int| 0 <= k < i ==> is_white(v@[k]),
        decreases v@.len() - i,
    {
        i = i + 1;
    }
    let mut j: usize = v.len();
    while j > i && white(v[j - 1])
        invariant
            i <= j <= v@.len(),
            forall|k: int| j <= k < v@.len() ==> is_white(v@[k]),
        decreases j,
    {
        j = j - 1;
    }
    proof {
        let t = v@.skip(i as int);
        drop_front_is(v@, white_space(), i as int);
        assert forall|k: int| j - i <= k < t.len() implies is_white(#[trigger] t[k]) by {
            assert(t[k] == v@[k + i]);
        }
        drop_back_is(t, white_space(), j - i);
        assert(v@.subrange(i as int, j as int) =~= t.take(j - i));
    }
    text_of(&v, i, j)
}

/// Being the character `c`, as a predicate.
pub open spec fn only(c: char) -> spec_fn(char) -> bool {
    |x: char| x == c
}

/// `s` without the characters `c` around it.
pub open spec fn stripped(s: Seq<char>, c: char) -> Seq<char> {
    drop_back(drop_front(s, only(c)), only(c))
}

/// Removes the characters `c` around a text.
pub fn strip(s: &str, c: char) -> (r: String)
    ensures
        r@ == stripped(s@, c),
{
    let v = chars_of(s);
    let mut i: usize = 0;
    while i < v.len() && v[i] == c
        invariant
            i <= v@.len(),
            forall|k: int| 0 <= k < i ==> v@[k] == c,
        decreases v@.len() - i,
    {
        i = i + 1;
    }
    let mut j: usize = v.len();
    while j > i && v[j - 1] == c
        invariant
            i <= j <= v@.len(),
            forall|k: int| j <= k < v@.len() ==> v@[k] == c,
        decreases j,
    {
        j = j - 1;
    }
    proof {
        let p = only(c);
        let t = v@.skip(i as int);
        drop_front_is(v@, p, i as int);
        assert forall|k: int| j - i <= k < t.len() implies p(#[trigger] t[k]) by {
            assert(t[k] == v@[k + i]);
        }
        drop_back_is(t, p, j - i);
        assert(v@.subrange(i as int, j as int) =~= t.take(j - i));
    }
    text_of(&v, i, j)
}

/// The number of characters of `s` before its first white space.
pub open spec fn word_len(s: Seq<char>) -> int
    decreases s.len(),
{
    if s.len() == 0 || is_white(s[0]) {
        0
    } else {
        1 + word_len(s.drop_first())
    }
}

proof fn word_len_is(s: Seq<char>, i: int)
    requires
        0 <= i <= s.len(),
        forall|k: int| 0 <= k < i ==> !is_white(#[trigger] s[k]),
        i < s.len() ==> is_white(s[i]),
    ensures
        word_len(s) == i,
    decreases s.len(),
{
    if i > 0 {
        let t = s.drop_first();
        assert forall|k: int| 0 <= k < i - 1 implies !is_white(#[trigger] t[k]) by {
            assert(t[k] == s[k + 1]);
        }
        word_len_is(t, i - 1);
    }
}

/// The second of the words of `s`, where words are what stands between white
/// space; nothing if there are fewer than two.
pub open spec fn second_word(s: Seq<char>) -> Seq<char> {
    let a = drop_front(s, white_space());
    let b = drop_front(a.skip(word_len(a)), white_space());
    b.take(word_len(b))
}

fn skip_white(v: &Vec<char>, from: usize) -> (r: usize)
    requires
        from <= v@.len(),
    ensures
        from <= r <= v@.len(),
        v@.skip(r as int) == drop_front(v@.skip(from as int), white_space()),
{
    let mut i: usize = from;
    while i < v.len() && white(v[i])
        invariant
            from <= i <= v@.len(),
            forall|k: int| from <= k < i ==> is_white(v@[k]),
        decreases v@.len() - i,
    {
        i = i + 1;
    }
    proof {
        drop_front_is(v@.skip(from as int), white_space(), i - from);
        assert(v@.skip(from as int).skip(i - from) =~= v@.skip(i as int));
    }
    i
}

fn skip_word(v: &Vec<char>, from: usize) -> (r: usize)
    requires
        from <= v@.len(),
    ensures
        from <= r <= v@.len(),
        r == from + word_len(v@.skip(from as int)),
{
    let mut i: usize = from;
    while i < v.len() && !white(v[i])
        invariant
            from <= i <= v@.len(),
            forall|k: int| from <= k < i ==> !is_white(v@[k]),
        decreases v@.len() - i,
    {
        i = i + 1;
    }
    proof {
        word_len_is(v@.skip(from as int), i - from);
    }
    i
}

/// The second word of a text.
pub fn word_two(s: &str) -> (r: String)
    ensures
        r@ == second_word(s@),
{
    let v = chars_of(s);
    let a: usize = skip_white(&v, 0);
    let b: usize = skip_word(&v, a);
    let c: usize = skip_white(&v, b);
    let d: usize = skip_word(&v, c);
    proof {
        assert(v@.skip(0) =~= v@);
        assert(v@.skip(a as int).skip(b - a) =~= v@.skip(b as int));
        assert(v@.subrange(c as int, d as int) =~= v@.skip(c as int).take(d - c));
    }
    text_of(&v, c, d)
}

/// The decimal digit of a number below ten.
pub open spec fn digit(d: nat) -> char {
    (48 + d) as char
}

/// A number in decimal, without leading zeros.
pub open spec fn decimal(n: nat) -> Seq<char>
    decreases n,
{
    if n < 10 {
        seq![digit(n)]
    } else {
        decimal(n / 10).push(digit(n % 10))
    }
}

/// Writes a number in decimal.
pub fn decimal_text(n: u64) -> (r: String)
    ensures
        r@ == decimal(n as nat),
    decreases n,
{
    let d: u8 = (n % 10) as u8;
    let mut out = if n < 10 {
        String::new()
    } else {
        decimal_text(n / 10)
    };
    out.push((48 + d) as char);
    proof {
        if n < 10 {
            assert(out@ =~= seq![digit(n as nat)]);
        }
    }
    out
}

/// The lower-case hexadecimal digit of a number below sixteen.
pub open spec fn hex_digit(d: int) -> char {
    if d < 10 {
        (48 + d) as char
    } else {
        (87 + d) as char
    }
}

/// Bytes as lower-case hexadecimal, two digits a byte.
pub open spec fn hex(b: Seq<u8>) -> Seq<char> {
    Seq::new(
        2 * b.len(),
        |i: int|
            if i % 2 == 0 {
                hex_digit(b[i / 2] as int / 16)
            } else {
                hex_digit(b[i / 2] as int % 16)
            },
    )
}

fn nibble(d: u8) -> (r: char)
    requires
        d < 16,
    ensures
        r == hex_digit(d as int),
{
    if d < 10 {
        (48 + d) as char
    } else {
        (87 + d) as char
    }
}

/// Writes the first `n` of some bytes in hexadecimal.
pub fn hex_text(b: &[u8], n: usize) -> (r: String)
    requires
        n <= b@.len(),
    ensures
        r@ == hex(b@.take(n as int)),
{
    let mut out = String::new();
    let mut i: usize = 0;
    while i < n
        invariant
            i <= n <= b@.len(),
            out@ == hex(b@.take(i as int)),
        decreases n - i,
    {
        let ghost done = out@;
        out.push(nibble(b[i] / 16));
        out.push(nibble(b[i] % 16));
        i = i + 1;
        proof {
            let old_part = b@.take(i - 1);
            let part = b@.take(i as int);
            assert forall|k: int| 0 <= k < hex(part).len() implies out@[k] == hex(part)[k] by {
                if k < done.len() {
                    assert(part[k / 2] == old_part[k / 2]);
                }
            }
            assert(out@ =~= hex(part));
        }
    }
    out
}

/// The two digits of a byte give it back.
proof fn hex_digit_injective(a: int, b: int)
    requires
        0 <= a < 16,
        0 <= b < 16,
        hex_digit(a) == hex_digit(b),
    ensures
        a == b,
{
}

/// Two byte strings with the same hexadecimal are the same.
pub proof fn hex_injective(a: Seq<u8>, b: Seq<u8>)
    requires
        hex(a) == hex(b),
    ensures
        a == b,
{
    assert(hex(a).len() == 2 * a.len() && hex(b).len() == 2 * b.len());
    assert forall|i: int| 0 <= i < a.len() implies a[i] == b[i] by {
        assert(hex(a)[2 * i] == hex(b)[2 * i]);
        assert(hex(a)[2 * i + 1] == hex(b)[2 * i + 1]);
        assert((2 * i) / 2 == i && (2 * i + 1) / 2 == i);
        assert((2 * i) % 2 == 0 && (2 * i + 1) % 2 == 1);
        assert(hex(a)[2 * i] == hex_digit(a[i] as int / 16));
        assert(hex(b)[2 * i] == hex_digit(b[i] as int / 16));
        assert(hex(a)[2 * i + 1] == hex_digit(a[i] as int % 16));
        assert(hex(b)[2 * i + 1] == hex_digit(b[i] as int % 16));
        hex_digit_injective(a[i] as int / 16, b[i] as int / 16);
        hex_digit_injective(a[i] as int % 16, b[i] as int % 16);
    }
    assert(a =~= b);
}

/// Whether `a` comes before `b` in the order of their characters.
pub open spec fn earlier(a: Seq<char>, b: Seq<char>) -> bool
    decreases a.len(),
{
    b.len() > 0 && (a.len() == 0 || (a[0] as int) < (b[0] as int) || (a[0] == b[0] && earlier(
        a.drop_first(),
        b.drop_first(),
    )))
}

proof fn earlier_at(a: Seq<char>, b: Seq<char>, i: int)
    requires
        0 <= i <= a.len(),
        i <= b.len(),
        forall|k: int| 0 <= k < i ==> a[k] == b[k],
    ensures
        earlier(a, b) == earlier(a.skip(i), b.skip(i)),
    decreases i,
{
    if i > 0 {
        let x = a.drop_first();
        let y = b.drop_first();
        assert forall|k: int| 0 <= k < i - 1 implies x[k] == y[k] by {
            assert(x[k] == a[k + 1] && y[k] == b[k + 1]);
        }
        earlier_at(x, y, i - 1);
        assert(x.skip(i - 1) =~= a.skip(i));
        assert(y.skip(i - 1) =~= b.skip(i));
    } else {
        assert(a.skip(0) =~= a);
        assert(b.skip(0) =~= b);
    }
}

fn code_point(c: char) -> (r: u32)
    ensures
        r == c as int,
{
    c as u32
}

/// Whether one text comes before another.
pub fn comes_before(a: &str, b: &str) -> (r: bool)
    ensures
        r == earlier(a@, b@),
{
    let x = chars_of(a);
    let y = chars_of(b);
    let mut i: usize = 0;
    while i < x.len() && i < y.len() && x[i] == y[i]
        invariant
            i <= x@.len(),
            i <= y@.len(),
            forall|k: int| 0 <= k < i ==> x@[k] == y@[k],
        decreases x@.len() - i,
    {
        i = i + 1;
    }
    proof {
        earlier_at(x@, y@, i as int);
    }
    if i == y.len() {
        false
    } else if i == x.len() {
        true
    } else {
        let p: u32 = code_point(x[i]);
        let q: u32 = code_point(y[i]);
        assert(x@.skip(i as int)[0] == x@[i as int]);
        assert(y@.skip(i as int)[0] == y@[i as int]);
        p < q
    }
}

/// Of two texts one comes first, or they are the same.
pub proof fn earlier_total(a: Seq<char>, b: Seq<char>)
    ensures
        earlier(a, b) || earlier(b, a) || a == b,
        !(earlier(a, b) && earlier(b, a)),
        !earlier(a, a),
    decreases a.len(),
{
    if a.len() > 0 && b.len() > 0 {
        earlier_total(a.drop_first(), b.drop_first());
        if a[0] == b[0] && a.drop_first() == b.drop_first() {
            assert(a =~= seq![a[0]] + a.drop_first());
            assert(b =~= seq![b[0]] + b.drop_first());
        }
    } else if a.len() == 0 && b.len() == 0 {
        assert(a =~= b);
    }
    if a.len() > 0 {
        earlier_total(a.drop_first(), a.drop_first());
    }
}

/// Coming first carries over.
pub proof fn earlier_trans(a: Seq<char>, b: Seq<char>, c: Seq<char>)
    requires
        earlier(a, b),
        earlier(b, c),
    ensures
        earlier(a, c),
    decreases a.len(),
{
    if a.len() > 0 && a[0] == b[0] && b[0] == c[0] {
        earlier_trans(a.drop_first(), b.drop_first(), c.drop_first());
    }
}

/// What `str::to_lowercase` makes of a text.
pub uninterp spec fn lowercase(s: Seq<char>) -> Seq<char>;

/// Calls `str::to_lowercase`, whose result depends on the text alone.
#[verifier::external_body]
pub(crate) fn to_lowercase(s: &str) -> (r: String)
    ensures
        r@ == lowercase(s@),
{
    s.to_lowercase()
}

/// A text with every `from` replaced by `to`.
pub open spec fn swapped(s: Seq<char>, from: char, to: char) -> Seq<char> {
    Seq::new(s.len(), |i: int| if s[i] == from { to } else { s[i] })
}

/// Replaces every `from` in a text by `to`.
pub fn swap_char(s: &str, from: char, to: char) -> (r: String)
    ensures
        r@ == swapped(s@, from, to),
{
    let v = chars_of(s);
    let mut out = String::new();
    let mut i: usize = 0;
    while i < v.len()
        invariant
            i <= v@.len(),
            out@ == swapped(v@.take(i as int), from, to),
        decreases v@.len() - i,
    {
        if v[i] == from {
            out.push(to);
        } else {
            out.push(v[i]);
        }
        i = i + 1;
        assert(out@ =~= swapped(v@.take(i as int), from, to));
    }
    assert(v@.take(i as int) =~= v@);
    out
}

/// Texts one after the other with `sep` between them.
pub open spec fn joined(parts: Seq<Seq<char>>, sep: Seq<char>) -> Seq<char>
    decreases parts.len(),
{
    if parts.len() == 0 {
        seq![]
    } else if parts.len() == 1 {
        parts[0]
    } else {
        joined(parts.drop_last(), sep) + sep + parts.last()
    }
}

/// Joins texts with `sep` between them.
pub fn join(parts: &Vec<String>, sep: &str) -> (r: String)
    ensures
        r@ == joined(views(parts@), sep@),
{
    let mut out = String::new();
    let mut i: usize = 0;
    assert(views(parts@).take(0) =~= Seq::<Seq<char>>::empty());
    while i < parts.len()
        invariant
            i <= parts@.len(),
            out@ == joined(views(parts@).take(i as int), sep@),
        decreases parts@.len() - i,
    {
        let ghost done = views(parts@).take(i as int);
        if i > 0 {
            out.append(sep);
        }
        out.append(parts[i].as_str());
        i = i + 1;
        proof {
            let now = views(parts@).take(i as int);
            assert(now.drop_last() =~= done);
            assert(now.last() == parts@[i - 1]@);
            if i == 1 {
                assert(out@ =~= now[0]);
            }
        }
    }
    assert(views(parts@).take(i as int) =~= views(parts@));
    out
}

/// A copy of a text.
pub fn copy(s: &str) -> (r: String)
    ensures
        r@ == s@,
{
    s.to_owned()
}

/// Two texts one after the other.
pub fn concat(a: &str, b: &str) -> (r: String)
    ensures
        r@ == a@ + b@,
{
    let mut out = copy(a);
    out.append(b);
    out
}

/// Whether a text stands in a list.
pub fn listed(list: &Vec<String>, s: &str) -> (r: bool)
    ensures
        r == views(list@).contains(s@),
{
    let mut i: usize = 0;
    while i < list.len()
        invariant
            i <= list@.len(),
            forall|k: int| 0 <= k < i ==> list@[k]@ != s@,
        decreases list@.len() - i,
    {
        if same(list[i].as_str(), s) {
            assert(views(list@)[i as int] == s@);
            return true;
        }
        i = i + 1;
    }
    false
}

/// Whether every character is a decimal digit.
pub open spec fn all_digits(s: Seq<char>) -> bool {
    forall|i: int| 0 <= i < s.len() ==> 48 <= (#[trigger] s[i]) as int <= 57
}

/// The number that decimal digits stand for.
pub open spec fn digits_value(s: Seq<char>) -> int
    decreases s.len(),
{
    if s.len() == 0 {
        0
    } else {
        digits_value(s.drop_last()) * 10 + (s.last() as int - 48)
    }
}

/// A decimal number may have a plus sign before its digits.
pub open spec fn unsigned_digits(s: Seq<char>) -> Seq<char> {
    if s.len() > 0 && s[0] == '+' {
        s.drop_first()
    } else {
        s
    }
}

/// The port number a text stands for, if it stands for one: decimal digits, at least
/// one, of a number that fits sixteen bits.
pub open spec fn port_number(s: Seq<char>) -> Option<u16> {
    let d = unsigned_digits(s);
    if d.len() > 0 && all_digits(d) && digits_value(d) <= 65535 {
        Some(digits_value(d) as u16)
    } else {
        None
    }
}

proof fn digits_value_grows(s: Seq<char>, i: int)
    requires
        all_digits(s),
        0 <= i <= s.len(),
    ensures
        0 <= digits_value(s.take(i)) <= digits_value(s),
    decreases s.len(),
{
    if i < s.len() {
        let t = s.drop_last();
        assert forall|k: int| 0 <= k < t.len() implies 48 <= (#[trigger] t[k]) as int <= 57 by {
            assert(t[k] == s[k]);
        }
        digits_value_grows(t, i);
        assert(t.take(i) =~= s.take(i));
        digits_value_grows(t, 0);
    } else {
        assert(s.take(i) =~= s);
        if s.len() > 0 {
            let t = s.drop_last();
            assert forall|k: int| 0 <= k < t.len() implies 48 <= (#[trigger] t[k]) as int <= 57 by {
                assert(t[k] == s[k]);
            }
            digits_value_grows(t, t.len() as int);
            assert(t.take(t.len() as int) =~= t);
        }
    }
}

/// Reads a port number.
pub fn parse_port(s: &str) -> (r: Option<u16>)
    ensures
        r == port_number(s@),
{
    let v = chars_of(s);
    let start: usize = if v.len() > 0 && v[0] == '+' {
        1
    } else {
        0
    };
    let ghost d = unsigned_digits(s@);
    assert(d =~= v@.skip(start as int));
    if start == v.len() {
        return None;
    }
    let mut n: u32 = 0;
    let mut i: usize = start;
    assert(d.take(0) =~= Seq::<char>::empty());
    while i < v.len()
        invariant
            start <= i <= v@.len(),
            d == v@.skip(start as int),
            d == unsigned_digits(s@),
            forall|k: int| 0 <= k < i - start ==> 48 <= (#[trigger] d[k]) as int <= 57,
            n == digits_value(d.take(i - start)),
            n <= 65535,
        decreases v@.len() - i,
    {
        let c: u32 = code_point(v[i]);
        assert(d[i - start] == v@[i as int]);
        if c < 48 || c > 57 {
            return None;
        }
        let m: u32 = n * 10 + (c - 48);
        proof {
            let t = d.take(i - start + 1);
            assert(t.drop_last() =~= d.take(i - start));
            assert(t.last() == d[i - start]);
            assert(m == digits_value(t));
        }
        if m > 65535 {
            proof {
                if all_digits(d) {
                    digits_value_grows(d, i - start + 1);
                }
            }
            return None;
        }
        n = m;
        i = i + 1;
    }
    assert(d.take(i - start) =~= d);
    Some(n as u16)
}

/// Whether a text can be cut after `n` bytes: it is no longer, or a character begins there.
pub open spec fn cuttable(s: Seq<char>, n: int) -> bool {
    encode_utf8(s).len() > n ==> is_char_boundary(encode_utf8(s), n)
}

/// The first `n` bytes of a text, or all of a shorter one.
pub open spec fn cut(s: Seq<char>, n: int) -> Seq<char> {
    if encode_utf8(s).len() <= n {
        s
    } else {
        decode_utf8(encode_utf8(s).take(n))
    }
}

/// Cuts a text after `n` bytes.
pub fn first_bytes(s: &str, n: usize) -> (r: String)
    requires
        cuttable(s@, n as int),
    ensures
        r@ == cut(s@, n as int),
{
    if s.as_bytes().len() <= n {
        copy(s)
    } else {
        let (head, _tail) = s.split_at(n);
        proof {
            assert(encode_utf8(s@).subrange(0, n as int) =~= encode_utf8(s@).take(n as int));
            encode_utf8_decode_utf8(head@);
        }
        copy(head)
    }
}

/// The views of a sequence are those of its elements, one for each.
pub proof fn each_element_is_viewed<T: View>(s: Seq<T>)
    ensures
        views(s).len() == s.len(),
        forall|i: int| 0 <= i < s.len() ==> #[trigger] views(s)[i] == s[i]@,
{
}

/// A text stands in another exactly if that is made of what comes before it, the text itself,
/// and what comes after; it begins one that has nothing before it.
pub proof fn texts_stand_in_what_holds_them(a: Seq<char>, p: Seq<char>, b: Seq<char>, s: Seq<char>)
    ensures
        contains_text(a + p + b, p),
        begins_with(p + b, p),
        begins_with(s, p) <==> s.len() >= p.len() && s.take(p.len() as int) == p,
        contains_text(s, p) ==> exists|i: int|
            0 <= i <= s.len() - p.len() && #[trigger] s.skip(i).take(p.len() as int) == p,
{
    let whole = a + p + b;
    let n = a.len() as int;
    assert(whole.subrange(n, n + p.len()) =~= p);
    assert(occurs_at(whole, p, n));
    assert((p + b).subrange(0, p.len() as int) =~= p);
    if s.len() >= p.len() {
        assert(s.subrange(0, p.len() as int) =~= s.take(p.len() as int));
    }
    if contains_text(s, p) {
        let i = choose|i: int| occurs_at(s, p, i);
        assert(s.skip(i).take(p.len() as int) =~= s.subrange(i, i + p.len()));
    }
}

/// What stands before a character is the text up to its first occurrence, or all of it, and
/// never holds that character.
pub proof fn what_stands_before_lacks_the_character(s: Seq<char>, c: char, k: int)
    ensures
        before(s, c).len() <= s.len(),
        before(s, c) == s.take(before(s, c).len() as int),
        0 <= k < before(s, c).len() ==> before(s, c)[k] != c,
        before(s, c).len() < s.len() ==> s[before(s, c).len() as int] == c,
        has_char(s, c) <==> s.contains(c),
{
    find_char_bounds(s, c);
    if s.contains(c) && find_char(s, c) == s.len() {
        assert(s[s.index_of(c)] == c);
    }
    if has_char(s, c) {
        assert(s[find_char(s, c)] == c);
    }
}

/// The pieces of a text hold no separator, and put together with it give the text back.
pub proof fn pieces_give_the_text_back(s: Seq<char>, c: char)
    ensures
        pieces(s, c).len() > 0,
        joined(pieces(s, c), seq![c]) == s,
        forall|i: int| 0 <= i < pieces(s, c).len() ==> !(#[trigger] pieces(s, c)[i]).contains(c),
    decreases s.len(),
{
    find_char_bounds(s, c);
    let i = find_char(s, c);
    if i < s.len() {
        let rest = s.skip(i + 1);
        pieces_give_the_text_back(rest, c);
        let tail = pieces(rest, c);
        joined_with_a_first(s.take(i), tail, seq![c]);
        assert(s.take(i) + seq![c] + rest =~= s);
        let all = pieces(s, c);
        assert forall|k: int| 0 <= k < all.len() implies !(#[trigger] all[k]).contains(c) by {
            if k > 0 {
                assert(all[k] == tail[k - 1]);
            }
        }
    } else {
        assert(pieces(s, c) == seq![s]);
    }
}

proof fn joined_with_a_first(first: Seq<char>, rest: Seq<Seq<char>>, sep: Seq<char>)
    requires
        rest.len() > 0,
    ensures
        joined(seq![first] + rest, sep) == first + sep + joined(rest, sep),
    decreases rest.len(),
{
    let all = seq![first] + rest;
    assert(all.drop_last() =~= seq![first] + rest.drop_last());
    assert(all.last() == rest.last());
    if rest.len() > 1 {
        joined_with_a_first(first, rest.drop_last(), sep);
        assert(joined(all, sep) =~= first + sep + joined(rest, sep));
    } else {
        assert(all.drop_last() =~= seq![first]);
        assert(joined(seq![first], sep) == first);
        assert(joined(all, sep) =~= first + sep + joined(rest, sep));
    }
}

/// Texts are put together in their order, with the separator between two of them.
pub proof fn texts_are_joined_in_order(parts: Seq<Seq<char>>, sep: Seq<char>, one: Seq<char>)
    ensures
        joined(seq![], sep).len() == 0,
        parts.len() == 0 ==> joined(parts.push(one), sep) == one,
        parts.len() > 0 ==> joined(parts.push(one), sep) == joined(parts, sep) + sep + one,
{
    assert(parts.push(one).drop_last() =~= parts);
}

/// Lines come to an end at a line feed, and one line feed ends one line: a line that ends in a
/// line feed is followed by the lines of the rest.
pub proof fn lines_end_at_line_feeds(line: Seq<char>, rest: Seq<char>)
    requires
        !line.contains('\n'),
    ensures
        lines(seq![]).len() == 0,
        line.len() > 0 ==> lines(line) == seq![line],
        line.len() == 0 || line.last() != '\r' ==> lines(line.push('\n') + rest) == seq![line]
            + lines(rest),
        lines(line.push('\r').push('\n') + rest) == seq![line] + lines(rest),
{
    assert forall|k: int| 0 <= k < line.len() implies line[k] != '\n' by {
        if line[k] == '\n' {
            assert(line.contains('\n'));
        }
    }
    find_char_is(line, '\n', line.len() as int);
    let n = line.len() as int;
    let a = line.push('\n') + rest;
    find_char_is(a, '\n', n);
    assert(a.take(n) =~= line);
    assert(a.skip(n + 1) =~= rest);
    let b = line.push('\r').push('\n') + rest;
    assert forall|k: int| 0 <= k < n + 1 implies b[k] != '\n' by {
        if k < n {
            assert(b[k] == line[k]);
        }
    }
    find_char_is(b, '\n', n + 1);
    assert(b.take(n + 1) =~= line.push('\r'));
    assert(line.push('\r').drop_last() =~= line);
    assert(b.skip(n + 2) =~= rest);
}

/// A text without the white space around it is what stands between: what was taken off is
/// white, and neither end of what is left is.
pub proof fn only_outer_white_space_is_trimmed(s: Seq<char>) -> (ends: (int, int))
    ensures
        0 <= ends.0 <= ends.1 <= s.len(),
        trimmed(s) == s.subrange(ends.0, ends.1),
        forall|k: int| 0 <= k < ends.0 ==> is_white(#[trigger] s[k]),
        forall|k: int| ends.1 <= k < s.len() ==> is_white(#[trigger] s[k]),
        ends.0 < ends.1 ==> !is_white(s[ends.0]) && !is_white(s[ends.1 - 1]),
{
    stripped_ends(s, white_space())
}

/// A text without a character around it is what stands between: what was taken off is that
/// character, and neither end of what is left is.
pub proof fn only_outer_characters_are_stripped(s: Seq<char>, c: char) -> (ends: (int, int))
    ensures
        0 <= ends.0 <= ends.1 <= s.len(),
        stripped(s, c) == s.subrange(ends.0, ends.1),
        forall|k: int| 0 <= k < ends.0 ==> #[trigger] s[k] == c,
        forall|k: int| ends.1 <= k < s.len() ==> #[trigger] s[k] == c,
        ends.0 < ends.1 ==> s[ends.0] != c && s[ends.1 - 1] != c,
{
    stripped_ends(s, only(c))
}

proof fn stripped_ends(s: Seq<char>, p: spec_fn(char) -> bool) -> (ends: (int, int))
    ensures
        0 <= ends.0 <= ends.1 <= s.len(),
        drop_back(drop_front(s, p), p) == s.subrange(ends.0, ends.1),
        forall|k: int| 0 <= k < ends.0 ==> p(#[trigger] s[k]),
        forall|k: int| ends.1 <= k < s.len() ==> p(#[trigger] s[k]),
        ends.0 < ends.1 ==> !p(s[ends.0]) && !p(s[ends.1 - 1]),
{
    let i = front_end(s, p);
    drop_front_is(s, p, i);
    let t = s.skip(i);
    let j = back_end(t, p);
    drop_back_is(t, p, j);
    assert(t.take(j) =~= s.subrange(i, i + j));
    assert forall|k: int| i + j <= k < s.len() implies p(#[trigger] s[k]) by {
        assert(t[k - i] == s[k]);
    }
    if j > 0 {
        assert(t[j - 1] == s[i + j - 1]);
        if i < s.len() {
            assert(!p(s[i]));
        }
    }
    (i, i + j)
}

proof fn front_end(s: Seq<char>, p: spec_fn(char) -> bool) -> (i: int)
    ensures
        0 <= i <= s.len(),
        forall|k: int| 0 <= k < i ==> p(#[trigger] s[k]),
        i < s.len() ==> !p(s[i]),
    decreases s.len(),
{
    if s.len() == 0 || !p(s[0]) {
        0
    } else {
        let t = s.drop_first();
        let i = front_end(t, p) + 1;
        assert forall|k: int| 0 <= k < i implies p(#[trigger] s[k]) by {
            if k > 0 {
                assert(t[k - 1] == s[k]);
            }
        }
        i
    }
}

proof fn back_end(s: Seq<char>, p: spec_fn(char) -> bool) -> (i: int)
    ensures
        0 <= i <= s.len(),
        forall|k: int| i <= k < s.len() ==> p(#[trigger] s[k]),
        i > 0 ==> !p(s[i - 1]),
    decreases s.len(),
{
    if s.len() == 0 || !p(s.last()) {
        s.len() as int
    } else {
        let t = s.drop_last();
        let i = back_end(t, p);
        assert forall|k: int| i <= k < s.len() implies p(#[trigger] s[k]) by {
            if k < t.len() {
                assert(t[k] == s[k]);
            }
        }
        i
    }
}

/// The second word is what stands between the white space after the first and that after it.
pub proof fn the_second_word_is_found(
    lead: Seq<char>,
    first: Seq<char>,
    gap: Seq<char>,
    second: Seq<char>,
    rest: Seq<char>,
)
    requires
        forall|k: int| 0 <= k < lead.len() ==> is_white(#[trigger] lead[k]),
        forall|k: int| 0 <= k < first.len() ==> !is_white(#[trigger] first[k]),
        forall|k: int| 0 <= k < gap.len() ==> is_white(#[trigger] gap[k]),
        forall|k: int| 0 <= k < second.len() ==> !is_white(#[trigger] second[k]),
        first.len() > 0,
        gap.len() > 0,
        second.len() > 0,
        rest.len() > 0 ==> is_white(rest[0]),
    ensures
        second_word(lead + first + gap + second + rest) == second,
{
    let s = lead + first + gap + second + rest;
    let l = lead.len() as int;
    assert forall|k: int| 0 <= k < l implies white_space()(s[k]) by {
        assert(s[k] == lead[k]);
    }
    assert(s[l] == first[0]);
    drop_front_is(s, white_space(), l);
    let a = s.skip(l);
    assert(a =~= first + gap + second + rest);
    assert forall|k: int| 0 <= k < first.len() implies !is_white(#[trigger] a[k]) by {
        assert(a[k] == first[k]);
    }
    assert(a[first.len() as int] == gap[0]);
    word_len_is(a, first.len() as int);
    let t = a.skip(first.len() as int);
    assert(t =~= gap + second + rest);
    assert forall|k: int| 0 <= k < gap.len() implies white_space()(t[k]) by {
        assert(t[k] == gap[k]);
    }
    assert(t[gap.len() as int] == second[0]);
    drop_front_is(t, white_space(), gap.len() as int);
    let b = t.skip(gap.len() as int);
    assert(b =~= second + rest);
    assert forall|k: int| 0 <= k < second.len() implies !is_white(#[trigger] b[k]) by {
        assert(b[k] == second[k]);
    }
    if rest.len() > 0 {
        assert(b[second.len() as int] == rest[0]);
    }
    word_len_is(b, second.len() as int);
    assert(b.take(second.len() as int) =~= second);
}

/// A number in decimal is made of digits alone, has no leading zero, and stands for the number.
pub proof fn decimals_stand_for_their_number(n: nat)
    ensures
        decimal(n).len() > 0,
        all_digits(decimal(n)),
        digits_value(decimal(n)) == n,
        n > 0 ==> decimal(n)[0] != '0',
        n == 0 ==> decimal(n) == seq!['0'],
    decreases n,
{
    if n < 10 {
        let s = decimal(n);
        assert(s.drop_last() =~= Seq::<char>::empty());
        assert(digits_value(s.drop_last()) == 0);
        assert(s.last() as int == 48 + n);
    } else {
        decimals_stand_for_their_number(n / 10);
        let head = decimal(n / 10);
        let s = decimal(n);
        assert(s.drop_last() =~= head);
        assert(s.last() as int == 48 + n % 10);
        assert forall|i: int| 0 <= i < s.len() implies 48 <= (#[trigger] s[i]) as int <= 57 by {
            if i < head.len() {
                assert(s[i] == head[i]);
            }
        }
        assert(s[0] == head[0]);
    }
}

/// A port written in decimal is read as that port, with a plus sign before it too, and a
/// number that no port can have is not read as one.
pub proof fn ports_are_read_as_written(n: nat)
    ensures
        n <= 65535 ==> port_number(decimal(n)) == Some(n as u16),
        n <= 65535 ==> port_number(seq!['+'] + decimal(n)) == Some(n as u16),
        n > 65535 ==> port_number(decimal(n)) is None,
        port_number(seq![]) is None,
{
    decimals_stand_for_their_number(n);
    let d = decimal(n);
    assert(d[0] as int >= 48);
    assert((seq!['+'] + d).drop_first() =~= d);
}

/// Only digits are read as a port, with at most one plus sign before them.
pub proof fn only_digits_are_read_as_a_port(s: Seq<char>, k: int)
    requires
        port_number(s) is Some,
        0 <= k < s.len(),
    ensures
        48 <= s[k] as int <= 57 || (k == 0 && s[0] == '+' && s.len() > 1),
{
    if s[0] == '+' {
        let d = s.drop_first();
        if k > 0 {
            assert(d[k - 1] == s[k]);
        }
    }
}

/// Two digits stand for a byte in hexadecimal, each in its place.
pub proof fn two_digits_stand_for_a_byte(b: Seq<u8>, i: int)
    requires
        0 <= i < b.len(),
    ensures
        hex(b).len() == 2 * b.len(),
        hex(b)[2 * i] == hex_digit(b[i] as int / 16),
        hex(b)[2 * i + 1] == hex_digit(b[i] as int % 16),
        b[i] / 16 < 10 ==> hex(b)[2 * i] as int == '0' as int + b[i] / 16,
        b[i] / 16 >= 10 ==> hex(b)[2 * i] as int == 'a' as int + b[i] / 16 - 10,
        b[i] % 16 < 10 ==> hex(b)[2 * i + 1] as int == '0' as int + b[i] % 16,
        b[i] % 16 >= 10 ==> hex(b)[2 * i + 1] as int == 'a' as int + b[i] % 16 - 10,
{
}

/// Of two texts that agree up to a position the first is the one with the lesser character
/// there, or the one that ends there.
pub proof fn earlier_is(a: Seq<char>, b: Seq<char>, i: int)
    requires
        0 <= i <= a.len(),
        i <= b.len(),
        forall|k: int| 0 <= k < i ==> a[k] == b[k],
        i == a.len() || i == b.len() || a[i] != b[i],
    ensures
        i == b.len() ==> !earlier(a, b),
        i < b.len() && i == a.len() ==> earlier(a, b),
        i < b.len() && i < a.len() ==> (earlier(a, b) <==> (a[i] as int) < b[i] as int),
{
    earlier_at(a, b, i);
}

/// Swapping one character for another changes each of its occurrences, and nothing else.
pub proof fn only_one_character_is_swapped(s: Seq<char>, from: char, to: char)
    ensures
        swapped(s, from, to).len() == s.len(),
        forall|i: int|
            0 <= i < s.len() && s[i] == from ==> #[trigger] swapped(s, from, to)[i] == to,
        forall|i: int|
            0 <= i < s.len() && s[i] != from ==> #[trigger] swapped(s, from, to)[i] == s[i],
{
}

/// A text that is cut is what the text begins with, and has as many of its bytes as asked for;
/// a shorter text stays whole.
pub proof fn cut_texts_begin_the_text(s: Seq<char>, n: int)
    requires
        0 <= n,
        cuttable(s, n),
    ensures
        cut(s, n).len() <= s.len(),
        s.take(cut(s, n).len() as int) == cut(s, n),
        encode_utf8(s).len() <= n ==> cut(s, n) == s,
        encode_utf8(s).len() > n ==> encode_utf8(cut(s, n)) == encode_utf8(s).take(n),
{
    let bytes = encode_utf8(s);
    if bytes.len() <= n {
        assert(s.take(s.len() as int) =~= s);
    } else {
        encode_utf8_valid_utf8(s);
        encode_utf8_decode_utf8(s);
        valid_utf8_split(bytes, n);
        decode_utf8_split(bytes, n);
        assert(bytes.subrange(0, n) =~= bytes.take(n));
        decode_utf8_encode_utf8(bytes.take(n));
        let head = decode_utf8(bytes.take(n));
        let tail = decode_utf8(bytes.subrange(n, bytes.len() as int));
        assert(s == head + tail);
        assert((head + tail).take(head.len() as int) =~= head);
    }
}

/// Of the characters up to the tilde the space and the five from the tab to the carriage
/// return are white, and no other. Above them are the next line, the no-break spaces, the
/// spaces of other widths and scripts, and the separators of lines and paragraphs.
pub proof fn white_characters_are_known(c: char)
    ensures
        (c as int) < 0x80 ==> (is_white(c) <==> c == ' ' || c == '\t' || c == '\n' || c as int == 0xb
            || c as int == 0xc || c == '\r'),
        0x80 <= (c as int) < 0x2000 ==> (is_white(c) <==> c as int == 0x85 || c as int == 0xa0
            || c as int == 0x1680),
        0x2000 <= (c as int) < 0x2100 ==> (is_white(c) <==> (c as int) <= 0x200a || c as int
            == 0x2028 || c as int == 0x2029 || c as int == 0x202f || c as int == 0x205f),
        0x2100 <= (c as int) ==> (is_white(c) <==> c as int == 0x3000),
{
}

} // verus!
