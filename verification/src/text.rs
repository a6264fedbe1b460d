//! Character-level helpers over strings: whitespace classes, UTF-8 widths and
//! byte lengths, and small conversions between `String` and `Vec<char>`.
use vstd::prelude::*;
use vstd::utf8::*;

verus! {

/// The Unicode `White_Space` property, the class that `char::is_whitespace` tests.
pub open spec fn is_unicode_whitespace(c: char) -> bool {
    let v = c as u32;
    ||| 0x09 <= v <= 0x0D
    ||| v == 0x20
    ||| v == 0x85
    ||| v == 0xA0
    ||| v == 0x1680
    ||| 0x2000 <= v <= 0x200A
    ||| v == 0x2028
    ||| v == 0x2029
    ||| v == 0x202F
    ||| v == 0x205F
    ||| v == 0x3000
}

/// ASCII whitespace as `u8::is_ascii_whitespace` defines it: space, tab,
/// line feed, form feed and carriage return.
pub open spec fn is_ascii_space_byte(b: u8) -> bool {
    b == 0x20 || b == 0x09 || b == 0x0A || b == 0x0C || b == 0x0D
}

/// Whether `c` is Unicode whitespace.
pub fn is_whitespace_char(c: char) -> (r: bool)
    ensures
        r == is_unicode_whitespace(c),
{
    let v = c as u32;
    (0x09 <= v && v <= 0x0D) || v == 0x20 || v == 0x85 || v == 0xA0 || v == 0x1680 || (0x2000
        <= v && v <= 0x200A) || v == 0x2028 || v == 0x2029 || v == 0x202F || v == 0x205F || v
        == 0x3000
}

/// Whether the byte `b` is ASCII whitespace.
pub fn is_ascii_space(b: u8) -> (r: bool)
    ensures
        r == is_ascii_space_byte(b),
{
    b == 0x20 || b == 0x09 || b == 0x0A || b == 0x0C || b == 0x0D
}

/// The number of bytes of the UTF-8 encoding of `c`.
pub open spec fn char_width(c: char) -> nat {
    encode_scalar(c as u32).len()
}

/// The number of bytes of the UTF-8 encoding of `s`.
pub open spec fn byte_len(s: Seq<char>) -> nat
    decreases s.len(),
{
    if s.len() == 0 {
        0
    } else {
        byte_len(s.drop_last()) + char_width(s.last())
    }
}

/// `s` starts with `p`.
pub open spec fn has_prefix(s: Seq<char>, p: Seq<char>) -> bool {
    p.len() <= s.len() && s.take(p.len() as int) == p
}

/// Encoding a concatenation concatenates the encodings.
pub proof fn lemma_encode_concat(a: Seq<char>, b: Seq<char>)
    ensures
        encode_utf8(a + b) == encode_utf8(a) + encode_utf8(b),
    decreases a.len(),
{
    if a.len() == 0 {
        assert(a + b =~= b);
        assert(encode_utf8(a) =~= Seq::<u8>::empty());
        assert(encode_utf8(a) + encode_utf8(b) =~= encode_utf8(b));
    } else {
        assert((a + b)[0] == a[0]);
        assert((a + b).drop_first() =~= a.drop_first() + b);
        lemma_encode_concat(a.drop_first(), b);
        assert(encode_utf8(a + b) =~= encode_scalar(a[0] as u32) + encode_utf8(a.drop_first() + b));
        assert(encode_utf8(a) + encode_utf8(b) =~= encode_scalar(a[0] as u32) + (encode_utf8(
            a.drop_first(),
        ) + encode_utf8(b)));
    }
}

/// `byte_len` is the length of the UTF-8 encoding.
pub proof fn lemma_byte_len(s: Seq<char>)
    ensures
        encode_utf8(s).len() == byte_len(s),
    decreases s.len(),
{
    if s.len() > 0 {
        let init = s.drop_last();
        let tail = seq![s.last()];
        assert(s =~= init + tail);
        lemma_encode_concat(init, tail);
        lemma_byte_len(init);
        assert(tail.drop_first() =~= Seq::<char>::empty());
        assert(encode_utf8(tail) =~= encode_scalar(s.last() as u32) + encode_utf8(
            Seq::<char>::empty(),
        ));
    }
}

/// `byte_len` adds up over concatenation.
pub proof fn lemma_byte_len_concat(a: Seq<char>, b: Seq<char>)
    ensures
        byte_len(a + b) == byte_len(a) + byte_len(b),
{
    lemma_encode_concat(a, b);
    lemma_byte_len(a);
    lemma_byte_len(b);
    lemma_byte_len(a + b);
}

/// Every character takes one to four bytes; ASCII characters take one.
pub proof fn lemma_char_width(c: char)
    ensures
        1 <= char_width(c) <= 4,
        (c as u32) < 0x80 ==> char_width(c) == 1,
        (c as u32) >= 0x80 ==> char_width(c) >= 2,
{
    char_is_scalar(c);
}

/// `byte_len` of a prefix grows with the prefix.
pub proof fn lemma_byte_len_take(s: Seq<char>, i: int, j: int)
    requires
        0 <= i <= j <= s.len(),
    ensures
        byte_len(s.take(i)) <= byte_len(s.take(j)),
        i < j ==> byte_len(s.take(i)) < byte_len(s.take(j)),
    decreases j - i,
{
    if i < j {
        lemma_byte_len_take(s, i, j - 1);
        assert(s.take(j).drop_last() =~= s.take(j - 1));
        lemma_char_width(s[j - 1]);
    }
}

/// The number of bytes of the UTF-8 encoding of `c`.
pub fn utf8_width(c: char) -> (w: usize)
    ensures
        w == char_width(c),
        1 <= w <= 4,
{
    proof {
        char_is_scalar(c);
    }
    let v = c as u32;
    if v <= 0x7F {
        1
    } else if v <= 0x7FF {
        2
    } else if v <= 0xFFFF {
        3
    } else {
        4
    }
}

/// Appends `c` to `s` (`String::push`).
#[verifier::external_body]
pub fn push_char(s: &mut String, c: char)
    ensures
        final(s)@ == old(s)@.push(c),
{
    s.push(c);
}

/// The characters of `s`, in order.
pub fn chars_of(s: &str) -> (v: Vec<char>)
    ensures
        v@ == s@,
{
    let n = s.unicode_len();
    let mut v: Vec<char> = Vec::new();
    let mut i: usize = 0;
    while i < n
        invariant
            n == s@.len(),
            i <= n,
            v@ == s@.take(i as int),
        decreases n - i,
    {
        let c = s.get_char(i);
        v.push(c);
        i = i + 1;
        assert(v@ =~= s@.take(i as int));
    }
    assert(v@ =~= s@);
    v
}

/// The string made of the characters `v[lo..hi]`.
pub fn string_of_range(v: &Vec<char>, lo: usize, hi: usize) -> (s: String)
    requires
        lo <= hi <= v@.len(),
    ensures
        s@ == v@.subrange(lo as int, hi as int),
{
    let mut s = String::new();
    let mut i: usize = lo;
    while i < hi
        invariant
            lo <= i <= hi <= v@.len(),
            s@ == v@.subrange(lo as int, i as int),
        decreases hi - i,
    {
        push_char(&mut s, v[i]);
        i = i + 1;
        assert(s@ =~= v@.subrange(lo as int, i as int));
    }
    s
}

/// The string made of the characters of `v`.
pub fn string_of(v: &Vec<char>) -> (s: String)
    ensures
        s@ == v@,
{
    let s = string_of_range(v, 0, v.len());
    assert(v@.subrange(0, v@.len() as int) =~= v@);
    s
}

/// Whether two strings hold the same characters.
pub fn str_eq(a: &str, b: &str) -> (r: bool)
    ensures
        r == (a@ == b@),
{
    let x = chars_of(a);
    let y = chars_of(b);
    if x.len() != y.len() {
        return false;
    }
    let mut i: usize = 0;
    while i < x.len()
        invariant
            x@ == a@,
            y@ == b@,
            x@.len() == y@.len(),
            i <= x@.len(),
            forall|j: int| 0 <= j < i ==> x@[j] == y@[j],
        decreases x@.len() - i,
    {
        if x[i] != y[i] {
            return false;
        }
        i = i + 1;
    }
    assert(x@ =~= y@);
    true
}

/// Whether `s` starts with `p`.
pub fn starts_with(s: &str, p: &str) -> (r: bool)
    ensures
        r == has_prefix(s@, p@),
{
    let x = chars_of(s);
    let y = chars_of(p);
    if y.len() > x.len() {
        return false;
    }
    let mut i: usize = 0;
    while i < y.len()
        invariant
            x@ == s@,
            y@ == p@,
            y@.len() <= x@.len(),
            i <= y@.len(),
            forall|j: int| 0 <= j < i ==> x@[j] == y@[j],
        decreases y@.len() - i,
    {
        if x[i] != y[i] {
            assert(s@.take(p@.len() as int)[i as int] != p@[i as int]);
            return false;
        }
        i = i + 1;
    }
    assert(s@.take(p@.len() as int) =~= p@);
    true
}

/// Whether `s` ends with the character `c`.
pub fn ends_with_char(s: &str, c: char) -> (r: bool)
    ensures
        r == (s@.len() > 0 && s@.last() == c),
{
    let n = s.unicode_len();
    if n == 0 {
        false
    } else {
        s.get_char(n - 1) == c
    }
}

/// The number of bytes of the UTF-8 encoding of `s`.
pub fn byte_len_of(s: &str) -> (n: usize)
    ensures
        n == byte_len(s@),
{
    let b = s.as_bytes();
    proof {
        lemma_byte_len(s@);
        assert(b@ == encode_utf8(s@));
    }
    b.len()
}

/// The words `ws` with `sep` between each two of them.
pub open spec fn join_words(ws: Seq<Seq<char>>, sep: Seq<char>) -> Seq<char>
    decreases ws.len(),
{
    if ws.len() == 0 {
        Seq::empty()
    } else if ws.len() == 1 {
        ws[0]
    } else {
        join_words(ws.drop_last(), sep) + sep + ws.last()
    }
}

/// Joins the strings of `v` with `sep` between each two of them (`[String]::join`).
pub fn join_strings(v: &[String], sep: &str) -> (r: String)
    ensures
        r@ == join_words(v@.map_values(|s: String| s@), sep@),
{
    let ghost ws = v@.map_values(|s: String| s@);
    let mut r = String::new();
    let mut i: usize = 0;
    while i < v.len()
        invariant
            i <= v@.len(),
            ws == v@.map_values(|s: String| s@),
            r@ == join_words(ws.take(i as int), sep@),
        decreases v@.len() - i,
    {
        assert(ws.take(i + 1).drop_last() =~= ws.take(i as int));
        assert(ws.take(i + 1).last() == v@[i as int]@);
        if i > 0 {
            r.append(sep);
        } else {
            assert(ws.take(1) =~= seq![v@[0]@]);
        }
        r.append(v[i].as_str());
        i = i + 1;
    }
    assert(ws.take(v@.len() as int) =~= ws);
    r
}

/// The character of the decimal digit `d`.
pub open spec fn digit_char(d: nat) -> char {
    ((d + 48) as u8) as char
}

/// The decimal representation of `n`, without leading zeros.
pub open spec fn decimal(n: nat) -> Seq<char>
    decreases n,
{
    if n < 10 {
        seq![digit_char(n)]
    } else {
        decimal(n / 10).push(digit_char(n % 10))
    }
}

/// The decimal representation of `n`.
pub fn decimal_string(n: u32) -> (r: String)
    ensures
        r@ == decimal(n as nat),
    decreases n,
{
    let d = (n % 10) as u8;
    let c = (d + 48u8) as char;
    if n < 10 {
        let mut s = String::new();
        push_char(&mut s, c);
        assert(s@ =~= seq![digit_char(n as nat)]);
        s
    } else {
        let mut s = decimal_string(n / 10);
        push_char(&mut s, c);
        s
    }
}

/// `b` without its trailing ASCII whitespace (`[u8]::trim_ascii_end`).
pub open spec fn trim_end_bytes(b: Seq<u8>) -> Seq<u8>
    decreases b.len(),
{
    if b.len() > 0 && is_ascii_space_byte(b.last()) {
        trim_end_bytes(b.drop_last())
    } else {
        b
    }
}

/// The length of `b` without its trailing ASCII whitespace.
pub fn trim_end_len(b: &[u8]) -> (n: usize)
    ensures
        n <= b@.len(),
        b@.take(n as int) == trim_end_bytes(b@),
{
    let mut n = b.len();
    assert(b@.take(n as int) =~= b@);
    while n > 0 && is_ascii_space(b[n - 1])
        invariant
            n <= b@.len(),
            trim_end_bytes(b@.take(n as int)) == trim_end_bytes(b@),
        decreases n,
    {
        assert(b@.take(n as int).drop_last() =~= b@.take(n - 1));
        n = n - 1;
    }
    n
}

/// The path `p` appended to the path `base` as `Path::join` does on Unix: an
/// absolute `p` replaces `base`, otherwise a separator goes between the two
/// unless `base` is empty or already ends with one.
pub open spec fn path_join(base: Seq<char>, p: Seq<char>) -> Seq<char> {
    if p.len() > 0 && p[0] == '/' {
        p
    } else if base.len() == 0 || base.last() == '/' {
        base + p
    } else {
        base + seq!['/'] + p
    }
}

/// The path `p` appended to the path `base`. See `path_join`.
pub fn join_path(base: &str, p: &str) -> (r: String)
    ensures
        r@ == path_join(base@, p@),
{
    let pn = p.unicode_len();
    if pn > 0 && p.get_char(0) == '/' {
        return p.to_owned();
    }
    let bn = base.unicode_len();
    let mut r = base.to_owned();
    if bn > 0 && base.get_char(bn - 1) != '/' {
        push_char(&mut r, '/');
    }
    r.append(p);
    r
}

/// The characters of an optional string.
pub open spec fn opt_view(o: Option<&str>) -> Option<Seq<char>> {
    match o {
        Some(s) => Some(s@),
        None => None,
    }
}

/// The position of the last Unicode whitespace character of `s`, or -1.
pub open spec fn last_ws(s: Seq<char>) -> int
    decreases s.len(),
{
    if s.len() == 0 {
        -1
    } else if is_unicode_whitespace(s.last()) {
        s.len() - 1
    } else {
        last_ws(s.drop_last())
    }
}

/// `s` without its leading Unicode whitespace.
pub open spec fn trim_start_ws(s: Seq<char>) -> Seq<char>
    decreases s.len(),
{
    if s.len() > 0 && is_unicode_whitespace(s[0]) {
        trim_start_ws(s.drop_first())
    } else {
        s
    }
}

/// `s` without its trailing Unicode whitespace.
pub open spec fn trim_end_ws(s: Seq<char>) -> Seq<char>
    decreases s.len(),
{
    if s.len() > 0 && is_unicode_whitespace(s.last()) {
        trim_end_ws(s.drop_last())
    } else {
        s
    }
}

/// `s` without leading and trailing Unicode whitespace (`str::trim`).
pub open spec fn trim_ws(s: Seq<char>) -> Seq<char> {
    trim_end_ws(trim_start_ws(s))
}

pub proof fn lemma_last_ws(s: Seq<char>)
    ensures
        -1 <= last_ws(s) < s.len(),
        last_ws(s) >= 0 ==> is_unicode_whitespace(s[last_ws(s)]),
        forall|j: int| last_ws(s) < j < s.len() ==> !is_unicode_whitespace(#[trigger] s[j]),
    decreases s.len(),
{
    if s.len() > 0 {
        lemma_last_ws(s.drop_last());
        assert forall|j: int| last_ws(s) < j < s.len() implies !is_unicode_whitespace(#[trigger] s[j]) by {
            if j < s.len() - 1 {
                assert(s[j] == s.drop_last()[j]);
            }
        }
    }
}

/// The position, counted from `lo`, of the last whitespace character of `v[lo..hi]`.
pub fn last_ws_in(v: &Vec<char>, lo: usize, hi: usize) -> (r: Option<usize>)
    requires
        lo <= hi <= v@.len(),
    ensures
        match r {
            Some(t) => t == last_ws(v@.subrange(lo as int, hi as int)) && lo + t < hi,
            None => last_ws(v@.subrange(lo as int, hi as int)) < 0,
        },
{
    proof {
        lemma_last_ws(v@.subrange(lo as int, hi as int));
    }
    let mut i = hi;
    while i > lo
        invariant
            lo <= i <= hi <= v@.len(),
            last_ws(v@.subrange(lo as int, hi as int)) == last_ws(v@.subrange(lo as int, i as int)),
        decreases i,
    {
        let ghost s = v@.subrange(lo as int, i as int);
        assert(s.drop_last() =~= v@.subrange(lo as int, i - 1));
        assert(s.last() == v@[i - 1]);
        if is_whitespace_char(v[i - 1]) {
            return Some(i - 1 - lo);
        }
        i = i - 1;
    }
    assert(v@.subrange(lo as int, lo as int) =~= Seq::<char>::empty());
    None
}

/// The bounds of `v[lo..hi]` without its leading and trailing whitespace.
pub fn trim_bounds(v: &Vec<char>, lo: usize, hi: usize) -> (r: (usize, usize))
    requires
        lo <= hi <= v@.len(),
    ensures
        lo <= r.0 <= r.1 <= hi,
        v@.subrange(r.0 as int, r.1 as int) == trim_ws(v@.subrange(lo as int, hi as int)),
{
    let mut a = lo;
    while a < hi && is_whitespace_char(v[a])
        invariant
            lo <= a <= hi <= v@.len(),
            trim_start_ws(v@.subrange(lo as int, hi as int)) == trim_start_ws(
                v@.subrange(a as int, hi as int),
            ),
        decreases hi - a,
    {
        assert(v@.subrange(a as int, hi as int).drop_first() =~= v@.subrange(a + 1, hi as int));
        a = a + 1;
    }
    assert(trim_start_ws(v@.subrange(a as int, hi as int)) == v@.subrange(a as int, hi as int));
    let mut b = hi;
    while b > a && is_whitespace_char(v[b - 1])
        invariant
            lo <= a <= b <= hi <= v@.len(),
            trim_end_ws(v@.subrange(a as int, hi as int)) == trim_end_ws(
                v@.subrange(a as int, b as int),
            ),
        decreases b,
    {
        assert(v@.subrange(a as int, b as int).drop_last() =~= v@.subrange(a as int, b - 1));
        b = b - 1;
    }
    (a, b)
}

/// `byte_len` of a part of `s` is at most `byte_len(s)`.
pub proof fn lemma_byte_len_subrange(s: Seq<char>, lo: int, hi: int)
    requires
        0 <= lo <= hi <= s.len(),
    ensures
        byte_len(s.subrange(lo, hi)) <= byte_len(s),
{
    assert(s =~= s.take(lo) + s.subrange(lo, hi) + s.skip(hi));
    lemma_byte_len_concat(s.take(lo), s.subrange(lo, hi));
    lemma_byte_len_concat(s.take(lo) + s.subrange(lo, hi), s.skip(hi));
}

/// The number of bytes that the characters `v[lo..hi]` take in UTF-8.
pub fn bytes_between(v: &Vec<char>, lo: usize, hi: usize) -> (r: usize)
    requires
        lo <= hi <= v@.len(),
        byte_len(v@) <= usize::MAX,
    ensures
        r == byte_len(v@.subrange(lo as int, hi as int)),
{
    let mut acc: usize = 0;
    let mut i = lo;
    assert(v@.subrange(lo as int, lo as int) =~= Seq::<char>::empty());
    while i < hi
        invariant
            lo <= i <= hi <= v@.len(),
            byte_len(v@) <= usize::MAX,
            acc == byte_len(v@.subrange(lo as int, i as int)),
        decreases hi - i,
    {
        assert(v@.subrange(lo as int, i + 1).drop_last() =~= v@.subrange(lo as int, i as int));
        proof {
            lemma_byte_len_subrange(v@, lo as int, i + 1);
        }
        let w = utf8_width(v[i]);
        acc = acc + w;
        i = i + 1;
    }
    acc
}

/// The number of characters of `v` that take `off` bytes in UTF-8, where
/// some prefix of `v[..plen]` takes exactly that many.
pub fn find_cut(v: &Vec<char>, plen: usize, off: usize) -> (k: usize)
    requires
        plen <= v@.len(),
        byte_len(v@) <= usize::MAX,
        exists|k: int| 0 <= k <= plen && #[trigger] byte_len(v@.take(k)) == off,
    ensures
        k <= plen,
        byte_len(v@.take(k as int)) == off,
{
    let ghost l = v@;
    let mut k: usize = 0;
    let mut acc: usize = 0;
    assert(l.take(0) =~= Seq::<char>::empty());
    while k < plen && acc < off
        invariant
            l == v@,
            plen <= l.len(),
            k <= plen,
            byte_len(l) <= usize::MAX,
            acc == byte_len(l.take(k as int)),
            k > 0 ==> byte_len(l.take(k - 1)) < off,
        decreases plen - k,
    {
        proof {
            assert(l.take(k + 1).drop_last() =~= l.take(k as int));
            assert(l.take(k + 1) =~= l.subrange(0, k + 1));
            lemma_byte_len_subrange(l, 0, k + 1);
        }
        acc = acc + utf8_width(v[k]);
        k = k + 1;
    }
    proof {
        let k2 = choose|k2: int| 0 <= k2 <= plen && #[trigger] byte_len(l.take(k2)) == off;
        if k2 < k {
            lemma_byte_len_take(l, k2, k - 1);
        } else if k2 > k {
            lemma_byte_len_take(l, k as int, k2);
        }
    }
    k
}

/// A string takes at least one byte per character.
pub proof fn lemma_byte_len_at_least_len(s: Seq<char>)
    ensures
        s.len() <= byte_len(s),
    decreases s.len(),
{
    if s.len() > 0 {
        lemma_byte_len_at_least_len(s.drop_last());
        lemma_char_width(s.last());
    }
}

/// Whether some prefix of `v[..plen]` takes exactly `off` bytes in UTF-8.
pub fn has_cut(v: &Vec<char>, plen: usize, off: usize) -> (r: bool)
    requires
        plen <= v@.len(),
        byte_len(v@) <= usize::MAX,
    ensures
        r == exists|k: int| 0 <= k <= plen && #[trigger] byte_len(v@.take(k)) == off,
{
    let ghost l = v@;
    let mut k: usize = 0;
    let mut acc: usize = 0;
    assert(l.take(0) =~= Seq::<char>::empty());
    while k < plen && acc < off
        invariant
            l == v@,
            plen <= l.len(),
            k <= plen,
            byte_len(l) <= usize::MAX,
            acc == byte_len(l.take(k as int)),
            forall|k2: int| 0 <= k2 < k ==> #[trigger] byte_len(l.take(k2)) < off,
        decreases plen - k,
    {
        proof {
            assert(l.take(k + 1).drop_last() =~= l.take(k as int));
            assert(l.take(k + 1) =~= l.subrange(0, k + 1));
            lemma_byte_len_subrange(l, 0, k + 1);
        }
        acc = acc + utf8_width(v[k]);
        k = k + 1;
    }
    if acc == off {
        return true;
    }
    proof {
        assert forall|k2: int| 0 <= k2 <= plen implies #[trigger] byte_len(l.take(k2)) != off by {
            if k2 > k {
                lemma_byte_len_take(l, k as int, k2);
            }
        }
    }
    false
}

pub proof fn lemma_ascii_byte(v: u32)
    by (bit_vector)
    requires
        v < 0x80,
    ensures
        (v & 0x7F) == v,
{
}

/// The UTF-8 encoding of ASCII text is one byte per character, its code.
pub proof fn lemma_encode_ascii(w: Seq<char>)
    requires
        forall|i: int| 0 <= i < w.len() ==> (#[trigger] w[i] as u32) < 0x80,
    ensures
        encode_utf8(w) == w.map_values(|c: char| (c as u32) as u8),
    decreases w.len(),
{
    if w.len() > 0 {
        lemma_encode_ascii(w.drop_first());
        lemma_ascii_byte(w[0] as u32);
        assert(w.map_values(|c: char| (c as u32) as u8) =~= seq![(w[0] as u32) as u8]
            + w.drop_first().map_values(|c: char| (c as u32) as u8));
    }
}

} // verus!
