//! Text helpers shared by the parsers: Unicode white space, trimming, and
//! splitting on a separator character.
use vstd::prelude::*;
use vstd::string::StringSliceAdditionalSpecFns;
use vstd::utf8::encode_utf8;

verus! {

/// Whether `c` has the Unicode property `White_Space`.
pub open spec fn is_whitespace(c: char) -> bool {
    let u = c as u32;
    ||| 0x09 <= u <= 0x0D
    ||| u == 0x20
    ||| u == 0x85
    ||| u == 0xA0
    ||| u == 0x1680
    ||| 0x2000 <= u <= 0x200A
    ||| u == 0x2028
    ||| u == 0x2029
    ||| u == 0x202F
    ||| u == 0x205F
    ||| u == 0x3000
}

/// `s` without the white space it starts with.
pub open spec fn trim_start(s: Seq<char>) -> Seq<char>
    decreases s.len(),
{
    if s.len() > 0 && is_whitespace(s[0]) {
        trim_start(s.skip(1))
    } else {
        s
    }
}

/// `s` without the white space it ends with.
pub open spec fn trim_end(s: Seq<char>) -> Seq<char>
    decreases s.len(),
{
    if s.len() > 0 && is_whitespace(s.last()) {
        trim_end(s.drop_last())
    } else {
        s
    }
}

/// `s` without the white space around it.
pub open spec fn trimmed(s: Seq<char>) -> Seq<char> {
    trim_end(trim_start(s))
}

/// The pieces of `s` between the occurrences of `sep`. There is always at
/// least one piece: a text without separator is its own single piece, and
/// each separator starts a new, possibly empty, piece.
pub open spec fn pieces(s: Seq<char>, sep: char) -> Seq<Seq<char>>
    decreases s.len(),
{
    if s.len() == 0 {
        seq![Seq::empty()]
    } else {
        let before = pieces(s.drop_last(), sep);
        if s.last() == sep {
            before.push(Seq::empty())
        } else {
            before.drop_last().push(before.last().push(s.last()))
        }
    }
}

/// The texts that a sequence of string slices holds.
pub open spec fn texts(v: Seq<&str>) -> Seq<Seq<char>> {
    Seq::new(v.len(), |i: int| v[i]@)
}

/// If the first `k` characters of `s` are white space and the next one, if
/// any, is not, then `trim_start` removes exactly those `k`.
pub proof fn lemma_trim_start(s: Seq<char>, k: int)
    requires
        0 <= k <= s.len(),
        forall|j: int| 0 <= j < k ==> is_whitespace(#[trigger] s[j]),
        k == s.len() || !is_whitespace(s[k]),
    ensures
        trim_start(s) == s.skip(k),
    decreases k,
{
    if k == 0 {
        assert(s.skip(0) == s);
    } else {
        let rest = s.skip(1);
        assert forall|j: int| 0 <= j < k - 1 implies is_whitespace(#[trigger] rest[j]) by {
            assert(rest[j] == s[j + 1]);
        }
        lemma_trim_start(rest, k - 1);
        assert(rest.skip(k - 1) == s.skip(k));
    }
}

/// If the characters of `s` from `k` on are white space and the one before
/// them, if any, is not, then `trim_end` keeps exactly the first `k`.
pub proof fn lemma_trim_end(s: Seq<char>, k: int)
    requires
        0 <= k <= s.len(),
        forall|j: int| k <= j < s.len() ==> is_whitespace(#[trigger] s[j]),
        k == 0 || !is_whitespace(s[k - 1]),
    ensures
        trim_end(s) == s.take(k),
    decreases s.len() - k,
{
    if k == s.len() {
        assert(s.take(k) == s);
    } else {
        let rest = s.drop_last();
        lemma_trim_end(rest, k);
        assert(rest.take(k) == s.take(k));
    }
}

/// Trimming never leaves white space at either end, and trimming twice
/// changes nothing more.
pub proof fn lemma_trimmed_ends(s: Seq<char>)
    ensures
        trimmed(s).len() > 0 ==> !is_whitespace(trimmed(s)[0]) && !is_whitespace(
            trimmed(s).last(),
        ),
        trimmed(trimmed(s)) == trimmed(s),
{
    let a = trim_start(s);
    let t = trimmed(s);
    lemma_trim_start_shape(s);
    lemma_trim_end_shape(a);
    if t.len() > 0 {
        assert(t[0] == a.take(t.len() as int)[0]);
        assert(trim_start(t) == t);
    }
}

/// `trim_start` yields a suffix that does not start with white space.
pub proof fn lemma_trim_start_shape(s: Seq<char>)
    ensures
        trim_start(s).len() > 0 ==> !is_whitespace(trim_start(s)[0]),
        trim_start(trim_start(s)) == trim_start(s),
    decreases s.len(),
{
    if s.len() > 0 && is_whitespace(s[0]) {
        lemma_trim_start_shape(s.skip(1));
    }
}

/// `trim_end` yields a prefix that does not end with white space.
pub proof fn lemma_trim_end_shape(s: Seq<char>)
    ensures
        trim_end(s).len() > 0 ==> !is_whitespace(trim_end(s).last()),
        trim_end(trim_end(s)) == trim_end(s),
        trim_end(s).len() <= s.len(),
        trim_end(s) == s.take(trim_end(s).len() as int),
    decreases s.len(),
{
    if s.len() > 0 && is_whitespace(s.last()) {
        lemma_trim_end_shape(s.drop_last());
        let r = trim_end(s.drop_last());
        assert(s.drop_last().take(r.len() as int) == s.take(r.len() as int));
    } else {
        assert(s.take(s.len() as int) == s);
    }
}

/// Whether two string slices hold the same text.
pub fn same_text(a: &str, b: &str) -> (r: bool)
    ensures
        r == (a@ == b@),
{
    let x = a.as_bytes();
    let y = b.as_bytes();
    if x.len() != y.len() {
        return false;
    }
    let mut i: usize = 0;
    while i < x.len()
        invariant
            x@ == encode_utf8(a@),
            y@ == encode_utf8(b@),
            x@.len() == y@.len(),
            i <= x@.len(),
            x@.take(i as int) == y@.take(i as int),
        decreases x@.len() - i,
    {
        if x[i] != y[i] {
            return false;
        }
        proof {
            assert(x@.take(i + 1) == x@.take(i as int).push(x@[i as int]));
            assert(y@.take(i + 1) == y@.take(i as int).push(y@[i as int]));
        }
        i = i + 1;
    }
    proof {
        assert(x@.take(i as int) == x@);
        assert(y@.take(i as int) == y@);
        lemma_encoding_injective(a@, b@);
    }
    true
}

/// Different texts have different encodings.
pub proof fn lemma_encoding_injective(a: Seq<char>, b: Seq<char>)
    requires
        encode_utf8(a) == encode_utf8(b),
    ensures
        a == b,
{
    vstd::utf8::encode_utf8_decode_utf8(a);
    vstd::utf8::encode_utf8_decode_utf8(b);
}

/// Whether `c` is white space.
pub fn whitespace(c: char) -> (r: bool)
    ensures
        r == is_whitespace(c),
{
    let u: u32 = c as u32;
    (0x09 <= u && u <= 0x0D) || u == 0x20 || u == 0x85 || u == 0xA0 || u == 0x1680 || (0x2000 <= u
        && u <= 0x200A) || u == 0x2028 || u == 0x2029 || u == 0x202F || u == 0x205F || u == 0x3000
}

/// The slice of `s` that is left when the white space around it is removed.
/// It neither starts nor ends with white space, and trimming it again
/// changes nothing.
pub fn trim<'a>(s: &'a str) -> (r: &'a str)
    ensures
        r@ == trimmed(s@),
        r@.len() > 0 ==> !is_whitespace(r@[0]) && !is_whitespace(r@.last()),
        trimmed(r@) == r@,
{
    proof {
        lemma_trimmed_ends(s@);
    }
    let len = s.unicode_len();
    let mut first: usize = 0;
    let mut end: usize = 0;
    let mut seen = false;
    let mut i: usize = 0;
    for c in it: s.chars()
        invariant
            len == s@.len(),
            it.seq() == s@,
            i == it.index(),
            i <= len,
            !seen ==> forall|j: int| 0 <= j < i ==> is_whitespace(#[trigger] s@[j]),
            seen ==> first < end <= i,
            seen ==> forall|j: int| 0 <= j < first ==> is_whitespace(#[trigger] s@[j]),
            seen ==> !is_whitespace(s@[first as int]) && !is_whitespace(s@[end - 1]),
            seen ==> forall|j: int| end <= j < i ==> is_whitespace(#[trigger] s@[j]),
    {
        if !whitespace(c) {
            if !seen {
                first = i;
                seen = true;
            }
            end = i + 1;
        }
        i = i + 1;
    }
    if seen {
        proof {
            lemma_trim_start(s@, first as int);
            let tail = s@.skip(first as int);
            assert forall|j: int| end - first <= j < tail.len() implies is_whitespace(
                #[trigger] tail[j],
            ) by {
                assert(tail[j] == s@[j + first]);
            }
            assert(tail[end - first - 1] == s@[end - 1]);
            lemma_trim_end(tail, end - first);
            assert(tail.take(end - first) == s@.subrange(first as int, end as int));
        }
        s.substring_char(first, end)
    } else {
        proof {
            lemma_trim_start(s@, len as int);
            assert(s@.skip(len as int) == Seq::<char>::empty());
            assert(s@.subrange(0, 0) == Seq::<char>::empty());
        }
        s.substring_char(0, 0)
    }
}

/// The pieces of `s` between the occurrences of `sep`, in order.
pub fn split<'a>(s: &'a str, sep: char) -> (r: Vec<&'a str>)
    ensures
        texts(r@) == pieces(s@, sep),
{
    let len = s.unicode_len();
    let mut out: Vec<&'a str> = Vec::new();
    let mut start: usize = 0;
    let mut i: usize = 0;
    proof {
        assert(s@.take(0) == Seq::<char>::empty());
        assert(texts(out@).push(s@.subrange(0, 0)) == pieces(s@.take(0), sep));
    }
    for c in it: s.chars()
        invariant
            len == s@.len(),
            it.seq() == s@,
            i == it.index(),
            start <= i <= len,
            texts(out@).push(s@.subrange(start as int, i as int)) == pieces(s@.take(i as int), sep),
    {
        proof {
            assert(s@.take(i + 1).drop_last() == s@.take(i as int));
            assert(s@.take(i + 1).last() == c);
        }
        if c == sep {
            let piece = s.substring_char(start, i);
            proof {
                assert(texts(out@.push(piece)) == texts(out@).push(piece@));
                assert(s@.subrange(i + 1, i + 1) == Seq::<char>::empty());
            }
            out.push(piece);
            start = i + 1;
        } else {
            proof {
                let before = texts(out@).push(s@.subrange(start as int, i as int));
                assert(before.drop_last() == texts(out@));
                assert(s@.subrange(start as int, i as int).push(c) == s@.subrange(
                    start as int,
                    i + 1,
                ));
            }
        }
        i = i + 1;
    }
    let piece = s.substring_char(start, len);
    proof {
        assert(s@.take(len as int) == s@);
        assert(texts(out@.push(piece)) == texts(out@).push(piece@));
    }
    out.push(piece);
    out
}

/// The character of the digit `d`.
pub open spec fn digit_char(d: nat) -> char
    recommends
        d < 10,
{
    if d == 0 {
        '0'
    } else if d == 1 {
        '1'
    } else if d == 2 {
        '2'
    } else if d == 3 {
        '3'
    } else if d == 4 {
        '4'
    } else if d == 5 {
        '5'
    } else if d == 6 {
        '6'
    } else if d == 7 {
        '7'
    } else if d == 8 {
        '8'
    } else {
        '9'
    }
}

/// The number `n` written in decimal digits, without leading zero.
pub open spec fn digits(n: nat) -> Seq<char>
    decreases n,
{
    if n < 10 {
        seq![digit_char(n)]
    } else {
        digits(n / 10).push(digit_char(n % 10))
    }
}

/// The string of one digit.
fn digit_str(d: u8) -> (s: &'static str)
    requires
        d < 10,
    ensures
        s@ == seq![digit_char(d as nat)],
{
    proof {
        reveal_strlit("0");
        reveal_strlit("1");
        reveal_strlit("2");
        reveal_strlit("3");
        reveal_strlit("4");
        reveal_strlit("5");
        reveal_strlit("6");
        reveal_strlit("7");
        reveal_strlit("8");
        reveal_strlit("9");
    }
    let s = if d == 0 {
        "0"
    } else if d == 1 {
        "1"
    } else if d == 2 {
        "2"
    } else if d == 3 {
        "3"
    } else if d == 4 {
        "4"
    } else if d == 5 {
        "5"
    } else if d == 6 {
        "6"
    } else if d == 7 {
        "7"
    } else if d == 8 {
        "8"
    } else {
        "9"
    };
    assert(s@ =~= seq![digit_char(d as nat)]);
    s
}

/// The number `n` written in decimal digits.
pub fn decimal(n: u64) -> (text: String)
    ensures
        text@ == digits(n as nat),
{
    let mut low: Vec<u8> = Vec::new();
    let mut left: u64 = n;
    while left >= 10
        invariant
            forall|j: int| 0 <= j < low@.len() ==> #[trigger] low@[j] < 10,
            digits(n as nat) == digits(left as nat) + tail(low@),
        decreases left,
    {
        let d: u8 = (left % 10) as u8;
        proof {
            assert(tail(low@.push(d)) == seq![digit_char(d as nat)] + tail(low@)) by {
                assert(low@.push(d).drop_last() == low@);
            }
            assert(digits(left as nat) == digits((left / 10) as nat).push(digit_char(d as nat)));
            assert(digits((left / 10) as nat).push(digit_char(d as nat)) + tail(low@) == digits(
                (left / 10) as nat,
            ) + (seq![digit_char(d as nat)] + tail(low@)));
        }
        low.push(d);
        left = left / 10;
    }
    let mut text = String::from_str(digit_str(left as u8));
    let mut i: usize = low.len();
    proof {
        assert(low@.take(i as int) == low@);
    }
    while i > 0
        invariant
            i <= low@.len(),
            forall|j: int| 0 <= j < low@.len() ==> #[trigger] low@[j] < 10,
            digits(n as nat) == text@ + tail(low@.take(i as int)),
        decreases i,
    {
        i = i - 1;
        proof {
            assert(low@.take(i + 1).drop_last() == low@.take(i as int));
            assert(low@.take(i + 1).last() == low@[i as int]);
            assert(text@ + (seq![digit_char(low@[i as int] as nat)] + tail(low@.take(i as int)))
                == (text@ + seq![digit_char(low@[i as int] as nat)]) + tail(low@.take(i as int)));
        }
        text.append(digit_str(low[i]));
    }
    proof {
        assert(low@.take(0) == Seq::<u8>::empty());
        assert(text@ + Seq::<char>::empty() == text@);
    }
    text
}

/// The digits that `low` holds, lowest first, written highest first.
pub open spec fn tail(low: Seq<u8>) -> Seq<char>
    decreases low.len(),
{
    if low.len() == 0 {
        Seq::empty()
    } else {
        seq![digit_char(low.last() as nat)] + tail(low.drop_last())
    }
}

} // verus!
