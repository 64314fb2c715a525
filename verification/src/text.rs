//! Text primitives: white space, trimming, the normal form under which labels
//! are compared, prefixes and joins, all stated over sequences of characters.

use vstd::prelude::*;
use vstd::string::StringExecFns;

verus! {

/// Whether `c` is a white-space character: one of the code points that Unicode
/// gives the property `White_Space`.
pub open spec fn is_space(c: char) -> bool {
    ||| ('\u{9}' <= c && c <= '\u{d}')
    ||| c == ' '
    ||| c == '\u{85}'
    ||| c == '\u{a0}'
    ||| c == '\u{1680}'
    ||| ('\u{2000}' <= c && c <= '\u{200a}')
    ||| c == '\u{2028}'
    ||| c == '\u{2029}'
    ||| c == '\u{202f}'
    ||| c == '\u{205f}'
    ||| c == '\u{3000}'
}

/// `s` without its leading white space.
pub open spec fn trim_start(s: Seq<char>) -> Seq<char>
    decreases s.len(),
{
    if s.len() > 0 && is_space(s[0]) {
        trim_start(s.drop_first())
    } else {
        s
    }
}

/// `s` without its trailing white space.
pub open spec fn trim_end(s: Seq<char>) -> Seq<char>
    decreases s.len(),
{
    if s.len() > 0 && is_space(s.last()) {
        trim_end(s.drop_last())
    } else {
        s
    }
}

/// `s` without leading and trailing white space.
pub open spec fn trimmed(s: Seq<char>) -> Seq<char> {
    trim_end(trim_start(s))
}

/// Whether `s` holds nothing but white space.
pub open spec fn is_blank(s: Seq<char>) -> bool {
    forall|i: int| 0 <= i < s.len() ==> is_space(#[trigger] s[i])
}

/// Whether the normal form drops `c`: white space and colons carry no meaning
/// in a label.
pub open spec fn is_filler(c: char) -> bool {
    is_space(c) || c == ':'
}

/// `s` without white space and colons.
pub open spec fn squeezed(s: Seq<char>) -> Seq<char> {
    s.filter(|c: char| !is_filler(c))
}

/// The lower-case form of `s`, as Unicode defines it for whole strings.
pub uninterp spec fn lowercase(s: Seq<char>) -> Seq<char>;

/// The normal form under which labels are compared: lower case, then without
/// white space and colons.
pub open spec fn normalized(s: Seq<char>) -> Seq<char> {
    squeezed(lowercase(s))
}

/// The parts joined, with `sep` between each two neighbours.
pub open spec fn joined(parts: Seq<Seq<char>>, sep: Seq<char>) -> Seq<char>
    decreases parts.len(),
{
    if parts.len() == 0 {
        Seq::empty()
    } else if parts.len() == 1 {
        parts[0]
    } else {
        joined(parts.drop_last(), sep) + sep + parts.last()
    }
}

/// Whether `c` is a white-space character.
pub fn is_whitespace(c: char) -> (b: bool)
    ensures
        b == is_space(c),
{
    ('\u{9}' <= c && c <= '\u{d}') || c == ' ' || c == '\u{85}' || c == '\u{a0}' || c == '\u{1680}'
        || ('\u{2000}' <= c && c <= '\u{200a}') || c == '\u{2028}' || c == '\u{2029}' || c
        == '\u{202f}' || c == '\u{205f}' || c == '\u{3000}'
}

/// The characters of `s`, in order.
pub fn chars_of(s: &str) -> (v: Vec<char>)
    ensures
        v@ == s@,
{
    let mut v: Vec<char> = Vec::new();
    for c in iter: s.chars()
        invariant
            iter.seq() == s@,
            v@ == s@.take(iter.index() as int),
    {
        v.push(c);
    }
    assert(s@.take(s@.len() as int) == s@);
    v
}

/// `String::push`: the string grows by the one character `c` at its end.
#[verifier::external_body]
fn push_char(s: &mut String, c: char)
    ensures
        final(s)@ == old(s)@.push(c),
{
    s.push(c)
}

/// The string that holds the characters `chars[from..to]`.
pub fn text_of(chars: &Vec<char>, from: usize, to: usize) -> (s: String)
    requires
        from <= to <= chars.len(),
    ensures
        s@ == chars@.subrange(from as int, to as int),
{
    let mut s = String::new();
    let mut i: usize = from;
    while i < to
        invariant
            from <= i <= to <= chars.len(),
            s@ == chars@.subrange(from as int, i as int),
        decreases to - i,
    {
        push_char(&mut s, chars[i]);
        i += 1;
    }
    s
}

/// `str::to_lowercase`: the result is the lower-case form of the argument.
#[verifier::external_body]
fn lowercase_text(s: &str) -> (r: String)
    ensures
        r@ == lowercase(s@),
{
    s.to_lowercase()
}

/// The lower-case form of `s`.
pub fn to_lowercase(s: &str) -> (r: String)
    ensures
        r@ == lowercase(s@),
{
    lowercase_text(s)
}

/// Whether the two hold the same characters.
pub fn same_chars(a: &Vec<char>, b: &Vec<char>) -> (r: bool)
    ensures
        r == (a@ == b@),
{
    if a.len() != b.len() {
        return false;
    }
    let mut i: usize = 0;
    while i < a.len()
        invariant
            a.len() == b.len(),
            i <= a.len(),
            a@.take(i as int) == b@.take(i as int),
        decreases a.len() - i,
    {
        if a[i] != b[i] {
            return false;
        }
        assert(a@.take(i + 1) == a@.take(i as int).push(a@[i as int]));
        assert(b@.take(i + 1) == b@.take(i as int).push(b@[i as int]));
        i += 1;
    }
    assert(a@.take(a@.len() as int) == a@);
    assert(b@.take(b@.len() as int) == b@);
    true
}

/// Whether the two strings hold the same text.
pub fn same_text(a: &str, b: &str) -> (r: bool)
    ensures
        r == (a@ == b@),
{
    let x = chars_of(a);
    let y = chars_of(b);
    same_chars(&x, &y)
}

/// Skipping `n` leading white-space characters changes nothing for `trim_start`.
pub proof fn lemma_trim_start_skip(s: Seq<char>, n: int)
    requires
        0 <= n <= s.len(),
        forall|i: int| 0 <= i < n ==> is_space(#[trigger] s[i]),
    ensures
        trim_start(s) == trim_start(s.skip(n)),
    decreases n,
{
    if n == 0 {
        assert(s.skip(0) == s);
    } else {
        let t = s.drop_first();
        assert forall|i: int| 0 <= i < n - 1 implies is_space(#[trigger] t[i]) by {
            assert(t[i] == s[i + 1]);
        }
        lemma_trim_start_skip(t, n - 1);
        assert(t.skip(n - 1) == s.skip(n));
    }
}

/// Dropping `n` trailing white-space characters changes nothing for `trim_end`.
pub proof fn lemma_trim_end_take(s: Seq<char>, n: int)
    requires
        0 <= n <= s.len(),
        forall|i: int| n <= i < s.len() ==> is_space(#[trigger] s[i]),
    ensures
        trim_end(s) == trim_end(s.take(n)),
    decreases s.len() - n,
{
    if n == s.len() {
        assert(s.take(n) == s);
    } else {
        let t = s.drop_last();
        lemma_trim_end_take(t, n);
        assert(t.take(n) == s.take(n));
    }
}

/// The bounds `(from, to)` of what trimming keeps of `chars`.
pub fn trim_bounds(chars: &Vec<char>) -> (r: (usize, usize))
    ensures
        r.0 <= r.1 <= chars.len(),
        trimmed(chars@) == chars@.subrange(r.0 as int, r.1 as int),
{
    let n: usize = chars.len();
    let mut from: usize = 0;
    while from < n && is_whitespace(chars[from])
        invariant
            from <= n == chars.len(),
            forall|i: int| 0 <= i < from ==> is_space(#[trigger] chars@[i]),
        decreases n - from,
    {
        from += 1;
    }
    let mut to: usize = n;
    while from < to && is_whitespace(chars[to - 1])
        invariant
            from <= to <= n == chars.len(),
            forall|i: int| to <= i < n ==> is_space(#[trigger] chars@[i]),
        decreases to,
    {
        to -= 1;
    }
    proof {
        let s = chars@;
        lemma_trim_start_skip(s, from as int);
        let t = s.skip(from as int);
        assert(trim_start(s) == t) by {
            if from < n {
                assert(t[0] == s[from as int]);
            }
        }
        assert forall|i: int| to - from <= i < t.len() implies is_space(#[trigger] t[i]) by {
            assert(t[i] == s[i + from]);
        }
        lemma_trim_end_take(t, to - from);
        let u = t.take(to - from);
        assert(u == s.subrange(from as int, to as int));
        assert(trim_end(u) == u) by {
            if from < to {
                assert(u.last() == s[to - 1]);
            }
        }
    }
    (from, to)
}

/// The characters `chars[from..to]`.
pub fn part_of(chars: &Vec<char>, from: usize, to: usize) -> (r: Vec<char>)
    requires
        from <= to <= chars.len(),
    ensures
        r@ == chars@.subrange(from as int, to as int),
{
    let mut r: Vec<char> = Vec::new();
    let mut i: usize = from;
    while i < to
        invariant
            from <= i <= to <= chars.len(),
            r@ == chars@.subrange(from as int, i as int),
        decreases to - i,
    {
        r.push(chars[i]);
        i += 1;
    }
    r
}

/// `chars` without leading and trailing white space.
pub fn trim_chars(chars: &Vec<char>) -> (r: Vec<char>)
    ensures
        r@ == trimmed(chars@),
{
    let (from, to) = trim_bounds(chars);
    part_of(chars, from, to)
}

/// `s` without leading and trailing white space.
pub fn trim(s: &str) -> (r: String)
    ensures
        r@ == trimmed(s@),
{
    let chars = chars_of(s);
    let (from, to) = trim_bounds(&chars);
    text_of(&chars, from, to)
}

/// `chars` without white space and colons.
pub fn squeeze(chars: &Vec<char>) -> (r: Vec<char>)
    ensures
        r@ == squeezed(chars@),
{
    let mut r: Vec<char> = Vec::new();
    let mut i: usize = 0;
    proof {
        assert(chars@.take(0) == Seq::<char>::empty());
        reveal(Seq::filter);
    }
    while i < chars.len()
        invariant
            i <= chars.len(),
            r@ == squeezed(chars@.take(i as int)),
        decreases chars.len() - i,
    {
        let c = chars[i];
        proof {
            assert(chars@.take(i + 1) == chars@.take(i as int).push(c));
            chars@.take(i as int).lemma_filter_push(c, |c: char| !is_filler(c));
        }
        if !(is_whitespace(c) || c == ':') {
            r.push(c);
        }
        i += 1;
    }
    assert(chars@.take(chars@.len() as int) == chars@);
    r
}

/// The normal form of `s`.
pub fn normalize(s: &str) -> (r: Vec<char>)
    ensures
        r@ == normalized(s@),
{
    let low = to_lowercase(s);
    let chars = chars_of(low.as_str());
    squeeze(&chars)
}

/// Whether `pat` stands in `chars` at position `at`.
pub fn has_prefix_at(chars: &Vec<char>, at: usize, pat: &Vec<char>) -> (r: bool)
    requires
        at <= chars.len(),
    ensures
        r == pat@.is_prefix_of(chars@.skip(at as int)),
{
    let m: usize = pat.len();
    if chars.len() - at < m {
        return false;
    }
    let ghost rest = chars@.skip(at as int);
    let mut j: usize = 0;
    while j < m
        invariant
            j <= m == pat.len(),
            at + m <= chars.len(),
            rest == chars@.skip(at as int),
            pat@.take(j as int) == rest.take(j as int),
        decreases m - j,
    {
        if pat[j] != chars[at + j] {
            proof {
                assert(rest[j as int] == chars@[at + j]);
                assert(rest.subrange(0, m as int)[j as int] == rest[j as int]);
            }
            return false;
        }
        proof {
            assert(rest[j as int] == chars@[at + j]);
            assert(pat@.take(j + 1) == pat@.take(j as int).push(pat@[j as int]));
            assert(rest.take(j + 1) == rest.take(j as int).push(rest[j as int]));
        }
        j += 1;
    }
    proof {
        assert(pat@.take(m as int) == pat@);
        assert(rest.take(m as int) == rest.subrange(0, m as int));
    }
    true
}

/// The texts of `parts` joined, with `sep` between each two neighbours.
pub fn join(parts: &Vec<String>, sep: &str) -> (r: String)
    ensures
        r@ == joined(parts.deep_view(), sep@),
{
    let mut r = String::new();
    let mut i: usize = 0;
    let ghost all = parts.deep_view();
    proof {
        assert(all.take(0) == Seq::<Seq<char>>::empty());
    }
    while i < parts.len()
        invariant
            i <= parts.len(),
            all == parts.deep_view(),
            r@ == joined(all.take(i as int), sep@),
        decreases parts.len() - i,
    {
        proof {
            let upto = all.take(i + 1);
            assert(upto.drop_last() == all.take(i as int));
            assert(upto.last() == parts@[i as int]@);
            if i == 0 {
                assert(r@ + parts@[i as int]@ == parts@[i as int]@);
            }
        }
        if i > 0 {
            r.append(sep);
        }
        r.append(parts[i].as_str());
        i += 1;
    }
    proof {
        assert(all.take(parts.len() as int) == all);
    }
    r
}

/// Whether `s` holds nothing but white space.
pub fn blank(s: &str) -> (r: bool)
    ensures
        r == is_blank(s@),
{
    let chars = chars_of(s);
    let mut i: usize = 0;
    while i < chars.len()
        invariant
            i <= chars.len(),
            chars@ == s@,
            forall|j: int| 0 <= j < i ==> is_space(#[trigger] chars@[j]),
        decreases chars.len() - i,
    {
        if !is_whitespace(chars[i]) {
            return false;
        }
        i += 1;
    }
    true
}

/// Whether `pat` stands somewhere in `s`.
pub open spec fn occurs_in(pat: Seq<char>, s: Seq<char>) -> bool {
    exists|i: int| 0 <= i <= s.len() && pat.is_prefix_of(#[trigger] s.skip(i))
}

/// Whether `pat` stands somewhere in `text`.
pub fn contains(text: &str, pat: &str) -> (r: bool)
    ensures
        r == occurs_in(pat@, text@),
{
    let chars = chars_of(text);
    let wanted = chars_of(pat);
    let mut i: usize = 0;
    while i < chars.len()
        invariant
            i <= chars.len(),
            chars@ == text@,
            wanted@ == pat@,
            forall|j: int| 0 <= j < i ==> !pat@.is_prefix_of(#[trigger] text@.skip(j)),
        decreases chars.len() - i,
    {
        if has_prefix_at(&chars, i, &wanted) {
            return true;
        }
        i += 1;
    }
    has_prefix_at(&chars, i, &wanted)
}

} // verus!
