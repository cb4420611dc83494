//! Text helpers over the characters of a string: decimal numbers, the part of
//! a name after its last dot, substring search and the order of strings.
use vstd::prelude::*;

verus! {

/// The character of a decimal digit `d` (`0 <= d < 10`).
pub open spec fn digit_char(d: nat) -> char {
    (48 + d) as char
}

/// The decimal notation of `n`, without leading zeros.
pub open spec fn decimal(n: nat) -> Seq<char>
    decreases n,
{
    if n < 10 {
        seq![digit_char(n)]
    } else {
        decimal(n / 10).push(digit_char(n % 10))
    }
}

/// The characters after the last `.` of `s`, or all of `s` when it holds no `.`
/// (the last piece of `s` split at every `.`).
pub open spec fn last_segment(s: Seq<char>) -> Seq<char>
    decreases s.len(),
{
    if s.len() == 0 {
        s
    } else if s.last() == '.' {
        Seq::empty()
    } else {
        last_segment(s.drop_last()).push(s.last())
    }
}

/// `needle` occurs in `hay` at position `i`.
pub open spec fn occurs_at(hay: Seq<char>, needle: Seq<char>, i: int) -> bool {
    0 <= i && i + needle.len() <= hay.len() && hay.subrange(i, i + needle.len()) == needle
}

/// `needle` occurs somewhere in `hay` (the empty text occurs everywhere).
pub open spec fn contains_text(hay: Seq<char>, needle: Seq<char>) -> bool {
    exists|i: int| occurs_at(hay, needle, i)
}

/// `a` comes strictly before `b` in the lexicographic order of their
/// characters (the order of `str` in Rust: a proper prefix comes first).
pub open spec fn text_less(a: Seq<char>, b: Seq<char>) -> bool
    decreases a.len(),
{
    if b.len() == 0 {
        false
    } else if a.len() == 0 {
        true
    } else if a[0] != b[0] {
        a[0] < b[0]
    } else {
        text_less(a.drop_first(), b.drop_first())
    }
}

/// No text comes before itself, and of two texts at most one comes first.
pub proof fn lemma_text_less_asymmetric(a: Seq<char>, b: Seq<char>)
    ensures
        !text_less(a, a),
        text_less(a, b) ==> !text_less(b, a),
    decreases a.len(),
{
    if a.len() > 0 && b.len() > 0 && a[0] == b[0] {
        lemma_text_less_asymmetric(a.drop_first(), b.drop_first());
    }
    if a.len() > 0 {
        lemma_text_less_asymmetric(a.drop_first(), a.drop_first());
    }
}

/// Of two different texts, one comes before the other.
pub proof fn lemma_text_less_total(a: Seq<char>, b: Seq<char>)
    ensures
        a != b ==> text_less(a, b) || text_less(b, a),
    decreases a.len(),
{
    if a.len() > 0 && b.len() > 0 && a[0] == b[0] {
        lemma_text_less_total(a.drop_first(), b.drop_first());
        if a.drop_first() == b.drop_first() {
            assert(a =~= seq![a[0]] + a.drop_first());
            assert(b =~= seq![b[0]] + b.drop_first());
        }
    } else if a.len() > 0 && b.len() > 0 {
        assert((a[0] as int) != (b[0] as int));
    } else if a.len() == 0 && b.len() == 0 {
        assert(a =~= b);
    }
}

/// The order of texts is transitive.
pub proof fn lemma_text_less_transitive(a: Seq<char>, b: Seq<char>, c: Seq<char>)
    requires
        text_less(a, b),
        text_less(b, c),
    ensures
        text_less(a, c),
    decreases a.len(),
{
    if a.len() > 0 && b.len() > 0 && c.len() > 0 && a[0] == b[0] && b[0] == c[0] {
        lemma_text_less_transitive(a.drop_first(), b.drop_first(), c.drop_first());
    }
}

/// The part after the last dot is an end of the name that holds no dot;
/// when it is shorter than the name, a dot stands just before it; when the
/// name has no dot, it is the whole name.
pub proof fn lemma_last_segment_is_dotless_suffix(s: Seq<char>)
    ensures
        last_segment(s).len() <= s.len(),
        s.subrange(s.len() - last_segment(s).len(), s.len() as int) == last_segment(s),
        forall|i: int| 0 <= i < last_segment(s).len() ==> #[trigger] last_segment(s)[i] != '.',
        last_segment(s).len() < s.len() ==> s[s.len() - last_segment(s).len() - 1] == '.',
        (forall|i: int| 0 <= i < s.len() ==> #[trigger] s[i] != '.') ==> last_segment(s) == s,
    decreases s.len(),
{
    if s.len() > 0 {
        let t = s.drop_last();
        lemma_last_segment_is_dotless_suffix(t);
        if s.last() == '.' {
            assert(s.subrange(s.len() as int, s.len() as int) =~= last_segment(s));
        } else {
            assert(s.subrange(s.len() - last_segment(s).len(), s.len() as int) =~= t.subrange(
                t.len() - last_segment(t).len(),
                t.len() as int,
            ).push(s.last()));
            if forall|i: int| 0 <= i < s.len() ==> #[trigger] s[i] != '.' {
                assert forall|i: int| 0 <= i < t.len() implies #[trigger] t[i] != '.' by {
                    assert(t[i] == s[i]);
                }
                assert(last_segment(s) =~= s);
            }
        }
    }
}

/// All characters of `s` are ASCII.
pub open spec fn is_ascii_text(s: Seq<char>) -> bool {
    forall|i: int| 0 <= i < s.len() ==> (#[trigger] s[i] as int) < 128
}

/// The ASCII lowercase of a character: `'A'..='Z'` become `'a'..='z'`, every
/// other character stays.
pub open spec fn ascii_lower(c: char) -> char {
    if 'A' <= c && c <= 'Z' {
        ((c as int) + 32) as char
    } else {
        c
    }
}

/// The ASCII lowercase of every character of `s`.
pub open spec fn ascii_lowercase(s: Seq<char>) -> Seq<char> {
    Seq::new(s.len(), |i: int| ascii_lower(s[i]))
}

/// What `str::to_lowercase` returns for a string with these characters.
pub uninterp spec fn lowercase_text(s: Seq<char>) -> Seq<char>;

/// Appends `c` to `s` (`String::push`).
#[verifier::external_body]
pub(crate) fn push_char(s: &mut String, c: char)
    ensures
        final(s)@ == old(s)@.push(c),
{
    s.push(c);
}

/// The decimal notation of `n` (`u64`'s `Display`, which writes the number in
/// base ten with no sign, padding or leading zeros).
#[verifier::external_body]
pub(crate) fn decimal_text(n: u64) -> (r: String)
    ensures
        r@ == decimal(n as nat),
{
    n.to_string()
}

/// The lowercase form of `s` (`str::to_lowercase`); its result is named, as
/// Unicode's case mapping takes pages to state.
///
/// For a string of ASCII characters only, std's documentation of
/// `to_lowercase` (Unicode's lowercase mapping, which on ASCII is
/// `to_ascii_lowercase`) gives the result character by character: `'A'..='Z'`
/// become `'a'..='z'` and every other character stays, so the length stays.
/// Of other strings nothing more is stated.
#[verifier::external_body]
pub(crate) fn to_lowercase(s: &str) -> (r: String)
    ensures
        r@ == lowercase_text(s@),
        is_ascii_text(s@) ==> r@ == ascii_lowercase(s@),
{
    s.to_lowercase()
}

/// The characters of `s`, in order.
pub fn chars_of(s: &str) -> (v: Vec<char>)
    ensures
        v@ == s@,
{
    let mut v: Vec<char> = Vec::new();
    for c in it: s.chars()
        invariant
            v@ == it.seq().take(it.index() as int),
            it.seq() == s@,
    {
        v.push(c);
    }
    v
}

/// A string made of the characters of `v`, in order.
pub fn string_of(v: &Vec<char>) -> (s: String)
    ensures
        s@ == v@,
{
    let mut s = String::new();
    let mut i: usize = 0;
    while i < v.len()
        invariant
            i <= v.len(),
            s@ == v@.take(i as int),
        decreases v.len() - i,
    {
        push_char(&mut s, v[i]);
        i = i + 1;
        assert(s@ =~= v@.take(i as int));
    }
    assert(v@.take(v.len() as int) =~= v@);
    s
}

/// The part of `name` after its last `.`, or all of `name` when it has none.
pub fn last_segment_of(name: &str) -> (r: String)
    ensures
        r@ == last_segment(name@),
        r@.len() <= name@.len(),
        name@.subrange(name@.len() - r@.len(), name@.len() as int) == r@,
        forall|i: int| 0 <= i < r@.len() ==> #[trigger] r@[i] != '.',
        r@.len() < name@.len() ==> name@[name@.len() - r@.len() - 1] == '.',
{
    proof {
        lemma_last_segment_is_dotless_suffix(name@);
    }
    let cs = chars_of(name);
    let mut seg: Vec<char> = Vec::new();
    let mut i: usize = 0;
    while i < cs.len()
        invariant
            i <= cs.len(),
            cs@ == name@,
            seg@ == last_segment(cs@.take(i as int)),
        decreases cs.len() - i,
    {
        let c = cs[i];
        assert(cs@.take(i + 1).drop_last() =~= cs@.take(i as int));
        if c == '.' {
            seg = Vec::new();
            assert(seg@ =~= Seq::<char>::empty());
        } else {
            seg.push(c);
        }
        i = i + 1;
    }
    assert(cs@.take(cs.len() as int) =~= cs@);
    string_of(&seg)
}

/// Does `needle` occur at position `i` of `hay`?
fn occurs_at_exec(hay: &Vec<char>, needle: &Vec<char>, i: usize) -> (b: bool)
    requires
        i + needle.len() <= hay.len(),
    ensures
        b == occurs_at(hay@, needle@, i as int),
{
    let mut k: usize = 0;
    while k < needle.len()
        invariant
            k <= needle.len(),
            i + needle.len() <= hay.len(),
            forall|j: int| 0 <= j < k ==> hay@[i + j] == needle@[j],
        decreases needle.len() - k,
    {
        if hay[i + k] != needle[k] {
            assert(hay@.subrange(i as int, i + needle.len())[k as int] != needle@[k as int]);
            return false;
        }
        k = k + 1;
    }
    assert(hay@.subrange(i as int, i + needle.len()) =~= needle@);
    true
}

/// Does `needle` occur in `hay` (`str::contains` with a string pattern)?
pub fn contains_str(hay: &str, needle: &str) -> (b: bool)
    ensures
        b == contains_text(hay@, needle@),
{
    let h = chars_of(hay);
    let n = chars_of(needle);
    if n.len() > h.len() {
        return false;
    }
    let last = h.len() - n.len();
    let mut i: usize = 0;
    loop
        invariant
            h@ == hay@,
            n@ == needle@,
            last == h.len() - n.len(),
            i <= last,
            forall|j: int| 0 <= j < i ==> !occurs_at(hay@, needle@, j),
        ensures
            forall|j: int| 0 <= j <= last ==> !occurs_at(hay@, needle@, j),
        decreases last - i,
    {
        if occurs_at_exec(&h, &n, i) {
            return true;
        }
        if i == last {
            break;
        }
        i = i + 1;
    }
    assert forall|j: int| !occurs_at(hay@, needle@, j) by {
        if j > last {
            assert(j + needle@.len() > hay@.len());
        }
    }
    false
}

/// Does `a` come strictly before `b` in the order of strings?
pub fn str_less(a: &Vec<char>, b: &Vec<char>) -> (r: bool)
    ensures
        r == text_less(a@, b@),
{
    let mut i: usize = 0;
    assert(a@.skip(0) =~= a@);
    assert(b@.skip(0) =~= b@);
    while i < a.len() && i < b.len() && a[i] == b[i]
        invariant
            i <= a.len(),
            i <= b.len(),
            text_less(a@, b@) == text_less(a@.skip(i as int), b@.skip(i as int)),
        decreases a.len() - i,
    {
        assert(a@.skip(i as int).drop_first() =~= a@.skip(i + 1));
        assert(b@.skip(i as int).drop_first() =~= b@.skip(i + 1));
        i = i + 1;
    }
    if i == b.len() {
        false
    } else if i == a.len() {
        true
    } else {
        a[i] < b[i]
    }
}

/// Are all characters of `v` ASCII?
pub fn all_ascii(v: &Vec<char>) -> (r: bool)
    ensures
        r == is_ascii_text(v@),
{
    let mut i: usize = 0;
    while i < v.len()
        invariant
            i <= v.len(),
            forall|j: int| 0 <= j < i ==> (#[trigger] v@[j] as int) < 128,
        decreases v.len() - i,
    {
        if v[i] >= '\u{80}' {
            assert((v@[i as int] as int) >= 128);
            return false;
        }
        i = i + 1;
    }
    true
}

/// The ASCII lowercase of every character of `v`.
pub fn ascii_lowercase_of(v: &Vec<char>) -> (r: Vec<char>)
    ensures
        r@ == ascii_lowercase(v@),
{
    let mut r: Vec<char> = Vec::new();
    let mut i: usize = 0;
    while i < v.len()
        invariant
            i <= v.len(),
            r@ == ascii_lowercase(v@).take(i as int),
        decreases v.len() - i,
    {
        let c = v[i];
        let d = if 'A' <= c && c <= 'Z' {
            let code: u32 = c as u32;
            assert(65 <= code <= 90);
            let lower: u8 = (code + 32) as u8;
            lower as char
        } else {
            c
        };
        assert(d == ascii_lower(c));
        r.push(d);
        i = i + 1;
        assert(r@ =~= ascii_lowercase(v@).take(i as int));
    }
    assert(ascii_lowercase(v@).take(v.len() as int) =~= ascii_lowercase(v@));
    r
}

} // verus!
