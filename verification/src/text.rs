//! Character classes, terminal-text sanitizing, decimal rendering and the
//! string helpers that the rest of the library builds on.

use vstd::prelude::*;

verus! {

/// The most characters that sanitized terminal text may hold.
pub const MAX_TERMINAL_CHARS: usize = 240;

/// Unicode general category `Cc` (what `char::is_control` tests).
pub open spec fn is_control_char(c: char) -> bool {
    (c as int) <= 0x1F || (0x7F <= (c as int) && (c as int) <= 0x9F)
}

/// Unicode `White_Space` property (what `char::is_whitespace` tests).
pub open spec fn is_whitespace_char(c: char) -> bool {
    let v = c as int;
    ||| 0x09 <= v <= 0x0D
    ||| v == 0x20
    ||| v == 0x85
    ||| v == 0xA0
    ||| v == 0x1680
    ||| 0x2000 <= v <= 0x200A
    ||| v == 0x2028
    ||| v == 0x2029
    ||| v == 0x202F
    ||| v == 0x205F
    ||| v == 0x3000
}

/// A character that sanitizing drops (and turns runs of into one space).
pub open spec fn is_blank_char(c: char) -> bool {
    is_control_char(c) || is_whitespace_char(c)
}

/// Whether `c` is a control character.
pub fn is_control(c: char) -> (r: bool)
    ensures
        r == is_control_char(c),
{
    c <= '\u{1F}' || ('\u{7F}' <= c && c <= '\u{9F}')
}

/// Whether `c` is Unicode white space.
pub fn is_whitespace(c: char) -> (r: bool)
    ensures
        r == is_whitespace_char(c),
{
    ('\u{09}' <= c && c <= '\u{0D}') || c == ' ' || c == '\u{85}' || c == '\u{A0}' || c
        == '\u{1680}' || ('\u{2000}' <= c && c <= '\u{200A}') || c == '\u{2028}' || c
        == '\u{2029}' || c == '\u{202F}' || c == '\u{205F}' || c == '\u{3000}'
}

/// Sanitizing from the remaining input `s`, with `acc` produced so far and
/// `pending` telling whether a run of blanks awaits its single space.
pub open spec fn sanitize_from(s: Seq<char>, acc: Seq<char>, pending: bool) -> Seq<char>
    decreases s.len(),
{
    if s.len() == 0 {
        acc
    } else if is_blank_char(s[0]) {
        sanitize_from(s.drop_first(), acc, acc.len() > 0)
    } else if acc.len() >= MAX_TERMINAL_CHARS {
        acc
    } else {
        let spaced = if pending {
            acc.push(' ')
        } else {
            acc
        };
        if spaced.len() >= MAX_TERMINAL_CHARS {
            spaced
        } else {
            sanitize_from(s.drop_first(), spaced.push(s[0]), false)
        }
    }
}

/// The sanitized form of `s`: control and white-space characters dropped,
/// each run of them between kept characters turned into one space, and the
/// whole cut off at `MAX_TERMINAL_CHARS` characters.
pub open spec fn sanitized(s: Seq<char>) -> Seq<char> {
    sanitize_from(s, Seq::empty(), false)
}

/// Text that fits one terminal line: at most `MAX_TERMINAL_CHARS`
/// characters, no control or white-space character but the plain space, no
/// leading space and no two spaces in a row.
pub open spec fn is_one_line(t: Seq<char>) -> bool {
    &&& t.len() <= MAX_TERMINAL_CHARS
    &&& forall|i: int| 0 <= i < t.len() ==> (is_blank_char(#[trigger] t[i]) ==> t[i] == ' ')
    &&& t.len() > 0 ==> t[0] != ' '
    &&& forall|i: int| 0 <= i < t.len() - 1 ==> !(#[trigger] t[i] == ' ' && t[i + 1] == ' ')
}

proof fn lemma_sanitize_from_one_line(s: Seq<char>, acc: Seq<char>, pending: bool)
    requires
        is_one_line(acc),
        acc.len() > 0 ==> acc.last() != ' ',
        pending ==> acc.len() > 0,
    ensures
        is_one_line(sanitize_from(s, acc, pending)),
    decreases s.len(),
{
    if s.len() > 0 {
        if is_blank_char(s[0]) {
            lemma_sanitize_from_one_line(s.drop_first(), acc, acc.len() > 0);
        } else if acc.len() < MAX_TERMINAL_CHARS {
            let spaced = if pending {
                acc.push(' ')
            } else {
                acc
            };
            assert(is_one_line(spaced)) by {
                if pending {
                    assert forall|i: int| 0 <= i < spaced.len() - 1 implies !(#[trigger] spaced[i]
                        == ' ' && spaced[i + 1] == ' ') by {
                        if i == spaced.len() - 2 {
                            assert(spaced[i] == acc.last());
                        } else {
                            assert(spaced[i] == acc[i] && spaced[i + 1] == acc[i + 1]);
                        }
                    }
                    assert forall|i: int| 0 <= i < spaced.len() implies (is_blank_char(
                        #[trigger] spaced[i],
                    ) ==> spaced[i] == ' ') by {
                        if i < acc.len() {
                            assert(spaced[i] == acc[i]);
                        }
                    }
                }
            }
            if spaced.len() < MAX_TERMINAL_CHARS {
                let next = spaced.push(s[0]);
                assert(is_one_line(next)) by {
                    assert forall|i: int| 0 <= i < next.len() - 1 implies !(#[trigger] next[i]
                        == ' ' && next[i + 1] == ' ') by {
                        if i < next.len() - 2 {
                            assert(next[i] == spaced[i] && next[i + 1] == spaced[i + 1]);
                        }
                    }
                    assert forall|i: int| 0 <= i < next.len() implies (is_blank_char(
                        #[trigger] next[i],
                    ) ==> next[i] == ' ') by {
                        if i < spaced.len() {
                            assert(next[i] == spaced[i]);
                        }
                    }
                    if spaced.len() > 0 {
                        assert(next[0] == spaced[0]);
                    }
                }
                lemma_sanitize_from_one_line(s.drop_first(), next, false);
            }
        }
    }
}

/// Sanitized text always fits one terminal line: it holds at most
/// `MAX_TERMINAL_CHARS` characters, no control character, no white space but
/// single plain spaces, and does not start with a space.
pub proof fn lemma_sanitized_is_one_line(s: Seq<char>)
    ensures
        is_one_line(sanitized(s)),
{
    lemma_sanitize_from_one_line(s, Seq::empty(), false);
}

/// The characters of `s`, in order.
pub(crate) fn chars_of(s: &str) -> (r: Vec<char>)
    ensures
        r@ == s@,
{
    let mut out: Vec<char> = Vec::new();
    broadcast use vstd::string::group_string_axioms;

    for c in it: s.chars()
        invariant
            it.seq() == s@,
            out@ == s@.take(it.index() as int),
    {
        out.push(c);
        assert(s@.take(it.index() + 1) =~= s@.take(it.index() as int).push(c));
    }
    assert(s@.take(s@.len() as int) =~= s@);
    out
}

/// The text made of the characters `v`, in order.
pub(crate) fn string_of(v: &[char]) -> (r: String)
    ensures
        r@ == v@,
{
    let mut out = String::new();
    let mut i: usize = 0;
    while i < v.len()
        invariant
            i <= v@.len(),
            out@ == v@.take(i as int),
        decreases v@.len() - i,
    {
        push_char(&mut out, v[i]);
        assert(v@.take(i + 1) =~= v@.take(i as int).push(v@[i as int]));
        i = i + 1;
    }
    assert(v@.take(i as int) =~= v@);
    out
}

/// Appends `c` to `s` (`String::push`).
#[verifier::external_body]
pub(crate) fn push_char(s: &mut String, c: char)
    ensures
        final(s)@ == old(s)@.push(c),
{
    s.push(c)
}

/// Removes the last character of `s` and returns it (`String::pop`).
#[verifier::external_body]
pub(crate) fn pop_char(s: &mut String) -> (r: Option<char>)
    ensures
        old(s)@.len() == 0 ==> r is None && final(s)@ == old(s)@,
        old(s)@.len() > 0 ==> r == Some(old(s)@.last()) && final(s)@ == old(s)@.drop_last(),
{
    s.pop()
}

/// Sanitizes text for one terminal line: drops control and white-space
/// characters, collapses each run of them between kept characters into one
/// space, and keeps at most `MAX_TERMINAL_CHARS` characters.
pub fn sanitize_terminal_text(value: &str) -> (r: String)
    ensures
        r@ == sanitized(value@),
{
    let input = chars_of(value);
    let mut result: Vec<char> = Vec::new();
    let mut pending_space = false;
    let mut i: usize = 0;
    assert(input@.skip(0) =~= input@);
    while i < input.len()
        invariant_except_break
            i <= input@.len(),
            sanitized(value@) == sanitize_from(input@.skip(i as int), result@, pending_space),
            i == input@.len() ==> input@.skip(i as int) =~= Seq::<char>::empty(),
        invariant
            input@ == value@,
            result@.len() <= MAX_TERMINAL_CHARS,
        ensures
            sanitized(value@) == result@,
        decreases input@.len() - i,
    {
        let character = input[i];
        assert(input@.skip(i as int).drop_first() =~= input@.skip(i + 1));
        assert(input@.skip(i as int)[0] == character);
        if is_control(character) || is_whitespace(character) {
            pending_space = result.len() > 0;
            i = i + 1;
            assert(i == input@.len() ==> input@.skip(i as int) =~= Seq::<char>::empty());
            continue;
        }
        if result.len() >= MAX_TERMINAL_CHARS {
            break;
        }
        if pending_space {
            result.push(' ');
            pending_space = false;
        }
        if result.len() >= MAX_TERMINAL_CHARS {
            break;
        }
        result.push(character);
        i = i + 1;
        assert(i == input@.len() ==> input@.skip(i as int) =~= Seq::<char>::empty());
    }
    string_of(&result)
}


/// The decimal digit for `d` (below ten).
pub open spec fn digit_char(d: nat) -> char {
    if d == 0 {
        '0'
    } else if d == 1 {
        '1'
    } else if d == 2 {
        '2'
    } else if d == 3 {
        '3'
    } else if d == 4 {
        '4'
    } else if d == 5 {
        '5'
    } else if d == 6 {
        '6'
    } else if d == 7 {
        '7'
    } else if d == 8 {
        '8'
    } else {
        '9'
    }
}

/// The decimal rendering of `n`, without sign or leading zeros.
pub open spec fn decimal(n: nat) -> Seq<char>
    decreases n,
{
    if n < 10 {
        seq![digit_char(n)]
    } else {
        decimal(n / 10).push(digit_char(n % 10))
    }
}

fn digit(d: u64) -> (c: char)
    requires
        d < 10,
    ensures
        c == digit_char(d as nat),
{
    if d == 0 {
        '0'
    } else if d == 1 {
        '1'
    } else if d == 2 {
        '2'
    } else if d == 3 {
        '3'
    } else if d == 4 {
        '4'
    } else if d == 5 {
        '5'
    } else if d == 6 {
        '6'
    } else if d == 7 {
        '7'
    } else if d == 8 {
        '8'
    } else {
        '9'
    }
}

/// Appends the decimal rendering of `n` to `out`.
pub fn push_decimal(out: &mut String, n: u64)
    ensures
        final(out)@ == old(out)@ + decimal(n as nat),
    decreases n,
{
    if n >= 10 {
        push_decimal(out, n / 10);
    }
    let ghost before = out@;
    push_char(out, digit(n % 10));
    proof {
        if n >= 10 {
            assert(out@ =~= old(out)@ + decimal(n as nat));
        } else {
            assert(out@ =~= old(out)@ + decimal(n as nat));
        }
    }
}

/// `needle` occurs in `hay` starting at index `i`.
pub open spec fn occurs_at(hay: Seq<char>, needle: Seq<char>, i: int) -> bool {
    0 <= i && i + needle.len() <= hay.len() && hay.subrange(i, i + needle.len()) == needle
}

/// `needle` occurs somewhere in `hay` (what `str::contains` tests).
pub open spec fn text_contains(hay: Seq<char>, needle: Seq<char>) -> bool {
    exists|i: int| occurs_at(hay, needle, i)
}

/// Whether `needle` occurs in `hay`.
pub fn contains_chars(hay: &[char], needle: &[char]) -> (r: bool)
    ensures
        r == text_contains(hay@, needle@),
{
    if needle.len() > hay.len() {
        assert forall|i: int| !occurs_at(hay@, needle@, i) by {}
        return false;
    }
    let hay_len = hay.len();
    let last = hay_len - needle.len();
    let mut i: usize = 0;
    loop
        invariant
            needle@.len() <= hay@.len(),
            hay_len == hay@.len(),
            last == hay@.len() - needle@.len(),
            i <= last,
            forall|k: int| 0 <= k < i ==> !occurs_at(hay@, needle@, k),
        decreases last - i,
    {
        let mut j: usize = 0;
        let mut same = true;
        while j < needle.len()
            invariant
                needle@.len() <= hay@.len(),
                hay_len == hay@.len(),
                i <= last,
                last == hay@.len() - needle@.len(),
                j <= needle@.len(),
                same ==> forall|m: int| 0 <= m < j ==> hay@[i + m] == needle@[m],
                !same ==> !occurs_at(hay@, needle@, i as int),
            decreases needle@.len() - j,
        {
            assert(i + j < hay@.len());
            if hay[i + j] != needle[j] {
                same = false;
                assert(hay@.subrange(i as int, i + needle@.len())[j as int] != needle@[j as int]);
            }
            j = j + 1;
        }
        if same {
            assert(hay@.subrange(i as int, i + needle@.len()) =~= needle@);
            assert(occurs_at(hay@, needle@, i as int));
            return true;
        }
        if i == last {
            assert forall|k: int| !occurs_at(hay@, needle@, k) by {
                if 0 <= k < i {
                }
            }
            return false;
        }
        i = i + 1;
    }
}

/// Unicode lower-casing of text (what `str::to_lowercase` returns).
pub uninterp spec fn lowercase(s: Seq<char>) -> Seq<char>;

/// The lower-cased form of `s`, by `str::to_lowercase`.
#[verifier::external_body]
pub(crate) fn to_lowercase(s: &str) -> (r: String)
    ensures
        r@ == lowercase(s@),
        s@.len() == 0 ==> r@.len() == 0,
{
    s.to_lowercase()
}

/// `a` sorts strictly before `b` in the order of `String`'s `Ord`:
/// lexicographic by code point (which UTF-8 byte order follows).
pub open spec fn text_lt(a: Seq<char>, b: Seq<char>) -> bool {
    exists|k: int|
        0 <= k <= a.len() && k <= b.len() && #[trigger] a.take(k) == b.take(k) && ((k == a.len()
            && k < b.len()) || (k < a.len() && k < b.len() && (a[k] as int) < (b[k] as int)))
}

/// The outcome of comparing two texts.
#[derive(Clone, Copy, Debug, PartialEq, Eq, Structural)]
pub enum TextOrder {
    Less,
    Equal,
    Greater,
}

proof fn lemma_text_lt_at(a: Seq<char>, b: Seq<char>, m: int)
    requires
        0 <= m <= a.len(),
        m <= b.len(),
        forall|i: int| 0 <= i < m ==> a[i] == b[i],
        m < a.len() && m < b.len() ==> a[m] != b[m],
    ensures
        text_lt(a, b) <==> ((m == a.len() && m < b.len()) || (m < a.len() && m < b.len() && (a[m] as int) < (b[m] as int))),
{
    assert(a.take(m) =~= b.take(m));
    if text_lt(a, b) {
        let k = choose|k: int|
            0 <= k <= a.len() && k <= b.len() && #[trigger] a.take(k) == b.take(k) && ((k
                == a.len() && k < b.len()) || (k < a.len() && k < b.len() && (a[k] as int) < (b[k] as int)));
        if k < m {
            assert(a[k] == b[k]);
        } else if k > m {
            assert(a.take(k)[m] == b.take(k)[m]);
        }
    }
}

/// Compares two texts in the order of `String`'s `Ord`.
pub fn compare_text(a: &str, b: &str) -> (r: TextOrder)
    ensures
        r == TextOrder::Less <==> text_lt(a@, b@),
        r == TextOrder::Equal <==> a@ == b@,
        r == TextOrder::Greater <==> text_lt(b@, a@),
{
    let x = chars_of(a);
    let y = chars_of(b);
    let mut i: usize = 0;
    while i < x.len() && i < y.len() && x[i] == y[i]
        invariant
            i <= x@.len(),
            i <= y@.len(),
            forall|k: int| 0 <= k < i ==> x@[k] == y@[k],
        decreases x@.len() - i,
    {
        i = i + 1;
    }
    proof {
        lemma_text_lt_at(x@, y@, i as int);
        lemma_text_lt_at(y@, x@, i as int);
        if i == x.len() && i == y.len() {
            assert(x@ =~= y@);
        }
    }
    if i < x.len() && i < y.len() {
        assert(x@[i as int] != y@[i as int]);
        if x[i] < y[i] {
            TextOrder::Less
        } else {
            TextOrder::Greater
        }
    } else if i < y.len() {
        TextOrder::Less
    } else if i < x.len() {
        TextOrder::Greater
    } else {
        TextOrder::Equal
    }
}

/// No text sorts strictly before itself.
pub proof fn lemma_text_lt_irreflexive(a: Seq<char>)
    ensures
        !text_lt(a, a),
{
}

/// The text order is transitive.
pub proof fn lemma_text_lt_transitive(a: Seq<char>, b: Seq<char>, c: Seq<char>)
    requires
        text_lt(a, b),
        text_lt(b, c),
    ensures
        text_lt(a, c),
{
    let k1 = choose|k: int|
        0 <= k <= a.len() && k <= b.len() && #[trigger] a.take(k) == b.take(k) && ((k == a.len()
            && k < b.len()) || (k < a.len() && k < b.len() && (a[k] as int) < (b[k] as int)));
    let k2 = choose|k: int|
        0 <= k <= b.len() && k <= c.len() && #[trigger] b.take(k) == c.take(k) && ((k == b.len()
            && k < c.len()) || (k < b.len() && k < c.len() && (b[k] as int) < (c[k] as int)));
    if k1 < k2 {
        assert(a.take(k1) =~= c.take(k1)) by {
            assert forall|i: int| 0 <= i < k1 implies a.take(k1)[i] == c.take(k1)[i] by {
                assert(a.take(k1)[i] == b.take(k1)[i]);
                assert(b.take(k2)[i] == c.take(k2)[i]);
            }
        }
        if k1 < a.len() {
            assert(b.take(k2)[k1] == c.take(k2)[k1]);
        }
        assert(a.take(k1) == c.take(k1));
    } else if k2 < k1 {
        assert(a.take(k2) =~= c.take(k2)) by {
            assert forall|i: int| 0 <= i < k2 implies a.take(k2)[i] == c.take(k2)[i] by {
                assert(a.take(k1)[i] == b.take(k1)[i]);
                assert(b.take(k2)[i] == c.take(k2)[i]);
            }
        }
        assert(a.take(k1)[k2] == b.take(k1)[k2]);
        assert(a.take(k2) == c.take(k2));
    } else {
        assert(a.take(k1) =~= c.take(k1)) by {
            assert forall|i: int| 0 <= i < k1 implies a.take(k1)[i] == c.take(k1)[i] by {
                assert(a.take(k1)[i] == b.take(k1)[i]);
                assert(b.take(k2)[i] == c.take(k2)[i]);
            }
        }
        assert(a.take(k1) == c.take(k1));
    }
}

/// The texts of a sequence of strings.
pub open spec fn texts(s: Seq<String>) -> Seq<Seq<char>> {
    s.map_values(|t: String| t@)
}

/// Each text sorts strictly before the next (so none occurs twice).
pub open spec fn strictly_sorted(s: Seq<Seq<char>>) -> bool {
    forall|i: int, j: int| 0 <= i < j < s.len() ==> text_lt(#[trigger] s[i], #[trigger] s[j])
}

/// Adds `x` to the strictly sorted `sorted`, where its text is not there yet.
pub fn insert_sorted_text(sorted: &mut Vec<String>, x: String)
    requires
        strictly_sorted(texts(old(sorted)@)),
    ensures
        strictly_sorted(texts(final(sorted)@)),
        forall|t: Seq<char>| #[trigger]
            texts(final(sorted)@).contains(t) <==> (texts(old(sorted)@).contains(t) || t == x@),
{
    let mut p: usize = 0;
    let mut order = TextOrder::Greater;
    while p < sorted.len()
        invariant
            p <= sorted@.len(),
            sorted@ == old(sorted)@,
            forall|j: int| 0 <= j < p ==> text_lt(#[trigger] sorted@[j]@, x@),
        ensures
            p <= sorted@.len(),
            sorted@ == old(sorted)@,
            forall|j: int| 0 <= j < p ==> text_lt(#[trigger] sorted@[j]@, x@),
            p < sorted@.len() ==> (order == TextOrder::Less <==> text_lt(x@, sorted@[p as int]@)),
            p < sorted@.len() ==> (order == TextOrder::Equal <==> x@ == sorted@[p as int]@),
            p < sorted@.len() ==> order != TextOrder::Greater,
        decreases sorted@.len() - p,
    {
        order = compare_text(x.as_str(), sorted[p].as_str());
        if order != TextOrder::Greater {
            break;
        }
        p = p + 1;
    }
    let ghost old_texts = texts(old(sorted)@);
    if p < sorted.len() && order == TextOrder::Equal {
        assert(old_texts[p as int] == x@);
        assert forall|t: Seq<char>| #[trigger] old_texts.contains(t) <==> (old_texts.contains(t)
            || t == x@) by {
            if t == x@ {
                assert(old_texts[p as int] == t);
            }
        }
        return;
    }
    sorted.insert(p, x);
    proof {
        let new_texts = texts(sorted@);
        assert(new_texts =~= old_texts.take(p as int) + seq![x@] + old_texts.skip(p as int));
        assert forall|i: int, j: int| 0 <= i < j < new_texts.len() implies text_lt(
            #[trigger] new_texts[i],
            #[trigger] new_texts[j],
        ) by {
            if j < p {
                assert(new_texts[i] == old_texts[i] && new_texts[j] == old_texts[j]);
            } else if j == p {
                assert(new_texts[i] == old_texts[i]);
            } else if i == p {
                assert(new_texts[j] == old_texts[j - 1]);
                if j - 1 > p {
                    assert(text_lt(old_texts[p as int], old_texts[j - 1]));
                    lemma_text_lt_transitive(x@, old_texts[p as int], old_texts[j - 1]);
                }
            } else if i < p {
                assert(new_texts[i] == old_texts[i] && new_texts[j] == old_texts[j - 1]);
                if i < j - 1 {
                } else {
                }
            } else {
                assert(new_texts[i] == old_texts[i - 1] && new_texts[j] == old_texts[j - 1]);
            }
        }
        assert forall|t: Seq<char>| #[trigger] new_texts.contains(t) <==> (old_texts.contains(t)
            || t == x@) by {
            if new_texts.contains(t) {
                let i = choose|i: int| 0 <= i < new_texts.len() && new_texts[i] == t;
                if i < p {
                    assert(old_texts[i] == t);
                } else if i > p {
                    assert(old_texts[i - 1] == t);
                }
            }
            if old_texts.contains(t) {
                let i = choose|i: int| 0 <= i < old_texts.len() && old_texts[i] == t;
                if i < p {
                    assert(new_texts[i] == t);
                } else {
                    assert(new_texts[i + 1] == t);
                }
            }
            if t == x@ {
                assert(new_texts[p as int] == t);
            }
        }
    }
}

} // verus!
