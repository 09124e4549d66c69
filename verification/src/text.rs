//! Text as sequences of characters: trimming, splitting, joining, replacing.

use vstd::prelude::*;
use vstd::slice::slice_subrange;

verus! {

/// `String::push` appends one character.
pub assume_specification[ String::push ](s: &mut String, c: char)
    ensures
        final(s)@ == old(s)@.push(c),
;

/// The characters with the Unicode property `White_Space`.
pub open spec fn is_white(c: char) -> bool {
    ||| '\u{9}' <= c <= '\u{d}'
    ||| c == '\u{20}'
    ||| c == '\u{85}'
    ||| c == '\u{a0}'
    ||| c == '\u{1680}'
    ||| '\u{2000}' <= c <= '\u{200a}'
    ||| c == '\u{2028}'
    ||| c == '\u{2029}'
    ||| c == '\u{202f}'
    ||| c == '\u{205f}'
    ||| c == '\u{3000}'
}

pub fn white(c: char) -> (b: bool)
    ensures
        b == is_white(c),
{
    ('\u{9}' <= c && c <= '\u{d}') || c == '\u{20}' || c == '\u{85}' || c == '\u{a0}' || c
        == '\u{1680}' || ('\u{2000}' <= c && c <= '\u{200a}') || c == '\u{2028}' || c == '\u{2029}'
        || c == '\u{202f}' || c == '\u{205f}' || c == '\u{3000}'
}

/// The characters of a string.
pub fn chars(s: &str) -> (v: Vec<char>)
    ensures
        v@ == s@,
{
    let mut v: Vec<char> = Vec::new();
    for c in it: s.chars()
        invariant
            v@ == s@.take(it.index() as int),
            it.seq() == s@,
    {
        v.push(c);
    }
    v
}

/// The string of some characters.
pub fn string(s: &[char]) -> (r: String)
    ensures
        r@ == s@,
{
    let mut r = String::new();
    let mut i: usize = 0;
    while i < s.len()
        invariant
            i <= s.len(),
            r@ == s@.take(i as int),
        decreases s.len() - i,
    {
        r.push(s[i]);
        i += 1;
    }
    r
}

pub open spec fn trimmed_start(s: Seq<char>) -> Seq<char>
    decreases s.len(),
{
    if s.len() > 0 && is_white(s[0]) {
        trimmed_start(s.drop_first())
    } else {
        s
    }
}

pub open spec fn trimmed_end(s: Seq<char>) -> Seq<char>
    decreases s.len(),
{
    if s.len() > 0 && is_white(s.last()) {
        trimmed_end(s.drop_last())
    } else {
        s
    }
}

/// A text without the white space around it.
pub open spec fn trimmed(s: Seq<char>) -> Seq<char> {
    trimmed_end(trimmed_start(s))
}

pub fn trim<'a>(s: &'a [char]) -> (t: &'a [char])
    ensures
        t@ == trimmed(s@),
{
    let mut i: usize = 0;
    assert(s@.skip(0) =~= s@);
    while i < s.len() && white(s[i])
        invariant
            i <= s.len(),
            trimmed_start(s@) == trimmed_start(s@.skip(i as int)),
        decreases s.len() - i,
    {
        assert(s@.skip(i as int).drop_first() =~= s@.skip(i + 1));
        i += 1;
    }
    let ghost rest = s@.skip(i as int);
    let mut j: usize = s.len();
    assert(rest =~= s@.subrange(i as int, j as int));
    while j > i && white(s[j - 1])
        invariant
            i <= j <= s.len(),
            rest == s@.skip(i as int),
            trimmed_end(rest) == trimmed_end(s@.subrange(i as int, j as int)),
        decreases j,
    {
        assert(s@.subrange(i as int, j as int).drop_last() =~= s@.subrange(i as int, j - 1));
        j -= 1;
    }
    slice_subrange(s, i, j)
}

/// A text without the leading run of one character.
pub open spec fn without_leading(s: Seq<char>, c: char) -> Seq<char>
    decreases s.len(),
{
    if s.len() > 0 && s[0] == c {
        without_leading(s.drop_first(), c)
    } else {
        s
    }
}

pub fn trim_leading<'a>(s: &'a [char], c: char) -> (t: &'a [char])
    ensures
        t@ == without_leading(s@, c),
{
    let mut i: usize = 0;
    assert(s@.skip(0) =~= s@);
    while i < s.len() && s[i] == c
        invariant
            i <= s.len(),
            without_leading(s@, c) == without_leading(s@.skip(i as int), c),
        decreases s.len() - i,
    {
        assert(s@.skip(i as int).drop_first() =~= s@.skip(i + 1));
        i += 1;
    }
    assert(s@.skip(i as int) =~= s@.subrange(i as int, s@.len() as int));
    slice_subrange(s, i, s.len())
}

/// A text without the trailing run of one character.
pub open spec fn without_trailing(s: Seq<char>, c: char) -> Seq<char>
    decreases s.len(),
{
    if s.len() > 0 && s.last() == c {
        without_trailing(s.drop_last(), c)
    } else {
        s
    }
}

pub fn trim_trailing<'a>(s: &'a [char], c: char) -> (t: &'a [char])
    ensures
        t@ == without_trailing(s@, c),
{
    let mut j: usize = s.len();
    assert(s@.take(j as int) =~= s@);
    while j > 0 && s[j - 1] == c
        invariant
            j <= s.len(),
            without_trailing(s@, c) == without_trailing(s@.take(j as int), c),
        decreases j,
    {
        assert(s@.take(j as int).drop_last() =~= s@.take(j - 1));
        j -= 1;
    }
    assert(s@.take(j as int) =~= s@.subrange(0, j as int));
    slice_subrange(s, 0, j)
}

/// The index of the first occurrence of a character, the length where there is none.
pub open spec fn first_index(s: Seq<char>, c: char) -> nat
    decreases s.len(),
{
    if s.len() == 0 || s[0] == c {
        0
    } else {
        1 + first_index(s.drop_first(), c)
    }
}

/// What `first_index` finds: the character itself, and before it no other occurrence.
pub proof fn lemma_first_index(s: Seq<char>, c: char)
    ensures
        first_index(s, c) <= s.len(),
        first_index(s, c) < s.len() ==> s[first_index(s, c) as int] == c,
        forall|i: int| 0 <= i < first_index(s, c) ==> s[i] != c,
    decreases s.len(),
{
    if s.len() > 0 && s[0] != c {
        let rest = s.drop_first();
        lemma_first_index(rest, c);
        assert forall|i: int| 0 <= i < first_index(s, c) implies s[i] != c by {
            if i > 0 {
                assert(rest[i - 1] == s[i]);
            }
        }
    }
}

/// An index that holds the character and has none before it is the first one.
pub proof fn lemma_is_first_index(s: Seq<char>, c: char, n: int)
    requires
        0 <= n <= s.len(),
        n < s.len() ==> s[n] == c,
        forall|i: int| 0 <= i < n ==> s[i] != c,
    ensures
        first_index(s, c) == n,
{
    lemma_first_index(s, c);
    let f = first_index(s, c) as int;
    if f < n {
        assert(s[f] != c);
    } else if n < f {
        assert(s[n] != c);
    }
}

pub fn find(s: &[char], c: char) -> (i: usize)
    ensures
        i == first_index(s@, c),
        i <= s@.len(),
{
    let mut i: usize = 0;
    while i < s.len() && s[i] != c
        invariant
            i <= s.len(),
            forall|j: int| 0 <= j < i ==> s@[j] != c,
        decreases s.len() - i,
    {
        i += 1;
    }
    proof {
        lemma_is_first_index(s@, c, i as int);
    }
    i
}

/// The pieces of a text between the occurrences of a character: one more than occurrences.
pub open spec fn pieces(s: Seq<char>, c: char) -> Seq<Seq<char>>
    decreases s.len(),
{
    let i = first_index(s, c) as int;
    if i >= s.len() {
        seq![s]
    } else {
        seq![s.take(i)] + pieces(s.skip(i + 1), c)
    }
}

/// The texts that a list of slices holds.
pub open spec fn texts(v: Seq<&[char]>) -> Seq<Seq<char>> {
    Seq::new(v.len(), |i: int| v[i]@)
}

pub proof fn lemma_texts_push(v: Seq<&[char]>, x: &[char])
    ensures
        texts(v.push(x)) == texts(v).push(x@),
{
    assert(texts(v.push(x)) =~= texts(v).push(x@));
}

/// Splits a text at every occurrence of a character.
pub fn split<'a>(s: &'a [char], c: char) -> (v: Vec<&'a [char]>)
    ensures
        texts(v@) == pieces(s@, c),
        v@.len() >= 1,
{
    let mut v: Vec<&'a [char]> = Vec::new();
    let mut rest = s;
    assert(texts(v@) + pieces(rest@, c) =~= pieces(s@, c));
    loop
        invariant_except_break
            texts(v@) + pieces(rest@, c) == pieces(s@, c),
        ensures
            texts(v@) == pieces(s@, c),
            v@.len() >= 1,
        decreases rest@.len(),
    {
        let i = find(rest, c);
        proof {
            lemma_first_index(rest@, c);
        }
        let ghost before = v@;
        if i == rest.len() {
            v.push(rest);
            proof {
                lemma_texts_push(before, rest);
                assert(texts(v@) =~= texts(before) + seq![rest@]);
            }
            break;
        }
        let piece = slice_subrange(rest, 0, i);
        let tail = slice_subrange(rest, i + 1, rest.len());
        v.push(piece);
        proof {
            lemma_texts_push(before, piece);
            assert(piece@ =~= rest@.take(i as int));
            assert(tail@ =~= rest@.skip(i + 1));
            assert(texts(v@) + pieces(tail@, c) =~= texts(before) + (seq![piece@] + pieces(
                tail@,
                c,
            )));
        }
        rest = tail;
    }
    v
}

/// The two sides of the first occurrence of a character.
pub open spec fn halves(s: Seq<char>, c: char) -> Option<(Seq<char>, Seq<char>)> {
    let i = first_index(s, c) as int;
    if i >= s.len() {
        None
    } else {
        Some((s.take(i), s.skip(i + 1)))
    }
}

pub fn split_once<'a>(s: &'a [char], c: char) -> (r: Option<(&'a [char], &'a [char])>)
    ensures
        match r {
            Some(p) => halves(s@, c) == Some((p.0@, p.1@)),
            None => halves(s@, c) is None,
        },
{
    let i = find(s, c);
    if i == s.len() {
        None
    } else {
        let a = slice_subrange(s, 0, i);
        let b = slice_subrange(s, i + 1, s.len());
        assert(a@ =~= s@.take(i as int));
        assert(b@ =~= s@.skip(i + 1));
        Some((a, b))
    }
}

/// What follows the last occurrence of a character, the whole text where there is none.
pub open spec fn after_last(s: Seq<char>, c: char) -> Seq<char>
    decreases s.len(),
{
    if s.len() == 0 || s.last() == c {
        Seq::empty()
    } else {
        after_last(s.drop_last(), c).push(s.last())
    }
}

pub fn tail_after<'a>(s: &'a [char], c: char) -> (t: &'a [char])
    ensures
        t@ == after_last(s@, c),
{
    let mut j: usize = s.len();
    assert(s@.take(j as int) =~= s@);
    assert(after_last(s@, c) =~= after_last(s@.take(j as int), c) + s@.skip(j as int));
    while j > 0 && s[j - 1] != c
        invariant
            j <= s.len(),
            after_last(s@, c) == after_last(s@.take(j as int), c) + s@.skip(j as int),
        decreases j,
    {
        assert(s@.take(j as int).drop_last() =~= s@.take(j - 1));
        assert(after_last(s@, c) =~= after_last(s@.take(j - 1), c) + s@.skip(j - 1));
        j -= 1;
    }
    assert(after_last(s@.take(j as int), c) =~= Seq::empty());
    assert(s@.skip(j as int) =~= s@.subrange(j as int, s@.len() as int));
    slice_subrange(s, j, s.len())
}

pub open spec fn without_return(s: Seq<char>) -> Seq<char> {
    if s.len() > 0 && s.last() == '\r' {
        s.drop_last()
    } else {
        s
    }
}

/// The lines of a text. A line ends at a line feed or at a carriage return with a line feed
/// behind it; the last line needs no ending.
pub open spec fn lines_of(s: Seq<char>) -> Seq<Seq<char>>
    decreases s.len(),
{
    let i = first_index(s, '\n') as int;
    if s.len() == 0 {
        Seq::empty()
    } else if i >= s.len() {
        seq![s]
    } else {
        seq![without_return(s.take(i))] + lines_of(s.skip(i + 1))
    }
}

pub fn lines<'a>(s: &'a [char]) -> (v: Vec<&'a [char]>)
    ensures
        texts(v@) == lines_of(s@),
{
    let mut v: Vec<&'a [char]> = Vec::new();
    let mut rest = s;
    assert(texts(v@) + lines_of(rest@) =~= lines_of(s@));
    while rest.len() > 0
        invariant
            texts(v@) + lines_of(rest@) == lines_of(s@),
        decreases rest@.len(),
    {
        let i = find(rest, '\n');
        proof {
            lemma_first_index(rest@, '\n');
        }
        let ghost before = v@;
        if i == rest.len() {
            v.push(rest);
            let none = slice_subrange(rest, i, i);
            proof {
                lemma_texts_push(before, rest);
                assert(texts(v@) + lines_of(none@) =~= texts(before) + seq![rest@]);
            }
            rest = none;
        } else {
            let line = if i > 0 && rest[i - 1] == '\r' {
                slice_subrange(rest, 0, i - 1)
            } else {
                slice_subrange(rest, 0, i)
            };
            let tail = slice_subrange(rest, i + 1, rest.len());
            v.push(line);
            proof {
                lemma_texts_push(before, line);
                assert(line@ =~= without_return(rest@.take(i as int)));
                assert(tail@ =~= rest@.skip(i + 1));
                assert(texts(v@) + lines_of(tail@) =~= texts(before) + (seq![line@] + lines_of(
                    tail@,
                )));
            }
            rest = tail;
        }
    }
    assert(texts(v@) =~= lines_of(s@));
    v
}

/// The length of the leading run of characters that are no white space.
pub open spec fn word_len(s: Seq<char>) -> nat
    decreases s.len(),
{
    if s.len() == 0 || is_white(s[0]) {
        0
    } else {
        1 + word_len(s.drop_first())
    }
}

pub proof fn lemma_word_len(s: Seq<char>)
    ensures
        word_len(s) <= s.len(),
        forall|i: int| 0 <= i < word_len(s) ==> !is_white(#[trigger] s[i]),
        word_len(s) < s.len() ==> is_white(s[word_len(s) as int]),
    decreases s.len(),
{
    if s.len() > 0 && !is_white(s[0]) {
        let rest = s.drop_first();
        lemma_word_len(rest);
        assert forall|i: int| 0 <= i < word_len(s) implies !is_white(#[trigger] s[i]) by {
            if i > 0 {
                assert(rest[i - 1] == s[i]);
            }
        }
    }
}

/// The words of a text, between runs of white space.
pub open spec fn words_of(s: Seq<char>) -> Seq<Seq<char>>
    decreases s.len(),
{
    let n = word_len(s) as int;
    if s.len() == 0 {
        Seq::empty()
    } else if n == 0 || n > s.len() {
        words_of(s.drop_first())
    } else {
        seq![s.take(n)] + words_of(s.skip(n))
    }
}

pub fn words<'a>(s: &'a [char]) -> (v: Vec<&'a [char]>)
    ensures
        texts(v@) == words_of(s@),
{
    let mut v: Vec<&'a [char]> = Vec::new();
    let mut rest = s;
    assert(texts(v@) + words_of(rest@) =~= words_of(s@));
    while rest.len() > 0
        invariant
            texts(v@) + words_of(rest@) == words_of(s@),
        decreases rest@.len(),
    {
        proof {
            lemma_word_len(rest@);
        }
        let mut n: usize = 0;
        while n < rest.len() && !white(rest[n])
            invariant
                n <= rest.len(),
                n <= word_len(rest@),
                word_len(rest@) <= rest@.len(),
                forall|i: int| 0 <= i < word_len(rest@) ==> !is_white(#[trigger] rest@[i]),
                word_len(rest@) < rest@.len() ==> is_white(rest@[word_len(rest@) as int]),
            decreases rest.len() - n,
        {
            n += 1;
        }
        let ghost before = v@;
        if n == 0 {
            let tail = slice_subrange(rest, 1, rest.len());
            assert(tail@ =~= rest@.drop_first());
            rest = tail;
        } else {
            let word = slice_subrange(rest, 0, n);
            let tail = slice_subrange(rest, n, rest.len());
            v.push(word);
            proof {
                lemma_texts_push(before, word);
                assert(word@ =~= rest@.take(n as int));
                assert(tail@ =~= rest@.skip(n as int));
                assert(texts(v@) + words_of(tail@) =~= texts(before) + (seq![word@] + words_of(
                    tail@,
                )));
            }
            rest = tail;
        }
    }
    assert(texts(v@) =~= words_of(s@));
    v
}

/// Whether two slices hold the same text.
pub fn equal(a: &[char], b: &[char]) -> (r: bool)
    ensures
        r == (a@ == b@),
{
    if a.len() != b.len() {
        return false;
    }
    let mut i: usize = 0;
    while i < a.len()
        invariant
            a.len() == b.len(),
            i <= a.len(),
            forall|j: int| 0 <= j < i ==> a@[j] == b@[j],
        decreases a.len() - i,
    {
        if a[i] != b[i] {
            return false;
        }
        i += 1;
    }
    assert(a@ =~= b@);
    true
}

/// Whether a slice holds the text of a string.
pub fn is(a: &[char], b: &str) -> (r: bool)
    ensures
        r == (a@ == b@),
{
    let b = chars(b);
    equal(a, b.as_slice())
}

/// Whether two strings hold the same text.
pub fn same(a: &str, b: &str) -> (r: bool)
    ensures
        r == (a@ == b@),
{
    let a = chars(a);
    is(a.as_slice(), b)
}

pub fn starts_with(s: &[char], p: &[char]) -> (r: bool)
    ensures
        r == p@.is_prefix_of(s@),
{
    if p.len() > s.len() {
        return false;
    }
    let head = slice_subrange(s, 0, p.len());
    equal(p, head)
}

pub fn ends_with(s: &[char], p: &[char]) -> (r: bool)
    ensures
        r == p@.is_suffix_of(s@),
{
    if p.len() > s.len() {
        return false;
    }
    let tail = slice_subrange(s, s.len() - p.len(), s.len());
    equal(p, tail)
}

/// What follows a prefix.
pub open spec fn after_prefix(s: Seq<char>, p: Seq<char>) -> Option<Seq<char>> {
    if p.is_prefix_of(s) {
        Some(s.skip(p.len() as int))
    } else {
        None
    }
}

pub fn strip_prefix<'a>(s: &'a [char], p: &str) -> (r: Option<&'a [char]>)
    ensures
        match r {
            Some(t) => after_prefix(s@, p@) == Some(t@),
            None => after_prefix(s@, p@) is None,
        },
{
    let p = chars(p);
    if starts_with(s, p.as_slice()) {
        let t = slice_subrange(s, p.len(), s.len());
        assert(t@ =~= s@.skip(p@.len() as int));
        Some(t)
    } else {
        None
    }
}

/// Whether a text holds another somewhere.
pub open spec fn occurs_in(p: Seq<char>, s: Seq<char>) -> bool {
    exists|i: int| 0 <= i <= s.len() && #[trigger] p.is_prefix_of(s.skip(i))
}

pub fn contains(s: &[char], p: &str) -> (r: bool)
    ensures
        r == occurs_in(p@, s@),
{
    let pattern = chars(p);
    let mut i: usize = 0;
    loop
        invariant
            i <= s.len(),
            pattern@ == p@,
            forall|j: int| 0 <= j < i ==> !#[trigger] p@.is_prefix_of(s@.skip(j)),
        decreases s.len() - i,
    {
        let rest = slice_subrange(s, i, s.len());
        assert(rest@ =~= s@.skip(i as int));
        if starts_with(rest, pattern.as_slice()) {
            assert(p@.is_prefix_of(s@.skip(i as int)));
            return true;
        }
        if i == s.len() {
            return false;
        }
        i += 1;
    }
}

/// A text with every occurrence of a non-empty one, from the left and without overlap, replaced.
pub open spec fn replaced(s: Seq<char>, p: Seq<char>, w: Seq<char>) -> Seq<char>
    decreases s.len(),
{
    if s.len() == 0 || p.len() == 0 {
        s
    } else if p.is_prefix_of(s) {
        w + replaced(s.skip(p.len() as int), p, w)
    } else {
        seq![s[0]] + replaced(s.drop_first(), p, w)
    }
}

pub fn replace(s: &[char], p: &str, w: &str) -> (r: Vec<char>)
    requires
        p@.len() > 0,
    ensures
        r@ == replaced(s@, p@, w@),
{
    let pattern = chars(p);
    let with = chars(w);
    let mut r: Vec<char> = Vec::new();
    let mut i: usize = 0;
    assert(s@.skip(0) =~= s@);
    assert(r@ + replaced(s@.skip(0), p@, w@) =~= replaced(s@, p@, w@));
    while i < s.len()
        invariant
            i <= s.len(),
            pattern@ == p@,
            with@ == w@,
            p@.len() > 0,
            r@ + replaced(s@.skip(i as int), p@, w@) == replaced(s@, p@, w@),
        decreases s.len() - i,
    {
        let rest = slice_subrange(s, i, s.len());
        assert(rest@ =~= s@.skip(i as int));
        let ghost before = r@;
        if starts_with(rest, pattern.as_slice()) {
            push_all(&mut r, with.as_slice());
            proof {
                let tail = s@.skip(i + p@.len());
                assert(rest@.skip(p@.len() as int) =~= tail);
                assert(r@ + replaced(tail, p@, w@) =~= before + (w@ + replaced(tail, p@, w@)));
            }
            i += pattern.len();
        } else {
            r.push(s[i]);
            proof {
                let tail = s@.skip(i + 1);
                assert(rest@.drop_first() =~= tail);
                assert(r@ + replaced(tail, p@, w@) =~= before + (seq![s@[i as int]] + replaced(
                    tail,
                    p@,
                    w@,
                )));
            }
            i += 1;
        }
    }
    assert(r@ =~= replaced(s@, p@, w@));
    r
}

pub fn push_all(v: &mut Vec<char>, s: &[char])
    ensures
        final(v)@ == old(v)@ + s@,
{
    let mut i: usize = 0;
    assert(v@ =~= old(v)@ + s@.take(0));
    while i < s.len()
        invariant
            i <= s.len(),
            v@ == old(v)@ + s@.take(i as int),
        decreases s.len() - i,
    {
        v.push(s[i]);
        i += 1;
        assert(v@ =~= old(v)@ + s@.take(i as int));
    }
    assert(s@.take(i as int) =~= s@);
}

/// The texts with a separator between each two.
pub open spec fn joined(parts: Seq<Seq<char>>, sep: Seq<char>) -> Seq<char>
    decreases parts.len(),
{
    if parts.len() == 0 {
        Seq::empty()
    } else if parts.len() == 1 {
        parts[0]
    } else {
        parts[0] + sep + joined(parts.drop_first(), sep)
    }
}

/// The texts that a list of strings holds.
pub open spec fn strings(v: Seq<String>) -> Seq<Seq<char>> {
    Seq::new(v.len(), |i: int| v[i]@)
}

pub proof fn lemma_strings_push(v: Seq<String>, x: String)
    ensures
        strings(v.push(x)) == strings(v).push(x@),
{
    assert(strings(v.push(x)) =~= strings(v).push(x@));
}

pub fn join(parts: &Vec<String>, sep: &str) -> (r: String)
    ensures
        r@ == joined(strings(parts@), sep@),
{
    let mut r = String::new();
    let ghost all = strings(parts@);
    let mut i: usize = 0;
    assert(all.skip(0) =~= all);
    assert(r@ + joined(all.skip(0), sep@) =~= joined(all, sep@));
    while i < parts.len()
        invariant
            i <= parts.len(),
            all == strings(parts@),
            r@ + joined(all.skip(i as int), sep@) == joined(all, sep@),
        decreases parts.len() - i,
    {
        let ghost before = r@;
        let ghost rest = all.skip(i as int);
        r.append(parts[i].as_str());
        assert(rest[0] == parts@[i as int]@);
        if i + 1 < parts.len() {
            r.append(sep);
            assert(rest.drop_first() =~= all.skip(i + 1));
            assert(r@ + joined(all.skip(i + 1), sep@) =~= before + (rest[0] + sep@ + joined(
                all.skip(i + 1),
                sep@,
            )));
        } else {
            assert(all.skip(i + 1) =~= Seq::<Seq<char>>::empty());
            assert(r@ + joined(all.skip(i + 1), sep@) =~= before + rest[0]);
        }
        i += 1;
    }
    assert(r@ =~= joined(all, sep@));
    r
}

/// An ASCII letter in lower case, any other character as it is.
pub open spec fn ascii_lower(c: char) -> char {
    if 'A' <= c <= 'Z' {
        ((c as u8) + 32) as char
    } else {
        c
    }
}

/// Whether two texts differ in nothing but the case of ASCII letters.
pub open spec fn equal_ignoring_case(a: Seq<char>, b: Seq<char>) -> bool {
    a.len() == b.len() && forall|i: int|
        0 <= i < a.len() ==> ascii_lower(#[trigger] a[i]) == ascii_lower(b[i])
}

pub fn lower(c: char) -> (r: char)
    ensures
        r == ascii_lower(c),
{
    if 'A' <= c && c <= 'Z' {
        ((c as u8) + 32) as char
    } else {
        c
    }
}

pub fn is_ignoring_case(a: &[char], b: &str) -> (r: bool)
    ensures
        r == equal_ignoring_case(a@, b@),
{
    let other = chars(b);
    if a.len() != other.len() {
        return false;
    }
    let mut i: usize = 0;
    while i < a.len()
        invariant
            a.len() == other.len(),
            other@ == b@,
            i <= a.len(),
            forall|j: int| 0 <= j < i ==> ascii_lower(#[trigger] a@[j]) == ascii_lower(b@[j]),
        decreases a.len() - i,
    {
        if lower(a[i]) != lower(other[i]) {
            assert(ascii_lower(a@[i as int]) != ascii_lower(b@[i as int]));
            return false;
        }
        i += 1;
    }
    true
}

/// Whether a character occurs nowhere in a text.
pub open spec fn free_of(s: Seq<char>, c: char) -> bool {
    forall|i: int| 0 <= i < s.len() ==> #[trigger] s[i] != c
}

pub proof fn lemma_part_free(s: Seq<char>, c: char, i: int, j: int)
    requires
        0 <= i <= j <= s.len(),
        free_of(s, c),
    ensures
        free_of(s.subrange(i, j), c),
{
    let part = s.subrange(i, j);
    assert forall|k: int| 0 <= k < part.len() implies #[trigger] part[k] != c by {
        assert(part[k] == s[i + k]);
    }
}

/// No line holds a line feed.
pub proof fn lemma_lines_free(s: Seq<char>)
    ensures
        forall|i: int| 0 <= i < lines_of(s).len() ==> free_of(#[trigger] lines_of(s)[i], '\n'),
    decreases s.len(),
{
    if s.len() > 0 {
        lemma_first_index(s, '\n');
        let n = first_index(s, '\n') as int;
        if n < s.len() {
            let rest = s.skip(n + 1);
            lemma_lines_free(rest);
            let head = s.take(n);
            assert(free_of(head, '\n'));
            if head.len() > 0 {
                lemma_part_free(head, '\n', 0, head.len() - 1);
            }
            assert forall|i: int| 0 <= i < lines_of(s).len() implies free_of(
                #[trigger] lines_of(s)[i],
                '\n',
            ) by {
                if i > 0 {
                    assert(lines_of(s)[i] == lines_of(rest)[i - 1]);
                }
            }
        } else {
            assert(free_of(s, '\n'));
        }
    }
}

proof fn lemma_trimmed_start_end(s: Seq<char>)
    ensures
        trimmed_start(s).len() > 0 ==> !is_white(trimmed_start(s)[0]),
        trimmed_start(s).len() <= s.len(),
    decreases s.len(),
{
    if s.len() > 0 && is_white(s[0]) {
        lemma_trimmed_start_end(s.drop_first());
    }
}

proof fn lemma_trimmed_end_end(s: Seq<char>)
    ensures
        trimmed_end(s).len() > 0 ==> !is_white(trimmed_end(s).last()) && trimmed_end(s)[0] == s[0],
        trimmed_end(s).len() <= s.len(),
    decreases s.len(),
{
    if s.len() > 0 && is_white(s.last()) {
        lemma_trimmed_end_end(s.drop_last());
    }
}

/// A trimmed text neither begins nor ends with white space.
pub proof fn lemma_trimmed_ends(s: Seq<char>)
    ensures
        trimmed(s).len() > 0 ==> !is_white(trimmed(s)[0]) && !is_white(trimmed(s).last()),
{
    lemma_trimmed_start_end(s);
    lemma_trimmed_end_end(trimmed_start(s));
}

/// Trimming a trimmed text changes nothing.
pub proof fn lemma_trimmed_twice(s: Seq<char>)
    ensures
        trimmed(trimmed(s)) == trimmed(s),
{
    lemma_trimmed_ends(s);
}

pub proof fn lemma_trimmed_free(s: Seq<char>, c: char)
    requires
        free_of(s, c),
    ensures
        free_of(trimmed(s), c),
{
    lemma_trimmed_start_free(s, c);
    lemma_trimmed_end_free(trimmed_start(s), c);
}

proof fn lemma_trimmed_start_free(s: Seq<char>, c: char)
    requires
        free_of(s, c),
    ensures
        free_of(trimmed_start(s), c),
    decreases s.len(),
{
    if s.len() > 0 && is_white(s[0]) {
        lemma_part_free(s, c, 1, s.len() as int);
        lemma_trimmed_start_free(s.drop_first(), c);
    }
}

proof fn lemma_trimmed_end_free(s: Seq<char>, c: char)
    requires
        free_of(s, c),
    ensures
        free_of(trimmed_end(s), c),
    decreases s.len(),
{
    if s.len() > 0 && is_white(s.last()) {
        lemma_part_free(s, c, 0, s.len() - 1);
        lemma_trimmed_end_free(s.drop_last(), c);
    }
}

pub proof fn lemma_joined_free(parts: Seq<Seq<char>>, sep: Seq<char>, c: char)
    requires
        free_of(sep, c),
        forall|i: int| 0 <= i < parts.len() ==> free_of(#[trigger] parts[i], c),
    ensures
        free_of(joined(parts, sep), c),
    decreases parts.len(),
{
    if parts.len() > 0 {
        assert(free_of(parts[0], c));
        if parts.len() > 1 {
            let rest = parts.drop_first();
            assert forall|i: int| 0 <= i < rest.len() implies free_of(#[trigger] rest[i], c) by {
                assert(rest[i] == parts[i + 1]);
            }
            lemma_joined_free(rest, sep, c);
        }
    }
}

/// The text in a given option of a string.
pub open spec fn opt(s: Option<String>) -> Option<Seq<char>> {
    match s {
        Some(s) => Some(s@),
        None => None,
    }
}

/// A text, the empty one where there is none.
pub open spec fn or_empty(text: Option<Seq<char>>) -> Seq<char> {
    match text {
        Some(t) => t,
        None => Seq::empty(),
    }
}

/// The text in a given option of a string slice.
pub open spec fn opt_str(s: Option<&str>) -> Option<Seq<char>> {
    match s {
        Some(s) => Some(s@),
        None => None,
    }
}

/// A result with the text of its error.
pub open spec fn res<T>(r: Result<T, String>) -> Result<T, Seq<char>> {
    match r {
        Ok(t) => Ok(t),
        Err(e) => Err(e@),
    }
}

/// A result with the texts of its value and of its error.
pub open spec fn res_text(r: Result<String, String>) -> Result<Seq<char>, Seq<char>> {
    match r {
        Ok(t) => Ok(t@),
        Err(e) => Err(e@),
    }
}

/// What follows the last occurrence of a character is found behind it, and a text without the character
/// is its own last part.
pub proof fn last_part_is_found(base: Seq<char>, part: Seq<char>, c: char)
    requires
        free_of(part, c),
    ensures
        after_last(base + seq![c] + part, c) == part,
        after_last(part, c) == part,
    decreases part.len(),
{
    let s = base + seq![c] + part;
    if part.len() == 0 {
        assert(s.last() == c);
        assert(after_last(s, c) =~= part);
        assert(after_last(part, c) =~= part);
    } else {
        let front = part.drop_last();
        lemma_part_free(part, c, 0, part.len() - 1);
        last_part_is_found(base, front, c);
        assert(s.drop_last() =~= base + seq![c] + front);
        assert(s.last() == part.last());
        assert(part[part.len() - 1] != c);
        assert(front.push(part.last()) =~= part);
    }
}

/// The pieces of a text make it up, with the character between each two, and none of them holds it.
pub proof fn pieces_make_up_the_text(s: Seq<char>, c: char)
    ensures
        joined(pieces(s, c), seq![c]) == s,
        pieces(s, c).len() > 0,
        forall|i: int| 0 <= i < pieces(s, c).len() ==> free_of(#[trigger] pieces(s, c)[i], c),
    decreases s.len(),
{
    lemma_first_index(s, c);
    let n = first_index(s, c) as int;
    if n < s.len() {
        let rest = s.skip(n + 1);
        let parts = pieces(s, c);
        pieces_make_up_the_text(rest, c);
        assert(parts.drop_first() =~= pieces(rest, c));
        assert(s =~= s.take(n) + seq![c] + rest);
        assert forall|i: int| 0 <= i < parts.len() implies free_of(#[trigger] parts[i], c) by {
            if i > 0 {
                assert(parts[i] == pieces(rest, c)[i - 1]);
            }
        }
    }
}

/// The two sides of the first occurrence of a character make up the text with it, the first without
/// another; without an occurrence there are none.
pub proof fn halves_make_up_the_text(s: Seq<char>, c: char)
    ensures
        match halves(s, c) {
            Some((a, b)) => s == a + seq![c] + b && free_of(a, c),
            None => free_of(s, c),
        },
{
    lemma_first_index(s, c);
    let n = first_index(s, c) as int;
    if n < s.len() {
        assert(s =~= s.take(n) + seq![c] + s.skip(n + 1));
    }
}

/// Trimming takes white space away at both ends, all of it, and nothing else.
pub proof fn trimming_takes_white_space_alone(s: Seq<char>)
    ensures
        trimmed(s).len() > 0 ==> !is_white(trimmed(s)[0]) && !is_white(trimmed(s).last()),
        exists|i: int, j: int|
            {
                &&& 0 <= i <= j <= s.len()
                &&& trimmed(s) == #[trigger] s.subrange(i, j)
                &&& forall|k: int| 0 <= k < i || j <= k < s.len() ==> is_white(#[trigger] s[k])
            },
{
    lemma_trimmed_ends(s);
    let i = lemma_start_index(s);
    let t = s.skip(i);
    let n = lemma_end_index(t);
    assert(t.take(n) =~= s.subrange(i, i + n));
    assert forall|k: int| 0 <= k < i || i + n <= k < s.len() implies is_white(#[trigger] s[k]) by {
        if k >= i + n {
            assert(t[k - i] == s[k]);
        }
    }
}

proof fn lemma_start_index(s: Seq<char>) -> (i: int)
    ensures
        0 <= i <= s.len(),
        trimmed_start(s) == s.skip(i),
        forall|k: int| 0 <= k < i ==> is_white(#[trigger] s[k]),
    decreases s.len(),
{
    if s.len() > 0 && is_white(s[0]) {
        let rest = s.drop_first();
        let i = lemma_start_index(rest);
        assert(rest.skip(i) =~= s.skip(i + 1));
        assert forall|k: int| 0 <= k < i + 1 implies is_white(#[trigger] s[k]) by {
            if k > 0 {
                assert(rest[k - 1] == s[k]);
            }
        }
        i + 1
    } else {
        assert(s.skip(0) =~= s);
        0
    }
}

proof fn lemma_end_index(s: Seq<char>) -> (n: int)
    ensures
        0 <= n <= s.len(),
        trimmed_end(s) == s.take(n),
        forall|k: int| n <= k < s.len() ==> is_white(#[trigger] s[k]),
    decreases s.len(),
{
    if s.len() > 0 && is_white(s.last()) {
        let rest = s.drop_last();
        let n = lemma_end_index(rest);
        assert(rest.take(n) =~= s.take(n));
        assert forall|k: int| n <= k < s.len() implies is_white(#[trigger] s[k]) by {
            if k < rest.len() {
                assert(rest[k] == s[k]);
            }
        }
        n
    } else {
        assert(s.take(s.len() as int) =~= s);
        s.len() as int
    }
}

/// A text without white space at its ends is trimmed already.
pub proof fn lemma_trimmed_already(s: Seq<char>)
    requires
        s.len() > 0 ==> !is_white(s[0]) && !is_white(s.last()),
    ensures
        trimmed(s) == s,
{
}

/// A leading run of one character is taken off whole, and nothing behind it.
pub proof fn leading_run_is_taken_off(run: Seq<char>, rest: Seq<char>, c: char)
    requires
        forall|i: int| 0 <= i < run.len() ==> #[trigger] run[i] == c,
        rest.len() > 0 ==> rest[0] != c,
    ensures
        without_leading(run + rest, c) == rest,
    decreases run.len(),
{
    let s = run + rest;
    if run.len() == 0 {
        assert(s =~= rest);
    } else {
        assert(s[0] == run[0]);
        assert(s.drop_first() =~= run.drop_first() + rest);
        leading_run_is_taken_off(run.drop_first(), rest, c);
    }
}

/// What is left of a text without a leading run of one character begins with another.
pub proof fn lemma_leading_run(s: Seq<char>, c: char) -> (n: int)
    ensures
        0 <= n <= s.len(),
        without_leading(s, c) == s.skip(n),
        forall|i: int| 0 <= i < n ==> #[trigger] s[i] == c,
        n < s.len() ==> s[n] != c,
    decreases s.len(),
{
    if s.len() > 0 && s[0] == c {
        let rest = s.drop_first();
        let n = lemma_leading_run(rest, c);
        assert(rest.skip(n) =~= s.skip(n + 1));
        assert forall|i: int| 0 <= i < n + 1 implies #[trigger] s[i] == c by {
            if i > 0 {
                assert(rest[i - 1] == s[i]);
            }
        }
        if n < rest.len() {
            assert(rest[n] == s[n + 1]);
        }
        n + 1
    } else {
        assert(s.skip(0) =~= s);
        0
    }
}

/// A line is read up to its line feed, and the lines behind it follow.
pub proof fn first_line_is_read(line: Seq<char>, more: Seq<char>)
    requires
        free_of(line, '\n'),
        line.len() > 0 ==> line.last() != '\r',
    ensures
        lines_of(line + seq!['\n'] + more) == seq![line] + lines_of(more),
{
    let s = line + seq!['\n'] + more;
    let n = line.len() as int;
    assert(s[n] == '\n');
    assert forall|i: int| 0 <= i < n implies s[i] != '\n' by {
        assert(s[i] == line[i]);
    }
    lemma_is_first_index(s, '\n', n);
    assert(s.take(n) =~= line);
    assert(s.skip(n + 1) =~= more);
}

/// A text without a line feed is one line.
pub proof fn single_line_is_read(line: Seq<char>)
    requires
        free_of(line, '\n'),
        line.len() > 0,
    ensures
        lines_of(line) == seq![line],
{
    lemma_first_index(line, '\n');
    let n = first_index(line, '\n') as int;
    if n < line.len() {
        assert(line[n] != '\n');
    }
}

/// A word is read up to the white space behind it, and the words behind that follow.
pub proof fn first_word_is_read(word: Seq<char>, blank: char, more: Seq<char>)
    requires
        word.len() > 0,
        forall|i: int| 0 <= i < word.len() ==> !is_white(#[trigger] word[i]),
        is_white(blank),
    ensures
        words_of(word + seq![blank] + more) == seq![word] + words_of(more),
{
    let s = word + seq![blank] + more;
    let n = word.len() as int;
    lemma_word_len(s);
    let w = word_len(s) as int;
    assert(s[n] == blank);
    if w < n {
        assert(s[w] == word[w]);
    } else if w > n {
        assert(!is_white(s[n]));
    }
    assert(s.take(n) =~= word);
    let tail = s.skip(n);
    assert(tail =~= seq![blank] + more);
    assert(tail[0] == blank);
    assert(word_len(tail) == 0);
    assert(tail.drop_first() =~= more);
    assert(w == n);
    assert(words_of(s) == seq![word] + words_of(tail));
    assert(words_of(tail) == words_of(more));
}

/// A text is split at the first occurrence of a character, and its rest after that.
pub proof fn first_piece_is_split_off(a: Seq<char>, c: char, b: Seq<char>)
    requires
        free_of(a, c),
    ensures
        pieces(a + seq![c] + b, c) == seq![a] + pieces(b, c),
        pieces(a, c) == seq![a],
        halves(a + seq![c] + b, c) == Some((a, b)),
{
    let s = a + seq![c] + b;
    let n = a.len() as int;
    assert forall|i: int| 0 <= i < n implies s[i] != c by {
        assert(s[i] == a[i]);
    }
    assert(s[n] == c);
    lemma_is_first_index(s, c, n);
    assert(s.take(n) =~= a);
    assert(s.skip(n + 1) =~= b);
    lemma_first_index(a, c);
    let k = first_index(a, c) as int;
    if k < a.len() {
        assert(a[k] != c);
    }
}

/// Joined texts stand in their order, with the separator between each two and nowhere else.
pub proof fn joined_texts_stand_in_order(parts: Seq<Seq<char>>, part: Seq<char>, sep: Seq<char>)
    ensures
        joined(Seq::empty(), sep).len() == 0,
        joined(seq![part], sep) == part,
        parts.len() > 0 ==> joined(parts.push(part), sep) == joined(parts, sep) + sep + part,
    decreases parts.len(),
{
    let all = parts.push(part);
    if parts.len() == 1 {
        reveal_with_fuel(joined, 2);
        assert(all.drop_first() =~= seq![part]);
        assert(joined(all, sep) =~= joined(parts, sep) + sep + part);
    } else if parts.len() > 1 {
        let rest = parts.drop_first();
        joined_texts_stand_in_order(rest, part, sep);
        assert(all.drop_first() =~= rest.push(part));
        assert(joined(all, sep) =~= joined(parts, sep) + sep + part);
    }
}

/// Two texts that differ in the case of ASCII letters alone are equal ignoring case, and no others.
pub proof fn case_alone_is_ignored(a: Seq<char>, b: Seq<char>)
    ensures
        equal_ignoring_case(a, b) <==> {
            &&& a.len() == b.len()
            &&& forall|i: int|
                0 <= i < a.len() ==> {
                    ||| #[trigger] a[i] == b[i]
                    ||| 65 <= a[i] as int <= 90 && b[i] as int == a[i] as int + 32
                    ||| 65 <= b[i] as int <= 90 && a[i] as int == b[i] as int + 32
                }
        },
{
    assert forall|c: char, d: char| #[trigger] ascii_lower(c) == #[trigger] ascii_lower(d) <==> {
        ||| c == d
        ||| 65 <= c as int <= 90 && d as int == c as int + 32
        ||| 65 <= d as int <= 90 && c as int == d as int + 32
    } by {
        assert('A' <= c <= 'Z' ==> (c as u8) as int == c as int);
        assert('A' <= d <= 'Z' ==> (d as u8) as int == d as int);
    }
}

/// A trailing run of one character is taken off whole, and nothing before it.
pub proof fn trailing_run_is_taken_off(rest: Seq<char>, run: Seq<char>, c: char)
    requires
        forall|i: int| 0 <= i < run.len() ==> #[trigger] run[i] == c,
        rest.len() > 0 ==> rest.last() != c,
    ensures
        without_trailing(rest + run, c) == rest,
    decreases run.len(),
{
    let s = rest + run;
    if run.len() == 0 {
        assert(s =~= rest);
    } else {
        assert(s.last() == run.last());
        assert(s.drop_last() =~= rest + run.drop_last());
        trailing_run_is_taken_off(rest, run.drop_last(), c);
    }
}

/// A carriage return before the line feed belongs to the end of a line, not to the line.
pub proof fn return_ends_a_line(line: Seq<char>, more: Seq<char>)
    requires
        free_of(line, '\n'),
    ensures
        lines_of(line + seq!['\r', '\n'] + more) == seq![line] + lines_of(more),
{
    let s = line + seq!['\r', '\n'] + more;
    let n = line.len() as int;
    assert(s[n] == '\r');
    assert(s[n + 1] == '\n');
    assert forall|i: int| 0 <= i < n + 1 implies s[i] != '\n' by {
        if i < n {
            assert(s[i] == line[i]);
        }
    }
    lemma_is_first_index(s, '\n', n + 1);
    assert(s.take(n + 1).drop_last() =~= line);
    assert(s.take(n + 1).last() == '\r');
    assert(s.skip(n + 2) =~= more);
}

} // verus!
