//! Text as sequences of characters: trimming, lines and words.
use vstd::prelude::*;
use vstd::slice::slice_subrange;

verus! {

/// `String::push` appends the given character to the end of the string.
pub assume_specification[ String::push ](s: &mut String, c: char)
    ensures
        final(s)@ == old(s)@.push(c),
;

// ---------------------------------------------------------------------------
// Specifications
// ---------------------------------------------------------------------------

/// The characters with the Unicode property `White_Space`.
pub open spec fn is_white(c: char) -> bool {
    ||| '\u{9}' <= c <= '\u{d}'
    ||| c == '\u{20}'
    ||| c == '\u{85}'
    ||| c == '\u{a0}'
    ||| c == '\u{1680}'
    ||| '\u{2000}' <= c <= '\u{200a}'
    ||| c == '\u{2028}'
    ||| c == '\u{2029}'
    ||| c == '\u{202f}'
    ||| c == '\u{205f}'
    ||| c == '\u{3000}'
}

/// `s` without its leading white space.
pub open spec fn trimmed_start(s: Seq<char>) -> Seq<char>
    decreases s.len(),
{
    if s.len() > 0 && is_white(s.first()) {
        trimmed_start(s.skip(1))
    } else {
        s
    }
}

/// `s` without its trailing white space.
pub open spec fn trimmed_end(s: Seq<char>) -> Seq<char>
    decreases s.len(),
{
    if s.len() > 0 && is_white(s.last()) {
        trimmed_end(s.drop_last())
    } else {
        s
    }
}

/// `s` without the white space at either end.
pub open spec fn trimmed(s: Seq<char>) -> Seq<char> {
    trimmed_end(trimmed_start(s))
}

/// `s` without the copies of `c` at its end.
pub open spec fn without_trailing(s: Seq<char>, c: char) -> Seq<char>
    decreases s.len(),
{
    if s.len() > 0 && s.last() == c {
        without_trailing(s.drop_last(), c)
    } else {
        s
    }
}

/// The position of the first `c` in `s`, or the length of `s` if there is none.
pub open spec fn find(s: Seq<char>, c: char) -> nat
    decreases s.len(),
{
    if s.len() == 0 || s.first() == c {
        0
    } else {
        1 + find(s.skip(1), c)
    }
}

/// `s` without one carriage return at its end.
pub open spec fn without_return(s: Seq<char>) -> Seq<char> {
    if s.len() > 0 && s.last() == '\r' {
        s.drop_last()
    } else {
        s
    }
}

/// The lines of `s`. A line ends with `\n` or `\r\n`, which are not part of it;
/// the ending of the last line may be missing.
pub open spec fn lines_of(s: Seq<char>) -> Seq<Seq<char>>
    decreases s.len(),
{
    let i = find(s, '\n') as int;
    if s.len() == 0 {
        seq![]
    } else if i >= s.len() {
        seq![s]
    } else {
        seq![without_return(s.take(i))] + lines_of(s.skip(i + 1))
    }
}

/// The number of characters before the first white space in `s`.
pub open spec fn word_len(s: Seq<char>) -> nat
    decreases s.len(),
{
    if s.len() == 0 || is_white(s.first()) {
        0
    } else {
        1 + word_len(s.skip(1))
    }
}

/// The maximal runs of characters of `s` that are not white space.
pub open spec fn words_of(s: Seq<char>) -> Seq<Seq<char>>
    decreases s.len(),
{
    let t = trimmed_start(s);
    let n = word_len(t) as int;
    if t.len() == 0 {
        seq![]
    } else {
        proof {
            lemma_trimmed_start(s);
            lemma_word_len(t);
        }
        seq![t.take(n)] + words_of(t.skip(n))
    }
}

/// `parts` one after the other, with `sep` between each two of them.
pub open spec fn joined(parts: Seq<Seq<char>>, sep: char) -> Seq<char>
    decreases parts.len(),
{
    if parts.len() == 0 {
        seq![]
    } else if parts.len() == 1 {
        parts[0]
    } else {
        parts[0].push(sep) + joined(parts.skip(1), sep)
    }
}

// ---------------------------------------------------------------------------
// Lemmas
// ---------------------------------------------------------------------------

/// The start of a trimmed text is a suffix of the text that is empty or does
/// not begin with white space.
pub proof fn lemma_trimmed_start(s: Seq<char>)
    ensures
        trimmed_start(s).len() <= s.len(),
        trimmed_start(s) == s.skip(s.len() - trimmed_start(s).len()),
        trimmed_start(s).len() > 0 ==> !is_white(trimmed_start(s).first()),
    decreases s.len(),
{
    if s.len() > 0 && is_white(s.first()) {
        lemma_trimmed_start(s.skip(1));
        let n = trimmed_start(s).len();
        assert(s.skip(1).skip(s.len() - 1 - n) =~= s.skip(s.len() - n));
    } else {
        assert(s.skip(0) =~= s);
    }
}

/// The word at the start of a text holds no white space and ends where white
/// space begins or the text ends.
pub proof fn lemma_word_len(s: Seq<char>)
    ensures
        word_len(s) <= s.len(),
        s.len() > 0 && !is_white(s.first()) ==> word_len(s) > 0,
        forall|i: int| 0 <= i < word_len(s) ==> !is_white(#[trigger] s[i]),
        word_len(s) < s.len() ==> is_white(s[word_len(s) as int]),
    decreases s.len(),
{
    if s.len() > 0 && !is_white(s.first()) {
        lemma_word_len(s.skip(1));
        assert forall|i: int| 0 <= i < word_len(s) implies !is_white(#[trigger] s[i]) by {
            if i > 0 {
                assert(s[i] == s.skip(1)[i - 1]);
            }
        }
    }
}

/// `find` gives the first position of the character.
pub proof fn lemma_find(s: Seq<char>, c: char)
    ensures
        find(s, c) <= s.len(),
        forall|i: int| 0 <= i < find(s, c) ==> #[trigger] s[i] != c,
        find(s, c) < s.len() ==> s[find(s, c) as int] == c,
    decreases s.len(),
{
    if s.len() > 0 && s.first() != c {
        lemma_find(s.skip(1), c);
        assert forall|i: int| 0 <= i < find(s, c) implies #[trigger] s[i] != c by {
            if i > 0 {
                assert(s[i] == s.skip(1)[i - 1]);
            }
        }
    }
}

/// Where no earlier character is `c`, position `n` is what `find` gives.
pub proof fn lemma_find_is(s: Seq<char>, c: char, n: nat)
    requires
        n <= s.len(),
        forall|i: int| 0 <= i < n ==> #[trigger] s[i] != c,
        n < s.len() ==> s[n as int] == c,
    ensures
        find(s, c) == n,
{
    lemma_find(s, c);
    if find(s, c) < n {
        assert(s[find(s, c) as int] != c);
    }
}

/// Trimming the end leaves a prefix that is empty or does not end with white
/// space.
pub proof fn lemma_trimmed_end(s: Seq<char>)
    ensures
        trimmed_end(s).len() <= s.len(),
        trimmed_end(s) == s.take(trimmed_end(s).len() as int),
        trimmed_end(s).len() > 0 ==> !is_white(trimmed_end(s).last()),
        s.len() > 0 && !is_white(s.first()) ==> trimmed_end(s).len() > 0,
    decreases s.len(),
{
    if s.len() > 0 && is_white(s.last()) {
        lemma_trimmed_end(s.drop_last());
        let n = trimmed_end(s).len() as int;
        assert(s.drop_last().take(n) =~= s.take(n));
    } else {
        assert(s.take(s.len() as int) =~= s);
    }
}

/// A trimmed text is empty or has no white space at either end.
pub proof fn lemma_trimmed(s: Seq<char>)
    ensures
        trimmed(s).len() > 0 ==> !is_white(trimmed(s).first()) && !is_white(trimmed(s).last()),
{
    lemma_trimmed_start(s);
    lemma_trimmed_end(trimmed_start(s));
}

/// Trimming a second time changes nothing.
pub proof fn trimming_is_idempotent(s: Seq<char>)
    ensures
        trimmed(trimmed(s)) == trimmed(s),
{
    lemma_trimmed(s);
}

/// Removing trailing copies of a character leaves a prefix that is empty or
/// ends with another character.
pub proof fn lemma_without_trailing(s: Seq<char>, c: char)
    ensures
        without_trailing(s, c).len() <= s.len(),
        without_trailing(s, c) == s.take(without_trailing(s, c).len() as int),
        without_trailing(s, c).len() > 0 ==> without_trailing(s, c).last() != c,
    decreases s.len(),
{
    if s.len() > 0 && s.last() == c {
        lemma_without_trailing(s.drop_last(), c);
        let n = without_trailing(s, c).len() as int;
        assert(s.drop_last().take(n) =~= s.take(n));
    } else {
        assert(s.take(s.len() as int) =~= s);
    }
}

/// A line with its `\n` in front of a text is the first of that text's lines.
pub proof fn lemma_lines_cons(line: Seq<char>, rest: Seq<char>)
    requires
        !line.contains('\n'),
    ensures
        lines_of(line.push('\n') + rest) == seq![without_return(line)] + lines_of(rest),
{
    let s = line.push('\n') + rest;
    assert forall|i: int| 0 <= i < line.len() implies #[trigger] s[i] != '\n' by {
        assert(line.contains(line[i]));
    }
    lemma_find_is(s, '\n', line.len());
    assert(s.take(line.len() as int) =~= line);
    assert(s.skip(line.len() as int + 1) =~= rest);
}

/// A word with white space behind it is the first of the text's words.
pub proof fn lemma_words_cons(word: Seq<char>, white: char, rest: Seq<char>)
    requires
        word.len() > 0,
        forall|i: int| 0 <= i < word.len() ==> !is_white(#[trigger] word[i]),
        is_white(white),
    ensures
        words_of(word.push(white) + rest) == seq![word] + words_of(rest),
{
    let s = word.push(white) + rest;
    assert(s.first() == word[0]);
    assert(trimmed_start(s) == s);
    lemma_word_len(s);
    let n = word_len(s) as int;
    if n < word.len() {
        assert(s[n] == word[n]);
    }
    if n > word.len() {
        assert(s[word.len() as int] == white);
    }
    assert(s.take(n) =~= word);
    let t = s.skip(n);
    assert(t.first() == white);
    assert(t.skip(1) =~= rest);
    assert(trimmed_start(t) == trimmed_start(rest));
    assert(words_of(t) == words_of(rest));
}

// ---------------------------------------------------------------------------
// Functions
// ---------------------------------------------------------------------------

/// The characters of `s`.
pub fn chars_of(s: &str) -> (r: Vec<char>)
    ensures
        r@ == s@,
{
    let mut out: Vec<char> = Vec::new();
    for c in it: s.chars()
        invariant
            it.seq() == s@,
            out@ == it.seq().take(it.index()),
    {
        out.push(c);
    }
    out
}

/// The string with the given characters.
pub fn string_of(s: &[char]) -> (r: String)
    ensures
        r@ == s@,
{
    let mut out = String::new();
    let mut i: usize = 0;
    while i < s.len()
        invariant
            i <= s@.len(),
            out@ == s@.take(i as int),
        decreases s@.len() - i,
    {
        out.push(s[i]);
        i += 1;
    }
    assert(s@.take(i as int) =~= s@);
    out
}

/// Whether `c` is white space.
pub fn is_white_space(c: char) -> (r: bool)
    ensures
        r == is_white(c),
{
    ('\u{9}' <= c && c <= '\u{d}') || c == '\u{20}' || c == '\u{85}' || c == '\u{a0}' || c
        == '\u{1680}' || ('\u{2000}' <= c && c <= '\u{200a}') || c == '\u{2028}' || c == '\u{2029}'
        || c == '\u{202f}' || c == '\u{205f}' || c == '\u{3000}'
}

/// `s` without the white space at either end.
pub fn trim(s: &[char]) -> (r: &[char])
    ensures
        r@ == trimmed(s@),
{
    let t = trim_start(s);
    let mut n: usize = t.len();
    assert(t@.take(n as int) =~= t@);
    while n > 0 && is_white_space(t[n - 1])
        invariant
            n <= t@.len(),
            trimmed_end(t@.take(n as int)) == trimmed_end(t@),
        decreases n,
    {
        assert(t@.take(n as int).drop_last() =~= t@.take(n - 1));
        n -= 1;
    }
    slice_subrange(t, 0, n)
}

/// `s` without its leading white space.
pub fn trim_start(s: &[char]) -> (r: &[char])
    ensures
        r@ == trimmed_start(s@),
{
    let mut n: usize = 0;
    assert(s@.skip(0) =~= s@);
    while n < s.len() && is_white_space(s[n])
        invariant
            n <= s@.len(),
            trimmed_start(s@.skip(n as int)) == trimmed_start(s@),
        decreases s@.len() - n,
    {
        assert(s@.skip(n as int).skip(1) =~= s@.skip(n + 1));
        n += 1;
    }
    slice_subrange(s, n, s.len())
}

/// `s`, as a string, without the white space at either end.
pub fn trimmed_string(s: &str) -> (r: String)
    ensures
        r@ == trimmed(s@),
{
    string_of(trim(chars_of(s).as_slice()))
}

/// `s` without the copies of `c` at its end.
pub fn trim_end_matches(s: &[char], c: char) -> (r: &[char])
    ensures
        r@ == without_trailing(s@, c),
{
    let mut n: usize = s.len();
    assert(s@.take(n as int) =~= s@);
    while n > 0 && s[n - 1] == c
        invariant
            n <= s@.len(),
            without_trailing(s@.take(n as int), c) == without_trailing(s@, c),
        decreases n,
    {
        assert(s@.take(n as int).drop_last() =~= s@.take(n - 1));
        n -= 1;
    }
    slice_subrange(s, 0, n)
}

/// The position of the first `c` in `s`, or the length of `s` if there is none.
pub fn position(s: &[char], c: char) -> (r: usize)
    ensures
        r == find(s@, c),
{
    let mut n: usize = 0;
    assert(s@.skip(0) =~= s@);
    while n < s.len() && s[n] != c
        invariant
            n <= s@.len(),
            find(s@, c) == n + find(s@.skip(n as int), c),
        decreases s@.len() - n,
    {
        assert(s@.skip(n as int).skip(1) =~= s@.skip(n + 1));
        n += 1;
    }
    n
}

/// The lines of `s`.
pub fn lines(s: &[char]) -> (r: Vec<&[char]>)
    ensures
        r@.map_values(|l: &[char]| l@) == lines_of(s@),
{
    let ghost contents = |l: &[char]| l@;
    let mut out: Vec<&[char]> = Vec::new();
    let mut rest = s;
    assert(out@.map_values(contents) + lines_of(rest@) =~= lines_of(s@));
    while rest.len() > 0
        invariant
            contents == (|l: &[char]| l@),
            out@.map_values(contents) + lines_of(rest@) == lines_of(s@),
        decreases rest@.len(),
    {
        let ghost before = out@.map_values(contents);
        let ghost left = rest@;
        let n = position(rest, '\n');
        proof {
            lemma_find(rest@, '\n');
        }
        let line;
        if n < rest.len() {
            line = drop_return(slice_subrange(rest, 0, n));
            assert(left.subrange(0, n as int) =~= left.take(n as int));
            rest = slice_subrange(rest, n + 1, rest.len());
            assert(rest@ =~= left.skip(n + 1));
            assert(lines_of(left) == seq![line@] + lines_of(rest@));
        } else {
            line = rest;
            rest = slice_subrange(rest, n, n);
            assert(lines_of(left) =~= seq![line@] + lines_of(rest@));
        }
        out.push(line);
        assert(out@.map_values(contents) =~= before.push(line@));
        assert(before.push(line@) + lines_of(rest@) =~= before + (seq![line@] + lines_of(rest@)));
    }
    assert(out@.map_values(contents) + lines_of(rest@) =~= out@.map_values(contents));
    out
}

/// `s` without one carriage return at its end.
fn drop_return(s: &[char]) -> (r: &[char])
    ensures
        r@ == without_return(s@),
{
    if s.len() > 0 && s[s.len() - 1] == '\r' {
        slice_subrange(s, 0, s.len() - 1)
    } else {
        s
    }
}

/// The maximal runs of characters of `s` that are not white space.
pub fn split_whitespace(s: &[char]) -> (r: Vec<&[char]>)
    ensures
        r@.map_values(|w: &[char]| w@) == words_of(s@),
{
    let ghost contents = |w: &[char]| w@;
    let mut out: Vec<&[char]> = Vec::new();
    let mut rest = trim_start(s);
    proof {
        lemma_trimmed_start(s@);
        assert(trimmed_start(rest@) == rest@);
        assert(words_of(rest@) == words_of(s@));
        assert(out@.map_values(contents) + words_of(rest@) =~= words_of(s@));
    }
    while rest.len() > 0
        invariant
            contents == (|w: &[char]| w@),
            trimmed_start(rest@) == rest@,
            rest@.len() > 0 ==> !is_white(rest@.first()),
            out@.map_values(contents) + words_of(rest@) == words_of(s@),
        decreases rest@.len(),
    {
        let ghost before = out@.map_values(contents);
        let ghost left = rest@;
        let n = word_end(rest);
        proof {
            lemma_word_len(rest@);
        }
        let word = slice_subrange(rest, 0, n);
        rest = trim_start(slice_subrange(rest, n, rest.len()));
        out.push(word);
        proof {
            assert(word@ =~= left.take(n as int));
            assert(left.subrange(n as int, left.len() as int) =~= left.skip(n as int));
            lemma_trimmed_start(left.skip(n as int));
            assert(trimmed_start(rest@) == rest@);
            assert(words_of(rest@) == words_of(left.skip(n as int)));
            assert(words_of(left) == seq![word@] + words_of(rest@));
            assert(out@.map_values(contents) =~= before.push(word@));
            assert(before.push(word@) + words_of(rest@) =~= before + (seq![word@] + words_of(
                rest@,
            )));
        }
    }
    assert(out@.map_values(contents) + words_of(rest@) =~= out@.map_values(contents));
    out
}

/// The number of characters before the first white space in `s`.
fn word_end(s: &[char]) -> (r: usize)
    ensures
        r == word_len(s@),
{
    let mut n: usize = 0;
    assert(s@.skip(0) =~= s@);
    while n < s.len() && !is_white_space(s[n])
        invariant
            n <= s@.len(),
            word_len(s@) == n + word_len(s@.skip(n as int)),
        decreases s@.len() - n,
    {
        assert(s@.skip(n as int).skip(1) =~= s@.skip(n + 1));
        n += 1;
    }
    n
}

/// Whether `a` and `b` hold the same characters.
pub fn same_chars(a: &[char], b: &[char]) -> (r: bool)
    ensures
        r == (a@ == b@),
{
    if a.len() != b.len() {
        return false;
    }
    let mut i: usize = 0;
    while i < a.len()
        invariant
            i <= a@.len(),
            a@.len() == b@.len(),
            forall|j: int| 0 <= j < i ==> a@[j] == b@[j],
        decreases a@.len() - i,
    {
        if a[i] != b[i] {
            return false;
        }
        i += 1;
    }
    assert(a@ =~= b@);
    true
}

// ---------------------------------------------------------------------------
// Laws
// ---------------------------------------------------------------------------

/// Whether `s` consists of white space.
pub open spec fn all_white(s: Seq<char>) -> bool {
    forall|i: int| 0 <= i < s.len() ==> is_white(#[trigger] s[i])
}

/// Whether `s` holds no white space.
pub open spec fn no_white(s: Seq<char>) -> bool {
    forall|i: int| 0 <= i < s.len() ==> !is_white(#[trigger] s[i])
}

/// A text with white space before and after it.
pub struct Padded {
    pub before: Seq<char>,
    pub text: Seq<char>,
    pub after: Seq<char>,
}

impl Padded {
    /// Whether the padding is white space, and all of it.
    pub open spec fn is_valid(self) -> bool {
        &&& all_white(self.before)
        &&& all_white(self.after)
        &&& self.text.len() > 0 ==> !is_white(self.text.first()) && !is_white(self.text.last())
    }

    /// The text together with its padding.
    pub open spec fn whole(self) -> Seq<char> {
        self.before + self.text + self.after
    }
}

/// Trimming takes exactly the white space around a text away.
pub proof fn trimming_removes_the_padding(p: Padded)
    requires
        p.is_valid(),
    ensures
        trimmed(p.whole()) == p.text,
{
    let rest = p.text + p.after;
    assert(p.whole() =~= p.before + rest);
    lemma_trimmed_start_skips(p.before, rest);
    if p.text.len() > 0 {
        assert(rest.first() == p.text.first());
        assert(trimmed_start(rest) == rest);
        lemma_trimmed_end_skips(p.text, p.after);
        assert(trimmed_end(p.text) == p.text);
    } else {
        assert(rest =~= p.after + Seq::<char>::empty());
        lemma_trimmed_start_skips(p.after, Seq::empty());
        assert(p.text =~= Seq::<char>::empty());
    }
}

/// Every text is one with white space around it.
pub proof fn every_text_is_padded(s: Seq<char>) -> (p: Padded)
    ensures
        p.is_valid(),
        p.whole() == s,
        p.text == trimmed(s),
    decreases s.len(),
{
    let p = if s.len() > 0 && is_white(s.first()) {
        let q = every_text_is_padded(s.skip(1));
        let p = Padded { before: seq![s.first()] + q.before, text: q.text, after: q.after };
        assert(p.whole() =~= seq![s.first()] + q.whole());
        assert(seq![s.first()] + s.skip(1) =~= s);
        p
    } else if s.len() > 0 && is_white(s.last()) {
        let q = every_text_is_padded(s.drop_last());
        let p = Padded { before: q.before, text: q.text, after: q.after.push(s.last()) };
        assert(p.whole() =~= q.whole().push(s.last()));
        assert(s.drop_last().push(s.last()) =~= s);
        p
    } else {
        let p = Padded { before: seq![], text: s, after: seq![] };
        assert(p.whole() =~= s);
        p
    };
    trimming_removes_the_padding(p);
    p
}

/// Leading white space does not count.
proof fn lemma_trimmed_start_skips(white: Seq<char>, s: Seq<char>)
    requires
        all_white(white),
    ensures
        trimmed_start(white + s) == trimmed_start(s),
    decreases white.len(),
{
    if white.len() == 0 {
        assert(white + s =~= s);
    } else {
        assert((white + s).first() == white[0]);
        assert((white + s).skip(1) =~= white.skip(1) + s);
        lemma_trimmed_start_skips(white.skip(1), s);
    }
}

/// Trailing white space does not count.
proof fn lemma_trimmed_end_skips(s: Seq<char>, white: Seq<char>)
    requires
        all_white(white),
    ensures
        trimmed_end(s + white) == trimmed_end(s),
    decreases white.len(),
{
    if white.len() == 0 {
        assert(s + white =~= s);
    } else {
        assert((s + white).last() == white.last());
        assert((s + white).drop_last() =~= s + white.drop_last());
        assert(all_white(white.drop_last()));
        lemma_trimmed_end_skips(s, white.drop_last());
    }
}

/// Exactly the copies of a character at the end of a text are taken away.
pub proof fn trailing_copies_are_removed(s: Seq<char>, copies: Seq<char>, c: char)
    requires
        s.len() > 0 ==> s.last() != c,
        forall|i: int| 0 <= i < copies.len() ==> #[trigger] copies[i] == c,
    ensures
        without_trailing(s + copies, c) == s,
    decreases copies.len(),
{
    if copies.len() == 0 {
        assert(s + copies =~= s);
    } else {
        assert((s + copies).last() == copies.last());
        assert((s + copies).drop_last() =~= s + copies.drop_last());
        trailing_copies_are_removed(s, copies.drop_last(), c);
    }
}

/// A line ends at `\n` or at `\r\n`, and what follows is split in the same way.
/// A text without a line end is one line, unless it is empty.
pub proof fn lines_end_at_line_ends(line: Seq<char>, rest: Seq<char>)
    requires
        !line.contains('\n'),
    ensures
        lines_of(line + seq!['\r', '\n'] + rest) == seq![line] + lines_of(rest),
        line.len() == 0 || line.last() != '\r' ==> lines_of(line + seq!['\n'] + rest)
            == seq![line] + lines_of(rest),
        line.len() > 0 ==> lines_of(line) == seq![line],
        lines_of(Seq::empty()) == Seq::<Seq<char>>::empty(),
{
    let with_return = line.push('\r');
    if with_return.contains('\n') {
        let i = choose|i: int| 0 <= i < with_return.len() && with_return[i] == '\n';
        assert(line[i] == '\n');
    }
    lemma_lines_cons(with_return, rest);
    assert(with_return.push('\n') + rest =~= line + seq!['\r', '\n'] + rest);
    assert(with_return.drop_last() =~= line);
    lemma_lines_cons(line, rest);
    assert(line.push('\n') + rest =~= line + seq!['\n'] + rest);
    assert forall|i: int| 0 <= i < line.len() implies #[trigger] line[i] != '\n' by {
        assert(line.contains(line[i]));
    }
    lemma_find_is(line, '\n', line.len());
}

/// White space separates words and is no part of them: before the first word,
/// between words and behind the last, however much there is.
pub proof fn words_are_separated_by_white_space(
    white: Seq<char>,
    word: Seq<char>,
    separator: char,
    rest: Seq<char>,
)
    requires
        all_white(white),
        no_white(word),
        word.len() > 0,
        is_white(separator),
    ensures
        words_of(white) == Seq::<Seq<char>>::empty(),
        words_of(white + rest) == words_of(rest),
        words_of(word) == seq![word],
        words_of(word + seq![separator] + rest) == seq![word] + words_of(rest),
        words_of(rest + white) == words_of(rest),
{
    lemma_trimmed_start_skips(white, rest);
    assert(words_of(white + rest) == words_of(rest));
    assert(white + Seq::<char>::empty() =~= white);
    lemma_trimmed_start_skips(white, Seq::empty());
    assert(words_of(white) =~= seq![]);
    lemma_words_cons(word, separator, rest);
    assert(word.push(separator) + rest =~= word + seq![separator] + rest);
    lemma_words_cons(word, separator, Seq::empty());
    assert(word.push(separator) + Seq::<char>::empty() =~= word.push(separator));
    lemma_words_push(word, separator);
    assert(seq![word] + words_of(Seq::empty()) =~= seq![word]);
    lemma_words_add_white(rest, white);
}

/// White space behind a text adds no word.
proof fn lemma_words_add_white(s: Seq<char>, white: Seq<char>)
    requires
        all_white(white),
    ensures
        words_of(s + white) == words_of(s),
    decreases white.len(),
{
    if white.len() == 0 {
        assert(s + white =~= s);
    } else {
        assert(s + white =~= (s + white.drop_last()).push(white.last()));
        assert(all_white(white.drop_last()));
        lemma_words_add_white(s, white.drop_last());
        lemma_words_push(s + white.drop_last(), white.last());
    }
}

/// One white space character behind a text adds no word.
proof fn lemma_words_push(s: Seq<char>, white: char)
    requires
        is_white(white),
    ensures
        words_of(s.push(white)) == words_of(s),
    decreases s.len(),
{
    let t = trimmed_start(s);
    lemma_trimmed_start(s);
    lemma_trimmed_start_push(s, white);
    if t.len() == 0 {
        assert(words_of(s) =~= seq![]);
        assert(words_of(s.push(white)) =~= seq![]);
    } else {
        let u = t.push(white);
        let n = word_len(t) as int;
        lemma_word_len(t);
        lemma_word_len(u);
        let m = word_len(u) as int;
        if m < n {
            assert(u[m] == t[m]);
        }
        if m > n {
            assert(n < t.len() ==> u[n] == t[n]);
            assert(n == t.len() ==> u[n] == white);
        }
        assert(u.take(n) =~= t.take(n));
        assert(u.skip(n) =~= t.skip(n).push(white));
        lemma_words_push(t.skip(n), white);
    }
}

/// What is left at the start when white space was added at the end.
proof fn lemma_trimmed_start_push(s: Seq<char>, white: char)
    requires
        is_white(white),
    ensures
        trimmed_start(s).len() > 0 ==> trimmed_start(s.push(white)) == trimmed_start(s).push(white),
        trimmed_start(s).len() == 0 ==> trimmed_start(s.push(white)) == Seq::<char>::empty(),
    decreases s.len(),
{
    if s.len() == 0 {
        assert(s.push(white).skip(1) =~= Seq::<char>::empty());
        assert(trimmed_start(s.push(white)) == trimmed_start(s.push(white).skip(1)));
    } else {
        assert(s.push(white).first() == s.first());
        assert(s.push(white).skip(1) =~= s.skip(1).push(white));
        if is_white(s.first()) {
            lemma_trimmed_start_push(s.skip(1), white);
        }
    }
}

} // verus!
