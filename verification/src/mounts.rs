//! The kernel's table of mounts: its escapes, and whether a directory is a
//! mount point in it.
use vstd::prelude::*;

use crate::text::{
    all_white, chars_of, is_white, lemma_lines_cons, lemma_without_trailing, lemma_words_cons,
    lines, lines_end_at_line_ends, lines_of, no_white, same_chars, split_whitespace,
    trim_end_matches, without_return, without_trailing, words_are_separated_by_white_space,
    words_of,
};

verus! {

/// The file in which the kernel lists the mounts.
pub const MOUNTS_FILE: &'static str = "/proc/mounts";

/// `char::from_u32` gives the character with the code point `i`, and nothing
/// where `i` is no Unicode scalar value.
pub assume_specification[ char::from_u32 ](i: u32) -> (r: Option<char>)
    ensures
        r is Some <==> (i <= 0xd7ff || 0xe000 <= i <= 0x10ffff),
        r matches Some(c) ==> c == i as char,
;

// ---------------------------------------------------------------------------
// Specifications
// ---------------------------------------------------------------------------

/// The octal digits.
pub open spec fn is_octal(c: char) -> bool {
    '0' <= c <= '7'
}

/// The number that three octal digits stand for.
pub open spec fn octal_value(a: char, b: char, c: char) -> int {
    (a as int - '0' as int) * 64 + (b as int - '0' as int) * 8 + (c as int - '0' as int)
}

/// Whether `s` starts with a backslash and three octal digits.
pub open spec fn starts_with_escape(s: Seq<char>) -> bool {
    s.len() >= 4 && s[0] == '\\' && is_octal(s[1]) && is_octal(s[2]) && is_octal(s[3])
}

/// `s` with each `\NNN` replaced by the character of that octal number. A
/// backslash that starts no such escape stays, together with the three
/// characters behind it, as far as there are so many.
pub open spec fn decoded(s: Seq<char>) -> Seq<char>
    decreases s.len(),
{
    if s.len() == 0 {
        seq![]
    } else if s[0] != '\\' {
        seq![s[0]] + decoded(s.skip(1))
    } else if starts_with_escape(s) {
        seq![octal_value(s[1], s[2], s[3]) as char] + decoded(s.skip(4))
    } else if s.len() <= 4 {
        s
    } else {
        s.take(4) + decoded(s.skip(4))
    }
}

/// Whether a line of the table lists `mount_point`: its second word is that
/// path, apart from escapes and from slashes at the end.
pub open spec fn lists(line: Seq<char>, mount_point: Seq<char>) -> bool {
    words_of(line).len() > 1 && without_trailing(decoded(words_of(line)[1]), '/')
        == without_trailing(mount_point, '/')
}

/// Whether some line of the table lists `mount_point`.
pub open spec fn mounted_in(table: Seq<char>, mount_point: Seq<char>) -> bool {
    exists|i: int|
        0 <= i < lines_of(table).len() && lists(#[trigger] lines_of(table)[i], mount_point)
}

// ---------------------------------------------------------------------------
// Functions
// ---------------------------------------------------------------------------

/// Replaces the `\NNN` octal escapes of a path in the mount table.
pub fn decode_proc_path(s: &str) -> (r: String)
    ensures
        r@ == decoded(s@),
{
    decode_chars(chars_of(s).as_slice())
}

/// Whether `c` is an octal digit.
fn is_octal_digit(c: char) -> (r: bool)
    ensures
        r == is_octal(c),
{
    '0' <= c && c <= '7'
}

/// Replaces the `\NNN` octal escapes of the given characters.
fn decode_chars(s: &[char]) -> (r: String)
    ensures
        r@ == decoded(s@),
{
    let mut out = String::new();
    let mut i: usize = 0;
    assert(s@.skip(0) =~= s@);
    assert(out@ + decoded(s@) =~= decoded(s@));
    while i < s.len()
        invariant
            i <= s@.len(),
            out@ + decoded(s@.skip(i as int)) == decoded(s@),
        decreases s@.len() - i,
    {
        let ghost left = s@.skip(i as int);
        let ghost before = out@;
        if s[i] != '\\' {
            out.push(s[i]);
            i += 1;
            proof {
                assert(left.skip(1) =~= s@.skip(i as int));
                assert(before + (seq![left[0]] + decoded(left.skip(1))) =~= out@ + decoded(
                    left.skip(1),
                ));
            }
        } else if s.len() - i >= 4 && is_octal_digit(s[i + 1]) && is_octal_digit(s[i + 2])
            && is_octal_digit(s[i + 3]) {
            let n: u32 = (s[i + 1] as u32 - '0' as u32) * 64 + (s[i + 2] as u32 - '0' as u32) * 8
                + (s[i + 3] as u32 - '0' as u32);
            assert(left[1] == s@[i + 1] && left[2] == s@[i + 2] && left[3] == s@[i + 3]);
            assert(n == octal_value(left[1], left[2], left[3]));
            if let Some(c) = char::from_u32(n) {
                out.push(c);
            }
            i += 4;
            proof {
                assert(starts_with_escape(left));
                assert(left.skip(4) =~= s@.skip(i as int));
                let c = octal_value(left[1], left[2], left[3]) as char;
                assert(out@ == before.push(c));
                assert(before + (seq![c] + decoded(left.skip(4))) =~= out@ + decoded(left.skip(4)));
            }
        } else {
            let n: usize = if s.len() - i >= 4 { 4 } else { s.len() - i };
            let end: usize = i + n;
            proof {
                assert(before + decoded(left) =~= out@ + left.take(0) + decoded(left));
                if left.len() <= 4 {
                    assert(decoded(left.skip(n as int)) =~= seq![]);
                    assert(decoded(left) =~= left.take(n as int) + decoded(left.skip(n as int)));
                }
            }
            while i < end
                invariant
                    n <= end <= s@.len(),
                    end - n <= i <= end,
                    left == s@.skip(end - n),
                    out@ == before + left.take(i - (end - n)),
                decreases end - i,
            {
                assert(left[i - (end - n)] == s@[i as int]);
                out.push(s[i]);
                i += 1;
                assert(before + left.take(i - (end - n)) =~= out@);
            }
            proof {
                assert(left.skip(n as int) =~= s@.skip(i as int));
                assert(before + (left.take(n as int) + decoded(left.skip(n as int))) =~= out@
                    + decoded(left.skip(n as int)));
            }
        }
    }
    assert(s@.skip(i as int) =~= seq![]);
    assert(out@ + decoded(s@.skip(i as int)) =~= out@);
    out
}

/// Whether `mount_point` is mounted according to the table of mounts, or
/// `None` if the table could not be read.
pub fn is_mounted(mount_point: &str, table: Option<&str>) -> (r: Option<bool>)
    ensures
        r == (match table {
            Some(table) => Some(mounted_in(table@, mount_point@)),
            None => None,
        }),
{
    match table {
        Some(table) => Some(is_listed(mount_point, table)),
        None => None,
    }
}

/// Whether some line of the table lists `mount_point`.
fn is_listed(mount_point: &str, table: &str) -> (r: bool)
    ensures
        r == mounted_in(table@, mount_point@),
{
    let wanted = chars_of(mount_point);
    let mp = trim_end_matches(wanted.as_slice(), '/');
    let content = chars_of(table);
    let rows = lines(content.as_slice());
    let ghost all = lines_of(table@);
    let mut i: usize = 0;
    while i < rows.len()
        invariant
            i <= rows@.len(),
            mp@ == without_trailing(mount_point@, '/'),
            all == lines_of(table@),
            rows@.map_values(|l: &[char]| l@) == all,
            forall|j: int| 0 <= j < i ==> !lists(#[trigger] all[j], mount_point@),
        decreases rows@.len() - i,
    {
        let row = rows[i];
        assert(all[i as int] == row@);
        let words = split_whitespace(row);
        if words.len() > 1 {
            let raw = words[1];
            assert(words_of(row@)[1] == raw@);
            let path = decode_chars(raw);
            let path_chars = chars_of(path.as_str());
            if same_chars(trim_end_matches(path_chars.as_slice(), '/'), mp) {
                assert(lists(all[i as int], mount_point@));
                return true;
            }
        }
        i += 1;
    }
    false
}

// ---------------------------------------------------------------------------
// Laws
// ---------------------------------------------------------------------------

/// The octal digit of the number `n`.
pub open spec fn octal_digit(n: int) -> char {
    ('0' as int + n) as char
}

/// The escape `\NNN` of a character.
pub open spec fn escape(c: char) -> Seq<char> {
    let n = c as int;
    seq!['\\', octal_digit(n / 64), octal_digit(n / 8 % 8), octal_digit(n % 8)]
}

/// A path as the kernel writes it, with an escape for each character in
/// `special`.
pub open spec fn encoded(path: Seq<char>, special: Set<char>) -> Seq<char>
    decreases path.len(),
{
    if path.len() == 0 {
        seq![]
    } else if special.contains(path[0]) {
        escape(path[0]) + encoded(path.skip(1), special)
    } else {
        seq![path[0]] + encoded(path.skip(1), special)
    }
}

/// A set of characters that three octal digits can stand for, with the
/// backslash among them.
pub open spec fn is_escape_set(special: Set<char>) -> bool {
    special.contains('\\') && forall|c: char| #[trigger] special.contains(c) ==> (c as int) < 512
}

/// An escape is a backslash and three octal digits for the character.
proof fn lemma_escape(c: char)
    requires
        (c as int) < 512,
    ensures
        starts_with_escape(escape(c)),
        octal_value(escape(c)[1], escape(c)[2], escape(c)[3]) == c as int,
        forall|i: int| 0 <= i < 4 ==> !is_white(#[trigger] escape(c)[i]),
{
    let n = c as int;
    assert(0 <= n / 64 < 8 && 0 <= n / 8 % 8 < 8 && 0 <= n % 8 < 8);
    assert forall|d: int| 0 <= d < 8 implies is_octal(#[trigger] octal_digit(d)) && octal_digit(
        d,
    ) as int == '0' as int + d by {}
    assert(n == (n / 64) * 64 + (n / 8 % 8) * 8 + n % 8);
    let e = escape(c);
    assert(is_octal(e[1]) && is_octal(e[2]) && is_octal(e[3]));
}

/// Decoding gives back every path that the kernel wrote, whichever characters
/// it escapes, as long as the backslash is one of them.
pub proof fn decoding_undoes_encoding(path: Seq<char>, special: Set<char>)
    requires
        is_escape_set(special),
    ensures
        decoded(encoded(path, special)) == path,
    decreases path.len(),
{
    if path.len() > 0 {
        let rest = encoded(path.skip(1), special);
        let s = encoded(path, special);
        decoding_undoes_encoding(path.skip(1), special);
        if special.contains(path[0]) {
            let e = escape(path[0]);
            lemma_escape(path[0]);
            assert(s[0] == e[0] && s[1] == e[1] && s[2] == e[2] && s[3] == e[3]);
            assert(starts_with_escape(s));
            assert(s.skip(4) =~= rest);
        } else {
            assert(s.skip(1) =~= rest);
        }
        assert(seq![path[0]] + path.skip(1) =~= path);
    }
}

/// What an escaped path holds: neither white space nor the end of a line, if
/// all the white space of the path is escaped.
proof fn lemma_encoded_is_a_word(path: Seq<char>, special: Set<char>)
    requires
        is_escape_set(special),
        path.len() > 0,
        forall|i: int|
            0 <= i < path.len() && is_white(#[trigger] path[i]) ==> special.contains(path[i]),
    ensures
        encoded(path, special).len() > 0,
        forall|i: int|
            0 <= i < encoded(path, special).len() ==> !is_white(
                #[trigger] encoded(path, special)[i],
            ),
    decreases path.len(),
{
    let s = encoded(path, special);
    let rest = encoded(path.skip(1), special);
    if path.len() > 1 {
        assert forall|i: int|
            0 <= i < path.skip(1).len() && is_white(
                #[trigger] path.skip(1)[i],
            ) implies special.contains(path.skip(1)[i]) by {
            assert(path.skip(1)[i] == path[i + 1]);
        }
        lemma_encoded_is_a_word(path.skip(1), special);
    }
    let k: int = if special.contains(path[0]) { 4 } else { 1 };
    if special.contains(path[0]) {
        lemma_escape(path[0]);
    }
    assert forall|i: int| 0 <= i < s.len() implies !is_white(#[trigger] s[i]) by {
        if i >= k {
            assert(s[i] == rest[i - k]);
        } else if special.contains(path[0]) {
            assert(s[i] == escape(path[0])[i]);
        }
    }
}

/// A line of the mount table: the device, the directory on which it is mounted,
/// and the rest of the line.
pub struct MountLine {
    pub device: Seq<char>,
    pub path: Seq<char>,
    pub rest: Seq<char>,
}

/// What the kernel keeps to: the device is a word, the path is not empty and
/// its white space is escaped, and the rest of the line contains no line end.
pub open spec fn well_formed(line: MountLine, special: Set<char>) -> bool {
    &&& line.device.len() > 0
    &&& forall|i: int| 0 <= i < line.device.len() ==> !is_white(#[trigger] line.device[i])
    &&& line.path.len() > 0
    &&& forall|i: int|
        0 <= i < line.path.len() && is_white(#[trigger] line.path[i]) ==> special.contains(
            line.path[i],
        )
    &&& !line.rest.contains('\n')
}

/// A line of the table as text.
pub open spec fn line_text(line: MountLine, special: Set<char>) -> Seq<char> {
    line.device.push(' ') + (encoded(line.path, special).push(' ') + line.rest)
}

/// The table as text: each line with its line end.
pub open spec fn table_text(table: Seq<MountLine>, special: Set<char>) -> Seq<char>
    decreases table.len(),
{
    if table.len() == 0 {
        seq![]
    } else {
        line_text(table[0], special).push('\n') + table_text(table.skip(1), special)
    }
}

/// The second word of a line, decoded, is the path.
proof fn lemma_line_path(line: MountLine, special: Set<char>)
    requires
        is_escape_set(special),
        well_formed(line, special),
    ensures
        words_of(line_text(line, special)).len() > 1,
        decoded(words_of(line_text(line, special))[1]) == line.path,
        !line_text(line, special).contains('\n'),
{
    let path = encoded(line.path, special);
    let text = line_text(line, special);
    let tail = path.push(' ') + line.rest;
    lemma_encoded_is_a_word(line.path, special);
    lemma_words_cons(line.device, ' ', tail);
    lemma_words_cons(path, ' ', line.rest);
    decoding_undoes_encoding(line.path, special);
    assert forall|i: int| 0 <= i < text.len() implies #[trigger] text[i] != '\n' by {
        let d = line.device.len() as int;
        let p = path.len() as int;
        if i < d {
            assert(text[i] == line.device[i]);
        } else if d < i < d + 1 + p {
            assert(text[i] == path[i - d - 1]);
        } else if i > d + 1 + p {
            assert(text[i] == line.rest[i - d - p - 2]);
            assert(line.rest.contains(text[i]));
        }
    }
}

/// A line of the table without a carriage return at its end.
spec fn without_line_return(line: MountLine) -> MountLine {
    MountLine { device: line.device, path: line.path, rest: without_return(line.rest) }
}

/// A carriage return at the end of a line's text belongs to the rest of the
/// line.
proof fn lemma_line_return(line: MountLine, special: Set<char>)
    requires
        well_formed(line, special),
    ensures
        without_return(line_text(line, special)) == line_text(without_line_return(line), special),
        well_formed(without_line_return(line), special),
{
    let text = line_text(line, special);
    let rest = without_return(line.rest);
    if line.rest.len() > 0 {
        assert(text.last() == line.rest.last());
        assert(without_return(text) =~= line_text(without_line_return(line), special));
        if rest.contains('\n') {
            let i = choose|i: int| 0 <= i < rest.len() && rest[i] == '\n';
            assert(line.rest[i] == '\n');
        }
    } else {
        assert(text.last() == ' ');
    }
}

/// The lines of the table's text are the texts of its lines.
proof fn lemma_table_lines(table: Seq<MountLine>, special: Set<char>)
    requires
        is_escape_set(special),
        forall|i: int| 0 <= i < table.len() ==> well_formed(#[trigger] table[i], special),
    ensures
        lines_of(table_text(table, special)) == table.map_values(
            |l: MountLine| line_text(without_line_return(l), special),
        ),
    decreases table.len(),
{
    let f = |l: MountLine| line_text(without_line_return(l), special);
    if table.len() == 0 {
        assert(table.map_values(f) =~= seq![]);
    } else {
        let rest = table.skip(1);
        assert forall|i: int| 0 <= i < rest.len() implies well_formed(
            #[trigger] rest[i],
            special,
        ) by {
            assert(rest[i] == table[i + 1]);
        }
        lemma_table_lines(rest, special);
        lemma_line_path(table[0], special);
        lemma_line_return(table[0], special);
        lemma_lines_cons(line_text(table[0], special), table_text(rest, special));
        assert(seq![f(table[0])] + rest.map_values(f) =~= table.map_values(f));
    }
}

/// In a table that the kernel wrote, a directory is found exactly if it is the
/// path of one of the lines, apart from slashes at the end of either. Spaces
/// and other escaped characters in the path make no difference.
pub proof fn mounted_iff_in_table(
    table: Seq<MountLine>,
    special: Set<char>,
    mount_point: Seq<char>,
)
    requires
        is_escape_set(special),
        forall|i: int| 0 <= i < table.len() ==> well_formed(#[trigger] table[i], special),
    ensures
        mounted_in(table_text(table, special), mount_point) <==> exists|i: int|
            0 <= i < table.len() && without_trailing((#[trigger] table[i]).path, '/')
                == without_trailing(mount_point, '/'),
{
    let all = lines_of(table_text(table, special));
    lemma_table_lines(table, special);
    assert forall|i: int| 0 <= i < table.len() implies (lists(#[trigger] all[i], mount_point)
        <==> without_trailing(table[i].path, '/') == without_trailing(mount_point, '/')) by {
        lemma_line_return(table[i], special);
        lemma_line_path(without_line_return(table[i]), special);
        assert(all[i] == line_text(without_line_return(table[i]), special));
    }
    if mounted_in(table_text(table, special), mount_point) {
        let i = choose|i: int| 0 <= i < all.len() && lists(#[trigger] all[i], mount_point);
        assert(without_trailing(table[i].path, '/') == without_trailing(mount_point, '/'));
    }
    if exists|i: int|
        0 <= i < table.len() && without_trailing((#[trigger] table[i]).path, '/')
            == without_trailing(mount_point, '/') {
        let i = choose|i: int|
            0 <= i < table.len() && without_trailing((#[trigger] table[i]).path, '/')
                == without_trailing(mount_point, '/');
        assert(lists(all[i], mount_point));
    }
}

/// Slashes at the end of the mount point make no difference.
pub proof fn trailing_slashes_do_not_matter(table: Seq<char>, mount_point: Seq<char>)
    ensures
        mounted_in(table, mount_point.push('/')) == mounted_in(table, mount_point),
        mounted_in(table, without_trailing(mount_point, '/')) == mounted_in(table, mount_point),
{
    let other = mount_point.push('/');
    assert(other.drop_last() =~= mount_point);
    let bare = without_trailing(mount_point, '/');
    lemma_without_trailing(mount_point, '/');
    assert(without_trailing(bare, '/') == bare);
    assert forall|line: Seq<char>| true implies #[trigger] lists(line, other) == lists(
        line,
        mount_point,
    ) && lists(line, bare) == lists(line, mount_point) by {}
    if mounted_in(table, mount_point) {
        let i = choose|i: int|
            0 <= i < lines_of(table).len() && lists(#[trigger] lines_of(table)[i], mount_point);
        assert(lists(lines_of(table)[i], other));
        assert(lists(lines_of(table)[i], bare));
    }
}

/// Decoding goes from left to right. Characters other than the backslash stay.
/// A backslash takes the three characters behind it along: three octal digits
/// become the one character of that number, and anything else stays as it is.
pub proof fn decoding_goes_from_left_to_right(
    plain: Seq<char>,
    x: char,
    y: char,
    z: char,
    c: char,
    rest: Seq<char>,
)
    requires
        !plain.contains('\\'),
    ensures
        decoded(plain + rest) == plain + decoded(rest),
        decoded(plain) == plain,
        '0' <= x <= '7' && '0' <= y <= '7' && '0' <= z <= '7' && c as int == 64 * (x as int - 48)
            + 8 * (y as int - 48) + (z as int - 48) ==> decoded(seq!['\\', x, y, z] + rest)
            == seq![c] + decoded(rest),
        !('0' <= x <= '7' && '0' <= y <= '7' && '0' <= z <= '7') ==> decoded(
            seq!['\\', x, y, z] + rest,
        ) == seq!['\\', x, y, z] + decoded(rest),
{
    lemma_decoded_plain(plain, rest);
    lemma_decoded_plain(plain, Seq::empty());
    assert(plain + Seq::<char>::empty() =~= plain);
    let s = seq!['\\', x, y, z] + rest;
    assert(s.skip(4) =~= rest);
    assert(s.take(4) =~= seq!['\\', x, y, z]);
    if s.len() == 4 {
        assert(s =~= seq!['\\', x, y, z] + decoded(rest));
    }
}

/// A backslash with fewer than three characters behind it stays, and so do
/// they.
pub proof fn an_escape_that_is_cut_off_stays(tail: Seq<char>)
    requires
        tail.len() < 3,
    ensures
        decoded(seq!['\\'] + tail) == seq!['\\'] + tail,
{
}

/// Characters before the first backslash stay.
proof fn lemma_decoded_plain(plain: Seq<char>, rest: Seq<char>)
    requires
        !plain.contains('\\'),
    ensures
        decoded(plain + rest) == plain + decoded(rest),
    decreases plain.len(),
{
    if plain.len() == 0 {
        assert(plain + rest =~= rest);
        assert(plain + decoded(rest) =~= decoded(rest));
    } else {
        let s = plain + rest;
        let tail = plain.skip(1);
        assert(plain.contains(plain[0]));
        if tail.contains('\\') {
            let i = choose|i: int| 0 <= i < tail.len() && tail[i] == '\\';
            assert(plain[i + 1] == '\\');
        }
        lemma_decoded_plain(tail, rest);
        assert(s.skip(1) =~= tail + rest);
        assert(seq![plain[0]] + (tail + decoded(rest)) =~= plain + decoded(rest));
    }
}

/// A single line of a table lists a mount point or not.
proof fn lemma_one_line(line: Seq<char>, mount_point: Seq<char>)
    requires
        !line.contains('\n'),
    ensures
        mounted_in(line, mount_point) <==> lists(line, mount_point),
{
    lines_end_at_line_ends(line, Seq::empty());
    words_are_separated_by_white_space(Seq::empty(), seq!['x'], ' ', Seq::empty());
    if line.len() == 0 {
        assert(line =~= Seq::<char>::empty());
    } else {
        assert(lines_of(line)[0] == line);
    }
}

/// The table is looked up line by line: a mount point is listed in it exactly
/// if its first line or what follows lists it. An empty table lists none.
pub proof fn lookup_goes_line_by_line(
    line: Seq<char>,
    rest: Seq<char>,
    mount_point: Seq<char>,
)
    requires
        !line.contains('\n'),
    ensures
        mounted_in(line + seq!['\n'] + rest, mount_point) <==> mounted_in(line, mount_point)
            || mounted_in(rest, mount_point),
        !mounted_in(Seq::empty(), mount_point),
{
    let whole = line + seq!['\n'] + rest;
    let first = without_return(line);
    lemma_lines_cons(line, rest);
    assert(line.push('\n') + rest =~= whole);
    lemma_one_line(line, mount_point);
    if line.len() > 0 && line.last() == '\r' {
        assert(line =~= first + seq!['\r']);
        words_are_separated_by_white_space(seq!['\r'], seq!['x'], ' ', first);
    }
    assert(lists(first, mount_point) == lists(line, mount_point));
    let all = lines_of(whole);
    let others = lines_of(rest);
    assert(all == seq![first] + others);
    assert(all[0] == first);
    if mounted_in(whole, mount_point) {
        let i = choose|i: int| 0 <= i < all.len() && lists(#[trigger] all[i], mount_point);
        if i > 0 {
            assert(all[i] == others[i - 1]);
        }
    }
    if mounted_in(rest, mount_point) {
        let i = choose|i: int| 0 <= i < others.len() && lists(#[trigger] others[i], mount_point);
        assert(all[i + 1] == others[i]);
    }
}

/// Of a line the second word counts, and nothing else: it is the whole path of
/// the mount point, once it is decoded, and apart from slashes at the end.
/// Which white space stands around the words makes no difference.
pub proof fn lookup_compares_the_second_word(
    lead: Seq<char>,
    device: Seq<char>,
    gap: Seq<char>,
    path: Seq<char>,
    tail: Seq<char>,
    mount_point: Seq<char>,
)
    requires
        all_white(lead),
        device.len() > 0,
        no_white(device),
        gap.len() > 0,
        all_white(gap),
        path.len() > 0,
        no_white(path),
        tail.len() > 0 ==> is_white(tail.first()),
        !lead.contains('\n') && !gap.contains('\n') && !tail.contains('\n'),
    ensures
        mounted_in(lead + device + gap + path + tail, mount_point) <==> without_trailing(
            decoded(path),
            '/',
        ) == without_trailing(mount_point, '/'),
        !mounted_in(lead + device + gap, mount_point),
        !mounted_in(lead + device, mount_point),
        !mounted_in(lead, mount_point),
{
    let line = lead + device + gap + path + tail;
    let end = path + tail;
    let two = device + gap + end;
    let gap_rest = gap.skip(1);
    assert(!device.contains('\n') && !path.contains('\n'));
    lemma_no_line_end(lead, device);
    lemma_no_line_end(lead + device, gap);
    lemma_no_line_end(lead + device + gap, path);
    lemma_no_line_end(lead + device + gap + path, tail);
    assert(line =~= lead + two);
    words_are_separated_by_white_space(lead, device, gap[0], two);
    assert(two =~= device + seq![gap[0]] + (gap_rest + end));
    words_are_separated_by_white_space(gap_rest, device, gap[0], gap_rest + end);
    words_are_separated_by_white_space(gap_rest, device, gap[0], end);
    assert(words_of(line) == seq![device] + words_of(end));
    if tail.len() == 0 {
        assert(end =~= path);
        words_are_separated_by_white_space(gap, path, ' ', end);
    } else {
        assert(end =~= path + seq![tail[0]] + tail.skip(1));
        words_are_separated_by_white_space(gap, path, tail[0], tail.skip(1));
    }
    assert(words_of(end)[0] == path);
    assert(words_of(line)[1] == path);
    lemma_one_line(line, mount_point);
    words_are_separated_by_white_space(lead, device, ' ', device + gap);
    assert(lead + device + gap =~= lead + (device + gap));
    words_are_separated_by_white_space(gap, device, ' ', device);
    words_are_separated_by_white_space(lead, device, ' ', device);
    lemma_one_line(lead + device + gap, mount_point);
    lemma_one_line(lead + device, mount_point);
    lemma_one_line(lead, mount_point);
}

/// Two texts without a line end have none together.
proof fn lemma_no_line_end(a: Seq<char>, b: Seq<char>)
    requires
        !a.contains('\n'),
        !b.contains('\n'),
    ensures
        !(a + b).contains('\n'),
{
    let s = a + b;
    if s.contains('\n') {
        let i = choose|i: int| 0 <= i < s.len() && s[i] == '\n';
        if i < a.len() {
            assert(a[i] == '\n');
        } else {
            assert(b[i - a.len()] == '\n');
        }
    }
}

} // verus!
