//! Text in the markup of labels.
use vstd::prelude::*;
use vstd::string::*;

use crate::text::chars_of;

verus! {

/// `s` with each `c` replaced by `with`.
pub open spec fn replaced(s: Seq<char>, c: char, with: Seq<char>) -> Seq<char>
    decreases s.len(),
{
    if s.len() == 0 {
        seq![]
    } else if s[0] == c {
        with + replaced(s.skip(1), c, with)
    } else {
        seq![s[0]] + replaced(s.skip(1), c, with)
    }
}

/// How a character is written in markup.
pub open spec fn entity(c: char) -> Seq<char> {
    if c == '&' {
        "&amp;"@
    } else if c == '<' {
        "&lt;"@
    } else if c == '>' {
        "&gt;"@
    } else {
        seq![c]
    }
}

/// How a text is written in markup.
pub open spec fn escaped(s: Seq<char>) -> Seq<char>
    decreases s.len(),
{
    if s.len() == 0 {
        seq![]
    } else {
        entity(s[0]) + escaped(s.skip(1))
    }
}

/// Replacing in two texts and then joining them is replacing in their
/// concatenation.
proof fn lemma_replaced_add(a: Seq<char>, b: Seq<char>, c: char, with: Seq<char>)
    ensures
        replaced(a + b, c, with) == replaced(a, c, with) + replaced(b, c, with),
    decreases a.len(),
{
    if a.len() == 0 {
        assert(a + b =~= b);
        assert(replaced(a, c, with) + replaced(b, c, with) =~= replaced(b, c, with));
    } else {
        lemma_replaced_add(a.skip(1), b, c, with);
        assert((a + b).skip(1) =~= a.skip(1) + b);
        assert(replaced(a + b, c, with) =~= replaced(a, c, with) + replaced(b, c, with));
    }
}

/// Replacing a character that does not occur changes nothing.
proof fn lemma_replaced_none(s: Seq<char>, c: char, with: Seq<char>)
    requires
        !s.contains(c),
    ensures
        replaced(s, c, with) == s,
    decreases s.len(),
{
    if s.len() > 0 {
        assert(s.contains(s[0]));
        assert forall|d: char| s.skip(1).contains(d) implies s.contains(d) by {
            let i = choose|i: int| 0 <= i < s.skip(1).len() && s.skip(1)[i] == d;
            assert(s[i + 1] == d);
        }
        lemma_replaced_none(s.skip(1), c, with);
        assert(seq![s[0]] + s.skip(1) =~= s);
    }
}

/// The three replacements, one after the other, write each character as its
/// entity: what one replacement put in, the next ones leave alone.
pub proof fn replacements_write_entities(s: Seq<char>)
    ensures
        replaced(replaced(replaced(s, '&', "&amp;"@), '<', "&lt;"@), '>', "&gt;"@) == escaped(s),
    decreases s.len(),
{
    reveal_strlit("&amp;");
    reveal_strlit("&lt;");
    reveal_strlit("&gt;");
    let amp = "&amp;"@;
    let lt = "&lt;"@;
    let gt = "&gt;"@;
    if s.len() > 0 {
        replacements_write_entities(s.skip(1));
        let tail1 = replaced(s.skip(1), '&', amp);
        let tail2 = replaced(tail1, '<', lt);
        let head = seq![s[0]];
        let head1 = if s[0] == '&' { amp } else { head };
        let head2 = if s[0] == '<' { lt } else { head1 };
        let head3 = if s[0] == '>' { gt } else { head2 };
        assert(replaced(s, '&', amp) == head1 + tail1);
        lemma_replaced_add(head1, tail1, '<', lt);
        lemma_replaced_add(head2, tail2, '>', gt);
        if s[0] == '<' {
            assert(replaced(head.skip(1), '<', lt) =~= seq![]);
            assert(replaced(head1, '<', lt) =~= head2);
        } else {
            lemma_replaced_none(head1, '<', lt);
        }
        if s[0] == '>' {
            assert(replaced(head.skip(1), '>', gt) =~= seq![]);
            assert(replaced(head2, '>', gt) =~= head3);
        } else {
            lemma_replaced_none(head2, '>', gt);
        }
        assert(head3 == entity(s[0]));
    }
}

/// `s` with each `c` replaced by `with`.
fn replace(s: &str, c: char, with: &str) -> (r: String)
    ensures
        r@ == replaced(s@, c, with@),
{
    let chars = chars_of(s);
    let mut out = String::new();
    let mut i: usize = 0;
    assert(chars@.skip(0) =~= s@);
    assert(out@ + replaced(s@, c, with@) =~= replaced(s@, c, with@));
    while i < chars.len()
        invariant
            i <= chars@.len(),
            out@ + replaced(chars@.skip(i as int), c, with@) == replaced(s@, c, with@),
        decreases chars@.len() - i,
    {
        let ghost before = out@;
        let ghost left = chars@.skip(i as int);
        let ghost tail = replaced(chars@.skip(i + 1), c, with@);
        assert(left.skip(1) =~= chars@.skip(i + 1));
        if chars[i] == c {
            out.append(with);
            assert(before + (with@ + tail) =~= out@ + tail);
        } else {
            out.push(chars[i]);
            assert(before + (seq![left[0]] + tail) =~= out@ + tail);
        }
        i += 1;
    }
    assert(chars@.skip(i as int) =~= seq![]);
    assert(out@ + replaced(chars@.skip(i as int), c, with@) =~= out@);
    out
}

/// Writes a text so that a label that reads markup shows it as it is.
pub fn escape_markup(s: &str) -> (r: String)
    ensures
        r@ == escaped(s@),
{
    proof {
        replacements_write_entities(s@);
    }
    let amp = replace(s, '&', "&amp;");
    let lt = replace(amp.as_str(), '<', "&lt;");
    replace(lt.as_str(), '>', "&gt;")
}

/// The markup of an error.
pub open spec fn error_span(message: Seq<char>) -> Seq<char> {
    "<span color='#e01b24'>"@ + escaped(message) + "</span>"@
}

/// The markup that shows `message` as an error.
pub fn error_markup(message: &str) -> (r: String)
    ensures
        r@ == error_span(message@),
{
    let mut out = "<span color='#e01b24'>".to_string();
    out.append(escape_markup(message).as_str());
    out.append("</span>");
    out
}

/// The markup of a mount whose history could not be saved.
pub open spec fn unsaved_span(error: Seq<char>) -> Seq<char> {
    "<span color='#e01b24'>Mounted, but failed to save history: "@ + escaped(error) + "</span>"@
}

/// The markup that tells of a mount whose history could not be saved.
pub fn unsaved_markup(error: &str) -> (r: String)
    ensures
        r@ == unsaved_span(error@),
{
    let mut out = "<span color='#e01b24'>Mounted, but failed to save history: ".to_string();
    out.append(escape_markup(error).as_str());
    out.append("</span>");
    out
}

// ---------------------------------------------------------------------------
// Laws
// ---------------------------------------------------------------------------

/// Whether `s` starts with `t`.
pub open spec fn starts_with(s: Seq<char>, t: Seq<char>) -> bool {
    t.len() <= s.len() && s.take(t.len() as int) == t
}

/// Whether `s` starts with one of the three entities.
pub open spec fn starts_with_entity(s: Seq<char>) -> bool {
    starts_with(s, "&amp;"@) || starts_with(s, "&lt;"@) || starts_with(s, "&gt;"@)
}

/// The text that a label shows for markup without tags.
pub open spec fn shown(s: Seq<char>) -> Seq<char>
    decreases s.len(),
{
    if s.len() == 0 {
        seq![]
    } else if s.len() >= 5 && starts_with(s, "&amp;"@) {
        seq!['&'] + shown(s.skip(5))
    } else if s.len() >= 4 && starts_with(s, "&lt;"@) {
        seq!['<'] + shown(s.skip(4))
    } else if s.len() >= 4 && starts_with(s, "&gt;"@) {
        seq!['>'] + shown(s.skip(4))
    } else {
        seq![s[0]] + shown(s.skip(1))
    }
}

/// An escaped text holds no tag, and each ampersand in it starts an entity.
pub proof fn escaped_text_has_no_tags(s: Seq<char>)
    ensures
        !escaped(s).contains('<'),
        !escaped(s).contains('>'),
        forall|i: int|
            0 <= i < escaped(s).len() && #[trigger] escaped(s)[i] == '&' ==> starts_with_entity(
                escaped(s).skip(i),
            ),
    decreases s.len(),
{
    reveal_strlit("&amp;");
    reveal_strlit("&lt;");
    reveal_strlit("&gt;");
    if s.len() > 0 {
        let e = entity(s[0]);
        let rest = escaped(s.skip(1));
        let all = escaped(s);
        let n = e.len() as int;
        escaped_text_has_no_tags(s.skip(1));
        assert forall|i: int| 0 <= i < all.len() implies #[trigger] all[i] != '<' && all[i] != '>'
            && (all[i] == '&' ==> starts_with_entity(all.skip(i))) by {
            if i < n {
                assert(all[i] == e[i]);
                if all[i] == '&' {
                    assert(i == 0);
                    assert(all.skip(0).take(n) =~= e);
                }
            } else {
                assert(all[i] == rest[i - n]);
                assert(rest.contains(rest[i - n]));
                assert(all.skip(i) =~= rest.skip(i - n));
            }
        }
    }
}

/// A label shows an escaped text as it was before.
pub proof fn escaped_text_is_shown_unchanged(s: Seq<char>)
    ensures
        shown(escaped(s)) == s,
    decreases s.len(),
{
    reveal_strlit("&amp;");
    reveal_strlit("&lt;");
    reveal_strlit("&gt;");
    if s.len() > 0 {
        let e = entity(s[0]);
        let all = escaped(s);
        let n = e.len() as int;
        escaped_text_is_shown_unchanged(s.skip(1));
        assert(all.skip(n) =~= escaped(s.skip(1)));
        assert(all.take(n) =~= e);
        assert(all[0] == e[0]);
        if s[0] == '<' || s[0] == '>' {
            assert(all[1] == e[1]);
            if starts_with(all, "&amp;"@) {
                assert(all.take(5)[1] == 'a');
            }
            if s[0] == '>' && starts_with(all, "&lt;"@) {
                assert(all.take(4)[1] == 'l');
            }
        } else if s[0] != '&' {
            if starts_with(all, "&amp;"@) {
                assert(all.take(5)[0] == '&');
            }
            if starts_with(all, "&lt;"@) {
                assert(all.take(4)[0] == '&');
            }
            if starts_with(all, "&gt;"@) {
                assert(all.take(4)[0] == '&');
            }
        }
        assert(seq![s[0]] + s.skip(1) =~= s);
    }
}

/// An error is shown whole: between the tags of its span stands markup without
/// tags that shows the message and nothing else.
pub proof fn errors_are_shown_whole(message: Seq<char>)
    ensures
        exists|inner: Seq<char>| #[trigger] shown(inner) == message && !inner.contains('<')
            && !inner.contains('>') && error_span(message) == "<span color='#e01b24'>"@ + inner
            + "</span>"@ && unsaved_span(message)
            == "<span color='#e01b24'>Mounted, but failed to save history: "@ + inner
            + "</span>"@,
{
    escaped_text_has_no_tags(message);
    escaped_text_is_shown_unchanged(message);
    assert(shown(escaped(message)) == message);
}

} // verus!
