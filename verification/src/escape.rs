//! Text escaping for safe embedding in the display markup, and its inverse.
//!
//! Raw text is escaped before any styling is applied: `&`, `<` and `>` become
//! entities, so the only `<` characters left in styled output are the ones
//! the renderer itself inserts.  Recovery undoes the escaping after the
//! styling spans have been removed.

use vstd::prelude::*;
use crate::text::starts_with_seq;

verus! {

/// The entity for `&`.
pub open spec fn amp_entity() -> Seq<char> {
    seq!['&', 'a', 'm', 'p', ';']
}

/// The entity for `<`.
pub open spec fn lt_entity() -> Seq<char> {
    seq!['&', 'l', 't', ';']
}

/// The entity for `>`.
pub open spec fn gt_entity() -> Seq<char> {
    seq!['&', 'g', 't', ';']
}

/// What one character escapes to: `&`, `<` and `>` become entities, every
/// other character stands for itself.
pub open spec fn escape_char(c: char) -> Seq<char> {
    if c == '&' {
        amp_entity()
    } else if c == '<' {
        lt_entity()
    } else if c == '>' {
        gt_entity()
    } else {
        seq![c]
    }
}

/// The escaped form of the text from position `i` on.
pub open spec fn escape_from(s: Seq<char>, i: int) -> Seq<char>
    decreases s.len() - i
    when 0 <= i <= s.len()
{
    if i >= s.len() {
        Seq::empty()
    } else {
        escape_char(s[i]) + escape_from(s, i + 1)
    }
}

/// The escaped form of a whole text.
pub open spec fn escape_text(s: Seq<char>) -> Seq<char> {
    escape_from(s, 0)
}

/// The unescaped form: each entity written by `escape_char` is turned back
/// into its character; everything else passes through.
pub open spec fn unescape_text(s: Seq<char>) -> Seq<char>
    decreases s.len()
{
    if s.len() == 0 {
        Seq::empty()
    } else if starts_with_seq(s, 0, amp_entity()) {
        seq!['&'] + unescape_text(s.skip(5))
    } else if starts_with_seq(s, 0, lt_entity()) {
        seq!['<'] + unescape_text(s.skip(4))
    } else if starts_with_seq(s, 0, gt_entity()) {
        seq!['>'] + unescape_text(s.skip(4))
    } else {
        seq![s[0]] + unescape_text(s.skip(1))
    }
}

/// Escaped text never holds a raw `<` or `>`: entities spell them out, so
/// every `<` in styled output marks a tag the renderer inserted.
pub proof fn lemma_escape_char_no_angle(c: char)
    ensures
        forall|q: int| 0 <= q < escape_char(c).len() ==> escape_char(c)[q] != '<'
            && escape_char(c)[q] != '>',
{
}

/// Escaping then unescaping one leading character leaves the rest intact.
proof fn lemma_unescape_one(c: char, t: Seq<char>)
    ensures
        unescape_text(escape_char(c) + t) == seq![c] + unescape_text(t),
{
    let s = escape_char(c) + t;
    if c == '&' {
        assert(starts_with_seq(s, 0, amp_entity())) by {
            assert(s.subrange(0, 5) =~= amp_entity());
        }
        assert(s.skip(5) =~= t);
    } else if c == '<' {
        assert(!starts_with_seq(s, 0, amp_entity())) by {
            if starts_with_seq(s, 0, amp_entity()) {
                assert(s.subrange(0, 5)[1] == s[1]);
            }
        }
        assert(starts_with_seq(s, 0, lt_entity())) by {
            assert(s.subrange(0, 4) =~= lt_entity());
        }
        assert(s.skip(4) =~= t);
    } else if c == '>' {
        assert(!starts_with_seq(s, 0, amp_entity())) by {
            if starts_with_seq(s, 0, amp_entity()) {
                assert(s.subrange(0, 5)[1] == s[1]);
            }
        }
        assert(!starts_with_seq(s, 0, lt_entity())) by {
            if starts_with_seq(s, 0, lt_entity()) {
                assert(s.subrange(0, 4)[1] == s[1]);
            }
        }
        assert(starts_with_seq(s, 0, gt_entity())) by {
            assert(s.subrange(0, 4) =~= gt_entity());
        }
        assert(s.skip(4) =~= t);
    } else {
        assert(s[0] == c);
        assert(!starts_with_seq(s, 0, amp_entity())) by {
            if starts_with_seq(s, 0, amp_entity()) {
                assert(s.subrange(0, 5)[0] == s[0]);
            }
        }
        assert(!starts_with_seq(s, 0, lt_entity())) by {
            if starts_with_seq(s, 0, lt_entity()) {
                assert(s.subrange(0, 4)[0] == s[0]);
            }
        }
        assert(!starts_with_seq(s, 0, gt_entity())) by {
            if starts_with_seq(s, 0, gt_entity()) {
                assert(s.subrange(0, 4)[0] == s[0]);
            }
        }
        assert(s.skip(1) =~= t);
    }
}

/// Unescaping inverts escaping: `unescape_text(escape_from(s, i))` gives back
/// `s` from position `i` on.
proof fn lemma_unescape_escape_from(s: Seq<char>, i: int)
    requires
        0 <= i <= s.len(),
    ensures
        unescape_text(escape_from(s, i)) == s.skip(i),
    decreases s.len() - i,
{
    if i >= s.len() {
        assert(s.skip(i) =~= Seq::<char>::empty());
    } else {
        lemma_unescape_escape_from(s, i + 1);
        lemma_unescape_one(s[i], escape_from(s, i + 1));
        assert(seq![s[i]] + s.skip(i + 1) =~= s.skip(i));
    }
}

/// Unescaping inverts escaping on whole texts.
pub proof fn lemma_unescape_escape(s: Seq<char>)
    ensures
        unescape_text(escape_text(s)) == s,
{
    lemma_unescape_escape_from(s, 0);
    assert(s.skip(0) =~= s);
}

/// Escapes a string for embedding in the display markup.
///
/// Relies on `html_escape::encode_text`, which replaces `&` with `&amp;`,
/// `<` with `&lt;` and `>` with `&gt;` and leaves every other character as
/// it is.
#[verifier::external_body]
pub fn encode_text(s: &str) -> (r: String)
    ensures
        r@ == escape_text(s@),
{
    html_escape::encode_text(s).into_owned()
}

/// Appends the escaped form of one character to the vector.
pub fn push_escaped_char(out: &mut Vec<char>, c: char)
    ensures
        final(out)@ == old(out)@ + escape_char(c),
{
    if c == '&' {
        out.push('&');
        out.push('a');
        out.push('m');
        out.push('p');
        out.push(';');
        proof {
            assert(out@ =~= old(out)@ + escape_char(c));
        }
    } else if c == '<' {
        out.push('&');
        out.push('l');
        out.push('t');
        out.push(';');
        proof {
            assert(out@ =~= old(out)@ + escape_char(c));
        }
    } else if c == '>' {
        out.push('&');
        out.push('g');
        out.push('t');
        out.push(';');
        proof {
            assert(out@ =~= old(out)@ + escape_char(c));
        }
    } else {
        out.push(c);
        proof {
            assert(out@ =~= old(out)@ + escape_char(c));
        }
    }
}

/// Undoes the escaping: each entity written by `escape_char` becomes its
/// character again, everything else passes through.
pub fn unescape_chars(v: &Vec<char>) -> (r: Vec<char>)
    ensures
        r@ == unescape_text(v@),
{
    let mut out: Vec<char> = Vec::new();
    let mut i: usize = 0;
    proof {
        assert(v@.skip(0) =~= v@);
        assert(out@ + unescape_text(v@) =~= unescape_text(v@));
    }
    while i < v.len()
        invariant
            i <= v@.len(),
            out@ + unescape_text(v@.skip(i as int)) == unescape_text(v@),
        decreases v@.len() - i,
    {
        let ghost rest = v@.skip(i as int);
        proof {
            reveal_strlit("&amp;");
            reveal_strlit("&lt;");
            reveal_strlit("&gt;");
            assert("&amp;"@ =~= amp_entity());
            assert("&lt;"@ =~= lt_entity());
            assert("&gt;"@ =~= gt_entity());
            crate::text::lemma_starts_with_skip(v@, i as int, amp_entity());
            crate::text::lemma_starts_with_skip(v@, i as int, lt_entity());
            crate::text::lemma_starts_with_skip(v@, i as int, gt_entity());
        }
        if crate::text::starts_with_at(v, i, "&amp;") {
            proof {
                assert(rest.skip(5) =~= v@.skip(i + 5));
            }
            out.push('&');
            i = i + 5;
        } else if crate::text::starts_with_at(v, i, "&lt;") {
            proof {
                assert(rest.skip(4) =~= v@.skip(i + 4));
            }
            out.push('<');
            i = i + 4;
        } else if crate::text::starts_with_at(v, i, "&gt;") {
            proof {
                assert(rest.skip(4) =~= v@.skip(i + 4));
            }
            out.push('>');
            i = i + 4;
        } else {
            proof {
                assert(rest[0] == v@[i as int]);
                assert(rest.skip(1) =~= v@.skip(i + 1));
            }
            let c = v[i];
            out.push(c);
            i = i + 1;
        }
    }
    proof {
        assert(v@.skip(i as int) =~= Seq::<char>::empty());
        assert(out@ =~= out@ + unescape_text(v@.skip(i as int)));
    }
    out
}

} // verus!
