//! Title rendering and recovery.
//!
//! A title is the option key with every matched character wrapped in a
//! highlight span (adjacent matched characters share one span) and the whole
//! string wrapped in one monospace span.  Recovery removes the spans and the
//! escaping again; the round trip gives back exactly the key, whatever the
//! matched indices were.

use vstd::prelude::*;
use crate::escape::{escape_char, escape_from, escape_text, unescape_text, push_escaped_char};
use crate::text::starts_with_seq;

verus! {

/// The opening tag of the monospace span wrapped around the whole title.
pub open spec fn mono_open() -> Seq<char> {
    seq![
        '<', 's', 'p', 'a', 'n', ' ', 'f', 'o', 'n', 't', '_', 'f', 'a', 'm', 'i', 'l', 'y', '=',
        '"', 'm', 'o', 'n', 'o', 's', 'p', 'a', 'c', 'e', '"', '>',
    ]
}

/// The opening tag of a highlight span around a run of matched characters.
pub open spec fn open_red() -> Seq<char> {
    seq![
        '<', 's', 'p', 'a', 'n', ' ', 'w', 'e', 'i', 'g', 'h', 't', '=', '"', 'b', 'o', 'l', 'd',
        '"', ' ', 'f', 'o', 'r', 'e', 'g', 'r', 'o', 'u', 'n', 'd', '=', '"', '#', 'd', 'b', '5',
        'a', '6', '5', '"', '>',
    ]
}

/// The closing tag shared by every span.
pub open spec fn close_span() -> Seq<char> {
    seq!['<', '/', 's', 'p', 'a', 'n', '>']
}

/// Position `i` is one of the matched character indices.
pub open spec fn is_matched(idx: Seq<usize>, i: int) -> bool {
    exists|j: int| 0 <= j < idx.len() && idx[j] as int == i
}

/// The inside of a rendered title from character `i` of the key on: each
/// character escaped, a highlight span opened before the first character of a
/// matched run and closed after its last.
pub open spec fn title_body(key: Seq<char>, idx: Seq<usize>, i: int) -> Seq<char>
    decreases key.len() - i
    when 0 <= i <= key.len()
{
    if i >= key.len() {
        Seq::empty()
    } else {
        (if is_matched(idx, i) && (i == 0 || !is_matched(idx, i - 1)) {
            open_red()
        } else {
            Seq::empty()
        }) + escape_char(key[i]) + (if is_matched(idx, i) && (i + 1 == key.len() || !is_matched(
            idx,
            i + 1,
        )) {
            close_span()
        } else {
            Seq::empty()
        }) + title_body(key, idx, i + 1)
    }
}

/// The whole rendered title: the highlighted body inside one monospace span.
pub open spec fn rendered_title(key: Seq<char>, idx: Seq<usize>) -> Seq<char> {
    mono_open() + title_body(key, idx, 0) + close_span()
}

/// The text with every highlight tag and every closing tag removed.
pub open spec fn strip_tags(s: Seq<char>) -> Seq<char>
    decreases s.len()
{
    if s.len() == 0 {
        Seq::empty()
    } else if starts_with_seq(s, 0, open_red()) {
        strip_tags(s.skip(41))
    } else if starts_with_seq(s, 0, close_span()) {
        strip_tags(s.skip(7))
    } else {
        seq![s[0]] + strip_tags(s.skip(1))
    }
}

/// What recovery makes of a title: if the fixed monospace wrapper is there,
/// the key obtained by removing the span tags and the escaping; otherwise
/// nothing.
pub open spec fn recover_spec(t: Seq<char>) -> Option<Seq<char>> {
    if t.len() >= 37 && t.subrange(0, 30) == mono_open() && t.subrange(
        t.len() - 7,
        t.len() as int,
    ) == close_span() {
        Some(unescape_text(strip_tags(t.subrange(30, t.len() - 7))))
    } else {
        None
    }
}

/// Tag removal passes over text that holds no `<`.
proof fn lemma_strip_passthrough(e: Seq<char>, t: Seq<char>)
    requires
        forall|q: int| 0 <= q < e.len() ==> e[q] != '<',
    ensures
        strip_tags(e + t) == e + strip_tags(t),
    decreases e.len(),
{
    if e.len() == 0 {
        assert(e + t =~= t);
        assert(e + strip_tags(t) =~= strip_tags(t));
    } else {
        let s = e + t;
        assert(s[0] == e[0]);
        assert(!starts_with_seq(s, 0, open_red())) by {
            if starts_with_seq(s, 0, open_red()) {
                assert(s.subrange(0, 41)[0] == s[0]);
            }
        }
        assert(!starts_with_seq(s, 0, close_span())) by {
            if starts_with_seq(s, 0, close_span()) {
                assert(s.subrange(0, 7)[0] == s[0]);
            }
        }
        assert(s.skip(1) =~= e.skip(1) + t);
        lemma_strip_passthrough(e.skip(1), t);
        assert(seq![e[0]] + (e.skip(1) + strip_tags(t)) =~= e + strip_tags(t));
    }
}

/// Tag removal consumes a leading highlight tag whole.
proof fn lemma_strip_open(t: Seq<char>)
    ensures
        strip_tags(open_red() + t) == strip_tags(t),
{
    let s = open_red() + t;
    assert(starts_with_seq(s, 0, open_red())) by {
        assert(s.subrange(0, 41) =~= open_red());
    }
    assert(s.skip(41) =~= t);
}

/// Tag removal consumes a leading closing tag whole.
proof fn lemma_strip_close(t: Seq<char>)
    ensures
        strip_tags(close_span() + t) == strip_tags(t),
{
    let s = close_span() + t;
    assert(!starts_with_seq(s, 0, open_red())) by {
        if starts_with_seq(s, 0, open_red()) {
            assert(s.subrange(0, 41)[1] == s[1]);
            assert(s[1] == close_span()[1]);
        }
    }
    assert(starts_with_seq(s, 0, close_span())) by {
        assert(s.subrange(0, 7) =~= close_span());
    }
    assert(s.skip(7) =~= t);
}

/// Stripping the styling spans from a rendered title body leaves exactly the
/// escaped key text: the highlighting never adds, drops or reorders a
/// character of the key.
pub proof fn lemma_strip_title_body(key: Seq<char>, idx: Seq<usize>, i: int)
    requires
        0 <= i <= key.len(),
    ensures
        strip_tags(title_body(key, idx, i)) == escape_from(key, i),
    decreases key.len() - i,
{
    if i >= key.len() {
    } else {
        lemma_strip_title_body(key, idx, i + 1);
        let e = escape_char(key[i]);
        let rest = title_body(key, idx, i + 1);
        let opened = is_matched(idx, i) && (i == 0 || !is_matched(idx, i - 1));
        let closed = is_matched(idx, i) && (i + 1 == key.len() || !is_matched(idx, i + 1));
        crate::escape::lemma_escape_char_no_angle(key[i]);
        if closed {
            lemma_strip_close(rest);
            lemma_strip_passthrough(e, close_span() + rest);
        } else {
            lemma_strip_passthrough(e, rest);
            assert(e + (Seq::<char>::empty() + rest) =~= e + rest);
        }
        let tail = e + (if closed {
            close_span()
        } else {
            Seq::<char>::empty()
        }) + rest;
        if opened {
            lemma_strip_open(
                e + (if closed {
                    close_span()
                } else {
                    Seq::<char>::empty()
                }) + rest,
            );
            assert(title_body(key, idx, i) =~= open_red() + (e + (if closed {
                close_span()
            } else {
                Seq::<char>::empty()
            }) + rest));
        } else {
            assert(title_body(key, idx, i) =~= e + (if closed {
                close_span()
            } else {
                Seq::<char>::empty()
            }) + rest);
        }
        assert(e + ((if closed {
            close_span()
        } else {
            Seq::<char>::empty()
        }) + rest) =~= e + (if closed {
            close_span()
        } else {
            Seq::<char>::empty()
        }) + rest);
        assert(strip_tags(title_body(key, idx, i)) == e + strip_tags(rest));
    }
}

/// The round trip: recovering a rendered title yields exactly the key it was
/// rendered from, for every key and every set of matched indices, including
/// keys holding characters that the renderer escapes.
pub proof fn lemma_title_round_trip(key: Seq<char>, idx: Seq<usize>)
    ensures
        recover_spec(rendered_title(key, idx)) == Some(key),
{
    let body = title_body(key, idx, 0);
    let t = rendered_title(key, idx);
    assert(t.len() == 37 + body.len());
    assert(t.subrange(0, 30) =~= mono_open());
    assert(t.subrange(t.len() - 7, t.len() as int) =~= close_span());
    assert(t.subrange(30, t.len() - 7) =~= body);
    lemma_strip_title_body(key, idx, 0);
    assert(strip_tags(body) == escape_text(key));
    crate::escape::lemma_unescape_escape(key);
}

/// Decides whether `i` is one of the matched indices.
fn contains_index(indices: &Vec<usize>, i: usize) -> (b: bool)
    ensures
        b == is_matched(indices@, i as int),
{
    let mut j: usize = 0;
    while j < indices.len()
        invariant
            j <= indices@.len(),
            forall|q: int| 0 <= q < j ==> indices@[q] as int != i as int,
        decreases indices@.len() - j,
    {
        if indices[j] == i {
            return true;
        }
        j = j + 1;
    }
    false
}

/// Renders the title for a key and its matched indices: every character
/// escaped, matched runs wrapped in highlight spans, the whole wrapped in a
/// monospace span.
pub fn render_title(key: &Vec<char>, indices: &Vec<usize>) -> (t: Vec<char>)
    ensures
        t@ == rendered_title(key@, indices@),
{
    let mut out: Vec<char> = Vec::new();
    crate::text::push_str_chars(&mut out, "<span font_family=\"monospace\">");
    proof {
        reveal_strlit("<span font_family=\"monospace\">");
        assert("<span font_family=\"monospace\">"@ =~= mono_open());
        assert(out@ =~= mono_open());
    }
    let mut i: usize = 0;
    while i < key.len()
        invariant
            i <= key@.len(),
            out@ + title_body(key@, indices@, i as int) == mono_open() + title_body(
                key@,
                indices@,
                0,
            ),
        decreases key@.len() - i,
    {
        let m_here = contains_index(indices, i);
        let m_prev = if i == 0 {
            false
        } else {
            contains_index(indices, i - 1)
        };
        if m_here && !m_prev {
            crate::text::push_str_chars(&mut out, "<span weight=\"bold\" foreground=\"#db5a65\">");
            proof {
                reveal_strlit("<span weight=\"bold\" foreground=\"#db5a65\">");
                assert("<span weight=\"bold\" foreground=\"#db5a65\">"@ =~= open_red());
            }
        }
        push_escaped_char(&mut out, key[i]);
        let m_next = if i + 1 == key.len() {
            false
        } else {
            contains_index(indices, i + 1)
        };
        if m_here && !m_next {
            crate::text::push_str_chars(&mut out, "</span>");
            proof {
                reveal_strlit("</span>");
                assert("</span>"@ =~= close_span());
            }
        }
        i = i + 1;
        proof {
            assert(out@ + title_body(key@, indices@, i as int) =~= mono_open() + title_body(
                key@,
                indices@,
                0,
            ));
        }
    }
    crate::text::push_str_chars(&mut out, "</span>");
    proof {
        reveal_strlit("</span>");
        assert("</span>"@ =~= close_span());
        assert(title_body(key@, indices@, i as int) =~= Seq::<char>::empty());
        assert(out@ =~= rendered_title(key@, indices@));
    }
    out
}

/// Removes every highlight tag and every closing tag from the text.
pub fn strip_tags_exec(v: &Vec<char>) -> (r: Vec<char>)
    ensures
        r@ == strip_tags(v@),
{
    let mut out: Vec<char> = Vec::new();
    let mut i: usize = 0;
    proof {
        assert(v@.skip(0) =~= v@);
        assert(out@ + strip_tags(v@) =~= strip_tags(v@));
    }
    while i < v.len()
        invariant
            i <= v@.len(),
            out@ + strip_tags(v@.skip(i as int)) == strip_tags(v@),
        decreases v@.len() - i,
    {
        let ghost rest = v@.skip(i as int);
        proof {
            reveal_strlit("<span weight=\"bold\" foreground=\"#db5a65\">");
            reveal_strlit("</span>");
            assert("<span weight=\"bold\" foreground=\"#db5a65\">"@ =~= open_red());
            assert("</span>"@ =~= close_span());
            crate::text::lemma_starts_with_skip(v@, i as int, open_red());
            crate::text::lemma_starts_with_skip(v@, i as int, close_span());
        }
        if crate::text::starts_with_at(v, i, "<span weight=\"bold\" foreground=\"#db5a65\">") {
            proof {
                assert(rest.skip(41) =~= v@.skip(i + 41));
            }
            i = i + 41;
        } else if crate::text::starts_with_at(v, i, "</span>") {
            proof {
                assert(rest.skip(7) =~= v@.skip(i + 7));
            }
            i = i + 7;
        } else {
            proof {
                assert(rest[0] == v@[i as int]);
                assert(rest.skip(1) =~= v@.skip(i + 1));
            }
            let c = v[i];
            out.push(c);
            i = i + 1;
        }
    }
    proof {
        assert(v@.skip(i as int) =~= Seq::<char>::empty());
        assert(out@ =~= out@ + strip_tags(v@.skip(i as int)));
    }
    out
}

/// Recovers the plain option key from a previously rendered title: the fixed
/// monospace wrapper is stripped, the highlight spans are removed, and the
/// escaping is undone.  A string that does not carry the wrapper yields
/// nothing.
pub fn recover(title: &str) -> (r: Option<String>)
    ensures
        match r {
            Some(s) => recover_spec(title@) == Some(s@),
            None => recover_spec(title@) is None,
        },
{
    let v = crate::text::str_to_chars(title);
    let n = v.len();
    if n < 37 {
        return None;
    }
    let has_prefix = crate::text::starts_with_at(&v, 0, "<span font_family=\"monospace\">");
    let has_suffix = crate::text::starts_with_at(&v, n - 7, "</span>");
    proof {
        reveal_strlit("<span font_family=\"monospace\">");
        reveal_strlit("</span>");
        assert("<span font_family=\"monospace\">"@ =~= mono_open());
        assert("</span>"@ =~= close_span());
    }
    if !has_prefix {
        proof {
            assert(recover_spec(title@) is None);
        }
        return None;
    }
    if !has_suffix {
        proof {
            assert(recover_spec(title@) is None);
        }
        return None;
    }
    let mut inner: Vec<char> = Vec::new();
    crate::text::push_char_range(&mut inner, &v, 30, n - 7);
    proof {
        assert(inner@ =~= title@.subrange(30, title@.len() - 7));
    }
    let stripped = strip_tags_exec(&inner);
    let unescaped = crate::escape::unescape_chars(&stripped);
    Some(crate::text::chars_to_string(&unescaped))
}

} // verus!
