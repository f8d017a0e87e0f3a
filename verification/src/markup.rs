//! The documentation-markup pipeline.
//!
//! A description arrives escaped (see `escape`) and is pushed through a fixed
//! sequence of substitution passes, each scanning the output of the previous
//! one: encoded angle-bracket URLs, then markdown-style links, then the
//! tagged inline-code forms `{file}`, `{command}` and `{option}`, and last
//! the untagged backtick form.  Text that matches no pattern passes through
//! unchanged.

use vstd::prelude::*;
use crate::escape::{lt_entity, gt_entity};
use crate::text::{find2, find_sub, is_ws_char, starts_with_seq};

verus! {

/// The opening tag of an underlined link span.
pub open spec fn blue_open() -> Seq<char> {
    "<span foreground=\"lightblue\"><u>"@
}

/// The closing tag of an underlined link span.
pub open spec fn blue_close() -> Seq<char> {
    "</u></span>"@
}

/// The opening tag of a file span.
pub open spec fn green_open() -> Seq<char> {
    "<span foreground=\"lightgreen\">"@
}

/// The opening tag of a monospace span.
pub open spec fn mono_span_open() -> Seq<char> {
    "<span font_family=\"monospace\">"@
}

/// The opening tag of an option span.
pub open spec fn orange_open() -> Seq<char> {
    "<span font_family=\"monospace\" foreground=\"orange\">"@
}

/// The closing tag shared by the non-underlined spans.
pub open spec fn span_close() -> Seq<char> {
    "</span>"@
}

/// What may stand between the encoded angle brackets of a bare URL: no blank
/// character, at least one character before the first dot, and at least two
/// after it.
pub open spec fn url_content_ok(c: Seq<char>) -> bool {
    (forall|q: int| 0 <= q < c.len() ==> !is_ws_char(c[q])) && match find2(c, 0, '.', '.') {
        Some(p) => 1 <= p && p + 3 <= c.len(),
        None => false,
    }
}

/// The bare-URL pass from position `i` on: `&lt;CONTENT&gt;` becomes an
/// underlined link span around the content whenever the content qualifies.
pub open spec fn url_pass_from(s: Seq<char>, i: int) -> Seq<char>
    decreases s.len() - i
    when 0 <= i <= s.len()
{
    if i >= s.len() {
        Seq::empty()
    } else if starts_with_seq(s, i, lt_entity()) {
        match find_sub(s, i + 4, gt_entity()) {
            Some(j) => {
                if i + 4 <= j && j + 4 <= s.len() && url_content_ok(s.subrange(i + 4, j)) {
                    blue_open() + s.subrange(i + 4, j) + blue_close() + url_pass_from(s, j + 4)
                } else {
                    seq![s[i]] + url_pass_from(s, i + 1)
                }
            },
            None => seq![s[i]] + url_pass_from(s, i + 1),
        }
    } else {
        seq![s[i]] + url_pass_from(s, i + 1)
    }
}

/// The markdown-link pass from position `i` on: `[label](target)` becomes an
/// underlined link span around the label; the target is discarded.
pub open spec fn md_pass_from(s: Seq<char>, i: int) -> Seq<char>
    decreases s.len() - i
    when 0 <= i <= s.len()
{
    if i >= s.len() {
        Seq::empty()
    } else if s[i] == '[' {
        match find2(s, i + 1, '[', ']') {
            Some(k) => {
                if s[k] == ']' && i + 1 < k && k + 1 < s.len() && s[k + 1] == '(' {
                    match find2(s, k + 2, ')', '\n') {
                        Some(m) => {
                            if k + 2 <= m && m < s.len() && s[m] == ')' {
                                blue_open() + s.subrange(i + 1, k) + blue_close() + md_pass_from(
                                    s,
                                    m + 1,
                                )
                            } else {
                                seq![s[i]] + md_pass_from(s, i + 1)
                            }
                        },
                        None => seq![s[i]] + md_pass_from(s, i + 1),
                    }
                } else {
                    seq![s[i]] + md_pass_from(s, i + 1)
                }
            },
            None => seq![s[i]] + md_pass_from(s, i + 1),
        }
    } else {
        seq![s[i]] + md_pass_from(s, i + 1)
    }
}

/// A backtick-delimited pass from position `i` on: the opening pattern (a
/// tag plus the opening backtick) followed by a non-empty run without
/// backtick or line break and a closing backtick becomes `pre` + content +
/// `post`.
pub open spec fn tick_pass_from(
    s: Seq<char>,
    open_pat: Seq<char>,
    pre: Seq<char>,
    post: Seq<char>,
    i: int,
) -> Seq<char>
    decreases s.len() - i
    when 0 <= i <= s.len()
{
    if i >= s.len() {
        Seq::empty()
    } else if starts_with_seq(s, i, open_pat) {
        let b = i + open_pat.len();
        match find2(s, b as int, '`', '\n') {
            Some(k) => {
                if b < k && k < s.len() && s[k] == '`' {
                    pre + s.subrange(b as int, k) + post + tick_pass_from(
                        s,
                        open_pat,
                        pre,
                        post,
                        k + 1,
                    )
                } else {
                    seq![s[i]] + tick_pass_from(s, open_pat, pre, post, i + 1)
                }
            },
            None => seq![s[i]] + tick_pass_from(s, open_pat, pre, post, i + 1),
        }
    } else {
        seq![s[i]] + tick_pass_from(s, open_pat, pre, post, i + 1)
    }
}

/// The whole pipeline over an escaped description text, in the fixed order
/// that keeps the specific tagged forms ahead of the generic backtick form.
pub open spec fn markup_pipeline(e: Seq<char>) -> Seq<char> {
    let s1 = url_pass_from(e, 0);
    let s2 = md_pass_from(s1, 0);
    let s3 = tick_pass_from(s2, "{file}`"@, green_open(), span_close(), 0);
    let s4 = tick_pass_from(s3, "{command}`"@, mono_span_open(), span_close(), 0);
    let s5 = tick_pass_from(s4, "{option}`"@, orange_open(), span_close(), 0);
    tick_pass_from(s5, "`"@, blue_open(), blue_close(), 0)
}

/// Decides whether the characters `v[from..to]` qualify as bare-URL content.
fn url_content_ok_exec(v: &Vec<char>, from: usize, to: usize) -> (b: bool)
    requires
        from <= to <= v@.len(),
    ensures
        b == url_content_ok(v@.subrange(from as int, to as int)),
{
    let ghost content = v@.subrange(from as int, to as int);
    let mut m: usize = from;
    while m < to
        invariant
            from <= m <= to <= v@.len(),
            content == v@.subrange(from as int, to as int),
            forall|q: int| 0 <= q < m - from ==> !is_ws_char(content[q]),
        decreases to - m,
    {
        if crate::text::is_ws(v[m]) {
            proof {
                assert(content[m - from] == v@[m as int]);
            }
            return false;
        }
        m = m + 1;
    }
    let mut p: usize = from;
    while p < to
        invariant
            from <= p <= to <= v@.len(),
            content == v@.subrange(from as int, to as int),
            forall|q: int| 0 <= q < content.len() ==> !is_ws_char(content[q]),
            find2(content, 0, '.', '.') == find2(content, p - from, '.', '.'),
        decreases to - p,
    {
        if v[p] == '.' {
            proof {
                assert(content[p - from] == v@[p as int]);
                assert(find2(content, p - from, '.', '.') == Some(p - from));
            }
            return p >= from + 1 && to - p >= 3;
        }
        proof {
            assert(content[p - from] == v@[p as int]);
        }
        p = p + 1;
    }
    proof {
        assert(find2(content, p - from, '.', '.') is None);
    }
    false
}

/// Applies the bare-URL pass.
pub fn url_pass(v: &Vec<char>) -> (r: Vec<char>)
    ensures
        r@ == url_pass_from(v@, 0),
{
    let mut out: Vec<char> = Vec::new();
    let mut i: usize = 0;
    proof {
        assert(out@ + url_pass_from(v@, 0) =~= url_pass_from(v@, 0));
    }
    while i < v.len()
        invariant
            i <= v@.len(),
            out@ + url_pass_from(v@, i as int) == url_pass_from(v@, 0),
        decreases v@.len() - i,
    {
        proof {
            reveal_strlit("&lt;");
            reveal_strlit("&gt;");
            assert("&lt;"@ =~= lt_entity());
            assert("&gt;"@ =~= gt_entity());
        }
        let mut matched_here = false;
        if crate::text::starts_with_at(v, i, "&lt;") {
            match crate::text::find_sub_at(v, i + 4, "&gt;") {
                Some(j) => {
                    if url_content_ok_exec(v, i + 4, j) {
                        crate::text::push_str_chars(&mut out, "<span foreground=\"lightblue\"><u>");
                        crate::text::push_char_range(&mut out, v, i + 4, j);
                        crate::text::push_str_chars(&mut out, "</u></span>");
                        i = j + 4;
                        matched_here = true;
                        proof {
                            assert(out@ + url_pass_from(v@, i as int) =~= url_pass_from(v@, 0));
                        }
                    }
                },
                None => {},
            }
        }
        if !matched_here {
            let c = v[i];
            out.push(c);
            i = i + 1;
            proof {
                assert(out@ + url_pass_from(v@, i as int) =~= url_pass_from(v@, 0));
            }
        }
    }
    proof {
        assert(out@ =~= out@ + url_pass_from(v@, i as int));
    }
    out
}

/// Applies the markdown-link pass.
pub fn md_pass(v: &Vec<char>) -> (r: Vec<char>)
    ensures
        r@ == md_pass_from(v@, 0),
{
    let mut out: Vec<char> = Vec::new();
    let mut i: usize = 0;
    proof {
        assert(out@ + md_pass_from(v@, 0) =~= md_pass_from(v@, 0));
    }
    while i < v.len()
        invariant
            i <= v@.len(),
            out@ + md_pass_from(v@, i as int) == md_pass_from(v@, 0),
        decreases v@.len() - i,
    {
        let mut matched_here = false;
        if v[i] == '[' {
            match crate::text::find2_at(v, i + 1, '[', ']') {
                Some(k) => {
                    if v[k] == ']' && i + 1 < k && k + 1 < v.len() && v[k + 1] == '(' {
                        match crate::text::find2_at(v, k + 2, ')', '\n') {
                            Some(m) => {
                                if v[m] == ')' {
                                    crate::text::push_str_chars(
                                        &mut out,
                                        "<span foreground=\"lightblue\"><u>",
                                    );
                                    crate::text::push_char_range(&mut out, v, i + 1, k);
                                    crate::text::push_str_chars(&mut out, "</u></span>");
                                    i = m + 1;
                                    matched_here = true;
                                    proof {
                                        assert(out@ + md_pass_from(v@, i as int) =~= md_pass_from(
                                            v@,
                                            0,
                                        ));
                                    }
                                }
                            },
                            None => {},
                        }
                    }
                },
                None => {},
            }
        }
        if !matched_here {
            let c = v[i];
            out.push(c);
            i = i + 1;
            proof {
                assert(out@ + md_pass_from(v@, i as int) =~= md_pass_from(v@, 0));
            }
        }
    }
    proof {
        assert(out@ =~= out@ + md_pass_from(v@, i as int));
    }
    out
}

/// Applies one backtick-delimited pass with the given opening pattern and
/// span markup.
pub fn tick_pass(v: &Vec<char>, open_pat: &str, pre: &str, post: &str) -> (r: Vec<char>)
    ensures
        r@ == tick_pass_from(v@, open_pat@, pre@, post@, 0),
{
    let mut out: Vec<char> = Vec::new();
    let mut i: usize = 0;
    proof {
        assert(out@ + tick_pass_from(v@, open_pat@, pre@, post@, 0) =~= tick_pass_from(
            v@,
            open_pat@,
            pre@,
            post@,
            0,
        ));
    }
    while i < v.len()
        invariant
            i <= v@.len(),
            out@ + tick_pass_from(v@, open_pat@, pre@, post@, i as int) == tick_pass_from(
                v@,
                open_pat@,
                pre@,
                post@,
                0,
            ),
        decreases v@.len() - i,
    {
        let mut matched_here = false;
        if crate::text::starts_with_at(v, i, open_pat) {
            let b = i + open_pat.unicode_len();
            match crate::text::find2_at(v, b, '`', '\n') {
                Some(k) => {
                    if k > b && v[k] == '`' {
                        crate::text::push_str_chars(&mut out, pre);
                        crate::text::push_char_range(&mut out, v, b, k);
                        crate::text::push_str_chars(&mut out, post);
                        i = k + 1;
                        matched_here = true;
                        proof {
                            assert(out@ + tick_pass_from(v@, open_pat@, pre@, post@, i as int)
                                =~= tick_pass_from(v@, open_pat@, pre@, post@, 0));
                        }
                    }
                },
                None => {},
            }
        }
        if !matched_here {
            let c = v[i];
            out.push(c);
            i = i + 1;
            proof {
                assert(out@ + tick_pass_from(v@, open_pat@, pre@, post@, i as int)
                    =~= tick_pass_from(v@, open_pat@, pre@, post@, 0));
            }
        }
    }
    proof {
        assert(out@ =~= out@ + tick_pass_from(v@, open_pat@, pre@, post@, i as int));
    }
    out
}

/// Runs the whole pipeline over an escaped description text.
pub fn apply_markup(v: &Vec<char>) -> (r: Vec<char>)
    ensures
        r@ == markup_pipeline(v@),
{
    let s1 = url_pass(v);
    let s2 = md_pass(&s1);
    let s3 = tick_pass(&s2, "{file}`", "<span foreground=\"lightgreen\">", "</span>");
    let s4 = tick_pass(&s3, "{command}`", "<span font_family=\"monospace\">", "</span>");
    let s5 = tick_pass(&s4, "{option}`", "<span font_family=\"monospace\" foreground=\"orange\">", "</span>");
    let s6 = tick_pass(&s5, "`", "<span foreground=\"lightblue\"><u>", "</u></span>");
    s6
}

} // verus!
