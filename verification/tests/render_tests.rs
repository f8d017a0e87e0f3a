use nixos_options::escape::encode_text;
use nixos_options::markup::{md_pass, tick_pass, url_pass};
use nixos_options::pipeline::{render_description, render_option};
use nixos_options::text::{chars_to_string, str_to_chars};
use nixos_options::title::{recover, render_title};
use nixos_options::{DefaultOrExample, NixOSOption};

fn chars(s: &str) -> Vec<char> {
    str_to_chars(s)
}

fn string_of(v: &Vec<char>) -> String {
    chars_to_string(v)
}

fn plain_option(description: Option<&str>, ty: &str) -> NixOSOption {
    NixOSOption {
        declarations: Vec::new(),
        description: description.map(|d| d.to_string()),
        default: None,
        example: None,
        loc: Vec::new(),
        read_only: false,
        ty: ty.to_string(),
    }
}

#[test]
fn escapes_text_for_markup() {
    assert_eq!(encode_text("a > b && a < c"), "a &gt; b &amp;&amp; a &lt; c");
    assert_eq!(encode_text("plain"), "plain");
}

#[test]
fn title_wraps_whole_key_in_monospace() {
    let t = render_title(&chars("abc"), &Vec::new());
    assert_eq!(
        string_of(&t),
        "<span font_family=\"monospace\">abc</span>"
    );
}

#[test]
fn title_highlights_single_match() {
    let t = render_title(&chars("abc"), &vec![1]);
    assert_eq!(
        string_of(&t),
        "<span font_family=\"monospace\">a<span weight=\"bold\" foreground=\"#db5a65\">b</span>c</span>"
    );
}

#[test]
fn adjacent_matches_share_one_span() {
    let t = render_title(&chars("abcd"), &vec![1, 2]);
    assert_eq!(
        string_of(&t),
        "<span font_family=\"monospace\">a<span weight=\"bold\" foreground=\"#db5a65\">bc</span>d</span>"
    );
}

#[test]
fn separated_matches_get_separate_spans() {
    let t = render_title(&chars("abcd"), &vec![0, 2]);
    assert_eq!(
        string_of(&t),
        "<span font_family=\"monospace\"><span weight=\"bold\" foreground=\"#db5a65\">a</span>b<span weight=\"bold\" foreground=\"#db5a65\">c</span>d</span>"
    );
}

#[test]
fn title_escapes_key_characters() {
    let t = render_title(&chars("a<b>.c"), &vec![0]);
    assert_eq!(
        string_of(&t),
        "<span font_family=\"monospace\"><span weight=\"bold\" foreground=\"#db5a65\">a</span>&lt;b&gt;.c</span>"
    );
}

#[test]
fn recover_inverts_render_for_plain_key() {
    let t = render_title(&chars("boot.loader.grub.enable"), &vec![0, 1, 2, 5]);
    let got = recover(&string_of(&t)).expect("rendered title must recover");
    assert_eq!(got, "boot.loader.grub.enable");
}

#[test]
fn recover_inverts_render_for_escaped_key() {
    let t = render_title(&chars("services.<name>.x&y"), &vec![3, 9, 10]);
    let got = recover(&string_of(&t)).expect("rendered title must recover");
    assert_eq!(got, "services.<name>.x&y");
}

#[test]
fn recover_inverts_render_for_empty_index_set() {
    let t = render_title(&chars("a.b"), &Vec::new());
    assert_eq!(recover(&string_of(&t)), Some("a.b".to_string()));
}

#[test]
fn recover_rejects_foreign_text() {
    assert_eq!(recover("not a rendered title"), None);
    assert_eq!(recover(""), None);
}

#[test]
fn url_pass_styles_encoded_angle_bracket_url() {
    let out = url_pass(&chars("see &lt;example.com&gt; here"));
    assert_eq!(
        string_of(&out),
        "see <span foreground=\"lightblue\"><u>example.com</u></span> here"
    );
}

#[test]
fn url_pass_leaves_non_urls_alone() {
    let out = url_pass(&chars("&lt;no dots here&gt;"));
    assert_eq!(string_of(&out), "&lt;no dots here&gt;");
}

#[test]
fn md_pass_keeps_label_and_drops_target() {
    let out = md_pass(&chars("see [the docs](https://example.org) now"));
    assert_eq!(
        string_of(&out),
        "see <span foreground=\"lightblue\"><u>the docs</u></span> now"
    );
}

#[test]
fn file_tag_becomes_green_span() {
    let out = tick_pass(
        &chars("read {file}`/etc/nixos` first"),
        "{file}`",
        "<span foreground=\"lightgreen\">",
        "</span>",
    );
    assert_eq!(
        string_of(&out),
        "read <span foreground=\"lightgreen\">/etc/nixos</span> first"
    );
}

#[test]
fn bare_backticks_render_as_underlined_span() {
    let o = plain_option(Some("`/etc/foo`"), "path");
    let d = string_of(&render_description(&o));
    assert_eq!(
        d,
        "<span foreground=\"lightblue\"><u>/etc/foo</u></span>\n\n<b>Type</b>: <span font_family=\"monospace\">path</span>"
    );
}

#[test]
fn tagged_forms_beat_the_generic_backtick_form() {
    let o = plain_option(
        Some("{command}`ls -l` and {option}`foo.bar` and `rest`"),
        "string",
    );
    let d = string_of(&render_description(&o));
    assert!(d.starts_with(
        "<span font_family=\"monospace\">ls -l</span> and <span font_family=\"monospace\" foreground=\"orange\">foo.bar</span> and <span foreground=\"lightblue\"><u>rest</u></span>"
    ));
}

#[test]
fn missing_description_renders_fields_only() {
    let o = plain_option(None, "boolean");
    let d = string_of(&render_description(&o));
    assert_eq!(
        d,
        "<b>Type</b>: <span font_family=\"monospace\">boolean</span>"
    );
}

#[test]
fn single_line_default_stays_on_label_line() {
    let mut o = plain_option(None, "boolean");
    o.default = Some(DefaultOrExample {
        kind: "literalExpression".to_string(),
        text: "true".to_string(),
    });
    let d = string_of(&render_description(&o));
    assert_eq!(
        d,
        "<b>Type</b>: <span font_family=\"monospace\">boolean</span>\n<b>Default</b>: <span font_family=\"monospace\">true</span>"
    );
}

#[test]
fn multi_line_default_starts_on_its_own_line() {
    let mut o = plain_option(None, "attrs");
    o.default = Some(DefaultOrExample {
        kind: "literalExpression".to_string(),
        text: "{\n}".to_string(),
    });
    let d = string_of(&render_description(&o));
    assert_eq!(
        d,
        "<b>Type</b>: <span font_family=\"monospace\">attrs</span>\n<b>Default</b>:\n<span font_family=\"monospace\">{\n}</span>"
    );
}

#[test]
fn multi_line_example_starts_on_its_own_line() {
    let mut o = plain_option(None, "attrs");
    o.example = Some(DefaultOrExample {
        kind: "literalExpression".to_string(),
        text: "a\nb".to_string(),
    });
    let d = string_of(&render_description(&o));
    assert_eq!(
        d,
        "<b>Type</b>: <span font_family=\"monospace\">attrs</span>\n<b>Example</b>:\n<span font_family=\"monospace\">a\nb</span>"
    );
}

#[test]
fn field_order_is_description_type_default_example() {
    let mut o = plain_option(Some("doc"), "int");
    o.default = Some(DefaultOrExample {
        kind: "literal".to_string(),
        text: "0".to_string(),
    });
    o.example = Some(DefaultOrExample {
        kind: "literal".to_string(),
        text: "8080".to_string(),
    });
    let d = string_of(&render_description(&o));
    assert_eq!(
        d,
        "doc\n\n<b>Type</b>: <span font_family=\"monospace\">int</span>\n<b>Default</b>: <span font_family=\"monospace\">0</span>\n<b>Example</b>: <span font_family=\"monospace\">8080</span>"
    );
}

#[test]
fn description_values_are_escaped() {
    let mut o = plain_option(None, "listOf <thing>");
    o.default = Some(DefaultOrExample {
        kind: "literal".to_string(),
        text: "a & b".to_string(),
    });
    let d = string_of(&render_description(&o));
    assert_eq!(
        d,
        "<b>Type</b>: <span font_family=\"monospace\">listOf &lt;thing&gt;</span>\n<b>Default</b>: <span font_family=\"monospace\">a &amp; b</span>"
    );
}

#[test]
fn render_option_round_trips_through_recover() {
    let o = plain_option(Some("some `doc`"), "boolean");
    let key = "services.<name>.enable".to_string();
    let r = render_option(&key, &o, &vec![0, 1, 2, 3]);
    assert_eq!(recover(&r.title), Some(key));
}
