use rtml::Children;
use rtml::TagArg;
use rtml::TagFormatter;
use rtml::TagHandler;
use rtml::TagProp;
use rtml::TagStyle;
use rtml::render;
use rtml::x;

fn s(v: &str) -> String {
    v.to_string()
}

fn fmt(tab: usize, nl: bool) -> TagFormatter {
    TagFormatter {
        tab_size: tab,
        indent: 0,
        max_width: 120,
        newline_on_prop: nl,
        line_sep: s("\n"),
    }
}

#[test]
fn div_with_id_compact_zero_indent() {
    let mut p = TagProp::new();
    p.insert(s("id"), s("x")).unwrap();
    let t = x(s("div"), vec![TagArg::Props(p)], Children::Empty).unwrap();
    let out = render(&t, fmt(0, false));
    assert_eq!(out, "<div id=\"x\">\n</div>\n");
}

#[test]
fn void_style_tag_renders_open_and_close() {
    let t = x(s("br"), vec![], Children::Empty).unwrap();
    let out = render(&t, TagFormatter::default());
    assert_eq!(out, "<br>\n</br>\n");
}

#[test]
fn children_nest_one_level_deeper() {
    let li1 = x(s("li"), vec![], Children::Empty).unwrap();
    let li2 = x(s("li"), vec![], Children::Empty).unwrap();
    let t = x(s("ul"), vec![], Children::Many(vec![li1, li2])).unwrap();
    let out = render(&t, fmt(2, false));
    assert_eq!(out, "<ul>\n  <li>\n  </li>\n  <li>\n  </li>\n</ul>\n");
    for line in out.lines() {
        if line.contains("li") {
            assert!(line.starts_with("  "));
            assert!(!line.starts_with("   "));
        }
    }
}

#[test]
fn empty_style_renders_no_style_token() {
    let mut p = TagProp::new();
    p.insert(s("id"), s("x")).unwrap();
    let t = x(s("div"), vec![TagArg::Props(p)], Children::Empty).unwrap();
    let out = render(&t, fmt(4, false));
    assert!(!out.contains("style=\""));
    let t2 = x(s("div"), vec![], Children::Empty).unwrap();
    let out2 = render(&t2, fmt(4, true));
    assert!(!out2.contains("style=\""));
}

#[test]
fn nonempty_style_renders_style_attribute() {
    let mut st = TagStyle::new();
    st.insert(s("color"), s("red"));
    st.insert(s("margin"), s("0"));
    let t = x(s("div"), vec![TagArg::Style(st)], Children::Empty).unwrap();
    let out = render(&t, fmt(4, false));
    assert_eq!(out, "<div style=\"color: red; margin: 0; \">\n</div>\n");
}

#[test]
fn presence_only_attribute_renders_bare_name() {
    let mut p = TagProp::new();
    p.insert(s("disabled"), s("")).unwrap();
    let t = x(s("input"), vec![TagArg::Props(p)], Children::Empty).unwrap();
    let out = render(&t, fmt(4, false));
    assert_eq!(out, "<input disabled>\n</input>\n");
    assert!(!out.contains("disabled="));
}

#[test]
fn handlers_render_with_on_prefix() {
    let mut h = TagHandler::new();
    h.insert(s("click"), s("handle_click"));
    let t = x(s("button"), vec![TagArg::Handlers(h)], Children::Empty).unwrap();
    let out = render(&t, fmt(4, false));
    assert_eq!(out, "<button onclick=\"handle_click\">\n</button>\n");
}

#[test]
fn rendering_twice_is_byte_identical() {
    let mut p = TagProp::new();
    p.insert(s("id"), s("x")).unwrap();
    p.insert(s("hidden"), s("")).unwrap();
    let mut st = TagStyle::new();
    st.insert(s("color"), s("red"));
    let inner = x(s("span"), vec![], Children::Empty).unwrap();
    let t = x(
        s("div"),
        vec![TagArg::Props(p), TagArg::Style(st)],
        Children::One(inner),
    )
    .unwrap();
    let out1 = render(&t, fmt(4, false));
    let out2 = render(&t, fmt(4, false));
    assert_eq!(out1, out2);
    let out3 = render(&t, fmt(4, true));
    let out4 = render(&t, fmt(4, true));
    assert_eq!(out3, out4);
}

#[test]
fn leaf_output_reparses_to_one_tag_pair() {
    let mut p = TagProp::new();
    p.insert(s("id"), s("x")).unwrap();
    let t = x(s("div"), vec![TagArg::Props(p)], Children::Empty).unwrap();
    let out = render(&t, fmt(4, false));
    assert_eq!(out.matches('<').count(), 2);
    assert_eq!(out.matches("</").count(), 1);
    let open = out.find("<div").expect("one opening tag");
    let close = out.find("</div>").expect("one closing tag");
    assert!(open < close);
    assert_eq!(out.matches("<div").count(), 1);
    assert_eq!(out.matches("</div>").count(), 1);
}

#[test]
fn one_attribute_per_line_layout() {
    let mut p = TagProp::new();
    p.insert(s("href"), s("u")).unwrap();
    let t = x(s("a"), vec![TagArg::Props(p)], Children::Empty).unwrap();
    let out = render(&t, fmt(4, true));
    assert_eq!(out, "<a\n  href=\"u\"\n>\n\n</a>\n");
}

#[test]
fn one_per_line_presence_only_and_second_line_padding() {
    let mut p = TagProp::new();
    p.insert(s("a"), s("1")).unwrap();
    p.insert(s("b"), s("")).unwrap();
    let t = x(s("i"), vec![TagArg::Props(p)], Children::Empty).unwrap();
    let out = render(&t, fmt(4, true));
    assert_eq!(out, "<i\n  a=\"1\"\n b\n>\n\n</i>\n");
}

#[test]
fn one_per_line_style_and_handler_share_a_line() {
    let mut st = TagStyle::new();
    st.insert(s("color"), s("red"));
    let mut h = TagHandler::new();
    h.insert(s("click"), s("go"));
    let t = x(
        s("b"),
        vec![TagArg::Style(st), TagArg::Handlers(h)],
        Children::Empty,
    )
    .unwrap();
    let out = render(&t, fmt(4, true));
    assert_eq!(out, "<b\n  style=\"color: red; \" onclick=\"go\"\n>\n\n</b>\n");
}

#[test]
fn deep_nesting_restores_indentation() {
    let leaf = x(s("em"), vec![], Children::Empty).unwrap();
    let mid = x(s("p"), vec![], Children::One(leaf)).unwrap();
    let top = x(s("section"), vec![], Children::One(mid)).unwrap();
    let out = render(&top, fmt(1, false));
    assert_eq!(
        out,
        "<section>\n <p>\n  <em>\n  </em>\n </p>\n</section>\n"
    );
}

#[test]
fn custom_line_separator_is_used() {
    let t = x(s("br"), vec![], Children::Empty).unwrap();
    let out = render(
        &t,
        TagFormatter {
            tab_size: 4,
            indent: 0,
            max_width: 120,
            newline_on_prop: false,
            line_sep: s("\r\n"),
        },
    );
    assert_eq!(out, "<br>\r\n</br>\r\n");
}

#[test]
fn render_starts_at_given_depth() {
    let t = x(s("td"), vec![], Children::Empty).unwrap();
    let out = render(
        &t,
        TagFormatter {
            tab_size: 2,
            indent: 2,
            max_width: 120,
            newline_on_prop: false,
            line_sep: s("\n"),
        },
    );
    assert_eq!(out, "    <td>\n    </td>\n");
}

#[test]
fn mixed_attribute_kinds_render_in_section_order() {
    let mut p = TagProp::new();
    p.insert(s("id"), s("z")).unwrap();
    p.insert(s("checked"), s("")).unwrap();
    let mut st = TagStyle::new();
    st.insert(s("width"), s("10px"));
    let mut h = TagHandler::new();
    h.insert(s("change"), s("sync"));
    let t = x(
        s("input"),
        vec![TagArg::Handlers(h), TagArg::Style(st), TagArg::Props(p)],
        Children::Empty,
    )
    .unwrap();
    let out = render(&t, fmt(4, false));
    assert_eq!(
        out,
        "<input id=\"z\" checked style=\"width: 10px; \" onchange=\"sync\">\n</input>\n"
    );
}
