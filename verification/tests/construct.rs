use rtml::text::compose_name;
use rtml::Children;
use rtml::TagArg;
use rtml::TagError;
use rtml::TagFormatter;
use rtml::TagHandler;
use rtml::TagProp;
use rtml::TagStyle;
use rtml::UnitTag;
use rtml::render;
use rtml::x;

fn s(v: &str) -> String {
    v.to_string()
}

fn sample_props() -> TagProp {
    let mut p = TagProp::new();
    p.insert(s("id"), s("x")).unwrap();
    p
}

fn sample_style() -> TagStyle {
    let mut st = TagStyle::new();
    st.insert(s("color"), s("red"));
    st
}

fn sample_handlers() -> TagHandler {
    let mut h = TagHandler::new();
    h.insert(s("click"), s("go"));
    h
}

fn compact(tab: usize) -> TagFormatter {
    TagFormatter {
        tab_size: tab,
        indent: 0,
        max_width: 120,
        newline_on_prop: false,
        line_sep: s("\n"),
    }
}

#[test]
fn reserved_handler_name_is_rejected() {
    let mut p = TagProp::new();
    assert_eq!(
        p.insert(s("onclick"), s("go")),
        Err(TagError::ReservedHandlerName)
    );
    assert_eq!(p.len(), 0);
}

#[test]
fn reserved_handler_prefix_alone_is_rejected() {
    let mut p = TagProp::new();
    assert_eq!(p.insert(s("on"), s("")), Err(TagError::ReservedHandlerName));
    assert_eq!(p.insert(s("once"), s("1")), Err(TagError::ReservedHandlerName));
    assert!(p.insert(s("o"), s("1")).is_ok());
}

#[test]
fn reserved_style_name_is_rejected() {
    let mut p = TagProp::new();
    assert_eq!(
        p.insert(s("style"), s("color: red")),
        Err(TagError::ReservedStyleName)
    );
    assert_eq!(p.len(), 0);
}

#[test]
fn styled_is_not_reserved() {
    let mut p = TagProp::new();
    assert!(p.insert(s("styled"), s("yes")).is_ok());
    assert_eq!(p.len(), 1);
}

#[test]
fn insert_replaces_existing_key() {
    let mut p = TagProp::new();
    p.insert(s("a"), s("1")).unwrap();
    p.insert(s("b"), s("2")).unwrap();
    p.insert(s("a"), s("3")).unwrap();
    assert_eq!(p.len(), 2);
    let t = x(s("div"), vec![TagArg::Props(p)], Children::Empty).unwrap();
    let out = render(&t, compact(4));
    assert_eq!(out, "<div a=\"3\" b=\"2\">\n</div>\n");
}

#[test]
fn duplicate_container_kind_is_rejected() {
    let r = x(
        s("div"),
        vec![TagArg::Props(sample_props()), TagArg::Props(sample_props())],
        Children::Empty,
    );
    assert!(matches!(r, Err(TagError::DuplicateArgument)));
}

#[test]
fn resolver_accepts_each_container_alone() {
    let t = x(s("div"), vec![TagArg::Style(sample_style())], Children::Empty).unwrap();
    assert_eq!(t.tag, "div");
    assert_eq!(t.props.0.len(), 0);
    assert_eq!(t.style.0.len(), 1);
    assert_eq!(t.on.0.len(), 0);
    assert_eq!(t.children.len(), 0);
}

#[test]
fn resolver_accepts_no_arguments() {
    let t = x(s("br"), vec![], Children::Empty).unwrap();
    assert_eq!(t.tag, "br");
    assert_eq!(t.props.0.len(), 0);
    assert_eq!(t.style.0.len(), 0);
    assert_eq!(t.on.0.len(), 0);
    assert_eq!(t.children.len(), 0);
}

#[test]
fn resolver_is_order_insensitive() {
    let f = || compact(4);
    let t1 = x(
        s("div"),
        vec![
            TagArg::Props(sample_props()),
            TagArg::Style(sample_style()),
            TagArg::Handlers(sample_handlers()),
        ],
        Children::Empty,
    )
    .unwrap();
    let t2 = x(
        s("div"),
        vec![
            TagArg::Handlers(sample_handlers()),
            TagArg::Props(sample_props()),
            TagArg::Style(sample_style()),
        ],
        Children::Empty,
    )
    .unwrap();
    let t3 = x(
        s("div"),
        vec![
            TagArg::Style(sample_style()),
            TagArg::Handlers(sample_handlers()),
            TagArg::Props(sample_props()),
        ],
        Children::Empty,
    )
    .unwrap();
    let o1 = render(&t1, f());
    let o2 = render(&t2, f());
    let o3 = render(&t3, f());
    assert_eq!(o1, o2);
    assert_eq!(o2, o3);
    assert_eq!(o1, "<div id=\"x\" style=\"color: red; \" onclick=\"go\">\n</div>\n");
}

#[test]
fn resolver_pair_order_is_irrelevant() {
    let f = || compact(4);
    let t1 = x(
        s("p"),
        vec![TagArg::Props(sample_props()), TagArg::Handlers(sample_handlers())],
        Children::Empty,
    )
    .unwrap();
    let t2 = x(
        s("p"),
        vec![TagArg::Handlers(sample_handlers()), TagArg::Props(sample_props())],
        Children::Empty,
    )
    .unwrap();
    assert_eq!(render(&t1, f()), render(&t2, f()));
}

#[test]
fn children_single_node_flattens() {
    let li = x(s("li"), vec![], Children::Empty).unwrap();
    let t = x(s("ul"), vec![], Children::One(li)).unwrap();
    assert_eq!(t.children.len(), 1);
    assert_eq!(t.children[0].tag, "li");
}

#[test]
fn children_pair_flattens_in_order() {
    let a = x(s("dt"), vec![], Children::Empty).unwrap();
    let b = x(s("dd"), vec![], Children::Empty).unwrap();
    let t = x(s("dl"), vec![], Children::Pair(a, b)).unwrap();
    assert_eq!(t.children.len(), 2);
    assert_eq!(t.children[0].tag, "dt");
    assert_eq!(t.children[1].tag, "dd");
}

#[test]
fn builder_props_replaces_only_props() {
    let t = x(s("div"), vec![TagArg::Style(sample_style())], Children::Empty).unwrap();
    let t = t.props(sample_props());
    assert_eq!(t.props.0.len(), 1);
    assert_eq!(t.style.0.len(), 1);
    assert_eq!(t.on.0.len(), 0);
}

#[test]
fn builder_style_replaces_only_style() {
    let t = x(s("div"), vec![TagArg::Props(sample_props())], Children::Empty).unwrap();
    let t = t.style(sample_style());
    assert_eq!(t.props.0.len(), 1);
    assert_eq!(t.style.0.len(), 1);
}

#[test]
fn builder_on_replaces_only_handlers() {
    let t = x(s("div"), vec![], Children::Empty).unwrap();
    let t = t.on(sample_handlers());
    assert_eq!(t.on.0.len(), 1);
    assert_eq!(t.props.0.len(), 0);
}

#[test]
fn compose_name_joins_with_hyphen() {
    assert_eq!(compose_name(&vec![s("data"), s("role")]), "data-role");
    assert_eq!(compose_name(&vec![s("aria"), s("hidden"), s("x")]), "aria-hidden-x");
    assert_eq!(compose_name(&vec![s("id")]), "id");
    assert_eq!(compose_name(&vec![]), "");
}

#[test]
fn composite_name_through_insert() {
    let mut p = TagProp::new();
    let name = compose_name(&vec![s("data"), s("kind")]);
    p.insert(name, s("v")).unwrap();
    let t = x(s("div"), vec![TagArg::Props(p)], Children::Empty).unwrap();
    let out = render(&t, compact(4));
    assert_eq!(out, "<div data-kind=\"v\">\n</div>\n");
}

#[test]
fn pad_size_multiplies_depth_by_tab() {
    let f = TagFormatter {
        tab_size: 3,
        indent: 2,
        max_width: 120,
        newline_on_prop: false,
        line_sep: s("\n"),
    };
    assert_eq!(f.pad_size(), 6);
}

#[test]
fn default_formatter_values() {
    let f = TagFormatter::default();
    assert_eq!(f.tab_size, 4);
    assert_eq!(f.indent, 0);
    assert_eq!(f.max_width, 120);
    assert!(!f.newline_on_prop);
    assert_eq!(f.line_sep, "\n");
}

#[test]
fn name_reports_the_tag() {
    let t = x(s("article"), vec![], Children::Empty).unwrap();
    assert_eq!(t.name(), "article");
}

#[test]
fn to_text_uses_default_context() {
    let t = x(s("br"), vec![], Children::Empty).unwrap();
    assert_eq!(t.to_text(), "<br>\n</br>\n");
    assert_eq!(t.to_text(), render(&t, TagFormatter::default()));
}

#[test]
fn nodes_keep_insertion_order_of_attributes() {
    let mut p = TagProp::new();
    p.insert(s("b"), s("2")).unwrap();
    p.insert(s("a"), s("1")).unwrap();
    let t = UnitTag {
        tag: s("div"),
        props: p,
        on: TagHandler::new(),
        style: TagStyle::new(),
        children: Vec::new(),
    };
    let out = render(&t, compact(4));
    assert_eq!(out, "<div b=\"2\" a=\"1\">\n</div>\n");
}
