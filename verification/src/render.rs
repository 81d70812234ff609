//! The renderer. A specification-level rendering function gives, character
//! by character, the markup text of a node under a formatting context; the
//! executable formatter is proved to append exactly that text to its buffer.

use vstd::prelude::*;
use vstd::string::StringExecFns;
use vstd::arithmetic::mul::lemma_mul_inequality;
use crate::containers::TagHandler;
use crate::containers::TagProp;
use crate::containers::TagStyle;
use crate::format::TagFormatter;
use crate::tags::UnitTag;
use crate::tags::height;
use crate::tags::lemma_child_height_lt;
use crate::text::count_char;
use crate::text::free_of;
use crate::text::lemma_count_char_concat;
use crate::text::lemma_count_zero_of_free;
use crate::text::push_spaces;
use crate::text::spaces;
use crate::text::style_key;

verus! {

/// One generic attribute in compact layout: ` name` for a presence-only
/// attribute (empty value), else ` name="value"`.
pub open spec fn prop_token(name: Seq<char>, val: Seq<char>) -> Seq<char> {
    if val.len() == 0 {
        seq![' '] + name
    } else {
        seq![' '] + name + seq!['=', '"'] + val + seq!['"']
    }
}

/// All generic attributes in compact layout, in container order.
pub open spec fn props_compact(ps: Seq<(Seq<char>, Seq<char>)>) -> Seq<char>
    decreases ps.len(),
{
    if ps.len() == 0 {
        Seq::empty()
    } else {
        prop_token(ps[0].0, ps[0].1) + props_compact(ps.drop_first())
    }
}

/// One style declaration inside the style attribute: `name: value; `.
pub open spec fn style_entry(name: Seq<char>, val: Seq<char>) -> Seq<char> {
    name + seq![':', ' '] + val + seq![';', ' ']
}

/// The concatenated style declarations, in container order.
pub open spec fn style_entries(ss: Seq<(Seq<char>, Seq<char>)>) -> Seq<char>
    decreases ss.len(),
{
    if ss.len() == 0 {
        Seq::empty()
    } else {
        style_entry(ss[0].0, ss[0].1) + style_entries(ss.drop_first())
    }
}

/// The whole style attribute in compact layout: nothing when the container
/// is empty, else ` style="..."` holding every declaration.
pub open spec fn style_attr_compact(ss: Seq<(Seq<char>, Seq<char>)>) -> Seq<char> {
    if ss.len() == 0 {
        Seq::empty()
    } else {
        seq![' '] + style_key() + seq!['=', '"'] + style_entries(ss) + seq!['"']
    }
}

/// One handler binding in compact layout: ` on<event>="<handler>"`.
pub open spec fn handler_token(name: Seq<char>, val: Seq<char>) -> Seq<char> {
    seq![' ', 'o', 'n'] + name + seq!['=', '"'] + val + seq!['"']
}

/// All handler bindings in compact layout, in container order.
pub open spec fn handlers_compact(hs: Seq<(Seq<char>, Seq<char>)>) -> Seq<char>
    decreases hs.len(),
{
    if hs.len() == 0 {
        Seq::empty()
    } else {
        handler_token(hs[0].0, hs[0].1) + handlers_compact(hs.drop_first())
    }
}

/// The compact attribute section, from just after the tag name up to and
/// including the closing `>`.
pub open spec fn attrs_compact(
    ps: Seq<(Seq<char>, Seq<char>)>,
    ss: Seq<(Seq<char>, Seq<char>)>,
    hs: Seq<(Seq<char>, Seq<char>)>,
) -> Seq<char> {
    props_compact(ps) + style_attr_compact(ss) + handlers_compact(hs) + seq!['>']
}

/// One generic attribute on its own line in one-per-line layout.
pub open spec fn prop_line(name: Seq<char>, val: Seq<char>, p: nat, sep: Seq<char>) -> Seq<char> {
    spaces(p) + (if val.len() == 0 {
        name
    } else {
        name + seq!['=', '"'] + val + seq!['"']
    }) + sep
}

/// All generic attributes in one-per-line layout.
pub open spec fn prop_lines(ps: Seq<(Seq<char>, Seq<char>)>, p: nat, sep: Seq<char>) -> Seq<char>
    decreases ps.len(),
{
    if ps.len() == 0 {
        Seq::empty()
    } else {
        prop_line(ps[0].0, ps[0].1, p, sep) + prop_lines(ps.drop_first(), p, sep)
    }
}

/// The style attribute in one-per-line layout: nothing when the container
/// is empty, else an indented `style="..."` with no line break of its own.
pub open spec fn style_block(ss: Seq<(Seq<char>, Seq<char>)>, p: nat) -> Seq<char> {
    if ss.len() == 0 {
        Seq::empty()
    } else {
        spaces(p) + style_key() + seq!['=', '"'] + style_entries(ss) + seq!['"']
    }
}

/// One handler binding on its own line in one-per-line layout.
pub open spec fn handler_line(name: Seq<char>, val: Seq<char>, p: nat, sep: Seq<char>) -> Seq<
    char,
> {
    spaces(p) + seq!['o', 'n'] + name + seq!['=', '"'] + val + seq!['"'] + sep
}

/// All handler bindings in one-per-line layout.
pub open spec fn handler_lines(hs: Seq<(Seq<char>, Seq<char>)>, p: nat, sep: Seq<char>) -> Seq<
    char,
>
    decreases hs.len(),
{
    if hs.len() == 0 {
        Seq::empty()
    } else {
        handler_line(hs[0].0, hs[0].1, p, sep) + handler_lines(hs.drop_first(), p, sep)
    }
}

/// The one-per-line attribute section, from just after the tag name up to
/// and including the closing `>`: a line break, one extra indentation run,
/// then each attribute on its own line, the style attribute without a line
/// break of its own, each handler on its own line, and the indented `>`
/// with a line break of its own.
pub open spec fn attrs_expanded(
    ps: Seq<(Seq<char>, Seq<char>)>,
    ss: Seq<(Seq<char>, Seq<char>)>,
    hs: Seq<(Seq<char>, Seq<char>)>,
    pad: nat,
    sep: Seq<char>,
) -> Seq<char> {
    sep + spaces(pad + 1) + prop_lines(ps, pad + 1, sep) + style_block(ss, pad + 1)
        + handler_lines(hs, pad + 1, sep) + spaces(pad) + seq!['>'] + sep
}

/// The markup text of one node under a formatting context: indentation,
/// `<name`, the attribute section of the selected layout, a separator, the
/// children one level deeper, and the indented `</name>` with a final
/// separator.
pub open spec fn render_tag(t: UnitTag, tab: nat, indent: nat, nl: bool, sep: Seq<char>) -> Seq<
    char,
>
    decreases t,
{
    let pad = indent * tab;
    spaces(pad) + seq!['<'] + t.tag@ + (if nl {
        attrs_expanded(t.props@, t.style@, t.on@, pad, sep)
    } else {
        attrs_compact(t.props@, t.style@, t.on@)
    }) + sep + render_children(t.children@, tab, indent + 1, nl, sep) + spaces(pad) + seq![
        '<',
        '/',
    ] + t.tag@ + seq!['>'] + sep
}

/// The markup text of a child list, in order.
pub open spec fn render_children(
    cs: Seq<UnitTag>,
    tab: nat,
    indent: nat,
    nl: bool,
    sep: Seq<char>,
) -> Seq<char>
    decreases cs,
{
    if cs.len() == 0 {
        Seq::empty()
    } else {
        render_tag(cs[0], tab, indent, nl, sep) + render_children(
            cs.subrange(1, cs.len() as int),
            tab,
            indent,
            nl,
            sep,
        )
    }
}

/// Appends every generic attribute in compact layout.
fn emit_props_compact(props: &TagProp, buf: &mut String)
    ensures
        final(buf)@ == old(buf)@ + props_compact(props@),
{
    let ghost ps = props@;
    let ghost b0 = buf@;
    proof {
        assert(ps.subrange(0, ps.len() as int) =~= ps);
    }
    let n = props.0.len();
    let mut i: usize = 0;
    while i < n
        invariant
            i <= n,
            n == ps.len(),
            ps == props@,
            b0 + props_compact(ps) == buf@ + props_compact(ps.subrange(i as int, ps.len() as int)),
        decreases n - i,
    {
        let ghost bi = buf@;
        let ghost rest = ps.subrange(i as int, ps.len() as int);
        let pair = &props.0[i];
        proof {
            assert(rest[0] == ps[i as int]);
            assert(pair.0@ == ps[i as int].0);
            assert(pair.1@ == ps[i as int].1);
        }
        buf.append(" ");
        buf.append(pair.0.as_str());
        if !pair.1.as_str().is_empty() {
            buf.append("=\"");
            buf.append(pair.1.as_str());
            buf.append("\"");
        }
        proof {
            reveal_strlit(" ");
            reveal_strlit("=\"");
            reveal_strlit("\"");
            assert(buf@ =~= bi + prop_token(rest[0].0, rest[0].1));
            assert(rest.drop_first() =~= ps.subrange(i as int + 1, ps.len() as int));
            assert(bi + props_compact(rest) =~= buf@ + props_compact(rest.drop_first()));
        }
        i = i + 1;
    }
    proof {
        assert(ps.subrange(n as int, ps.len() as int) =~= Seq::<(Seq<char>, Seq<char>)>::empty());
        assert(buf@ + props_compact(Seq::<(Seq<char>, Seq<char>)>::empty()) =~= buf@);
    }
}

/// Appends the concatenated style declarations.
fn emit_style_entries(style: &TagStyle, buf: &mut String)
    ensures
        final(buf)@ == old(buf)@ + style_entries(style@),
{
    let ghost ss = style@;
    let ghost b0 = buf@;
    proof {
        assert(ss.subrange(0, ss.len() as int) =~= ss);
    }
    let n = style.0.len();
    let mut i: usize = 0;
    while i < n
        invariant
            i <= n,
            n == ss.len(),
            ss == style@,
            b0 + style_entries(ss) == buf@ + style_entries(ss.subrange(i as int, ss.len() as int)),
        decreases n - i,
    {
        let ghost bi = buf@;
        let ghost rest = ss.subrange(i as int, ss.len() as int);
        let pair = &style.0[i];
        proof {
            assert(rest[0] == ss[i as int]);
            assert(pair.0@ == ss[i as int].0);
            assert(pair.1@ == ss[i as int].1);
        }
        buf.append(pair.0.as_str());
        buf.append(": ");
        buf.append(pair.1.as_str());
        buf.append("; ");
        proof {
            reveal_strlit(": ");
            reveal_strlit("; ");
            assert(buf@ =~= bi + style_entry(rest[0].0, rest[0].1));
            assert(rest.drop_first() =~= ss.subrange(i as int + 1, ss.len() as int));
            assert(bi + style_entries(rest) =~= buf@ + style_entries(rest.drop_first()));
        }
        i = i + 1;
    }
    proof {
        assert(ss.subrange(n as int, ss.len() as int) =~= Seq::<(Seq<char>, Seq<char>)>::empty());
        assert(buf@ + style_entries(Seq::<(Seq<char>, Seq<char>)>::empty()) =~= buf@);
    }
}

/// Appends every handler binding in compact layout.
fn emit_handlers_compact(on: &TagHandler, buf: &mut String)
    ensures
        final(buf)@ == old(buf)@ + handlers_compact(on@),
{
    let ghost hs = on@;
    let ghost b0 = buf@;
    proof {
        assert(hs.subrange(0, hs.len() as int) =~= hs);
    }
    let n = on.0.len();
    let mut i: usize = 0;
    while i < n
        invariant
            i <= n,
            n == hs.len(),
            hs == on@,
            b0 + handlers_compact(hs) == buf@ + handlers_compact(
                hs.subrange(i as int, hs.len() as int),
            ),
        decreases n - i,
    {
        let ghost bi = buf@;
        let ghost rest = hs.subrange(i as int, hs.len() as int);
        let pair = &on.0[i];
        proof {
            assert(rest[0] == hs[i as int]);
            assert(pair.0@ == hs[i as int].0);
            assert(pair.1@ == hs[i as int].1);
        }
        buf.append(" on");
        buf.append(pair.0.as_str());
        buf.append("=\"");
        buf.append(pair.1.as_str());
        buf.append("\"");
        proof {
            reveal_strlit(" on");
            reveal_strlit("=\"");
            reveal_strlit("\"");
            assert(buf@ =~= bi + handler_token(rest[0].0, rest[0].1));
            assert(rest.drop_first() =~= hs.subrange(i as int + 1, hs.len() as int));
            assert(bi + handlers_compact(rest) =~= buf@ + handlers_compact(rest.drop_first()));
        }
        i = i + 1;
    }
    proof {
        assert(hs.subrange(n as int, hs.len() as int) =~= Seq::<(Seq<char>, Seq<char>)>::empty());
        assert(buf@ + handlers_compact(Seq::<(Seq<char>, Seq<char>)>::empty()) =~= buf@);
    }
}

/// Appends every generic attribute on its own indented line.
fn emit_prop_lines(props: &TagProp, p: usize, sep: &str, buf: &mut String)
    ensures
        final(buf)@ == old(buf)@ + prop_lines(props@, p as nat, sep@),
{
    let ghost ps = props@;
    let ghost b0 = buf@;
    proof {
        assert(ps.subrange(0, ps.len() as int) =~= ps);
    }
    let n = props.0.len();
    let mut i: usize = 0;
    while i < n
        invariant
            i <= n,
            n == ps.len(),
            ps == props@,
            b0 + prop_lines(ps, p as nat, sep@) == buf@ + prop_lines(
                ps.subrange(i as int, ps.len() as int),
                p as nat,
                sep@,
            ),
        decreases n - i,
    {
        let ghost bi = buf@;
        let ghost rest = ps.subrange(i as int, ps.len() as int);
        let pair = &props.0[i];
        proof {
            assert(rest[0] == ps[i as int]);
            assert(pair.0@ == ps[i as int].0);
            assert(pair.1@ == ps[i as int].1);
        }
        push_spaces(buf, p);
        buf.append(pair.0.as_str());
        if !pair.1.as_str().is_empty() {
            buf.append("=\"");
            buf.append(pair.1.as_str());
            buf.append("\"");
        }
        buf.append(sep);
        proof {
            reveal_strlit("=\"");
            reveal_strlit("\"");
            assert(buf@ =~= bi + prop_line(rest[0].0, rest[0].1, p as nat, sep@));
            assert(rest.drop_first() =~= ps.subrange(i as int + 1, ps.len() as int));
            assert(bi + prop_lines(rest, p as nat, sep@) =~= buf@ + prop_lines(
                rest.drop_first(),
                p as nat,
                sep@,
            ));
        }
        i = i + 1;
    }
    proof {
        assert(ps.subrange(n as int, ps.len() as int) =~= Seq::<(Seq<char>, Seq<char>)>::empty());
        assert(buf@ + prop_lines(Seq::<(Seq<char>, Seq<char>)>::empty(), p as nat, sep@) =~= buf@);
    }
}

/// Appends every handler binding on its own indented line.
fn emit_handler_lines(on: &TagHandler, p: usize, sep: &str, buf: &mut String)
    ensures
        final(buf)@ == old(buf)@ + handler_lines(on@, p as nat, sep@),
{
    let ghost hs = on@;
    let ghost b0 = buf@;
    proof {
        assert(hs.subrange(0, hs.len() as int) =~= hs);
    }
    let n = on.0.len();
    let mut i: usize = 0;
    while i < n
        invariant
            i <= n,
            n == hs.len(),
            hs == on@,
            b0 + handler_lines(hs, p as nat, sep@) == buf@ + handler_lines(
                hs.subrange(i as int, hs.len() as int),
                p as nat,
                sep@,
            ),
        decreases n - i,
    {
        let ghost bi = buf@;
        let ghost rest = hs.subrange(i as int, hs.len() as int);
        let pair = &on.0[i];
        proof {
            assert(rest[0] == hs[i as int]);
            assert(pair.0@ == hs[i as int].0);
            assert(pair.1@ == hs[i as int].1);
        }
        push_spaces(buf, p);
        buf.append("on");
        buf.append(pair.0.as_str());
        buf.append("=\"");
        buf.append(pair.1.as_str());
        buf.append("\"");
        buf.append(sep);
        proof {
            reveal_strlit("on");
            reveal_strlit("=\"");
            reveal_strlit("\"");
            assert(buf@ =~= bi + handler_line(rest[0].0, rest[0].1, p as nat, sep@));
            assert(rest.drop_first() =~= hs.subrange(i as int + 1, hs.len() as int));
            assert(bi + handler_lines(rest, p as nat, sep@) =~= buf@ + handler_lines(
                rest.drop_first(),
                p as nat,
                sep@,
            ));
        }
        i = i + 1;
    }
    proof {
        assert(hs.subrange(n as int, hs.len() as int) =~= Seq::<(Seq<char>, Seq<char>)>::empty());
        assert(buf@ + handler_lines(Seq::<(Seq<char>, Seq<char>)>::empty(), p as nat, sep@)
            =~= buf@);
    }
}

/// Appends the whole compact attribute section, `>` included.
#[verifier::rlimit(60)]
fn emit_attrs_compact(props: &TagProp, style: &TagStyle, on: &TagHandler, buf: &mut String)
    ensures
        final(buf)@ == old(buf)@ + attrs_compact(props@, style@, on@),
{
    let ghost ss = style@;
    emit_props_compact(props, buf);
    let ghost after_props = buf@;
    if style.0.len() > 0 {
        buf.append(" style=\"");
        emit_style_entries(style, buf);
        buf.append("\"");
        proof {
            reveal_strlit(" style=\"");
            reveal_strlit("\"");
            assert(" style=\""@ =~= seq![' '] + style_key() + seq!['=', '"']);
            assert(buf@ =~= after_props + style_attr_compact(ss));
        }
    } else {
        proof {
            assert(buf@ =~= after_props + style_attr_compact(ss));
        }
    }
    emit_handlers_compact(on, buf);
    buf.append(">");
    proof {
        reveal_strlit(">");
        assert(buf@ =~= old(buf)@ + attrs_compact(props@, style@, on@));
    }
}

/// Appends the whole one-per-line attribute section, `>` included.
#[verifier::rlimit(60)]
fn emit_attrs_expanded(
    props: &TagProp,
    style: &TagStyle,
    on: &TagHandler,
    pad: usize,
    sep: &str,
    buf: &mut String,
)
    requires
        pad + 1 <= usize::MAX,
    ensures
        final(buf)@ == old(buf)@ + attrs_expanded(props@, style@, on@, pad as nat, sep@),
{
    let ghost ss = style@;
    buf.append(sep);
    let pad1 = pad + 1;
    push_spaces(buf, pad1);
    emit_prop_lines(props, pad1, sep, buf);
    let ghost after_props = buf@;
    if style.0.len() > 0 {
        push_spaces(buf, pad1);
        buf.append("style=\"");
        emit_style_entries(style, buf);
        buf.append("\"");
        proof {
            reveal_strlit("style=\"");
            reveal_strlit("\"");
            assert("style=\""@ =~= style_key() + seq!['=', '"']);
            assert(buf@ =~= after_props + style_block(ss, pad1 as nat));
        }
    } else {
        proof {
            assert(buf@ =~= after_props + style_block(ss, pad1 as nat));
        }
    }
    emit_handler_lines(on, pad1, sep, buf);
    push_spaces(buf, pad);
    buf.append(">");
    buf.append(sep);
    proof {
        reveal_strlit(">");
        assert(buf@ =~= old(buf)@ + attrs_expanded(props@, style@, on@, pad as nat, sep@));
    }
}

impl UnitTag {
    /// Appends this node's markup to `buf`: exactly the text of
    /// `render_tag` under the given context. The context comes back
    /// unchanged; its depth is raised only while the children render.
    #[verifier::loop_isolation(false)]
    #[verifier::rlimit(60)]
    pub fn format(&self, f: &mut TagFormatter, buf: &mut String)
        requires
            old(f).indent + height(*self) <= usize::MAX,
            (old(f).indent + height(*self)) * old(f).tab_size + 1 <= usize::MAX,
        ensures
            *final(f) == *old(f),
            final(buf)@ == old(buf)@ + render_tag(
                *self,
                old(f).tab_size as nat,
                old(f).indent as nat,
                old(f).newline_on_prop,
                old(f).line_sep@,
            ),
        decreases height(*self),
    {
        let ghost tab = old(f).tab_size as nat;
        let ghost ind = old(f).indent as nat;
        let ghost nl = old(f).newline_on_prop;
        let ghost sep = old(f).line_sep@;
        let ghost b0 = buf@;
        let ghost ps = self.props@;
        let ghost ss = self.style@;
        let ghost hs = self.on@;
        proof {
            lemma_mul_inequality(
                old(f).indent as int,
                old(f).indent + height(*self),
                old(f).tab_size as int,
            );
        }
        let pad = f.pad_size();
        push_spaces(buf, pad);
        buf.append("<");
        buf.append(self.tag.as_str());
        let ghost head = b0 + spaces(ind * tab) + seq!['<'] + self.tag@;
        proof {
            reveal_strlit("<");
            assert(buf@ =~= head);
        }
        let ghost section = if nl {
            attrs_expanded(ps, ss, hs, ind * tab, sep)
        } else {
            attrs_compact(ps, ss, hs)
        };
        if f.newline_on_prop {
            emit_attrs_expanded(&self.props, &self.style, &self.on, pad, f.line_sep.as_str(), buf);
            proof {
                assert(buf@ =~= head + section);
            }
        } else {
            emit_attrs_compact(&self.props, &self.style, &self.on, buf);
            proof {
                assert(buf@ =~= head + section);
            }
        }
        buf.append(f.line_sep.as_str());
        f.indent = f.indent + 1;
        let ghost base_c = buf@;
        let ghost cs = self.children@;
        let n = self.children.len();
        let mut i: usize = 0;
        proof {
            assert(cs.subrange(0, cs.len() as int) =~= cs);
        }
        while i < n
            invariant
                i <= n,
                n == cs.len(),
                f.tab_size == old(f).tab_size,
                f.indent == old(f).indent + 1,
                f.max_width == old(f).max_width,
                f.newline_on_prop == old(f).newline_on_prop,
                f.line_sep == old(f).line_sep,
                base_c + render_children(cs, tab, ind + 1, nl, sep) == buf@ + render_children(
                    cs.subrange(i as int, cs.len() as int),
                    tab,
                    ind + 1,
                    nl,
                    sep,
                ),
            decreases n - i,
        {
            let ghost bi = buf@;
            proof {
                lemma_child_height_lt(*self, i as int);
                lemma_mul_inequality(
                    f.indent + height(cs[i as int]),
                    old(f).indent + height(*self),
                    f.tab_size as int,
                );
            }
            let child = &self.children[i];
            child.format(f, buf);
            proof {
                let rest = cs.subrange(i as int, cs.len() as int);
                assert(rest[0] == cs[i as int]);
                assert(rest.subrange(1, rest.len() as int) =~= cs.subrange(
                    i as int + 1,
                    cs.len() as int,
                ));
                assert(bi + render_children(rest, tab, ind + 1, nl, sep) =~= buf@
                    + render_children(
                    cs.subrange(i as int + 1, cs.len() as int),
                    tab,
                    ind + 1,
                    nl,
                    sep,
                ));
            }
            i = i + 1;
        }
        f.indent = f.indent - 1;
        proof {
            assert(cs.subrange(n as int, cs.len() as int) =~= Seq::<UnitTag>::empty());
            assert(buf@ + render_children(Seq::<UnitTag>::empty(), tab, ind + 1, nl, sep)
                =~= buf@);
            assert(buf@ == base_c + render_children(cs, tab, ind + 1, nl, sep));
        }
        push_spaces(buf, pad);
        buf.append("</");
        buf.append(self.tag.as_str());
        buf.append(">");
        buf.append(f.line_sep.as_str());
        proof {
            reveal_strlit("</");
            reveal_strlit(">");
            assert("</"@ =~= seq!['<', '/']);
            assert(*f =~= *old(f));
            assert(buf@ =~= b0 + render_tag(*self, tab, ind, nl, sep));
        }
    }
}

impl UnitTag {
    /// Renders this node under the default formatting context: four-space
    /// indentation, compact attribute layout, newline separators.
    pub fn to_text(&self) -> (r: String)
        requires
            height(*self) <= usize::MAX,
            height(*self) * 4 + 1 <= usize::MAX,
        ensures
            r@ == render_tag(*self, 4, 0, false, "\n"@),
    {
        let f = TagFormatter::default();
        proof {
            reveal_strlit("\n");
        }
        render(self, f)
    }
}

/// Renders a node to markup text under the given context: the render entry
/// point. The result is exactly the text of `render_tag`, so rendering the
/// same node under the same context always returns the same text.
pub fn render(node: &UnitTag, config: TagFormatter) -> (r: String)
    requires
        config.indent + height(*node) <= usize::MAX,
        (config.indent + height(*node)) * config.tab_size + 1 <= usize::MAX,
    ensures
        r@ == render_tag(
            *node,
            config.tab_size as nat,
            config.indent as nat,
            config.newline_on_prop,
            config.line_sep@,
        ),
{
    let mut f = config;
    let mut buf = String::new();
    node.format(&mut f, &mut buf);
    buf
}

/// The law of idempotent rendering: the renderer's output is a function of
/// the node and the formatting context alone, so two renders of the same
/// immutable node under the same context yield identical text.
pub proof fn lemma_render_deterministic(
    t: UnitTag,
    tab: nat,
    indent: nat,
    nl: bool,
    sep: Seq<char>,
    out1: Seq<char>,
    out2: Seq<char>,
)
    requires
        out1 == render_tag(t, tab, indent, nl, sep),
        out2 == render_tag(t, tab, indent, nl, sep),
    ensures
        out1 == out2,
{
}

/// The law of the absent style attribute: a node whose style map is empty
/// renders no style token — in either layout the style section contributes
/// nothing, and the attribute section holds the generic-attribute and
/// handler tokens alone.
pub proof fn lemma_empty_style_no_style_attr(
    ps: Seq<(Seq<char>, Seq<char>)>,
    ss: Seq<(Seq<char>, Seq<char>)>,
    hs: Seq<(Seq<char>, Seq<char>)>,
    pad: nat,
    sep: Seq<char>,
)
    requires
        ss.len() == 0,
    ensures
        style_attr_compact(ss) == Seq::<char>::empty(),
        style_block(ss, pad + 1) == Seq::<char>::empty(),
        attrs_compact(ps, ss, hs) == props_compact(ps) + handlers_compact(hs) + seq!['>'],
        attrs_expanded(ps, ss, hs, pad, sep) == sep + spaces(pad + 1) + prop_lines(
            ps,
            pad + 1,
            sep,
        ) + handler_lines(hs, pad + 1, sep) + spaces(pad) + seq!['>'] + sep,
{
    assert(attrs_compact(ps, ss, hs) =~= props_compact(ps) + handlers_compact(hs) + seq!['>']);
    assert(attrs_expanded(ps, ss, hs, pad, sep) =~= sep + spaces(pad + 1) + prop_lines(
        ps,
        pad + 1,
        sep,
    ) + handler_lines(hs, pad + 1, sep) + spaces(pad) + seq!['>'] + sep);
}

/// The law of presence-only attributes: an attribute with an empty value
/// renders as the bare name token — ` name` in compact layout, an indented
/// `name` line in one-per-line layout — with no `="value"` suffix.
pub proof fn lemma_presence_only_bare_name(name: Seq<char>, val: Seq<char>, p: nat, sep: Seq<char>)
    requires
        val.len() == 0,
    ensures
        prop_token(name, val) == seq![' '] + name,
        prop_line(name, val, p, sep) == spaces(p) + name + sep,
{
}

/// Every name and every value among the entries is free of `c`.
pub open spec fn entries_free_of(es: Seq<(Seq<char>, Seq<char>)>, c: char) -> bool {
    forall|i: int|
        0 <= i < es.len() ==> free_of((#[trigger] es[i]).0, c) && free_of(es[i].1, c)
}

proof fn lemma_props_compact_free(ps: Seq<(Seq<char>, Seq<char>)>)
    requires
        entries_free_of(ps, '<'),
    ensures
        free_of(props_compact(ps), '<'),
    decreases ps.len(),
{
    if ps.len() > 0 {
        assert(free_of(ps[0].0, '<') && free_of(ps[0].1, '<'));
        assert(free_of(prop_token(ps[0].0, ps[0].1), '<'));
        assert(entries_free_of(ps.drop_first(), '<')) by {
            assert(forall|i: int|
                0 <= i < ps.drop_first().len() ==> #[trigger] ps.drop_first()[i] == ps[i + 1]);
        }
        lemma_props_compact_free(ps.drop_first());
    }
}

proof fn lemma_style_entries_free(ss: Seq<(Seq<char>, Seq<char>)>)
    requires
        entries_free_of(ss, '<'),
    ensures
        free_of(style_entries(ss), '<'),
    decreases ss.len(),
{
    if ss.len() > 0 {
        assert(free_of(ss[0].0, '<') && free_of(ss[0].1, '<'));
        assert(free_of(style_entry(ss[0].0, ss[0].1), '<'));
        assert(entries_free_of(ss.drop_first(), '<')) by {
            assert(forall|i: int|
                0 <= i < ss.drop_first().len() ==> #[trigger] ss.drop_first()[i] == ss[i + 1]);
        }
        lemma_style_entries_free(ss.drop_first());
    }
}

proof fn lemma_handlers_compact_free(hs: Seq<(Seq<char>, Seq<char>)>)
    requires
        entries_free_of(hs, '<'),
    ensures
        free_of(handlers_compact(hs), '<'),
    decreases hs.len(),
{
    if hs.len() > 0 {
        assert(free_of(hs[0].0, '<') && free_of(hs[0].1, '<'));
        assert(free_of(handler_token(hs[0].0, hs[0].1), '<'));
        assert(entries_free_of(hs.drop_first(), '<')) by {
            assert(forall|i: int|
                0 <= i < hs.drop_first().len() ==> #[trigger] hs.drop_first()[i] == hs[i + 1]);
        }
        lemma_handlers_compact_free(hs.drop_first());
    }
}

proof fn lemma_prop_lines_free(ps: Seq<(Seq<char>, Seq<char>)>, p: nat, sep: Seq<char>)
    requires
        entries_free_of(ps, '<'),
        free_of(sep, '<'),
    ensures
        free_of(prop_lines(ps, p, sep), '<'),
    decreases ps.len(),
{
    if ps.len() > 0 {
        assert(free_of(ps[0].0, '<') && free_of(ps[0].1, '<'));
        assert(free_of(prop_line(ps[0].0, ps[0].1, p, sep), '<'));
        assert(entries_free_of(ps.drop_first(), '<')) by {
            assert(forall|i: int|
                0 <= i < ps.drop_first().len() ==> #[trigger] ps.drop_first()[i] == ps[i + 1]);
        }
        lemma_prop_lines_free(ps.drop_first(), p, sep);
    }
}

proof fn lemma_handler_lines_free(hs: Seq<(Seq<char>, Seq<char>)>, p: nat, sep: Seq<char>)
    requires
        entries_free_of(hs, '<'),
        free_of(sep, '<'),
    ensures
        free_of(handler_lines(hs, p, sep), '<'),
    decreases hs.len(),
{
    if hs.len() > 0 {
        assert(free_of(hs[0].0, '<') && free_of(hs[0].1, '<'));
        assert(free_of(handler_line(hs[0].0, hs[0].1, p, sep), '<'));
        assert(entries_free_of(hs.drop_first(), '<')) by {
            assert(forall|i: int|
                0 <= i < hs.drop_first().len() ==> #[trigger] hs.drop_first()[i] == hs[i + 1]);
        }
        lemma_handler_lines_free(hs.drop_first(), p, sep);
    }
}

proof fn lemma_section_free(
    ps: Seq<(Seq<char>, Seq<char>)>,
    ss: Seq<(Seq<char>, Seq<char>)>,
    hs: Seq<(Seq<char>, Seq<char>)>,
    pad: nat,
    sep: Seq<char>,
    nl: bool,
)
    requires
        entries_free_of(ps, '<'),
        entries_free_of(ss, '<'),
        entries_free_of(hs, '<'),
        free_of(sep, '<'),
    ensures
        free_of(
            if nl {
                attrs_expanded(ps, ss, hs, pad, sep)
            } else {
                attrs_compact(ps, ss, hs)
            },
            '<',
        ),
{
    lemma_style_entries_free(ss);
    assert(free_of(style_key(), '<'));
    if nl {
        lemma_prop_lines_free(ps, pad + 1, sep);
        lemma_handler_lines_free(hs, pad + 1, sep);
        assert(free_of(style_block(ss, pad + 1), '<'));
        assert(free_of(attrs_expanded(ps, ss, hs, pad, sep), '<'));
    } else {
        lemma_props_compact_free(ps);
        lemma_handlers_compact_free(hs);
        assert(free_of(style_attr_compact(ss), '<'));
        assert(free_of(attrs_compact(ps, ss, hs), '<'));
    }
}

/// The law of the round-trip shape: rendering a node with no children
/// yields exactly one opening and one closing tag, both carrying the node's
/// name, and nothing nested. Provided the tag name, the container entries
/// and the separator are free of `<`, the output decomposes as the one
/// opening tag with its attribute section, the separator, and the one
/// closing tag, and holds exactly two `<` characters: the one that opens
/// `<name` and the one that opens `</name>`.
pub proof fn lemma_leaf_render_shape(t: UnitTag, tab: nat, indent: nat, nl: bool, sep: Seq<char>)
    requires
        t.children@.len() == 0,
        free_of(t.tag@, '<'),
        free_of(sep, '<'),
        entries_free_of(t.props@, '<'),
        entries_free_of(t.style@, '<'),
        entries_free_of(t.on@, '<'),
    ensures
        render_tag(t, tab, indent, nl, sep) == spaces(indent * tab) + seq!['<'] + t.tag@ + (if nl {
            attrs_expanded(t.props@, t.style@, t.on@, indent * tab, sep)
        } else {
            attrs_compact(t.props@, t.style@, t.on@)
        }) + sep + spaces(indent * tab) + seq!['<', '/'] + t.tag@ + seq!['>'] + sep,
        count_char(render_tag(t, tab, indent, nl, sep), '<') == 2,
{
    let pad = indent * tab;
    let section = if nl {
        attrs_expanded(t.props@, t.style@, t.on@, pad, sep)
    } else {
        attrs_compact(t.props@, t.style@, t.on@)
    };
    let out = render_tag(t, tab, indent, nl, sep);
    assert(render_children(t.children@, tab, indent + 1, nl, sep) == Seq::<char>::empty());
    let shape = spaces(pad) + seq!['<'] + t.tag@ + section + sep + spaces(pad) + seq!['<', '/']
        + t.tag@ + seq!['>'] + sep;
    assert(out =~= shape);
    lemma_section_free(t.props@, t.style@, t.on@, pad, sep, nl);
    assert(count_char(seq!['<'], '<') == 1) by {
        assert(seq!['<'].drop_first() =~= Seq::<char>::empty());
        assert(count_char(Seq::<char>::empty(), '<') == 0);
    }
    assert(count_char(seq!['<', '/'], '<') == 1) by {
        assert(seq!['<', '/'].drop_first() =~= seq!['/']);
        assert(seq!['/'].drop_first() =~= Seq::<char>::empty());
        assert(count_char(Seq::<char>::empty(), '<') == 0);
        assert(count_char(seq!['/'], '<') == 0);
    }
    assert(count_char(seq!['>'], '<') == 0) by {
        assert(seq!['>'].drop_first() =~= Seq::<char>::empty());
        assert(count_char(Seq::<char>::empty(), '<') == 0);
    }
    assert(free_of(spaces(pad), '<'));
    lemma_count_zero_of_free(spaces(pad), '<');
    lemma_count_zero_of_free(t.tag@, '<');
    lemma_count_zero_of_free(section, '<');
    lemma_count_zero_of_free(sep, '<');
    let p1 = spaces(pad);
    let p2 = p1 + seq!['<'];
    let p3 = p2 + t.tag@;
    let p4 = p3 + section;
    let p5 = p4 + sep;
    let p6 = p5 + spaces(pad);
    let p7 = p6 + seq!['<', '/'];
    let p8 = p7 + t.tag@;
    let p9 = p8 + seq!['>'];
    lemma_count_char_concat(p1, seq!['<'], '<');
    lemma_count_char_concat(p2, t.tag@, '<');
    lemma_count_char_concat(p3, section, '<');
    lemma_count_char_concat(p4, sep, '<');
    lemma_count_char_concat(p5, spaces(pad), '<');
    lemma_count_char_concat(p6, seq!['<', '/'], '<');
    lemma_count_char_concat(p7, t.tag@, '<');
    lemma_count_char_concat(p8, seq!['>'], '<');
    lemma_count_char_concat(p9, sep, '<');
    assert(shape == p9 + sep);
    assert(count_char(out, '<') == 2);
}

} // verus!
