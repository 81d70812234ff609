//! The node type and its argument resolver. A node is built from a tag
//! name, any order of the three typed containers, and a children-like
//! value; the resolver normalizes every accepted shape into one canonical
//! record, assigning each container to the slot of its kind and defaulting
//! the omitted slots to empty.

use vstd::prelude::*;
use vstd::seq_lib::to_multiset_contains;
use crate::containers::TagError;
use crate::containers::TagHandler;
use crate::containers::TagProp;
use crate::containers::TagStyle;

verus! {

/// A tagged element: its name, generic attributes, event-handler bindings,
/// inline style, and ordered children. The tree is exclusively owned, so no
/// cycles are representable and rendering terminates.
#[derive(Debug)]
#[verifier::ext_equal]
pub struct UnitTag {
    pub tag: String,
    pub props: TagProp,
    pub on: TagHandler,
    pub style: TagStyle,
    pub children: Vec<UnitTag>,
}

/// The height of a node's tree: one for the node plus the tallest child.
pub open spec fn height(t: UnitTag) -> nat
    decreases t,
{
    1 + children_height(t.children@)
}

/// The tallest height among `cs`, zero when there are none.
pub open spec fn children_height(cs: Seq<UnitTag>) -> nat
    decreases cs,
{
    if cs.len() == 0 {
        0
    } else {
        let h0 = height(cs[0]);
        let hr = children_height(cs.subrange(1, cs.len() as int));
        if h0 > hr {
            h0
        } else {
            hr
        }
    }
}

proof fn lemma_child_height_le(cs: Seq<UnitTag>, i: int)
    requires
        0 <= i < cs.len(),
    ensures
        height(cs[i]) <= children_height(cs),
    decreases cs.len(),
{
    if i > 0 {
        lemma_child_height_le(cs.subrange(1, cs.len() as int), i - 1);
        assert(cs.subrange(1, cs.len() as int)[i - 1] == cs[i]);
    }
}

/// Every child stands strictly below its parent.
pub proof fn lemma_child_height_lt(t: UnitTag, i: int)
    requires
        0 <= i < t.children@.len(),
    ensures
        height(t.children@[i]) < height(t),
{
    lemma_child_height_le(t.children@, i);
}

/// A children-like construction value: nothing, a single node, a pair of
/// nodes, or a pre-built sequence. All of them flatten into one ordered
/// list whose order is the render order.
#[derive(Debug)]
pub enum Children {
    Empty,
    One(UnitTag),
    Pair(UnitTag, UnitTag),
    Many(Vec<UnitTag>),
}

/// The flattened child list that a children-like value stands for.
pub open spec fn child_seq(c: Children) -> Seq<UnitTag> {
    match c {
        Children::Empty => Seq::empty(),
        Children::One(t) => seq![t],
        Children::Pair(a, b) => seq![a, b],
        Children::Many(v) => v@,
    }
}

impl Children {
    /// Flattens this children-like value into the render-order list.
    pub fn flatten(self) -> (r: Vec<UnitTag>)
        ensures
            r@ == child_seq(self),
    {
        match self {
            Children::Empty => {
                let v: Vec<UnitTag> = Vec::new();
                proof {
                    assert(v@ =~= child_seq(Children::Empty));
                }
                v
            },
            Children::One(t) => {
                let ghost t0 = t;
                let mut v: Vec<UnitTag> = Vec::new();
                v.push(t);
                proof {
                    assert(v@ =~= seq![t0]);
                }
                v
            },
            Children::Pair(a, b) => {
                let ghost a0 = a;
                let ghost b0 = b;
                let mut v: Vec<UnitTag> = Vec::new();
                v.push(a);
                v.push(b);
                proof {
                    assert(v@ =~= seq![a0, b0]);
                }
                v
            },
            Children::Many(v) => v,
        }
    }
}

/// One typed container argument for the resolver, whatever its position in
/// the call.
#[derive(Debug, Clone)]
pub enum TagArg {
    Props(TagProp),
    Style(TagStyle),
    Handlers(TagHandler),
}

/// The kind of a typed container argument.
pub enum ArgKind {
    Props,
    Style,
    Handlers,
}

pub open spec fn kind_of(a: TagArg) -> ArgKind {
    match a {
        TagArg::Props(_) => ArgKind::Props,
        TagArg::Style(_) => ArgKind::Style,
        TagArg::Handlers(_) => ArgKind::Handlers,
    }
}

/// How many arguments of kind `k` the list holds.
pub open spec fn count_kind(args: Seq<TagArg>, k: ArgKind) -> nat
    decreases args.len(),
{
    if args.len() == 0 {
        0
    } else {
        (if kind_of(args[0]) == k {
            1nat
        } else {
            0nat
        }) + count_kind(args.drop_first(), k)
    }
}

/// A valid argument list supplies each kind of container at most once.
pub open spec fn dup_free(args: Seq<TagArg>) -> bool {
    forall|k: ArgKind| count_kind(args, k) <= 1
}

/// The argument of kind `k`, if one was supplied: the container that the
/// resolver assigns to that slot. On a duplicate-free list the position of
/// the argument does not matter.
pub open spec fn find_kind(args: Seq<TagArg>, k: ArgKind) -> Option<TagArg>
    decreases args.len(),
{
    if args.len() == 0 {
        None
    } else if kind_of(args[0]) == k {
        Some(args[0])
    } else {
        find_kind(args.drop_first(), k)
    }
}

proof fn lemma_count_kind_snoc(s: Seq<TagArg>, a: TagArg, k: ArgKind)
    ensures
        count_kind(s.push(a), k) == count_kind(s, k) + (if kind_of(a) == k {
            1nat
        } else {
            0nat
        }),
    decreases s.len(),
{
    if s.len() == 0 {
        assert(s.push(a)[0] == a);
        assert(s.push(a).drop_first() =~= s);
    } else {
        assert(s.push(a)[0] == s[0]);
        assert(s.push(a).drop_first() =~= s.drop_first().push(a));
        lemma_count_kind_snoc(s.drop_first(), a, k);
    }
}

proof fn lemma_find_kind_snoc(s: Seq<TagArg>, a: TagArg, k: ArgKind)
    ensures
        find_kind(s.push(a), k) == (if find_kind(s, k) is Some {
            find_kind(s, k)
        } else if kind_of(a) == k {
            Some(a)
        } else {
            None::<TagArg>
        }),
    decreases s.len(),
{
    if s.len() == 0 {
        assert(s.push(a)[0] == a);
        assert(s.push(a).drop_first() =~= s);
    } else {
        assert(s.push(a)[0] == s[0]);
        assert(s.push(a).drop_first() =~= s.drop_first().push(a));
        lemma_find_kind_snoc(s.drop_first(), a, k);
    }
}

proof fn lemma_count_kind_concat(s1: Seq<TagArg>, s2: Seq<TagArg>, k: ArgKind)
    ensures
        count_kind(s1 + s2, k) == count_kind(s1, k) + count_kind(s2, k),
    decreases s1.len(),
{
    if s1.len() == 0 {
        assert(s1 + s2 =~= s2);
    } else {
        assert((s1 + s2)[0] == s1[0]);
        assert((s1 + s2).drop_first() =~= s1.drop_first() + s2);
        lemma_count_kind_concat(s1.drop_first(), s2, k);
    }
}

proof fn lemma_find_kind_none_count(s: Seq<TagArg>, k: ArgKind)
    ensures
        find_kind(s, k) is None <==> count_kind(s, k) == 0,
    decreases s.len(),
{
    if s.len() > 0 {
        lemma_find_kind_none_count(s.drop_first(), k);
    }
}

proof fn lemma_find_kind_contains(s: Seq<TagArg>, k: ArgKind)
    requires
        find_kind(s, k) is Some,
    ensures
        s.contains(find_kind(s, k)->Some_0),
        kind_of(find_kind(s, k)->Some_0) == k,
    decreases s.len(),
{
    if kind_of(s[0]) == k {
        assert(s[0] == find_kind(s, k)->Some_0);
    } else {
        lemma_find_kind_contains(s.drop_first(), k);
        let a = find_kind(s, k)->Some_0;
        let i = choose|i: int| 0 <= i < s.drop_first().len() && s.drop_first()[i] == a;
        assert(s[i + 1] == a);
    }
}

proof fn lemma_contains_count_kind(s: Seq<TagArg>, a: TagArg)
    requires
        s.contains(a),
    ensures
        count_kind(s, kind_of(a)) >= 1,
    decreases s.len(),
{
    if s[0] != a {
        let i = choose|i: int| 0 <= i < s.len() && s[i] == a;
        assert(s.drop_first()[i - 1] == a);
        lemma_contains_count_kind(s.drop_first(), a);
    }
}

proof fn lemma_find_kind_unique(s: Seq<TagArg>, a: TagArg)
    requires
        count_kind(s, kind_of(a)) <= 1,
        s.contains(a),
    ensures
        find_kind(s, kind_of(a)) == Some(a),
    decreases s.len(),
{
    let k = kind_of(a);
    if s[0] == a {
    } else {
        let i = choose|i: int| 0 <= i < s.len() && s[i] == a;
        assert(s.drop_first()[i - 1] == a);
        if kind_of(s[0]) == k {
            lemma_contains_count_kind(s.drop_first(), a);
            assert(false);
        } else {
            lemma_find_kind_unique(s.drop_first(), a);
        }
    }
}

/// The law of order-insensitive resolution: two argument lists that supply
/// the same containers, whatever their order, and each kind at most once,
/// assign the same container to every slot of the canonical record.
pub proof fn lemma_resolution_order_insensitive(args1: Seq<TagArg>, args2: Seq<TagArg>)
    requires
        args1.to_multiset() == args2.to_multiset(),
        dup_free(args1),
        dup_free(args2),
    ensures
        forall|k: ArgKind| find_kind(args1, k) == find_kind(args2, k),
{
    broadcast use to_multiset_contains;

    assert forall|k: ArgKind| find_kind(args1, k) == find_kind(args2, k) by {
        match find_kind(args1, k) {
            Some(a) => {
                lemma_find_kind_contains(args1, k);
                assert(args1.to_multiset().count(a) > 0);
                assert(args2.contains(a));
                lemma_find_kind_unique(args2, a);
            },
            None => {
                lemma_find_kind_none_count(args1, k);
                if find_kind(args2, k) is Some {
                    let b = find_kind(args2, k)->Some_0;
                    lemma_find_kind_contains(args2, k);
                    assert(args2.to_multiset().count(b) > 0);
                    assert(args1.contains(b));
                    lemma_contains_count_kind(args1, b);
                    assert(false);
                }
            },
        }
    }
}

/// The canonical construction record: the node carries the given tag name,
/// each container slot holds the supplied argument of its kind or stays
/// empty, and the children are the flattened children-like value.
pub open spec fn resolves_to(t: UnitTag, tag: String, args: Seq<TagArg>, children: Children) -> bool {
    &&& t.tag == tag
    &&& (match find_kind(args, ArgKind::Props) {
        Some(TagArg::Props(p)) => t.props == p,
        _ => t.props@ == Seq::<(Seq<char>, Seq<char>)>::empty(),
    })
    &&& (match find_kind(args, ArgKind::Style) {
        Some(TagArg::Style(s)) => t.style == s,
        _ => t.style@ == Seq::<(Seq<char>, Seq<char>)>::empty(),
    })
    &&& (match find_kind(args, ArgKind::Handlers) {
        Some(TagArg::Handlers(h)) => t.on == h,
        _ => t.on@ == Seq::<(Seq<char>, Seq<char>)>::empty(),
    })
    &&& t.children@ == child_seq(children)
}

/// Corollary on canonical records: for two argument lists that supply the
/// same containers in different orders, each kind at most once, a node is
/// the canonical record of the one exactly when it is the canonical record
/// of the other.
pub proof fn lemma_resolution_same_record(
    args1: Seq<TagArg>,
    args2: Seq<TagArg>,
    t: UnitTag,
    tag: String,
    children: Children,
)
    requires
        args1.to_multiset() == args2.to_multiset(),
        dup_free(args1),
        dup_free(args2),
    ensures
        resolves_to(t, tag, args1, children) == resolves_to(t, tag, args2, children),
{
    lemma_resolution_order_insensitive(args1, args2);
    assert(find_kind(args1, ArgKind::Props) == find_kind(args2, ArgKind::Props));
    assert(find_kind(args1, ArgKind::Style) == find_kind(args2, ArgKind::Style));
    assert(find_kind(args1, ArgKind::Handlers) == find_kind(args2, ArgKind::Handlers));
}

/// Builds a node from a tag name, the typed containers in any order, and a
/// children-like value. Omitted containers default to empty; supplying the
/// same kind of container twice is refused.
pub fn x(tag: String, args: Vec<TagArg>, children: Children) -> (r: Result<UnitTag, TagError>)
    ensures
        r is Ok <==> dup_free(args@),
        r is Ok ==> resolves_to(r->Ok_0, tag, args@, children),
        r is Err ==> r->Err_0 == TagError::DuplicateArgument,
{
    let ghost all = args@;
    let mut props_slot: Option<TagProp> = None;
    let mut style_slot: Option<TagStyle> = None;
    let mut on_slot: Option<TagHandler> = None;
    let mut rest = args;
    let ghost mut seen = Seq::<TagArg>::empty();
    proof {
        assert(all =~= seen + rest@);
    }
    while rest.len() > 0
        invariant
            all == args@,
            all == seen + rest@,
            count_kind(seen, ArgKind::Props) == (if props_slot is Some {
                1nat
            } else {
                0nat
            }),
            count_kind(seen, ArgKind::Style) == (if style_slot is Some {
                1nat
            } else {
                0nat
            }),
            count_kind(seen, ArgKind::Handlers) == (if on_slot is Some {
                1nat
            } else {
                0nat
            }),
            (match find_kind(seen, ArgKind::Props) {
                Some(a) => a matches TagArg::Props(p) && props_slot == Some(p),
                None => props_slot is None,
            }),
            (match find_kind(seen, ArgKind::Style) {
                Some(a) => a matches TagArg::Style(s) && style_slot == Some(s),
                None => style_slot is None,
            }),
            (match find_kind(seen, ArgKind::Handlers) {
                Some(a) => a matches TagArg::Handlers(h) && on_slot == Some(h),
                None => on_slot is None,
            }),
        decreases rest.len(),
    {
        let ghost prev_rest = rest@;
        let a = rest.remove(0);
        let ghost a0 = a;
        proof {
            assert(prev_rest.remove(0) =~= prev_rest.drop_first());
            assert(seen.push(a0) + rest@ =~= seen + prev_rest);
            lemma_count_kind_snoc(seen, a0, ArgKind::Props);
            lemma_count_kind_snoc(seen, a0, ArgKind::Style);
            lemma_count_kind_snoc(seen, a0, ArgKind::Handlers);
            lemma_find_kind_snoc(seen, a0, ArgKind::Props);
            lemma_find_kind_snoc(seen, a0, ArgKind::Style);
            lemma_find_kind_snoc(seen, a0, ArgKind::Handlers);
        }
        let dup = match &a {
            TagArg::Props(_) => props_slot.is_some(),
            TagArg::Style(_) => style_slot.is_some(),
            TagArg::Handlers(_) => on_slot.is_some(),
        };
        if dup {
            proof {
                let k = kind_of(a0);
                assert(count_kind(seen, k) == 1) by {
                    match a0 {
                        TagArg::Props(_) => {},
                        TagArg::Style(_) => {},
                        TagArg::Handlers(_) => {},
                    }
                }
                assert(count_kind(seen.push(a0), k) == 2);
                lemma_count_kind_concat(seen.push(a0), rest@, k);
                assert(count_kind(all, k) >= 2);
                assert(!dup_free(all)) by {
                    if dup_free(all) {
                        assert(count_kind(all, k) <= 1);
                    }
                }
            }
            return Err(TagError::DuplicateArgument);
        }
        match a {
            TagArg::Props(p) => props_slot = Some(p),
            TagArg::Style(s) => style_slot = Some(s),
            TagArg::Handlers(h) => on_slot = Some(h),
        }
        proof {
            seen = seen.push(a0);
        }
    }
    proof {
        assert(all =~= seen);
        assert(dup_free(all)) by {
            assert forall|k: ArgKind| count_kind(all, k) <= 1 by {
                match k {
                    ArgKind::Props => {},
                    ArgKind::Style => {},
                    ArgKind::Handlers => {},
                }
            }
        }
    }
    let props = match props_slot {
        Some(p) => p,
        None => TagProp::new(),
    };
    let style = match style_slot {
        Some(s) => s,
        None => TagStyle::new(),
    };
    let on = match on_slot {
        Some(h) => h,
        None => TagHandler::new(),
    };
    let kids = children.flatten();
    Ok(UnitTag { tag, props, on, style, children: kids })
}

impl UnitTag {
    /// The tag name this node was constructed with; it never changes.
    pub fn name(&self) -> (r: &str)
        ensures
            r@ == self.tag@,
    {
        self.tag.as_str()
    }

    /// Replaces the generic attributes, leaving everything else untouched.
    pub fn props(self, props: TagProp) -> (r: Self)
        ensures
            r.tag == self.tag,
            r.props == props,
            r.style == self.style,
            r.on == self.on,
            r.children == self.children,
    {
        UnitTag { props, ..self }
    }

    /// Replaces the inline style, leaving everything else untouched.
    pub fn style(self, style: TagStyle) -> (r: Self)
        ensures
            r.tag == self.tag,
            r.props == self.props,
            r.style == style,
            r.on == self.on,
            r.children == self.children,
    {
        UnitTag { style, ..self }
    }

    /// Replaces the event-handler bindings, leaving everything else
    /// untouched.
    pub fn on(self, handlers: TagHandler) -> (r: Self)
        ensures
            r.tag == self.tag,
            r.props == self.props,
            r.style == self.style,
            r.on == handlers,
            r.children == self.children,
    {
        UnitTag { on: handlers, ..self }
    }
}

} // verus!
