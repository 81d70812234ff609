//! The three attribute containers of a node: generic attributes, inline
//! style declarations, and event-handler name bindings. Each is a
//! key/value dictionary with unique keys, kept in insertion order so that
//! rendering is deterministic. The generic-attribute container rejects, at
//! construction time, names reserved for the other two containers.

use vstd::prelude::*;
use crate::text::starts_with_on;
use crate::text::style_key;
use crate::text::has_on_prefix;
use crate::text::is_style_key;

verus! {

/// Errors raised while building a node or one of its containers.
#[derive(Debug, Clone, Copy, PartialEq, Eq, Structural)]
pub enum TagError {
    /// A generic attribute name began with the reserved handler prefix `on`;
    /// event bindings must go through the handler container.
    ReservedHandlerName,
    /// A generic attribute name was the reserved key `style`; style
    /// declarations must go through the style container.
    ReservedStyleName,
    /// The same kind of typed container was supplied twice to the resolver.
    DuplicateArgument,
}

/// The mathematical content of a container: its entries as pairs of
/// character sequences, in insertion order.
pub open spec fn entry_views(v: Seq<(String, String)>) -> Seq<(Seq<char>, Seq<char>)> {
    Seq::new(v.len(), |i: int| (v[i].0@, v[i].1@))
}

/// No entry of `es` has key `k`.
pub open spec fn key_fresh(es: Seq<(Seq<char>, Seq<char>)>, k: Seq<char>) -> bool {
    forall|i: int| 0 <= i < es.len() ==> (#[trigger] es[i]).0 != k
}

/// All keys of `es` are distinct.
pub open spec fn keys_unique(es: Seq<(Seq<char>, Seq<char>)>) -> bool {
    forall|i: int, j: int| 0 <= i < j < es.len() ==> (#[trigger] es[i]).0 != (#[trigger] es[j]).0
}

/// How one insertion changes a container: a fresh key is appended; an
/// existing key keeps its position and takes the new value.
pub open spec fn upserted(
    before: Seq<(Seq<char>, Seq<char>)>,
    after: Seq<(Seq<char>, Seq<char>)>,
    k: Seq<char>,
    v: Seq<char>,
) -> bool {
    if key_fresh(before, k) {
        after == before.push((k, v))
    } else {
        exists|i: int|
            0 <= i < before.len() && (#[trigger] before[i]).0 == k && after == before.update(
                i,
                (k, v),
            )
    }
}

/// Inserts or replaces the entry for `name`, preserving key uniqueness.
fn upsert_entries(entries: &mut Vec<(String, String)>, name: String, value: String)
    requires
        keys_unique(entry_views(old(entries)@)),
    ensures
        keys_unique(entry_views(final(entries)@)),
        upserted(entry_views(old(entries)@), entry_views(final(entries)@), name@, value@),
{
    let ghost before = entry_views(entries@);
    let n = entries.len();
    let mut j: usize = 0;
    while j < n
        invariant
            j <= n,
            n == entries@.len(),
            entries@ == old(entries)@,
            before == entry_views(entries@),
            keys_unique(before),
            forall|m: int| 0 <= m < j ==> (#[trigger] before[m]).0 != name@,
        decreases n - j,
    {
        let hit = entries[j].0 == name;
        if hit {
            proof {
                assert(before[j as int].0 == name@);
            }
            entries.set(j, (name, value));
            proof {
                let after = entry_views(entries@);
                assert(after =~= before.update(j as int, (name@, value@)));
                assert(forall|m: int|
                    0 <= m < after.len() ==> (#[trigger] after[m]).0 == before[m].0);
                assert(keys_unique(after));
                assert(!key_fresh(before, name@));
            }
            return ;
        }
        j = j + 1;
    }
    proof {
        assert(key_fresh(before, name@));
    }
    entries.push((name, value));
    proof {
        let after = entry_views(entries@);
        assert(after =~= before.push((name@, value@)));
        assert(keys_unique(after)) by {
            assert(forall|m: int| 0 <= m < before.len() ==> (#[trigger] after[m]) == before[m]);
            assert(after[before.len() as int].0 == name@);
        }
    }
}

/// The generic attributes of a tag: name/value pairs, an empty value
/// standing for a presence-only attribute.
#[derive(Debug, Clone)]
pub struct TagProp(pub Vec<(String, String)>);

impl View for TagProp {
    type V = Seq<(Seq<char>, Seq<char>)>;

    open spec fn view(&self) -> Seq<(Seq<char>, Seq<char>)> {
        entry_views(self.0@)
    }
}

impl TagProp {
    /// Keys are unique and none is reserved for the style or handler
    /// containers.
    pub open spec fn wf(&self) -> bool {
        &&& keys_unique(self@)
        &&& forall|i: int|
            0 <= i < self@.len() ==> !starts_with_on((#[trigger] self@[i]).0) && self@[i].0
                != style_key()
    }

    /// An empty attribute container.
    pub fn new() -> (r: Self)
        ensures
            r@ == Seq::<(Seq<char>, Seq<char>)>::empty(),
            r.wf(),
    {
        let r = TagProp(Vec::new());
        proof {
            assert(r@ =~= Seq::<(Seq<char>, Seq<char>)>::empty());
        }
        r
    }

    /// How many attributes are stored.
    pub fn len(&self) -> (r: usize)
        ensures
            r == self@.len(),
    {
        self.0.len()
    }

    /// Inserts a generic attribute, failing fast on a name reserved for the
    /// handler or style containers. An empty value stores a presence-only
    /// attribute.
    pub fn insert(&mut self, name: String, value: String) -> (r: Result<(), TagError>)
        requires
            old(self).wf(),
        ensures
            final(self).wf(),
            r is Ok <==> !starts_with_on(name@) && name@ != style_key(),
            r is Ok ==> upserted(old(self)@, final(self)@, name@, value@),
            r is Err ==> *final(self) == *old(self),
            r == Result::<(), TagError>::Err(TagError::ReservedHandlerName) <==> starts_with_on(
                name@,
            ),
            r == Result::<(), TagError>::Err(TagError::ReservedStyleName) <==> name@ == style_key(),
    {
        if has_on_prefix(name.as_str()) {
            return Err(TagError::ReservedHandlerName);
        }
        if is_style_key(name.as_str()) {
            return Err(TagError::ReservedStyleName);
        }
        let ghost k = name@;
        let ghost v = value@;
        upsert_entries(&mut self.0, name, value);
        proof {
            assert(final(self).wf()) by {
                let before = old(self)@;
                let after = self@;
                if key_fresh(before, k) {
                    assert(after == before.push((k, v)));
                    assert(forall|i: int|
                        0 <= i < before.len() ==> (#[trigger] after[i]) == before[i]);
                    assert(after[before.len() as int].0 == k);
                } else {
                    let i = choose|i: int|
                        0 <= i < before.len() && (#[trigger] before[i]).0 == k && after
                            == before.update(i, (k, v));
                    assert(forall|m: int|
                        0 <= m < after.len() && m != i ==> (#[trigger] after[m]) == before[m]);
                    assert(after[i].0 == k);
                }
            }
        }
        Ok(())
    }
}

/// The inline style declarations of a tag, rendered as one concatenated
/// `style` attribute when non-empty.
#[derive(Debug, Clone)]
pub struct TagStyle(pub Vec<(String, String)>);

impl View for TagStyle {
    type V = Seq<(Seq<char>, Seq<char>)>;

    open spec fn view(&self) -> Seq<(Seq<char>, Seq<char>)> {
        entry_views(self.0@)
    }
}

impl TagStyle {
    /// Keys are unique.
    pub open spec fn wf(&self) -> bool {
        keys_unique(self@)
    }

    /// An empty style container.
    pub fn new() -> (r: Self)
        ensures
            r@ == Seq::<(Seq<char>, Seq<char>)>::empty(),
            r.wf(),
    {
        let r = TagStyle(Vec::new());
        proof {
            assert(r@ =~= Seq::<(Seq<char>, Seq<char>)>::empty());
        }
        r
    }

    /// How many declarations are stored.
    pub fn len(&self) -> (r: usize)
        ensures
            r == self@.len(),
    {
        self.0.len()
    }

    /// Inserts or replaces one style declaration.
    pub fn insert(&mut self, name: String, value: String)
        requires
            old(self).wf(),
        ensures
            final(self).wf(),
            upserted(old(self)@, final(self)@, name@, value@),
    {
        upsert_entries(&mut self.0, name, value);
    }
}

/// The event-handler bindings of a tag: event name to handler reference
/// name, rendered as an attribute named `on<event>`.
#[derive(Debug, Clone)]
pub struct TagHandler(pub Vec<(String, String)>);

impl View for TagHandler {
    type V = Seq<(Seq<char>, Seq<char>)>;

    open spec fn view(&self) -> Seq<(Seq<char>, Seq<char>)> {
        entry_views(self.0@)
    }
}

impl TagHandler {
    /// Keys are unique.
    pub open spec fn wf(&self) -> bool {
        keys_unique(self@)
    }

    /// An empty handler container.
    pub fn new() -> (r: Self)
        ensures
            r@ == Seq::<(Seq<char>, Seq<char>)>::empty(),
            r.wf(),
    {
        let r = TagHandler(Vec::new());
        proof {
            assert(r@ =~= Seq::<(Seq<char>, Seq<char>)>::empty());
        }
        r
    }

    /// How many bindings are stored.
    pub fn len(&self) -> (r: usize)
        ensures
            r == self@.len(),
    {
        self.0.len()
    }

    /// Inserts or replaces one event binding.
    pub fn insert(&mut self, event: String, handler: String)
        requires
            old(self).wf(),
        ensures
            final(self).wf(),
            upserted(old(self)@, final(self)@, event@, handler@),
    {
        upsert_entries(&mut self.0, event, handler);
    }
}

impl Default for TagProp {
    /// The empty attribute container.
    fn default() -> (r: Self)
        ensures
            r@ == Seq::<(Seq<char>, Seq<char>)>::empty(),
            r.wf(),
    {
        TagProp::new()
    }
}

impl Default for TagStyle {
    /// The empty style container.
    fn default() -> (r: Self)
        ensures
            r@ == Seq::<(Seq<char>, Seq<char>)>::empty(),
            r.wf(),
    {
        TagStyle::new()
    }
}

impl Default for TagHandler {
    /// The empty handler container.
    fn default() -> (r: Self)
        ensures
            r@ == Seq::<(Seq<char>, Seq<char>)>::empty(),
            r.wf(),
    {
        TagHandler::new()
    }
}

} // verus!
