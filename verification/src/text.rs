//! Character-sequence helpers shared by the containers and the renderer:
//! indentation padding, reserved attribute names, and hyphen-joined
//! composite names.

use vstd::prelude::*;
use vstd::string::StrSliceExecFns;
use vstd::string::StringExecFns;

verus! {

/// A run of `n` space characters, the unit of indentation padding.
pub open spec fn spaces(n: nat) -> Seq<char> {
    Seq::new(n, |i: int| ' ')
}

/// The reserved generic-attribute key owned by the style container.
pub open spec fn style_key() -> Seq<char> {
    seq!['s', 't', 'y', 'l', 'e']
}

/// An attribute name beginning with `on` is reserved for the handler
/// container and is rejected by the generic-attribute path.
pub open spec fn starts_with_on(s: Seq<char>) -> bool {
    s.len() >= 2 && s[0] == 'o' && s[1] == 'n'
}

/// The composite-name normalization: components joined with `-`.
pub open spec fn join_hyphen(parts: Seq<Seq<char>>) -> Seq<char>
    decreases parts.len(),
{
    if parts.len() == 0 {
        Seq::empty()
    } else if parts.len() == 1 {
        parts[0]
    } else {
        parts[0] + seq!['-'] + join_hyphen(parts.drop_first())
    }
}

/// No position of `s` holds the character `c`.
pub open spec fn free_of(s: Seq<char>, c: char) -> bool {
    forall|i: int| 0 <= i < s.len() ==> s[i] != c
}

/// How many positions of `s` hold the character `c`.
pub open spec fn count_char(s: Seq<char>, c: char) -> nat
    decreases s.len(),
{
    if s.len() == 0 {
        0
    } else {
        (if s[0] == c {
            1nat
        } else {
            0nat
        }) + count_char(s.drop_first(), c)
    }
}

pub proof fn lemma_count_char_concat(a: Seq<char>, b: Seq<char>, c: char)
    ensures
        count_char(a + b, c) == count_char(a, c) + count_char(b, c),
    decreases a.len(),
{
    if a.len() == 0 {
        assert(a + b =~= b);
    } else {
        assert((a + b)[0] == a[0]);
        assert((a + b).drop_first() =~= a.drop_first() + b);
        lemma_count_char_concat(a.drop_first(), b, c);
    }
}

pub proof fn lemma_count_zero_of_free(s: Seq<char>, c: char)
    requires
        free_of(s, c),
    ensures
        count_char(s, c) == 0,
    decreases s.len(),
{
    if s.len() > 0 {
        lemma_count_zero_of_free(s.drop_first(), c);
    }
}

/// Appends `n` spaces to `buf`.
pub fn push_spaces(buf: &mut String, n: usize)
    ensures
        final(buf)@ == old(buf)@ + spaces(n as nat),
{
    let ghost b0 = buf@;
    proof {
        assert(b0 + spaces(0nat) =~= b0);
    }
    let mut i: usize = 0;
    while i < n
        invariant
            i <= n,
            buf@ == b0 + spaces(i as nat),
        decreases n - i,
    {
        buf.append(" ");
        proof {
            reveal_strlit(" ");
            assert(b0 + spaces(i as nat) + " "@ =~= b0 + spaces((i + 1) as nat));
        }
        i = i + 1;
    }
}

/// Whether the name begins with the reserved handler prefix `on`.
pub fn has_on_prefix(s: &str) -> (r: bool)
    ensures
        r == starts_with_on(s@),
{
    if s.unicode_len() < 2 {
        false
    } else {
        let c0 = s.get_char(0);
        let c1 = s.get_char(1);
        c0 == 'o' && c1 == 'n'
    }
}

/// Whether the name is exactly the reserved style key.
pub fn is_style_key(s: &str) -> (r: bool)
    ensures
        r == (s@ == style_key()),
{
    if s.unicode_len() != 5 {
        return false;
    }
    let eq = s.get_char(0) == 's' && s.get_char(1) == 't' && s.get_char(2) == 'y' && s.get_char(3)
        == 'l' && s.get_char(4) == 'e';
    proof {
        if eq {
            assert(s@ =~= style_key());
        }
    }
    eq
}

/// Joins composite name components with `-`, the normalization that the
/// attribute-construction path applies to multi-word names.
pub fn compose_name(parts: &Vec<String>) -> (r: String)
    ensures
        r@ == join_hyphen(parts.deep_view()),
{
    let ghost ps = parts.deep_view();
    let mut out = String::new();
    let n = parts.len();
    proof {
        assert(ps.len() == parts@.len());
        assert(out@ + join_hyphen(ps.subrange(0, ps.len() as int)) =~= join_hyphen(ps)) by {
            assert(ps.subrange(0, ps.len() as int) =~= ps);
            assert(out@ + join_hyphen(ps) =~= join_hyphen(ps));
        }
    }
    let mut i: usize = 0;
    while i < n
        invariant
            i <= n,
            n == parts@.len(),
            ps == parts.deep_view(),
            out@ + join_hyphen(ps.subrange(i as int, ps.len() as int)) == join_hyphen(ps),
        decreases n - i,
    {
        let ghost rest = ps.subrange(i as int, ps.len() as int);
        proof {
            assert(ps.len() == parts@.len());
            assert(rest[0] == ps[i as int]);
            assert(parts.deep_view()[i as int] == parts@[i as int]@);
        }
        out.append(parts[i].as_str());
        if i + 1 < n {
            out.append("-");
            proof {
                reveal_strlit("-");
                assert(rest.drop_first() =~= ps.subrange(i + 1, ps.len() as int));
                assert(join_hyphen(rest) == rest[0] + seq!['-'] + join_hyphen(rest.drop_first()));
                assert("-"@ =~= seq!['-']);
                assert(out@ + join_hyphen(ps.subrange(i + 1, ps.len() as int)) =~= join_hyphen(ps));
            }
        } else {
            proof {
                assert(rest.len() == 1);
                assert(join_hyphen(rest) == rest[0]);
                assert(ps.subrange(i + 1, ps.len() as int) =~= Seq::<Seq<char>>::empty());
                assert(out@ + join_hyphen(ps.subrange(i + 1, ps.len() as int)) =~= join_hyphen(ps));
            }
        }
        i = i + 1;
    }
    proof {
        assert(ps.subrange(n as int, ps.len() as int) =~= Seq::<Seq<char>>::empty());
        assert(out@ + join_hyphen(ps.subrange(n as int, ps.len() as int)) =~= out@);
    }
    out
}

} // verus!
