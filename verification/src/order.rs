//! Lexicographic comparison of migration identities. The planner breaks ties
//! between simultaneously eligible migrations by this order, so a plan is
//! reproducible across runs and hosts.

use vstd::prelude::*;
use crate::migration::MigrationId;

verus! {

/// Strict lexicographic order on character sequences, by code point.
pub open spec fn lex_lt(a: Seq<char>, b: Seq<char>) -> bool
    decreases a.len(),
{
    if b.len() == 0 {
        false
    } else if a.len() == 0 {
        true
    } else if a[0] != b[0] {
        (a[0] as u32) < (b[0] as u32)
    } else {
        lex_lt(a.skip(1), b.skip(1))
    }
}

/// Strict order on identities: by application label, then by name.
pub open spec fn spec_id_lt(a: (Seq<char>, Seq<char>), b: (Seq<char>, Seq<char>)) -> bool {
    lex_lt(a.0, b.0) || (a.0 == b.0 && lex_lt(a.1, b.1))
}

proof fn lemma_lex_skip(a: Seq<char>, b: Seq<char>, i: int)
    requires
        0 <= i < a.len(),
        0 <= i < b.len(),
        a[i] == b[i],
    ensures
        lex_lt(a.skip(i), b.skip(i)) == lex_lt(a.skip(i + 1), b.skip(i + 1)),
{
    assert(a.skip(i)[0] == a[i]);
    assert(b.skip(i)[0] == b[i]);
    assert(a.skip(i).skip(1) =~= a.skip(i + 1));
    assert(b.skip(i).skip(1) =~= b.skip(i + 1));
}

/// The lexicographic order is transitive.
pub proof fn lemma_lex_lt_trans(a: Seq<char>, b: Seq<char>, c: Seq<char>)
    requires
        lex_lt(a, b),
        lex_lt(b, c),
    ensures
        lex_lt(a, c),
    decreases a.len(),
{
    if a.len() == 0 {
        assert(c.len() > 0);
    } else {
        assert(b.len() > 0);
        assert(c.len() > 0);
        if a[0] == b[0] && b[0] == c[0] {
            lemma_lex_lt_trans(a.skip(1), b.skip(1), c.skip(1));
        } else {
            assert((a[0] as u32) <= (b[0] as u32));
            assert((b[0] as u32) <= (c[0] as u32));
            assert((a[0] as u32) < (c[0] as u32));
            assert(a[0] != c[0]);
        }
    }
}

/// The identity order is transitive.
pub proof fn lemma_id_lt_trans(
    a: (Seq<char>, Seq<char>),
    b: (Seq<char>, Seq<char>),
    c: (Seq<char>, Seq<char>),
)
    requires
        spec_id_lt(a, b),
        spec_id_lt(b, c),
    ensures
        spec_id_lt(a, c),
{
    if lex_lt(a.0, b.0) && lex_lt(b.0, c.0) {
        lemma_lex_lt_trans(a.0, b.0, c.0);
    } else if a.0 == b.0 && b.0 == c.0 {
        lemma_lex_lt_trans(a.1, b.1, c.1);
    }
}

/// The lexicographic order is irreflexive.
pub proof fn lemma_lex_lt_irrefl(a: Seq<char>)
    ensures
        !lex_lt(a, a),
    decreases a.len(),
{
    if a.len() > 0 {
        lemma_lex_lt_irrefl(a.skip(1));
    }
}

/// The identity order is irreflexive.
pub proof fn lemma_id_lt_irrefl(a: (Seq<char>, Seq<char>))
    ensures
        !spec_id_lt(a, a),
{
    lemma_lex_lt_irrefl(a.0);
    lemma_lex_lt_irrefl(a.1);
}

/// Compare two strings in the lexicographic order `lex_lt`.
pub fn str_lt(a: &str, b: &str) -> (r: bool)
    ensures
        r == lex_lt(a@, b@),
{
    let la: usize = a.unicode_len();
    let lb: usize = b.unicode_len();
    proof {
        assert(a@.skip(0) =~= a@);
        assert(b@.skip(0) =~= b@);
    }
    let mut i: usize = 0;
    loop
        invariant
            i <= la,
            i <= lb,
            la == a@.len(),
            lb == b@.len(),
            lex_lt(a@, b@) == lex_lt(a@.skip(i as int), b@.skip(i as int)),
        decreases la - i,
    {
        if i < la && i < lb {
            let ca = a.get_char(i);
            let cb = b.get_char(i);
            if ca != cb {
                proof {
                    assert(a@.skip(i as int)[0] == a@[i as int]);
                    assert(b@.skip(i as int)[0] == b@[i as int]);
                }
                return (ca as u32) < (cb as u32);
            }
            proof {
                lemma_lex_skip(a@, b@, i as int);
            }
            i = i + 1;
        } else {
            proof {
                assert(a@.skip(i as int).len() == la - i);
                assert(b@.skip(i as int).len() == lb - i);
            }
            return la < lb;
        }
    }
}

/// Compare two identities in the order `spec_id_lt`.
pub fn id_lt(a: &MigrationId, b: &MigrationId) -> (r: bool)
    ensures
        r == spec_id_lt(a@, b@),
{
    if str_lt(a.app.as_str(), b.app.as_str()) {
        true
    } else if a.app == b.app {
        str_lt(a.name.as_str(), b.name.as_str())
    } else {
        false
    }
}

} // verus!
