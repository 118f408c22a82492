//! ASCII case folding and the case-insensitive lexical order on text.
//!
//! Entry names are compared after folding ASCII letters to lower case,
//! both for identity (lookup, uniqueness) and for the Name sort column.

use vstd::prelude::*;
use vstd::string::StrSliceExecFns;

verus! {

/// ASCII case folding of one character: 'A'..'Z' map to 'a'..'z',
/// everything else is unchanged.
pub open spec fn lower_char(c: char) -> char {
    if 65 <= c as u32 && c as u32 <= 90 {
        (((c as u32) as u8) + 32) as char
    } else {
        c
    }
}

/// A text with every ASCII letter folded to lower case.
pub open spec fn lower_seq(s: Seq<char>) -> Seq<char> {
    s.map_values(|c: char| lower_char(c))
}

/// Two texts are the same name when their case-folded forms are equal.
pub open spec fn same_name(a: Seq<char>, b: Seq<char>) -> bool {
    lower_seq(a) == lower_seq(b)
}

/// Executable ASCII case folding of one character.
pub fn ascii_lower(c: char) -> (r: char)
    ensures
        r == lower_char(c),
{
    let u = c as u32;
    if 65 <= u && u <= 90 {
        ((u as u8) + 32) as char
    } else {
        c
    }
}

/// Case-insensitive equality of two texts, as the entry identity test uses it.
pub fn eq_ignore_case(a: &str, b: &str) -> (r: bool)
    ensures
        r == same_name(a@, b@),
{
    let n = a.unicode_len();
    let m = b.unicode_len();
    if n != m {
        proof {
            assert(lower_seq(a@).len() != lower_seq(b@).len());
        }
        return false;
    }
    let mut i: usize = 0;
    while i < n
        invariant
            i <= n,
            n == a@.len(),
            m == b@.len(),
            n == m,
            forall|k: int| 0 <= k < i ==> lower_char(a@[k]) == lower_char(b@[k]),
        decreases n - i,
    {
        let ca = ascii_lower(a.get_char(i));
        let cb = ascii_lower(b.get_char(i));
        if ca != cb {
            proof {
                assert(lower_seq(a@)[i as int] != lower_seq(b@)[i as int]);
            }
            return false;
        }
        i += 1;
    }
    proof {
        assert(lower_seq(a@) =~= lower_seq(b@));
    }
    true
}

/// Exact equality of two texts.
pub fn str_eq(a: &str, b: &str) -> (r: bool)
    ensures
        r == (a@ == b@),
{
    let n = a.unicode_len();
    let m = b.unicode_len();
    if n != m {
        return false;
    }
    let mut i: usize = 0;
    while i < n
        invariant
            i <= n,
            n == a@.len(),
            m == b@.len(),
            n == m,
            forall|k: int| 0 <= k < i ==> a@[k] == b@[k],
        decreases n - i,
    {
        if a.get_char(i) != b.get_char(i) {
            return false;
        }
        i += 1;
    }
    proof {
        assert(a@ =~= b@);
    }
    true
}

/// Case folding maps a concatenation piece by piece.
pub proof fn lemma_lower_seq_add(a: Seq<char>, b: Seq<char>)
    ensures
        lower_seq(a + b) == lower_seq(a) + lower_seq(b),
{
    assert(lower_seq(a + b) =~= lower_seq(a) + lower_seq(b));
}

/// Appending to a common prefix keeps the appended parts apart.
pub proof fn lemma_add_cancel_left(a: Seq<char>, b: Seq<char>, c: Seq<char>)
    requires
        a + b == a + c,
    ensures
        b == c,
{
    assert((a + b).len() == a.len() + b.len());
    assert((a + c).len() == a.len() + c.len());
    assert(b.len() == c.len());
    assert forall|i: int| 0 <= i < b.len() implies b[i] == c[i] by {
        assert((a + b)[a.len() + i] == b[i]);
        assert((a + c)[a.len() + i] == c[i]);
    }
    assert(b =~= c);
}

/// Relies on String::push: appends exactly the given character.
#[verifier::external_body]
pub fn push_char(s: &mut String, c: char)
    ensures
        final(s)@ == old(s)@.push(c),
{
    s.push(c);
}

/// Lexicographic order on texts by code point; a proper prefix comes first.
pub open spec fn lex_le(x: Seq<char>, y: Seq<char>) -> bool
    decreases x.len(),
{
    if x.len() == 0 {
        true
    } else if y.len() == 0 {
        false
    } else if x[0] < y[0] {
        true
    } else if y[0] < x[0] {
        false
    } else {
        lex_le(x.skip(1), y.skip(1))
    }
}

/// Characters with the same code point are the same character.
pub proof fn lemma_char_injective(c1: char, c2: char)
    requires
        c1 as u32 == c2 as u32,
    ensures
        c1 == c2,
{
}

/// A nonempty text is its head followed by its tail.
proof fn lemma_eq_head_tail(x: Seq<char>, y: Seq<char>)
    requires
        x.len() != 0,
        y.len() != 0,
        x[0] == y[0],
        x.skip(1) == y.skip(1),
    ensures
        x == y,
{
    assert(x.skip(1).len() == x.len() - 1);
    assert(y.skip(1).len() == y.len() - 1);
    assert(x.len() == y.len());
    assert forall|i: int| 0 <= i < x.len() implies x[i] == y[i] by {
        if i > 0 {
            assert(x.skip(1)[i - 1] == x[i]);
            assert(y.skip(1)[i - 1] == y[i]);
        }
    }
    assert(x =~= y);
}

/// The lexicographic order is reflexive.
pub proof fn lemma_lex_refl(x: Seq<char>)
    ensures
        lex_le(x, x),
    decreases x.len(),
{
    if x.len() != 0 {
        lemma_lex_refl(x.skip(1));
    }
}

/// The lexicographic order is total.
pub proof fn lemma_lex_total(x: Seq<char>, y: Seq<char>)
    ensures
        lex_le(x, y) || lex_le(y, x),
    decreases x.len(),
{
    if x.len() != 0 && y.len() != 0 && x[0] == y[0] {
        lemma_lex_total(x.skip(1), y.skip(1));
    }
}

/// Two texts below each other in the lexicographic order are equal.
pub proof fn lemma_lex_antisym(x: Seq<char>, y: Seq<char>)
    requires
        lex_le(x, y),
        lex_le(y, x),
    ensures
        x == y,
    decreases x.len(),
{
    if x.len() == 0 {
        assert(y.len() == 0);
        assert(x =~= y);
    } else {
        assert(y.len() != 0);
        assert(x[0] == y[0]);
        lemma_lex_antisym(x.skip(1), y.skip(1));
        lemma_eq_head_tail(x, y);
    }
}

/// The lexicographic order is transitive.
pub proof fn lemma_lex_trans(x: Seq<char>, y: Seq<char>, z: Seq<char>)
    requires
        lex_le(x, y),
        lex_le(y, z),
    ensures
        lex_le(x, z),
    decreases x.len(),
{
    if x.len() != 0 && y.len() != 0 && z.len() != 0 && x[0] == y[0] && y[0] == z[0] {
        lemma_lex_trans(x.skip(1), y.skip(1), z.skip(1));
    }
}

/// Case-insensitive three-way comparison of the texts' tails from
/// position `i` on, in their case-folded forms.
fn cmp_ignore_case_from(a: &str, b: &str, i: usize, n: usize, m: usize) -> (r: core::cmp::Ordering)
    requires
        n == a@.len(),
        m == b@.len(),
        i <= n,
        i <= m,
    ensures
        ({
            let x = lower_seq(a@).skip(i as int);
            let y = lower_seq(b@).skip(i as int);
            &&& (r is Less <==> lex_le(x, y) && x != y)
            &&& (r is Equal <==> x == y)
            &&& (r is Greater <==> lex_le(y, x) && x != y)
        }),
    decreases n - i,
{
    let ghost x = lower_seq(a@).skip(i as int);
    let ghost y = lower_seq(b@).skip(i as int);
    if i == n && i == m {
        proof {
            assert(x =~= y);
        }
        core::cmp::Ordering::Equal
    } else if i == n {
        core::cmp::Ordering::Less
    } else if i == m {
        core::cmp::Ordering::Greater
    } else {
        let ca = ascii_lower(a.get_char(i));
        let cb = ascii_lower(b.get_char(i));
        proof {
            assert(x[0] == lower_char(a@[i as int]));
            assert(y[0] == lower_char(b@[i as int]));
        }
        if ca < cb {
            core::cmp::Ordering::Less
        } else if cb < ca {
            core::cmp::Ordering::Greater
        } else {
            let r = cmp_ignore_case_from(a, b, i + 1, n, m);
            proof {
                assert(ca == cb);
                assert(x.skip(1) =~= lower_seq(a@).skip(i + 1));
                assert(y.skip(1) =~= lower_seq(b@).skip(i + 1));
                if x.skip(1) == y.skip(1) {
                    lemma_eq_head_tail(x, y);
                }
            }
            r
        }
    }
}

/// Case-insensitive three-way comparison of two texts: the order the
/// Name column sorts by.
pub fn cmp_ignore_case(a: &str, b: &str) -> (r: core::cmp::Ordering)
    ensures
        ({
            let x = lower_seq(a@);
            let y = lower_seq(b@);
            &&& (r is Less <==> lex_le(x, y) && x != y)
            &&& (r is Equal <==> x == y)
            &&& (r is Greater <==> lex_le(y, x) && x != y)
        }),
{
    let n = a.unicode_len();
    let m = b.unicode_len();
    let r = cmp_ignore_case_from(a, b, 0, n, m);
    proof {
        assert(lower_seq(a@).skip(0) =~= lower_seq(a@));
        assert(lower_seq(b@).skip(0) =~= lower_seq(b@));
    }
    r
}

} // verus!
