//! Small verified building blocks for working with strings as sequences of
//! characters: equality, character search, token splitting, and
//! lexicographic order. The rest of the library states its contracts over
//! `Seq<char>` views and uses these helpers as its executable counterparts.

use vstd::prelude::*;
use vstd::string::StrSliceExecFns;

verus! {

/// Compare two string slices for equality of their character sequences.
pub fn str_eq(a: &str, b: &str) -> (r: bool)
    ensures
        r == (a@ == b@),
{
    let alen = a.unicode_len();
    let blen = b.unicode_len();
    if alen != blen {
        assert(a@ != b@);
        return false;
    }
    let mut i: usize = 0;
    while i < alen
        invariant
            alen == a@.len(),
            alen == b@.len(),
            i <= alen,
            forall|j: int| 0 <= j < i ==> a@[j] == b@[j],
        decreases alen - i,
    {
        if a.get_char(i) != b.get_char(i) {
            return false;
        }
        i = i + 1;
    }
    assert(a@ =~= b@);
    true
}

/// Index of the first occurrence of `c` in `s`, if any.
pub fn find_char(s: &str, c: char) -> (r: Option<usize>)
    ensures
        match r {
            Some(i) => {
                &&& i < s@.len()
                &&& s@[i as int] == c
                &&& forall|j: int| 0 <= j < i ==> s@[j] != c
            },
            None => !s@.contains(c),
        },
{
    let len = s.unicode_len();
    let mut i: usize = 0;
    while i < len
        invariant
            len == s@.len(),
            i <= len,
            forall|j: int| 0 <= j < i ==> s@[j] != c,
        decreases len - i,
    {
        if s.get_char(i) == c {
            return Some(i);
        }
        i = i + 1;
    }
    assert(forall|j: int| 0 <= j < s@.len() ==> s@[j] != c);
    None
}

/// Index of the last occurrence of `c` in `s`, if any.
pub fn rfind_char(s: &str, c: char) -> (r: Option<usize>)
    ensures
        match r {
            Some(i) => {
                &&& i < s@.len()
                &&& s@[i as int] == c
                &&& forall|j: int| i < j < s@.len() ==> s@[j] != c
            },
            None => !s@.contains(c),
        },
{
    let len = s.unicode_len();
    let mut i: usize = len;
    while i > 0
        invariant
            len == s@.len(),
            i <= len,
            forall|j: int| i <= j < len ==> s@[j] != c,
        decreases i,
    {
        i = i - 1;
        if s.get_char(i) == c {
            return Some(i);
        }
    }
    assert(forall|j: int| 0 <= j < s@.len() ==> s@[j] != c);
    None
}

/// The characters of `s` before the first `sep`, or all of `s` when it
/// holds none.
pub open spec fn first_token(s: Seq<char>, sep: char) -> Seq<char>
    decreases s.len(),
{
    if s.len() == 0 {
        s
    } else if s[0] == sep {
        Seq::empty()
    } else {
        seq![s[0]] + first_token(s.drop_first(), sep)
    }
}

/// The characters of `s` after the first `sep`; meaningful only when `s`
/// contains `sep`.
pub open spec fn after_token(s: Seq<char>, sep: char) -> Seq<char> {
    s.skip(first_token(s, sep).len() as int + 1)
}

/// When `i` is the first index of `sep` in `s`, the first token is what
/// stands before `i` and the remainder what stands after it.
pub proof fn lemma_first_token_at(s: Seq<char>, sep: char, i: int)
    requires
        0 <= i < s.len(),
        s[i] == sep,
        forall|j: int| 0 <= j < i ==> s[j] != sep,
    ensures
        first_token(s, sep) == s.subrange(0, i),
        after_token(s, sep) == s.skip(i + 1),
    decreases i,
{
    if i == 0 {
        assert(first_token(s, sep) =~= s.subrange(0, 0));
    } else {
        lemma_first_token_at(s.drop_first(), sep, i - 1);
        assert(s.drop_first().subrange(0, i - 1) =~= s.subrange(1, i));
        assert(first_token(s, sep) =~= s.subrange(0, i)) by {
            assert(first_token(s, sep) == seq![s[0]] + s.subrange(1, i));
        }
    }
}

/// When `s` holds no `sep` at all, the first token is `s` itself.
pub proof fn lemma_first_token_nosep(s: Seq<char>, sep: char)
    requires
        !s.contains(sep),
    ensures
        first_token(s, sep) == s,
    decreases s.len(),
{
    if s.len() > 0 {
        assert(s[0] != sep);
        assert(!s.drop_first().contains(sep)) by {
            if s.drop_first().contains(sep) {
                let j = choose|j: int| 0 <= j < s.drop_first().len() && s.drop_first()[j] == sep;
                assert(s[j + 1] == sep);
                assert(s.contains(sep));
            }
        }
        lemma_first_token_nosep(s.drop_first(), sep);
        assert(first_token(s, sep) =~= s);
    }
}

/// Split `s` at its first `sep` when it has one; used for taking the first
/// token off a line or the first segment off a slash-path.
pub fn take_first_token<'a>(s: &'a str, sep: char) -> (r: (&'a str, Option<&'a str>))
    ensures
        r.0@ == first_token(s@, sep),
        match r.1 {
            Some(rest) => s@.contains(sep) && rest@ == after_token(s@, sep),
            None => !s@.contains(sep),
        },
{
    let len = s.unicode_len();
    let found = find_char(s, sep);
    match found {
        Some(j) => {
            proof {
                lemma_first_token_at(s@, sep, j as int);
                assert(s@.contains(sep)) by {
                    assert(s@[j as int] == sep);
                }
            }
            (s.substring_char(0, j), Some(s.substring_char(j + 1, len)))
        },
        None => {
            proof {
                lemma_first_token_nosep(s@, sep);
            }
            (s, None)
        },
    }
}

/// Strict lexicographic order on character sequences, ordering characters by
/// their Unicode scalar values.
pub open spec fn lex_lt(a: Seq<char>, b: Seq<char>) -> bool
    decreases a.len(),
{
    if b.len() == 0 {
        false
    } else if a.len() == 0 {
        true
    } else if a[0] != b[0] {
        (a[0] as u32) < (b[0] as u32)
    } else {
        lex_lt(a.drop_first(), b.drop_first())
    }
}

/// Decide the strict lexicographic order on two strings.
pub fn str_lex_lt(a: &str, b: &str) -> (r: bool)
    ensures
        r == lex_lt(a@, b@),
{
    let alen = a.unicode_len();
    let blen = b.unicode_len();
    let mut i: usize = 0;
    proof {
        assert(a@.skip(0) =~= a@);
        assert(b@.skip(0) =~= b@);
        assert(a@.subrange(0, 0) =~= b@.subrange(0, 0));
    }
    loop
        invariant
            alen == a@.len(),
            blen == b@.len(),
            i <= alen,
            i <= blen,
            a@.subrange(0, i as int) == b@.subrange(0, i as int),
            lex_lt(a@, b@) == lex_lt(a@.skip(i as int), b@.skip(i as int)),
        decreases alen - i,
    {
        if i >= blen {
            assert(b@.skip(i as int).len() == 0);
            return false;
        }
        if i >= alen {
            assert(a@.skip(i as int).len() == 0 && b@.skip(i as int).len() > 0);
            return true;
        }
        let ca = a.get_char(i);
        let cb = b.get_char(i);
        assert(a@.skip(i as int)[0] == a@[i as int]);
        assert(b@.skip(i as int)[0] == b@[i as int]);
        if ca != cb {
            return (ca as u32) < (cb as u32);
        }
        assert(a@.skip(i as int).drop_first() =~= a@.skip(i + 1));
        assert(b@.skip(i as int).drop_first() =~= b@.skip(i + 1));
        assert(a@.subrange(0, i + 1) =~= b@.subrange(0, i + 1)) by {
            assert(a@.subrange(0, i as int) =~= b@.subrange(0, i as int));
            assert(a@.subrange(0, i + 1)[i as int] == a@[i as int]);
        }
        i = i + 1;
    }
}

/// Lexicographic order is total: of two distinct sequences, one is strictly
/// below the other.
pub proof fn lemma_lex_total(a: Seq<char>, b: Seq<char>)
    ensures
        lex_lt(a, b) || lex_lt(b, a) || a == b,
    decreases a.len(),
{
    if b.len() == 0 || a.len() == 0 {
        if a.len() == b.len() {
            assert(a =~= b);
        }
    } else if a[0] != b[0] {
        assert((a[0] as u32) != (b[0] as u32)) by {
            vstd::utf8::char_u32_cast(a[0], a[0] as u32);
            vstd::utf8::char_u32_cast(b[0], b[0] as u32);
        }
    } else {
        lemma_lex_total(a.drop_first(), b.drop_first());
        if a.drop_first() == b.drop_first() {
            assert(a.drop_first().len() == b.drop_first().len());
            assert(a.len() == b.len());
            assert forall|j: int| 0 <= j < a.len() implies a[j] == b[j] by {
                if j > 0 {
                    assert(a.drop_first()[j - 1] == a[j]);
                    assert(b.drop_first()[j - 1] == b[j]);
                }
            }
            assert(a =~= b);
        }
    }
}

/// Lexicographic order is irreflexive; in particular two ordered keys are
/// distinct.
pub proof fn lemma_lex_irrefl(a: Seq<char>)
    ensures
        !lex_lt(a, a),
    decreases a.len(),
{
    if a.len() > 0 {
        lemma_lex_irrefl(a.drop_first());
    }
}

/// Lexicographic order is transitive.
pub proof fn lemma_lex_trans(a: Seq<char>, b: Seq<char>, c: Seq<char>)
    requires
        lex_lt(a, b),
        lex_lt(b, c),
    ensures
        lex_lt(a, c),
    decreases a.len() + b.len() + c.len(),
{
    if c.len() == 0 || b.len() == 0 || a.len() == 0 {
    } else if a[0] == b[0] && b[0] == c[0] {
        lemma_lex_trans(a.drop_first(), b.drop_first(), c.drop_first());
    } else {
        vstd::utf8::char_u32_cast(a[0], a[0] as u32);
        vstd::utf8::char_u32_cast(b[0], b[0] as u32);
        vstd::utf8::char_u32_cast(c[0], c[0] as u32);
    }
}

} // verus!
