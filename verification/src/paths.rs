//! Resolution of filesystem paths from plain strings.
//!
//! Paths are held as strings of characters with `/` as the separator.
//! Joining follows the usual rule for pushing one path onto another: an
//! absolute right-hand side replaces the base, and a separator is inserted
//! only where the base does not already end in one.

use vstd::prelude::*;

verus! {

/// The join of `rel` onto `base`.
pub open spec fn join_spec(base: Seq<char>, rel: Seq<char>) -> Seq<char> {
    if rel.len() > 0 && rel[0] == '/' {
        rel
    } else if base.len() == 0 {
        rel
    } else if base.last() == '/' {
        base + rel
    } else {
        base + seq!['/'] + rel
    }
}

/// Joins a relative path onto a base directory.
pub fn join_path(base: &String, rel: &String) -> (r: String)
    ensures
        r@ == join_spec(base@, rel@),
{
    proof {
        reveal_strlit("/");
    }
    let rel_len = rel.as_str().unicode_len();
    if rel_len > 0 && rel.as_str().get_char(0) == '/' {
        return rel.clone();
    }
    let base_len = base.as_str().unicode_len();
    if base_len == 0 {
        return rel.clone();
    }
    let mut r = base.clone();
    if base.as_str().get_char(base_len - 1) != '/' {
        r.append("/");
        proof {
            assert(r@ =~= base@ + seq!['/']);
        }
    }
    r.append(rel.as_str());
    proof {
        if base@.last() != '/' {
            assert(r@ =~= base@ + seq!['/'] + rel@);
        }
    }
    r
}

/// Whether `c` is whitespace to be trimmed from the end of collaborator
/// output: exactly the characters with the Unicode `White_Space` property.
pub open spec fn spec_is_space(c: char) -> bool {
    c == '\u{0009}' || c == '\u{000A}' || c == '\u{000B}' || c == '\u{000C}' || c == '\u{000D}'
        || c == '\u{0020}' || c == '\u{0085}' || c == '\u{00A0}' || c == '\u{1680}'
        || c == '\u{2000}' || c == '\u{2001}' || c == '\u{2002}' || c == '\u{2003}'
        || c == '\u{2004}' || c == '\u{2005}' || c == '\u{2006}' || c == '\u{2007}'
        || c == '\u{2008}' || c == '\u{2009}' || c == '\u{200A}' || c == '\u{2028}'
        || c == '\u{2029}' || c == '\u{202F}' || c == '\u{205F}' || c == '\u{3000}'
}

/// Whether `c` has the Unicode `White_Space` property.
pub fn is_space_char(c: char) -> (r: bool)
    ensures
        r == spec_is_space(c),
{
    c == '\u{0009}' || c == '\u{000A}' || c == '\u{000B}' || c == '\u{000C}' || c == '\u{000D}'
        || c == '\u{0020}' || c == '\u{0085}' || c == '\u{00A0}' || c == '\u{1680}'
        || c == '\u{2000}' || c == '\u{2001}' || c == '\u{2002}' || c == '\u{2003}'
        || c == '\u{2004}' || c == '\u{2005}' || c == '\u{2006}' || c == '\u{2007}'
        || c == '\u{2008}' || c == '\u{2009}' || c == '\u{200A}' || c == '\u{2028}'
        || c == '\u{2029}' || c == '\u{202F}' || c == '\u{205F}' || c == '\u{3000}'
}

/// The length of `s` once trailing whitespace is dropped.
pub open spec fn trimmed_len(s: Seq<char>) -> int
    decreases s.len(),
{
    if s.len() == 0 {
        0
    } else if spec_is_space(s.last()) {
        trimmed_len(s.drop_last())
    } else {
        s.len() as int
    }
}

/// `s` without its trailing whitespace.
pub open spec fn trim_end_spec(s: Seq<char>) -> Seq<char> {
    s.take(trimmed_len(s))
}

/// The trimmed length is within bounds, and the dropped suffix is all
/// whitespace while the last kept character is not.
pub proof fn lemma_trimmed_len(s: Seq<char>)
    ensures
        0 <= trimmed_len(s) <= s.len(),
        forall|i: int| trimmed_len(s) <= i < s.len() ==> spec_is_space(#[trigger] s[i]),
        trimmed_len(s) > 0 ==> !spec_is_space(s[trimmed_len(s) - 1]),
    decreases s.len(),
{
    if s.len() > 0 && spec_is_space(s.last()) {
        lemma_trimmed_len(s.drop_last());
        assert(forall|i: int|
            0 <= i < s.len() - 1 ==> s.drop_last()[i] == #[trigger] s[i]);
    }
}

/// Removes trailing whitespace from `s`, as collaborator output is trimmed
/// before being used as a path.
pub fn trim_trailing_whitespace(s: &String) -> (r: String)
    ensures
        r@ == trim_end_spec(s@),
{
    let n = s.as_str().unicode_len();
    let mut k: usize = n;
    proof {
        assert(s@.take(n as int) =~= s@);
    }
    loop
        invariant
            k <= n,
            n == s@.len(),
            trimmed_len(s@) == trimmed_len(s@.take(k as int)),
        ensures
            k <= n,
            n == s@.len(),
            trimmed_len(s@) == trimmed_len(s@.take(k as int)),
            k == 0 || !spec_is_space(s@[k - 1]),
        decreases k,
    {
        if k == 0 {
            break;
        }
        let c = s.as_str().get_char(k - 1);
        if !is_space_char(c) {
            break;
        }
        proof {
            assert(s@.take(k as int).last() == s@[k - 1]);
            assert(s@.take(k as int).drop_last() =~= s@.take(k - 1 as int));
        }
        k = k - 1;
    }
    proof {
        lemma_trimmed_len(s@);
        lemma_trimmed_len(s@.take(k as int));
        if k > 0 {
            assert(s@.take(k as int).last() == s@[k - 1]);
            assert(trimmed_len(s@.take(k as int)) == k);
        }
    }
    String::from_str(s.as_str().substring_char(0, k))
}

} // verus!
