//! Filename sanitization.
//!
//! A raw filename from a multipart request is made safe in three passes:
//! every path separator (`/` or `\`) is replaced by `_`, every occurrence of
//! `..` is replaced (left to right, non-overlapping) by a single `_`, and
//! finally only characters from a fixed allow-list (ASCII alphanumerics,
//! `.`, `-`, `_`) are kept. A name that comes out empty is rejected.

use vstd::prelude::*;
use crate::text::{chars_of, string_from_chars};

verus! {

/// A path separator character.
pub open spec fn is_separator(c: char) -> bool {
    c == '/' || c == '\\'
}

/// Characters permitted in a sanitized filename: ASCII alphanumerics,
/// `.`, `-` and `_`.
pub open spec fn is_allowed_char(c: char) -> bool {
    ||| 'a' <= c && c <= 'z'
    ||| 'A' <= c && c <= 'Z'
    ||| '0' <= c && c <= '9'
    ||| c == '.'
    ||| c == '-'
    ||| c == '_'
}

/// First pass: a separator becomes `_`, anything else is unchanged.
pub open spec fn map_separator(c: char) -> char {
    if is_separator(c) {
        '_'
    } else {
        c
    }
}

/// First pass over a whole name.
pub open spec fn replace_separators(s: Seq<char>) -> Seq<char> {
    s.map_values(|c: char| map_separator(c))
}

/// Second pass: each occurrence of `..`, scanning left to right without
/// overlap, becomes a single `_`.
pub open spec fn collapse_dot_dot(s: Seq<char>) -> Seq<char>
    decreases s.len(),
{
    if s.len() >= 2 && s[0] == '.' && s[1] == '.' {
        seq!['_'] + collapse_dot_dot(s.skip(2))
    } else if s.len() >= 1 {
        seq![s[0]] + collapse_dot_dot(s.skip(1))
    } else {
        Seq::<char>::empty()
    }
}

/// Third pass: keep only allowed characters.
pub open spec fn keep_allowed(s: Seq<char>) -> Seq<char>
    decreases s.len(),
{
    if s.len() == 0 {
        Seq::<char>::empty()
    } else if is_allowed_char(s[0]) {
        seq![s[0]] + keep_allowed(s.skip(1))
    } else {
        keep_allowed(s.skip(1))
    }
}

/// The full sanitization pipeline.
pub open spec fn sanitize_spec(raw: Seq<char>) -> Seq<char> {
    keep_allowed(collapse_dot_dot(replace_separators(raw)))
}

/// Decides membership in the allow-list.
pub fn allowed_char(c: char) -> (r: bool)
    ensures
        r == is_allowed_char(c),
{
    ('a' <= c && c <= 'z') || ('A' <= c && c <= 'Z') || ('0' <= c && c <= '9') || c == '.'
        || c == '-' || c == '_'
}

/// Sanitizes a raw filename. Returns `None` exactly when every character is
/// removed, which the caller reports as an invalid filename.
pub fn sanitize(raw: &str) -> (result: Option<String>)
    ensures
        match result {
            Some(name) => name@ == sanitize_spec(raw@) && sanitize_spec(raw@).len() > 0,
            None => sanitize_spec(raw@).len() == 0,
        },
{
    let chars = chars_of(raw);
    let n = chars.len();

    let mut replaced: Vec<char> = Vec::new();
    let mut i: usize = 0;
    while i < n
        invariant
            i <= n,
            n == chars@.len(),
            replaced@ == replace_separators(chars@.take(i as int)),
        decreases n - i,
    {
        let c = chars[i];
        if c == '/' || c == '\\' {
            replaced.push('_');
        } else {
            replaced.push(c);
        }
        proof {
            assert(chars@.take(i + 1) =~= chars@.take(i as int).push(chars@[i as int]));
            assert(replace_separators(chars@.take(i + 1)) =~= replace_separators(
                chars@.take(i as int),
            ).push(map_separator(chars@[i as int])));
        }
        i += 1;
    }
    proof {
        assert(chars@.take(n as int) =~= chars@);
    }

    let m = replaced.len();
    let mut collapsed: Vec<char> = Vec::new();
    let mut j: usize = 0;
    proof {
        assert(replaced@.skip(0) =~= replaced@);
        assert(Seq::<char>::empty() + collapse_dot_dot(replaced@) =~= collapse_dot_dot(
            replaced@,
        ));
    }
    while j < m
        invariant
            j <= m,
            m == replaced@.len(),
            collapse_dot_dot(replaced@) == collapsed@ + collapse_dot_dot(
                replaced@.skip(j as int),
            ),
        decreases m - j,
    {
        let c = replaced[j];
        if j + 1 < m && c == '.' && replaced[j + 1] == '.' {
            collapsed.push('_');
            proof {
                assert(replaced@.skip(j as int).skip(2) =~= replaced@.skip(j + 2));
                assert(replaced@.skip(j as int)[0] == replaced@[j as int]);
                assert(replaced@.skip(j as int)[1] == replaced@[j + 1]);
                assert(collapse_dot_dot(replaced@.skip(j as int)) == seq!['_']
                    + collapse_dot_dot(replaced@.skip(j + 2)));
                assert(collapsed@ + collapse_dot_dot(replaced@.skip(j + 2)) =~= (
                collapsed@.drop_last() + (seq!['_'] + collapse_dot_dot(
                    replaced@.skip(j + 2),
                ))));
            }
            j += 2;
        } else {
            collapsed.push(c);
            proof {
                assert(replaced@.skip(j as int).skip(1) =~= replaced@.skip(j + 1));
                assert(replaced@.skip(j as int)[0] == replaced@[j as int]);
                assert(collapse_dot_dot(replaced@.skip(j as int)) == seq![replaced@[j as int]]
                    + collapse_dot_dot(replaced@.skip(j + 1)));
                assert(collapsed@ + collapse_dot_dot(replaced@.skip(j + 1)) =~= (
                collapsed@.drop_last() + (seq![replaced@[j as int]] + collapse_dot_dot(
                    replaced@.skip(j + 1),
                ))));
            }
            j += 1;
        }
    }
    proof {
        assert(replaced@.skip(m as int) =~= Seq::<char>::empty());
        assert(collapsed@ + Seq::<char>::empty() =~= collapsed@);
    }

    let p = collapsed.len();
    let mut kept: Vec<char> = Vec::new();
    let mut k: usize = 0;
    proof {
        assert(collapsed@.skip(0) =~= collapsed@);
        assert(Seq::<char>::empty() + keep_allowed(collapsed@) =~= keep_allowed(collapsed@));
    }
    while k < p
        invariant
            k <= p,
            p == collapsed@.len(),
            keep_allowed(collapsed@) == kept@ + keep_allowed(collapsed@.skip(k as int)),
        decreases p - k,
    {
        let c = collapsed[k];
        proof {
            assert(collapsed@.skip(k as int).skip(1) =~= collapsed@.skip(k + 1));
            assert(collapsed@.skip(k as int)[0] == collapsed@[k as int]);
        }
        if allowed_char(c) {
            kept.push(c);
            proof {
                assert(kept@ + keep_allowed(collapsed@.skip(k + 1)) =~= (kept@.drop_last() + (
                seq![collapsed@[k as int]] + keep_allowed(collapsed@.skip(k + 1)))));
            }
        }
        k += 1;
    }
    proof {
        assert(collapsed@.skip(p as int) =~= Seq::<char>::empty());
        assert(kept@ + Seq::<char>::empty() =~= kept@);
    }

    if kept.len() == 0 {
        None
    } else {
        Some(string_from_chars(&kept))
    }
}

/// Two adjacent dots somewhere in the sequence.
pub open spec fn has_dot_dot(s: Seq<char>) -> bool {
    exists|i: int| 0 <= i && i + 1 < s.len() && #[trigger] s[i] == '.' && s[i + 1] == '.'
}

proof fn lemma_collapse_head(s: Seq<char>)
    requires
        s.len() > 0,
    ensures
        collapse_dot_dot(s).len() > 0,
        collapse_dot_dot(s)[0] == '_' || collapse_dot_dot(s)[0] == s[0],
{
}

proof fn lemma_collapse_no_dot_dot(s: Seq<char>)
    ensures
        !has_dot_dot(collapse_dot_dot(s)),
    decreases s.len(),
{
    let r = collapse_dot_dot(s);
    if s.len() >= 2 && s[0] == '.' && s[1] == '.' {
        lemma_collapse_no_dot_dot(s.skip(2));
        let c2 = collapse_dot_dot(s.skip(2));
        assert forall|i: int| 0 <= i && i + 1 < r.len() implies !(#[trigger] r[i] == '.' && r[i + 1]
            == '.') by {
            if i == 0 {
                assert(r[0] == '_');
            } else if r[i] == '.' && r[i + 1] == '.' {
                assert(c2[i - 1] == '.' && c2[i] == '.');
                assert(has_dot_dot(c2));
            }
        }
    } else if s.len() >= 1 {
        lemma_collapse_no_dot_dot(s.skip(1));
        let c1 = collapse_dot_dot(s.skip(1));
        assert forall|i: int| 0 <= i && i + 1 < r.len() implies !(#[trigger] r[i] == '.' && r[i + 1]
            == '.') by {
            if i == 0 {
                if r[0] == '.' && r[1] == '.' {
                    assert(c1.len() > 0);
                    assert(s.skip(1).len() > 0);
                    lemma_collapse_head(s.skip(1));
                    assert(c1[0] == '_' || c1[0] == s[1]);
                    assert(s[0] == '.' && s[1] == '.');
                }
            } else if r[i] == '.' && r[i + 1] == '.' {
                assert(c1[i - 1] == '.' && c1[i] == '.');
                assert(has_dot_dot(c1));
            }
        }
    }
}

proof fn lemma_collapse_identity(s: Seq<char>)
    requires
        !has_dot_dot(s),
    ensures
        collapse_dot_dot(s) == s,
    decreases s.len(),
{
    if s.len() >= 2 && s[0] == '.' && s[1] == '.' {
        assert(has_dot_dot(s));
    } else if s.len() >= 1 {
        assert(!has_dot_dot(s.skip(1))) by {
            if has_dot_dot(s.skip(1)) {
                let i = choose|i: int|
                    0 <= i && i + 1 < s.skip(1).len() && #[trigger] s.skip(1)[i] == '.'
                        && s.skip(1)[i + 1] == '.';
                assert(s[i + 1] == '.' && s[i + 2] == '.');
                assert(has_dot_dot(s));
            }
        }
        lemma_collapse_identity(s.skip(1));
        assert(collapse_dot_dot(s) =~= s);
    } else {
        assert(collapse_dot_dot(s) =~= s);
    }
}

proof fn lemma_collapse_all_allowed(s: Seq<char>)
    requires
        forall|i: int| 0 <= i < s.len() ==> is_allowed_char(s[i]),
    ensures
        forall|i: int|
            0 <= i < collapse_dot_dot(s).len() ==> is_allowed_char(
                #[trigger] collapse_dot_dot(s)[i],
            ),
    decreases s.len(),
{
    let r = collapse_dot_dot(s);
    if s.len() >= 2 && s[0] == '.' && s[1] == '.' {
        lemma_collapse_all_allowed(s.skip(2));
        assert forall|i: int| 0 <= i < r.len() implies is_allowed_char(#[trigger] r[i]) by {
            if i > 0 {
                assert(r[i] == collapse_dot_dot(s.skip(2))[i - 1]);
            }
        }
    } else if s.len() >= 1 {
        lemma_collapse_all_allowed(s.skip(1));
        assert forall|i: int| 0 <= i < r.len() implies is_allowed_char(#[trigger] r[i]) by {
            if i > 0 {
                assert(r[i] == collapse_dot_dot(s.skip(1))[i - 1]);
            }
        }
    }
}

proof fn lemma_keep_allowed_chars(s: Seq<char>)
    ensures
        forall|i: int|
            0 <= i < keep_allowed(s).len() ==> is_allowed_char(#[trigger] keep_allowed(s)[i]),
    decreases s.len(),
{
    let r = keep_allowed(s);
    if s.len() == 0 {
    } else {
        lemma_keep_allowed_chars(s.skip(1));
        let k1 = keep_allowed(s.skip(1));
        assert forall|i: int| 0 <= i < r.len() implies is_allowed_char(#[trigger] r[i]) by {
            if is_allowed_char(s[0]) && i > 0 {
                assert(r[i] == k1[i - 1]);
            }
        }
    }
}

proof fn lemma_keep_identity(s: Seq<char>)
    requires
        forall|i: int| 0 <= i < s.len() ==> is_allowed_char(s[i]),
    ensures
        keep_allowed(s) == s,
    decreases s.len(),
{
    if s.len() == 0 {
        assert(keep_allowed(s) =~= s);
    } else {
        lemma_keep_identity(s.skip(1));
        assert(keep_allowed(s) =~= s);
    }
}

proof fn lemma_keep_empty(s: Seq<char>)
    requires
        forall|i: int| 0 <= i < s.len() ==> !is_allowed_char(s[i]),
    ensures
        keep_allowed(s).len() == 0,
    decreases s.len(),
{
    if s.len() == 0 {
    } else {
        lemma_keep_empty(s.skip(1));
    }
}

/// Law: a sanitized filename never contains a path separator, whatever the
/// raw name was.
pub proof fn lemma_sanitized_free_of_separators(raw: Seq<char>)
    ensures
        !sanitize_spec(raw).contains('/'),
        !sanitize_spec(raw).contains('\\'),
{
    lemma_keep_allowed_chars(collapse_dot_dot(replace_separators(raw)));
    let r = sanitize_spec(raw);
    assert forall|i: int| 0 <= i < r.len() implies r[i] != '/' && r[i] != '\\' by {
        assert(is_allowed_char(r[i]));
    }
}

/// Law: when the raw name consists only of allow-listed characters and path
/// separators, the sanitized result contains no `..`. (When other characters
/// are present the final filter can bring two dots together: sanitizing
/// `a/.!./b` yields `a_.._b`.)
pub proof fn lemma_sanitized_no_dot_dot(raw: Seq<char>)
    requires
        forall|i: int| 0 <= i < raw.len() ==> is_allowed_char(raw[i]) || is_separator(raw[i]),
    ensures
        !has_dot_dot(sanitize_spec(raw)),
{
    let rep = replace_separators(raw);
    assert forall|i: int| 0 <= i < rep.len() implies is_allowed_char(rep[i]) by {
        assert(rep[i] == map_separator(raw[i]));
    }
    lemma_collapse_all_allowed(rep);
    lemma_collapse_no_dot_dot(rep);
    lemma_keep_identity(collapse_dot_dot(rep));
}

/// Law: a raw name made only of characters outside the allow-list that are
/// not path separators sanitizes to the empty sequence, so it is rejected.
/// (A separator itself becomes `_`, which survives the filter: `///`
/// sanitizes to `___`, not to a rejection.)
pub proof fn lemma_all_disallowed_rejected(raw: Seq<char>)
    requires
        forall|i: int| 0 <= i < raw.len() ==> !is_allowed_char(raw[i]) && !is_separator(raw[i]),
    ensures
        sanitize_spec(raw).len() == 0,
{
    let rep = replace_separators(raw);
    assert(rep =~= raw);
    assert(!has_dot_dot(raw)) by {
        if has_dot_dot(raw) {
            let i = choose|i: int|
                0 <= i && i + 1 < raw.len() && #[trigger] raw[i] == '.' && raw[i + 1] == '.';
            assert(is_allowed_char(raw[i]));
        }
    }
    lemma_collapse_identity(raw);
    lemma_keep_empty(raw);
}

/// Law: sanitization is idempotent on every result that contains no `..`.
/// (The filter can create a `..` that a second pass would collapse: the raw
/// name `.!.` sanitizes to `..`, which sanitizes again to `_`.)
pub proof fn lemma_sanitize_idempotent(raw: Seq<char>)
    requires
        !has_dot_dot(sanitize_spec(raw)),
    ensures
        sanitize_spec(sanitize_spec(raw)) == sanitize_spec(raw),
{
    let t = sanitize_spec(raw);
    lemma_keep_allowed_chars(collapse_dot_dot(replace_separators(raw)));
    assert(replace_separators(t) =~= t) by {
        assert forall|i: int| 0 <= i < t.len() implies replace_separators(t)[i] == t[i] by {
            assert(is_allowed_char(t[i]));
            assert(replace_separators(t)[i] == map_separator(t[i]));
        }
    }
    lemma_collapse_identity(t);
    lemma_keep_identity(t);
}

} // verus!
