//! Name sanitization: arbitrary user text becomes a filesystem-safe,
//! hyphen-delimited identifier.
//!
//! Slug mode (for post filenames) lowercases first, then maps space and
//! underscore to hyphens, keeps alphanumerics, turns everything else into a
//! hyphen, and collapses hyphen runs. Project mode (for folder names) keeps
//! underscores, collapses first and lowercases last.

use crate::chars::ascii_lower_char;
use crate::chars::ascii_lower_seq;
use crate::chars::char_is_alphanumeric;
use crate::chars::chars_of;
use crate::chars::is_alnum_char;
use crate::chars::is_ascii_alnum;
use crate::chars::is_ascii_char;
use crate::chars::is_ascii_lower_alnum;
use crate::chars::is_ascii_seq;
use crate::chars::lower_of;
use crate::chars::str_to_lowercase;
use crate::chars::string_of;
use crate::segments::collapse_chars;
use crate::segments::collapsed;
use crate::segments::collapsed_shape;
use crate::segments::lemma_collapsed_shape;
use crate::segments::lemma_collapsed_shaped_id;
use vstd::prelude::*;

verus! {

/// Slug mode, per character: space and underscore separate; alphanumerics
/// and hyphens stay; everything else separates.
pub open spec fn slug_map_char(c: char) -> char {
    if c == ' ' || c == '_' {
        '-'
    } else if is_alnum_char(c) || c == '-' {
        c
    } else {
        '-'
    }
}

/// Project mode, per character: space separates; alphanumerics, hyphens and
/// underscores stay; everything else separates.
pub open spec fn project_map_char(c: char) -> char {
    if c == ' ' {
        '-'
    } else if is_alnum_char(c) || c == '-' || c == '_' {
        c
    } else {
        '-'
    }
}

pub open spec fn slug_mapped(s: Seq<char>) -> Seq<char> {
    s.map_values(|c: char| slug_map_char(c))
}

pub open spec fn project_mapped(s: Seq<char>) -> Seq<char> {
    s.map_values(|c: char| project_map_char(c))
}

/// What `sanitize_slug` returns: lowercase, then map and collapse.
pub open spec fn sanitize_slug_spec(s: Seq<char>) -> Seq<char> {
    collapsed(slug_mapped(lower_of(s)), '-')
}

/// What `sanitize_project_name` returns: map and collapse, then lowercase.
pub open spec fn sanitize_project_spec(s: Seq<char>) -> Seq<char> {
    lower_of(collapsed(project_mapped(s), '-'))
}

/// Slug mode restricted to ASCII, with the character classes written out.
pub open spec fn slug_map_ascii_char(c: char) -> char {
    if c == ' ' || c == '_' {
        '-'
    } else if is_ascii_alnum(c) || c == '-' {
        c
    } else {
        '-'
    }
}

pub open spec fn project_map_ascii_char(c: char) -> char {
    if c == ' ' {
        '-'
    } else if is_ascii_alnum(c) || c == '-' || c == '_' {
        c
    } else {
        '-'
    }
}

pub open spec fn slug_mapped_ascii(s: Seq<char>) -> Seq<char> {
    s.map_values(|c: char| slug_map_ascii_char(c))
}

pub open spec fn project_mapped_ascii(s: Seq<char>) -> Seq<char> {
    s.map_values(|c: char| project_map_ascii_char(c))
}

/// On all-ASCII input, what `sanitize_slug` returns, in closed form.
pub open spec fn sanitize_slug_ascii(s: Seq<char>) -> Seq<char> {
    collapsed(slug_mapped_ascii(ascii_lower_seq(s)), '-')
}

/// On all-ASCII input, what `sanitize_project_name` returns, in closed form.
pub open spec fn sanitize_project_ascii(s: Seq<char>) -> Seq<char> {
    ascii_lower_seq(collapsed(project_mapped_ascii(s), '-'))
}

fn map_slug_chars(v: &Vec<char>) -> (r: Vec<char>)
    ensures
        r@ == slug_mapped(v@),
        forall|j: int|
            0 <= j < v@.len() && is_ascii_char(#[trigger] v@[j]) ==> r@[j] == slug_map_ascii_char(
                v@[j],
            ),
{
    let mut r: Vec<char> = Vec::new();
    let n = v.len();
    let mut i: usize = 0;
    while i < n
        invariant
            i <= n == v@.len(),
            r@ == slug_mapped(v@.subrange(0, i as int)),
            forall|j: int|
                0 <= j < i && is_ascii_char(#[trigger] v@[j]) ==> r@[j] == slug_map_ascii_char(
                    v@[j],
                ),
        decreases n - i,
    {
        let c = v[i];
        let alnum = char_is_alphanumeric(c);
        let mc = if c == ' ' || c == '_' {
            '-'
        } else if alnum || c == '-' {
            c
        } else {
            '-'
        };
        assert(mc == slug_map_char(c));
        assert(is_ascii_char(c) ==> mc == slug_map_ascii_char(c));
        r.push(mc);
        proof {
            assert(r@ =~= slug_mapped(v@.subrange(0, i + 1)));
        }
        i = i + 1;
    }
    proof {
        assert(v@.subrange(0, n as int) =~= v@);
    }
    r
}

fn map_project_chars(v: &Vec<char>) -> (r: Vec<char>)
    ensures
        r@ == project_mapped(v@),
        forall|j: int|
            0 <= j < v@.len() && is_ascii_char(#[trigger] v@[j]) ==> r@[j]
                == project_map_ascii_char(v@[j]),
{
    let mut r: Vec<char> = Vec::new();
    let n = v.len();
    let mut i: usize = 0;
    while i < n
        invariant
            i <= n == v@.len(),
            r@ == project_mapped(v@.subrange(0, i as int)),
            forall|j: int|
                0 <= j < i && is_ascii_char(#[trigger] v@[j]) ==> r@[j] == project_map_ascii_char(
                    v@[j],
                ),
        decreases n - i,
    {
        let c = v[i];
        let alnum = char_is_alphanumeric(c);
        let mc = if c == ' ' {
            '-'
        } else if alnum || c == '-' || c == '_' {
            c
        } else {
            '-'
        };
        assert(mc == project_map_char(c));
        assert(is_ascii_char(c) ==> mc == project_map_ascii_char(c));
        r.push(mc);
        proof {
            assert(r@ =~= project_mapped(v@.subrange(0, i + 1)));
        }
        i = i + 1;
    }
    proof {
        assert(v@.subrange(0, n as int) =~= v@);
    }
    r
}

/// Slug for a post title: lowercase, keep alphanumerics, separate with
/// single hyphens. May be empty when the title has no alphanumeric content.
pub fn sanitize_slug(title: &str) -> (r: String)
    ensures
        r@ == sanitize_slug_spec(title@),
        is_ascii_seq(title@) ==> r@ == sanitize_slug_ascii(title@),
{
    let low = str_to_lowercase(title);
    let lowv = chars_of(low.as_str());
    let mapped = map_slug_chars(&lowv);
    proof {
        if is_ascii_seq(title@) {
            assert(lowv@ == ascii_lower_seq(title@));
            assert forall|j: int| 0 <= j < lowv@.len() implies is_ascii_char(
                #[trigger] lowv@[j],
            ) by {
                assert(lowv@[j] == ascii_lower_char(title@[j]));
                assert(is_ascii_char(title@[j]));
            }
            assert(mapped@ =~= slug_mapped_ascii(lowv@));
        }
    }
    let coll = collapse_chars(&mapped, '-');
    string_of(coll)
}

/// Folder name for a project: keep alphanumerics and underscores, separate
/// with single hyphens, lowercase the result. May be empty when the name has
/// no such content.
pub fn sanitize_project_name(name: &str) -> (r: String)
    ensures
        r@ == sanitize_project_spec(name@),
        is_ascii_seq(name@) ==> r@ == sanitize_project_ascii(name@),
{
    let v = chars_of(name);
    let mapped = map_project_chars(&v);
    let coll = collapse_chars(&mapped, '-');
    proof {
        if is_ascii_seq(name@) {
            assert(mapped@ =~= project_mapped_ascii(v@));
            lemma_collapsed_shape(mapped@, '-');
            assert forall|k: int| 0 <= k < coll@.len() implies is_ascii_char(
                #[trigger] coll@[k],
            ) by {
                if coll@[k] != '-' {
                    assert(mapped@.contains(coll@[k]));
                    let j = choose|j: int| 0 <= j < mapped@.len() && mapped@[j] == coll@[k];
                    assert(mapped@[j] == project_map_char(v@[j]));
                    assert(is_ascii_char(v@[j]));
                }
            }
        }
    }
    let joined = string_of(coll);
    let r = str_to_lowercase(joined.as_str());
    proof {
        if is_ascii_seq(name@) {
            assert(r@ =~= sanitize_project_ascii(name@));
        }
    }
    r
}

/// A sanitized slug has no leading, trailing or doubled hyphen, and every
/// character is a hyphen or alphanumeric. This holds for every input.
pub proof fn lemma_sanitize_slug_shape(s: Seq<char>)
    ensures
        collapsed_shape(sanitize_slug_spec(s), '-'),
        forall|k: int|
            0 <= k < sanitize_slug_spec(s).len() ==> #[trigger] sanitize_slug_spec(s)[k] == '-'
                || is_alnum_char(sanitize_slug_spec(s)[k]),
{
    let m = slug_mapped(lower_of(s));
    lemma_collapsed_shape(m, '-');
    let r = sanitize_slug_spec(s);
    assert forall|k: int| 0 <= k < r.len() implies #[trigger] r[k] == '-' || is_alnum_char(
        r[k],
    ) by {
        if r[k] != '-' {
            assert(m.contains(r[k]));
            let j = choose|j: int| 0 <= j < m.len() && m[j] == r[k];
            assert(m[j] == slug_map_char(lower_of(s)[j]));
        }
    }
}

/// On all-ASCII input the slug is made of lowercase ASCII alphanumerics and
/// single separating hyphens, with no leading, trailing or doubled hyphen.
pub proof fn lemma_sanitize_slug_ascii_chars(s: Seq<char>)
    requires
        is_ascii_seq(s),
    ensures
        collapsed_shape(sanitize_slug_ascii(s), '-'),
        forall|k: int|
            0 <= k < sanitize_slug_ascii(s).len() ==> #[trigger] sanitize_slug_ascii(s)[k] == '-'
                || is_ascii_lower_alnum(sanitize_slug_ascii(s)[k]),
{
    let l = ascii_lower_seq(s);
    let m = slug_mapped_ascii(l);
    lemma_collapsed_shape(m, '-');
    let r = sanitize_slug_ascii(s);
    assert forall|k: int| 0 <= k < r.len() implies #[trigger] r[k] == '-' || is_ascii_lower_alnum(
        r[k],
    ) by {
        if r[k] != '-' {
            assert(m.contains(r[k]));
            let j = choose|j: int| 0 <= j < m.len() && m[j] == r[k];
            assert(m[j] == slug_map_ascii_char(l[j]));
            assert(l[j] == ascii_lower_char(s[j]));
            assert(is_ascii_char(s[j]));
        }
    }
}

/// On all-ASCII input the folder name is made of lowercase ASCII
/// alphanumerics, underscores and single separating hyphens, with no leading,
/// trailing or doubled hyphen; when the input has no underscore, neither has
/// the result.
pub proof fn lemma_sanitize_project_ascii_chars(s: Seq<char>)
    requires
        is_ascii_seq(s),
    ensures
        collapsed_shape(sanitize_project_ascii(s), '-'),
        forall|k: int|
            0 <= k < sanitize_project_ascii(s).len() ==> #[trigger] sanitize_project_ascii(s)[k]
                == '-' || sanitize_project_ascii(s)[k] == '_' || is_ascii_lower_alnum(
                sanitize_project_ascii(s)[k],
            ),
        !s.contains('_') ==> forall|k: int|
            0 <= k < sanitize_project_ascii(s).len() ==> #[trigger] sanitize_project_ascii(s)[k]
                == '-' || is_ascii_lower_alnum(sanitize_project_ascii(s)[k]),
{
    let m = project_mapped_ascii(s);
    let c0 = collapsed(m, '-');
    lemma_collapsed_shape(m, '-');
    let r = sanitize_project_ascii(s);
    assert(r.len() == c0.len());
    assert forall|k: int| 0 <= k < r.len() implies (#[trigger] r[k] == '-' <==> c0[k] == '-') by {
        assert(r[k] == ascii_lower_char(c0[k]));
    }
    assert(collapsed_shape(r, '-'));
    assert forall|k: int| 0 <= k < r.len() implies #[trigger] r[k] == '-' || r[k] == '_'
        || is_ascii_lower_alnum(r[k]) by {
        assert(r[k] == ascii_lower_char(c0[k]));
        if c0[k] != '-' {
            assert(m.contains(c0[k]));
            let j = choose|j: int| 0 <= j < m.len() && m[j] == c0[k];
            assert(m[j] == project_map_ascii_char(s[j]));
            assert(is_ascii_char(s[j]));
        }
    }
    if !s.contains('_') {
        assert forall|k: int| 0 <= k < r.len() implies #[trigger] r[k] == '-'
            || is_ascii_lower_alnum(r[k]) by {
            assert(r[k] == ascii_lower_char(c0[k]));
            if c0[k] != '-' {
                assert(m.contains(c0[k]));
                let j = choose|j: int| 0 <= j < m.len() && m[j] == c0[k];
                assert(m[j] == project_map_ascii_char(s[j]));
                assert(is_ascii_char(s[j]));
                assert(s[j] != '_');
            }
        }
    }
}

/// For every input, mapping and collapsing a sanitized slug again changes
/// nothing: of a second sanitization pass, only the lowercase step is
/// outside this statement.
pub proof fn lemma_sanitize_slug_fixed_under_collapse(s: Seq<char>)
    ensures
        collapsed(slug_mapped(sanitize_slug_spec(s)), '-') == sanitize_slug_spec(s),
{
    let m = slug_mapped(lower_of(s));
    let r = sanitize_slug_spec(s);
    lemma_collapsed_shape(m, '-');
    assert forall|k: int| 0 <= k < r.len() implies slug_map_char(#[trigger] r[k]) == r[k] by {
        if r[k] != '-' {
            assert(m.contains(r[k]));
            let j = choose|j: int| 0 <= j < m.len() && m[j] == r[k];
            assert(m[j] == slug_map_char(lower_of(s)[j]));
        }
    }
    assert(slug_mapped(r) =~= r);
    lemma_collapsed_shaped_id(r, '-');
}

/// Sanitizing is idempotent: on all-ASCII input, sanitizing a slug again
/// changes nothing.
pub proof fn lemma_sanitize_slug_ascii_idempotent(s: Seq<char>)
    requires
        is_ascii_seq(s),
    ensures
        sanitize_slug_ascii(sanitize_slug_ascii(s)) == sanitize_slug_ascii(s),
{
    let l = ascii_lower_seq(s);
    let m = slug_mapped_ascii(l);
    let r = sanitize_slug_ascii(s);
    lemma_collapsed_shape(m, '-');
    assert forall|k: int| 0 <= k < r.len() implies {
        &&& ascii_lower_char(#[trigger] r[k]) == r[k]
        &&& slug_map_ascii_char(r[k]) == r[k]
    } by {
        if r[k] != '-' {
            assert(m.contains(r[k]));
            let j = choose|j: int| 0 <= j < m.len() && m[j] == r[k];
            assert(m[j] == slug_map_ascii_char(l[j]));
            assert(l[j] == ascii_lower_char(s[j]));
            assert(is_ascii_char(s[j]));
        }
    }
    assert(ascii_lower_seq(r) =~= r);
    assert(slug_mapped_ascii(r) =~= r);
    lemma_collapsed_shaped_id(r, '-');
}

/// Sanitizing is idempotent: on all-ASCII input, sanitizing a folder name
/// again changes nothing.
pub proof fn lemma_sanitize_project_ascii_idempotent(s: Seq<char>)
    requires
        is_ascii_seq(s),
    ensures
        sanitize_project_ascii(sanitize_project_ascii(s)) == sanitize_project_ascii(s),
{
    let r = sanitize_project_ascii(s);
    lemma_sanitize_project_ascii_chars(s);
    assert forall|k: int| 0 <= k < r.len() implies {
        &&& project_map_ascii_char(#[trigger] r[k]) == r[k]
        &&& ascii_lower_char(r[k]) == r[k]
    } by {
        assert(r[k] == '-' || r[k] == '_' || is_ascii_lower_alnum(r[k]));
    }
    assert(project_mapped_ascii(r) =~= r);
    assert(ascii_lower_seq(r) =~= r);
    lemma_collapsed_shaped_id(r, '-');
}

} // verus!
