//! Line-oriented frontmatter codec: find the delimited metadata block at the
//! top of a text file, read a field out of it, rewrite the block's fields,
//! and resolve a display title for a post.
//!
//! The codec is not a YAML parser: it matches line prefixes inside a block
//! bounded by lines that are exactly `---`, degrading to "field not found"
//! on anything it does not recognize.

use crate::chars::char_is_whitespace;
use crate::chars::char_to_uppercase;
use crate::chars::chars_of;
use crate::chars::is_space_char;
use crate::chars::upper_char;
use crate::chars::vec_chars_eq;
use crate::chars::vec_chars_starts_with;
use crate::segments::clone_chars;
use crate::segments::join_chars;
use crate::segments::join_with;
use crate::segments::split_chars;
use crate::segments::split_on;
use crate::segments::vecs_view;
use vstd::prelude::*;

verus! {

// ---------------------------------------------------------------------------
// Lines
// ---------------------------------------------------------------------------
/// One trailing carriage return dropped, as a `\r\n` terminator leaves one.
pub open spec fn strip_cr(l: Seq<char>) -> Seq<char> {
    if l.len() > 0 && l[l.len() - 1] == '\r' {
        l.drop_last()
    } else {
        l
    }
}

/// The lines of a text: split at `\n`, a `\r` before each `\n` dropped, the
/// final line ending optional.
pub open spec fn lines_of(s: Seq<char>) -> Seq<Seq<char>> {
    let raw = split_on(s, '\n');
    let init = raw.drop_last().map_values(|l: Seq<char>| strip_cr(l));
    if raw.last().len() == 0 {
        init
    } else {
        init.push(raw.last())
    }
}

fn strip_cr_exec(l: Vec<char>) -> (r: Vec<char>)
    ensures
        r@ == strip_cr(l@),
{
    let mut l = l;
    if l.len() > 0 && l[l.len() - 1] == '\r' {
        let _ = l.pop();
    }
    l
}

/// The lines of the text, as the frontmatter codec sees them.
pub fn split_lines(v: &Vec<char>) -> (r: Vec<Vec<char>>)
    ensures
        vecs_view(r@) == lines_of(v@),
{
    let raw = split_chars(v, '\n');
    let n = raw.len();
    assert(n >= 1) by {
        crate::segments::lemma_split_len(v@, '\n');
    }
    let mut r: Vec<Vec<char>> = Vec::new();
    let mut i: usize = 0;
    while i < n - 1
        invariant
            n == raw@.len() >= 1,
            vecs_view(raw@) == split_on(v@, '\n'),
            i <= n - 1,
            vecs_view(r@) == vecs_view(raw@).subrange(0, i as int).map_values(
                |l: Seq<char>| strip_cr(l),
            ),
        decreases n - 1 - i,
    {
        let ghost old_r = r@;
        let line = clone_chars(&raw[i]);
        let stripped = strip_cr_exec(line);
        r.push(stripped);
        proof {
            assert(vecs_view(r@) =~~= vecs_view(old_r).push(strip_cr(raw@[i as int]@)));
            assert(vecs_view(raw@).subrange(0, i + 1) =~~= vecs_view(raw@).subrange(
                0,
                i as int,
            ).push(raw@[i as int]@));
            assert(vecs_view(r@) =~~= vecs_view(raw@).subrange(0, i + 1).map_values(
                |l: Seq<char>| strip_cr(l),
            ));
        }
        i = i + 1;
    }
    proof {
        assert(vecs_view(raw@).subrange(0, n - 1) =~~= vecs_view(raw@).drop_last());
    }
    let last = &raw[n - 1];
    if last.len() > 0 {
        let ghost old_r = r@;
        let l = clone_chars(last);
        r.push(l);
        proof {
            assert(vecs_view(r@) =~~= vecs_view(old_r).push(vecs_view(raw@).last()));
            assert(vecs_view(r@) =~~= lines_of(v@));
        }
    } else {
        proof {
            assert(vecs_view(r@) =~~= lines_of(v@));
        }
    }
    r
}

// ---------------------------------------------------------------------------
// Trimming
// ---------------------------------------------------------------------------
pub open spec fn trim_start_spec(s: Seq<char>) -> Seq<char>
    decreases s.len(),
{
    if s.len() > 0 && is_space_char(s[0]) {
        trim_start_spec(s.drop_first())
    } else {
        s
    }
}

pub open spec fn trim_end_spec(s: Seq<char>) -> Seq<char>
    decreases s.len(),
{
    if s.len() > 0 && is_space_char(s[s.len() - 1]) {
        trim_end_spec(s.drop_last())
    } else {
        s
    }
}

/// Whitespace removed from both ends.
pub open spec fn trim_spec(s: Seq<char>) -> Seq<char> {
    trim_end_spec(trim_start_spec(s))
}

pub fn trim_chars(v: &Vec<char>) -> (r: Vec<char>)
    ensures
        r@ == trim_spec(v@),
{
    let n = v.len();
    proof {
        assert(v@.subrange(0, n as int) =~= v@);
    }
    let mut a: usize = 0;
    loop
        invariant
            a <= n == v@.len(),
            trim_start_spec(v@) == trim_start_spec(v@.subrange(a as int, n as int)),
        ensures
            a <= n,
            trim_start_spec(v@) == v@.subrange(a as int, n as int),
        decreases n - a,
    {
        if a < n && char_is_whitespace(v[a]) {
            proof {
                assert(v@.subrange(a as int, n as int).drop_first() =~= v@.subrange(
                    a + 1,
                    n as int,
                ));
            }
            a = a + 1;
        } else {
            proof {
                if a < n {
                    assert(trim_start_spec(v@.subrange(a as int, n as int)) == v@.subrange(
                        a as int,
                        n as int,
                    ));
                } else {
                    assert(v@.subrange(a as int, n as int) =~= Seq::<char>::empty());
                }
            }
            break ;
        }
    }
    let mut b: usize = n;
    loop
        invariant
            a <= b <= n == v@.len(),
            trim_start_spec(v@) == v@.subrange(a as int, n as int),
            trim_end_spec(v@.subrange(a as int, n as int)) == trim_end_spec(
                v@.subrange(a as int, b as int),
            ),
        ensures
            a <= b <= n,
            trim_spec(v@) == v@.subrange(a as int, b as int),
        decreases b - a,
    {
        if b > a && char_is_whitespace(v[b - 1]) {
            proof {
                assert(v@.subrange(a as int, b as int).drop_last() =~= v@.subrange(
                    a as int,
                    b - 1,
                ));
            }
            b = b - 1;
        } else {
            proof {
                if b > a {
                    assert(trim_end_spec(v@.subrange(a as int, b as int)) == v@.subrange(
                        a as int,
                        b as int,
                    ));
                } else {
                    assert(v@.subrange(a as int, b as int) =~= Seq::<char>::empty());
                }
            }
            break ;
        }
    }
    subrange_chars(v, a, b)
}

pub fn subrange_chars(v: &Vec<char>, a: usize, b: usize) -> (r: Vec<char>)
    requires
        a <= b <= v@.len(),
    ensures
        r@ == v@.subrange(a as int, b as int),
{
    let mut r: Vec<char> = Vec::new();
    let mut i: usize = a;
    while i < b
        invariant
            a <= i <= b <= v@.len(),
            r@ == v@.subrange(a as int, i as int),
        decreases b - i,
    {
        r.push(v[i]);
        proof {
            assert(r@ =~= v@.subrange(a as int, i + 1));
        }
        i = i + 1;
    }
    r
}

// ---------------------------------------------------------------------------
// The delimited block
// ---------------------------------------------------------------------------
pub open spec fn delim() -> Seq<char> {
    seq!['-', '-', '-']
}

pub open spec fn is_delim_line(l: Seq<char>) -> bool {
    l == delim()
}

pub open spec fn first_delim_from(lines: Seq<Seq<char>>, i: int) -> Option<int>
    decreases lines.len() - i,
{
    if i < 0 || i >= lines.len() {
        None
    } else if is_delim_line(lines[i]) {
        Some(i)
    } else {
        first_delim_from(lines, i + 1)
    }
}

/// The index of the line closing the frontmatter block: line 0 must be the
/// delimiter, and the first later delimiter line closes the block. `None`
/// when either is missing.
pub open spec fn fm_end(lines: Seq<Seq<char>>) -> Option<int> {
    if lines.len() > 0 && is_delim_line(lines[0]) {
        first_delim_from(lines, 1)
    } else {
        None
    }
}

fn delim_vec() -> (r: Vec<char>)
    ensures
        r@ == delim(),
{
    let mut r: Vec<char> = Vec::new();
    r.push('-');
    r.push('-');
    r.push('-');
    proof {
        assert(r@ =~= delim());
    }
    r
}

pub fn find_fm_end(lines: &Vec<Vec<char>>) -> (r: Option<usize>)
    ensures
        match r {
            Some(e) => fm_end(vecs_view(lines@)) == Some(e as int),
            None => fm_end(vecs_view(lines@)) is None,
        },
{
    let d = delim_vec();
    if lines.len() == 0 || !vec_chars_eq(&lines[0], &d) {
        return None;
    }
    let n = lines.len();
    let mut i: usize = 1;
    while i < n
        invariant
            1 <= i <= n == lines@.len(),
            vecs_view(lines@).len() == n,
            d@ == delim(),
            is_delim_line(vecs_view(lines@)[0]),
            first_delim_from(vecs_view(lines@), 1) == first_delim_from(
                vecs_view(lines@),
                i as int,
            ),
        decreases n - i,
    {
        if vec_chars_eq(&lines[i], &d) {
            return Some(i);
        }
        i = i + 1;
    }
    None
}

// ---------------------------------------------------------------------------
// Fields
// ---------------------------------------------------------------------------
pub open spec fn line_matches_key(l: Seq<char>, key: Seq<char>) -> bool {
    key.is_prefix_of(trim_spec(l))
}

pub open spec fn first_key_line_from(
    lines: Seq<Seq<char>>,
    key: Seq<char>,
    i: int,
    end: int,
) -> Option<int>
    decreases end - i,
{
    if i < 0 || i >= end {
        None
    } else if line_matches_key(lines[i], key) {
        Some(i)
    } else {
        first_key_line_from(lines, key, i + 1, end)
    }
}

/// Surrounding matching quote pair removed, if one is there.
pub open spec fn strip_quotes(v: Seq<char>) -> Seq<char> {
    if v.len() >= 2 && ((v[0] == '"' && v[v.len() - 1] == '"') || (v[0] == '\'' && v[v.len() - 1]
        == '\'')) {
        v.subrange(1, v.len() - 1)
    } else {
        v
    }
}

/// The value of a `key:`-style line: the remainder after the key, trimmed,
/// with a surrounding quote pair removed.
pub open spec fn field_value_of_line(l: Seq<char>, key: Seq<char>) -> Seq<char> {
    strip_quotes(trim_spec(trim_spec(l).skip(key.len() as int)))
}

/// The field's value on the first line strictly inside the block whose
/// trimmed text starts with the key; `None` without a block or a match.
pub open spec fn fm_field(lines: Seq<Seq<char>>, key: Seq<char>) -> Option<Seq<char>> {
    match fm_end(lines) {
        Some(end) => match first_key_line_from(lines, key, 1, end) {
            Some(i) => Some(field_value_of_line(lines[i], key)),
            None => None,
        },
        None => None,
    }
}

fn field_value_exec(l: &Vec<char>, key: &Vec<char>) -> (r: Vec<char>)
    requires
        key@.is_prefix_of(trim_spec(l@)),
    ensures
        r@ == field_value_of_line(l@, key@),
{
    let t = trim_chars(l);
    let rest = subrange_chars(&t, key.len(), t.len());
    proof {
        assert(rest@ =~= trim_spec(l@).skip(key@.len() as int));
    }
    let mut val = trim_chars(&rest);
    if val.len() >= 2 {
        let first = val[0];
        let last = val[val.len() - 1];
        if (first == '"' && last == '"') || (first == '\'' && last == '\'') {
            let inner = subrange_chars(&val, 1, val.len() - 1);
            return inner;
        }
    }
    val
}

pub proof fn lemma_first_delim_bounds(lines: Seq<Seq<char>>, i: int)
    requires
        first_delim_from(lines, i) is Some,
    ensures
        i <= first_delim_from(lines, i)->0 < lines.len(),
        is_delim_line(lines[first_delim_from(lines, i)->0]),
    decreases lines.len() - i,
{
    if i < 0 || i >= lines.len() {
    } else if is_delim_line(lines[i]) {
    } else {
        lemma_first_delim_bounds(lines, i + 1);
    }
}

/// The value of `key` inside the frontmatter block of `lines`, if any.
pub fn find_fm_field(lines: &Vec<Vec<char>>, key: &Vec<char>) -> (r: Option<Vec<char>>)
    ensures
        match r {
            Some(v) => fm_field(vecs_view(lines@), key@) == Some(v@),
            None => fm_field(vecs_view(lines@), key@) is None,
        },
{
    let end = match find_fm_end(lines) {
        Some(e) => e,
        None => {
            return None;
        },
    };
    proof {
        lemma_first_delim_bounds(vecs_view(lines@), 1);
    }
    let mut i: usize = 1;
    while i < end
        invariant
            1 <= i <= end < lines@.len(),
            fm_end(vecs_view(lines@)) == Some(end as int),
            first_key_line_from(vecs_view(lines@), key@, 1, end as int) == first_key_line_from(
                vecs_view(lines@),
                key@,
                i as int,
                end as int,
            ),
        decreases end - i,
    {
        let t = trim_chars(&lines[i]);
        if vec_chars_starts_with(&t, key) {
            let v = field_value_exec(&lines[i], key);
            return Some(v);
        }
        i = i + 1;
    }
    None
}

// ---------------------------------------------------------------------------
// Title resolution
// ---------------------------------------------------------------------------
/// The frontmatter `title:` value of a text, if any.
pub open spec fn fm_title_spec(s: Seq<char>) -> Option<Seq<char>> {
    fm_field(lines_of(s), "title:"@)
}

/// The frontmatter `displayName:` value of a text, if any.
pub open spec fn display_name_spec(s: Seq<char>) -> Option<Seq<char>> {
    fm_field(lines_of(s), "displayName:"@)
}

pub open spec fn heading_prefix() -> Seq<char> {
    seq!['#', ' ']
}

pub open spec fn first_heading_from(lines: Seq<Seq<char>>, i: int) -> Option<int>
    decreases lines.len() - i,
{
    if i < 0 || i >= lines.len() {
        None
    } else if heading_prefix().is_prefix_of(trim_spec(lines[i])) {
        Some(i)
    } else {
        first_heading_from(lines, i + 1)
    }
}

pub open spec fn heading_title_of_line(l: Seq<char>) -> Seq<char> {
    trim_spec(trim_spec(l).skip(2))
}

pub open spec fn humanize_map_char(c: char) -> char {
    if c == '-' || c == '_' || is_space_char(c) {
        ' '
    } else {
        c
    }
}

pub open spec fn capitalize_word(w: Seq<char>) -> Seq<char> {
    if w.len() == 0 {
        w
    } else {
        upper_char(w[0]) + w.drop_first()
    }
}

/// A slug shown as a title: hyphens and underscores become spaces, each
/// word's first character is uppercased, words are joined by single spaces.
pub open spec fn humanized_slug(slug: Seq<char>) -> Seq<char> {
    join_with(
        split_on(slug.map_values(|c: char| humanize_map_char(c)), ' ').filter(
            |w: Seq<char>| w.len() > 0,
        ).map_values(|w: Seq<char>| capitalize_word(w)),
        ' ',
    )
}

/// The title shown for a post: the frontmatter `title:` if there is one,
/// else the first `# ` heading anywhere in the file, else the humanized slug.
pub open spec fn resolve_title(content: Seq<char>, slug: Seq<char>) -> Seq<char> {
    match fm_title_spec(content) {
        Some(t) => t,
        None => match first_heading_from(lines_of(content), 0) {
            Some(i) => heading_title_of_line(lines_of(content)[i]),
            None => humanized_slug(slug),
        },
    }
}

fn capitalize_word_exec(w: &Vec<char>) -> (r: Vec<char>)
    ensures
        r@ == capitalize_word(w@),
{
    if w.len() == 0 {
        let r: Vec<char> = Vec::new();
        assert(r@ =~= capitalize_word(w@));
        return r;
    }
    let mut r = char_to_uppercase(w[0]);
    let n = w.len();
    let mut j: usize = 1;
    while j < n
        invariant
            1 <= j <= n == w@.len(),
            r@ == upper_char(w@[0]) + w@.subrange(1, j as int),
        decreases n - j,
    {
        r.push(w[j]);
        proof {
            assert(r@ =~= upper_char(w@[0]) + w@.subrange(1, j + 1));
        }
        j = j + 1;
    }
    proof {
        assert(w@.subrange(1, n as int) =~= w@.drop_first());
    }
    r
}

fn humanize_slug_exec(slug: &Vec<char>) -> (r: Vec<char>)
    ensures
        r@ == humanized_slug(slug@),
{
    let n = slug.len();
    let mut mapped: Vec<char> = Vec::new();
    let mut i: usize = 0;
    while i < n
        invariant
            i <= n == slug@.len(),
            mapped@ == slug@.subrange(0, i as int).map_values(|c: char| humanize_map_char(c)),
        decreases n - i,
    {
        let c = slug[i];
        let mc = if c == '-' || c == '_' || char_is_whitespace(c) {
            ' '
        } else {
            c
        };
        assert(mc == humanize_map_char(c));
        mapped.push(mc);
        proof {
            assert(mapped@ =~= slug@.subrange(0, i + 1).map_values(
                |c: char| humanize_map_char(c),
            ));
        }
        i = i + 1;
    }
    proof {
        assert(slug@.subrange(0, n as int) =~= slug@);
    }
    let parts = split_chars(&mapped, ' ');
    let kept = crate::segments::filter_nonempty(parts);
    let m = kept.len();
    let mut caps: Vec<Vec<char>> = Vec::new();
    let mut k: usize = 0;
    while k < m
        invariant
            k <= m == kept@.len(),
            vecs_view(caps@) == vecs_view(kept@).subrange(0, k as int).map_values(
                |w: Seq<char>| capitalize_word(w),
            ),
        decreases m - k,
    {
        let ghost old_caps = caps@;
        let c = capitalize_word_exec(&kept[k]);
        caps.push(c);
        proof {
            assert(vecs_view(caps@) =~~= vecs_view(old_caps).push(
                capitalize_word(kept@[k as int]@),
            ));
            assert(vecs_view(kept@).subrange(0, k + 1) =~~= vecs_view(kept@).subrange(
                0,
                k as int,
            ).push(kept@[k as int]@));
            assert(vecs_view(caps@) =~~= vecs_view(kept@).subrange(0, k + 1).map_values(
                |w: Seq<char>| capitalize_word(w),
            ));
        }
        k = k + 1;
    }
    proof {
        assert(vecs_view(kept@).subrange(0, m as int) =~~= vecs_view(kept@));
    }
    join_chars(&caps, ' ')
}

/// The frontmatter `title:` of a post body, if it has one.
pub fn extract_frontmatter_title(content: &str) -> (r: Option<String>)
    ensures
        r is Some <==> fm_title_spec(content@) is Some,
        r is Some ==> r->0@ == fm_title_spec(content@)->0,
{
    let v = chars_of(content);
    let lines = split_lines(&v);
    let key = chars_of("title:");
    match find_fm_field(&lines, &key) {
        Some(val) => Some(crate::chars::string_of(val)),
        None => None,
    }
}

/// The stored display name in a project's generated listing file, if any.
pub fn read_project_display_name(content: &str) -> (r: Option<String>)
    ensures
        r is Some <==> display_name_spec(content@) is Some,
        r is Some ==> r->0@ == display_name_spec(content@)->0,
{
    let v = chars_of(content);
    let lines = split_lines(&v);
    let key = chars_of("displayName:");
    match find_fm_field(&lines, &key) {
        Some(val) => Some(crate::chars::string_of(val)),
        None => None,
    }
}

/// The title of a post: frontmatter first, then the first heading, then the
/// humanized slug.
pub fn extract_title_from_markdown(content: &str, fallback_slug: &str) -> (r: String)
    ensures
        r@ == resolve_title(content@, fallback_slug@),
{
    let v = chars_of(content);
    let lines = split_lines(&v);
    let key = chars_of("title:");
    match find_fm_field(&lines, &key) {
        Some(val) => {
            return crate::chars::string_of(val);
        },
        None => {},
    }
    let mut hp: Vec<char> = Vec::new();
    hp.push('#');
    hp.push(' ');
    proof {
        assert(hp@ =~= heading_prefix());
    }
    let n = lines.len();
    let mut i: usize = 0;
    while i < n
        invariant
            i <= n == lines@.len(),
            hp@ == heading_prefix(),
            vecs_view(lines@) == lines_of(content@),
            fm_title_spec(content@) is None,
            first_heading_from(vecs_view(lines@), 0) == first_heading_from(
                vecs_view(lines@),
                i as int,
            ),
        decreases n - i,
    {
        let t = trim_chars(&lines[i]);
        if vec_chars_starts_with(&t, &hp) {
            proof {
                assert(vecs_view(lines@)[i as int] == lines@[i as int]@);
                assert(heading_prefix().is_prefix_of(trim_spec(vecs_view(lines@)[i as int])));
                assert(first_heading_from(vecs_view(lines@), i as int) == Some(i as int));
            }
            let rest = subrange_chars(&t, 2, t.len());
            proof {
                assert(rest@ =~= trim_spec(lines@[i as int]@).skip(2));
            }
            let val = trim_chars(&rest);
            assert(val@ == heading_title_of_line(vecs_view(lines@)[i as int]));
            return crate::chars::string_of(val);
        }
        i = i + 1;
    }
    let sv = chars_of(fallback_slug);
    let h = humanize_slug_exec(&sv);
    crate::chars::string_of(h)
}

/// Title precedence: an existing frontmatter title always wins; without one
/// the first heading anywhere in the file wins; without either the slug is
/// humanized.
pub proof fn lemma_title_resolution_precedence(content: Seq<char>, slug: Seq<char>)
    ensures
        fm_title_spec(content) matches Some(t) ==> resolve_title(content, slug) == t,
        fm_title_spec(content) is None ==> (first_heading_from(lines_of(content), 0) matches Some(
            i,
        ) ==> resolve_title(content, slug) == heading_title_of_line(lines_of(content)[i])),
        fm_title_spec(content) is None && first_heading_from(lines_of(content), 0) is None
            ==> resolve_title(content, slug) == humanized_slug(slug),
{
}

// ---------------------------------------------------------------------------
// Rewriting the metadata block
// ---------------------------------------------------------------------------
pub open spec fn title_line(name: Seq<char>) -> Seq<char> {
    "title: \""@ + name + "\""@
}

pub open spec fn display_name_line(name: Seq<char>) -> Seq<char> {
    "displayName: \""@ + name + "\""@
}

pub open spec fn const_project_line(name: Seq<char>) -> Seq<char> {
    "const projectName = '"@ + name + "';"@
}

pub open spec fn const_display_line(name: Seq<char>) -> Seq<char> {
    "const displayName = '"@ + name + "';"@
}

pub open spec fn const_folder_line(folder: Seq<char>) -> Seq<char> {
    "const folderName = '"@ + folder + "';"@
}

/// How one line inside the block is rewritten: the first matching rendering
/// wins; unrecognized lines stay as they are.
pub open spec fn rewrite_meta_line(l: Seq<char>, name: Seq<char>, folder: Seq<char>) -> Seq<
    char,
> {
    if line_matches_key(l, "title:"@) {
        title_line(name)
    } else if line_matches_key(l, "displayName:"@) {
        display_name_line(name)
    } else if line_matches_key(l, "const projectName ="@) {
        const_project_line(name)
    } else if line_matches_key(l, "const displayName ="@) {
        const_display_line(name)
    } else if line_matches_key(l, "const folderName ="@) {
        const_folder_line(folder)
    } else {
        l
    }
}

pub open spec fn has_key_in_block(lines: Seq<Seq<char>>, key: Seq<char>, end: int) -> bool {
    exists|i: int| 1 <= i < end && line_matches_key(#[trigger] lines[i], key)
}

/// The lines after the update: every line strictly inside the block is
/// rewritten, and the fields with no line of their own are inserted right
/// after the opening delimiter, title first.
pub open spec fn upsert_meta_lines(
    lines: Seq<Seq<char>>,
    name: Seq<char>,
    folder: Seq<char>,
    end: int,
) -> Seq<Seq<char>> {
    let rewritten = Seq::new(
        lines.len(),
        |i: int|
            if 1 <= i < end {
                rewrite_meta_line(lines[i], name, folder)
            } else {
                lines[i]
            },
    );
    let has_title = has_key_in_block(lines, "title:"@, end);
    let has_display = has_key_in_block(lines, "displayName:"@, end);
    let missing = if has_title && has_display {
        Seq::<Seq<char>>::empty()
    } else if has_display {
        seq![title_line(name)]
    } else if has_title {
        seq![display_name_line(name)]
    } else {
        seq![title_line(name), display_name_line(name)]
    };
    rewritten.subrange(0, 1) + missing + rewritten.skip(1)
}

/// What updating the metadata returns: `None` without a frontmatter block,
/// else the rewritten lines joined by single newlines.
pub open spec fn upsert_metadata_spec(
    content: Seq<char>,
    name: Seq<char>,
    folder: Seq<char>,
) -> Option<Seq<char>> {
    let lines = lines_of(content);
    match fm_end(lines) {
        Some(e) => Some(join_with(upsert_meta_lines(lines, name, folder, e), '\n')),
        None => None,
    }
}

pub(crate) fn build_line(pre: &str, mid: &Vec<char>, post: &str) -> (r: Vec<char>)
    ensures
        r@ == pre@ + mid@ + post@,
{
    let mut r = chars_of(pre);
    let n = mid.len();
    let mut i: usize = 0;
    while i < n
        invariant
            i <= n == mid@.len(),
            r@ == pre@ + mid@.subrange(0, i as int),
        decreases n - i,
    {
        r.push(mid[i]);
        proof {
            assert(r@ =~= pre@ + mid@.subrange(0, i + 1));
        }
        i = i + 1;
    }
    proof {
        assert(r@ =~= pre@ + mid@);
    }
    let tail = chars_of(post);
    let m = tail.len();
    let mut j: usize = 0;
    while j < m
        invariant
            j <= m == tail@.len(),
            tail@ == post@,
            r@ == pre@ + mid@ + post@.subrange(0, j as int),
        decreases m - j,
    {
        r.push(tail[j]);
        proof {
            assert(r@ =~= pre@ + mid@ + post@.subrange(0, j + 1));
        }
        j = j + 1;
    }
    proof {
        assert(r@ =~= pre@ + mid@ + post@);
    }
    r
}

/// Rewrites the metadata block of a generated listing file to a new display
/// name and folder name. `None` when the text has no frontmatter block.
pub fn upsert_metadata(content: &str, new_display_name: &str, new_folder_name: &str) -> (r:
    Option<String>)
    ensures
        r is Some <==> upsert_metadata_spec(content@, new_display_name@, new_folder_name@)
            is Some,
        r is Some ==> r->0@ == upsert_metadata_spec(
            content@,
            new_display_name@,
            new_folder_name@,
        )->0,
{
    let v = chars_of(content);
    let lines = split_lines(&v);
    let end = match find_fm_end(&lines) {
        Some(e) => e,
        None => {
            return None;
        },
    };
    proof {
        lemma_first_delim_bounds(vecs_view(lines@), 1);
    }
    let ghost gl = vecs_view(lines@);
    let name = chars_of(new_display_name);
    let folder = chars_of(new_folder_name);
    let k_title = chars_of("title:");
    let k_display = chars_of("displayName:");
    let k_cproject = chars_of("const projectName =");
    let k_cdisplay = chars_of("const displayName =");
    let k_cfolder = chars_of("const folderName =");
    let n = lines.len();
    let ghost rewritten = Seq::new(
        gl.len(),
        |i: int|
            if 1 <= i < end {
                rewrite_meta_line(gl[i], name@, folder@)
            } else {
                gl[i]
            },
    );
    let mut mid: Vec<Vec<char>> = Vec::new();
    let mut found_title: bool = false;
    let mut found_display: bool = false;
    let mut i: usize = 1;
    while i < end
        invariant
            1 <= i <= end < n == lines@.len(),
            gl == vecs_view(lines@),
            name@ == new_display_name@,
            folder@ == new_folder_name@,
            k_title@ == "title:"@,
            k_display@ == "displayName:"@,
            k_cproject@ == "const projectName ="@,
            k_cdisplay@ == "const displayName ="@,
            k_cfolder@ == "const folderName ="@,
            rewritten == Seq::new(
                gl.len(),
                |j: int|
                    if 1 <= j < end {
                        rewrite_meta_line(gl[j], name@, folder@)
                    } else {
                        gl[j]
                    },
            ),
            vecs_view(mid@) == rewritten.subrange(1, i as int),
            found_title == has_key_in_block(gl, "title:"@, i as int),
            found_display == has_key_in_block(gl, "displayName:"@, i as int),
        decreases end - i,
    {
        let ghost old_mid = mid@;
        let t = trim_chars(&lines[i]);
        let line_out: Vec<char>;
        if vec_chars_starts_with(&t, &k_title) {
            line_out = build_line("title: \"", &name, "\"");
            found_title = true;
        } else if vec_chars_starts_with(&t, &k_display) {
            line_out = build_line("displayName: \"", &name, "\"");
            found_display = true;
        } else if vec_chars_starts_with(&t, &k_cproject) {
            line_out = build_line("const projectName = '", &name, "';");
        } else if vec_chars_starts_with(&t, &k_cdisplay) {
            line_out = build_line("const displayName = '", &name, "';");
        } else if vec_chars_starts_with(&t, &k_cfolder) {
            line_out = build_line("const folderName = '", &folder, "';");
        } else {
            line_out = clone_chars(&lines[i]);
        }
        assert(line_out@ == rewrite_meta_line(gl[i as int], name@, folder@));
        mid.push(line_out);
        proof {
            reveal_strlit("title:");
            reveal_strlit("displayName:");
            assert(vecs_view(mid@) =~~= vecs_view(old_mid).push(rewritten[i as int]));
            assert(vecs_view(mid@) =~~= rewritten.subrange(1, i + 1));
            if line_matches_key(gl[i as int], "title:"@) && line_matches_key(
                gl[i as int],
                "displayName:"@,
            ) {
                assert(("title:"@).len() == 6);
                assert(("displayName:"@).len() == 12);
                assert(trim_spec(gl[i as int])[0] == ("title:"@)[0]);
                assert(trim_spec(gl[i as int])[0] == ("displayName:"@)[0]);
                assert(("title:"@)[0] == 't');
                assert(("displayName:"@)[0] == 'd');
                assert(false);
            }
            assert forall|j: int| 1 <= j < i + 1 && line_matches_key(
                #[trigger] gl[j],
                "title:"@,
            ) implies has_key_in_block(gl, "title:"@, i + 1) by {}
            if !has_key_in_block(gl, "title:"@, i as int) && !line_matches_key(
                gl[i as int],
                "title:"@,
            ) {
                assert(!has_key_in_block(gl, "title:"@, i + 1));
            }
            if !has_key_in_block(gl, "displayName:"@, i as int) && !line_matches_key(
                gl[i as int],
                "displayName:"@,
            ) {
                assert(!has_key_in_block(gl, "displayName:"@, i + 1));
            }
        }
        i = i + 1;
    }
    let mut out: Vec<Vec<char>> = Vec::new();
    out.push(clone_chars(&lines[0]));
    if !found_title {
        out.push(build_line("title: \"", &name, "\""));
    }
    if !found_display {
        out.push(build_line("displayName: \"", &name, "\""));
    }
    let ghost head = vecs_view(out@);
    proof {
        let has_title = has_key_in_block(gl, "title:"@, end as int);
        let has_display = has_key_in_block(gl, "displayName:"@, end as int);
        let missing = if has_title && has_display {
            Seq::<Seq<char>>::empty()
        } else if has_display {
            seq![title_line(name@)]
        } else if has_title {
            seq![display_name_line(name@)]
        } else {
            seq![title_line(name@), display_name_line(name@)]
        };
        assert(rewritten.subrange(0, 1) =~~= seq![gl[0]]);
        assert(head =~~= rewritten.subrange(0, 1) + missing);
    }
    let m = mid.len();
    let mut p: usize = 0;
    while p < m
        invariant
            p <= m == mid@.len(),
            vecs_view(out@) == head + vecs_view(mid@).subrange(0, p as int),
        decreases m - p,
    {
        let ghost old_out = out@;
        out.push(clone_chars(&mid[p]));
        proof {
            assert(vecs_view(out@) =~~= vecs_view(old_out).push(mid@[p as int]@));
            assert(vecs_view(out@) =~~= head + vecs_view(mid@).subrange(0, p + 1));
        }
        p = p + 1;
    }
    proof {
        assert(vecs_view(mid@).subrange(0, m as int) =~~= vecs_view(mid@));
    }
    let mut q: usize = end;
    while q < n
        invariant
            end <= q <= n == lines@.len(),
            gl == vecs_view(lines@),
            1 <= end < n,
            vecs_view(out@) == head + rewritten.subrange(1, end as int) + gl.subrange(
                end as int,
                q as int,
            ),
        decreases n - q,
    {
        let ghost old_out = out@;
        out.push(clone_chars(&lines[q]));
        proof {
            assert(vecs_view(out@) =~~= vecs_view(old_out).push(gl[q as int]));
            assert(vecs_view(out@) =~~= head + rewritten.subrange(1, end as int) + gl.subrange(
                end as int,
                q + 1,
            ));
        }
        q = q + 1;
    }
    proof {
        assert(rewritten.skip(1) =~~= rewritten.subrange(1, end as int) + gl.subrange(
            end as int,
            n as int,
        ));
        assert(vecs_view(out@) =~~= upsert_meta_lines(gl, name@, folder@, end as int));
    }
    let joined = join_chars(&out, '\n');
    Some(crate::chars::string_of(joined))
}

// ---------------------------------------------------------------------------
// Substring replacement
// ---------------------------------------------------------------------------
/// Every non-overlapping occurrence of `pat`, leftmost first, replaced by
/// `repl`. With an empty pattern nothing changes.
pub open spec fn replace_all(s: Seq<char>, pat: Seq<char>, repl: Seq<char>) -> Seq<char>
    decreases s.len(),
{
    if pat.len() == 0 || s.len() < pat.len() {
        s
    } else if pat.is_prefix_of(s) {
        repl + replace_all(s.skip(pat.len() as int), pat, repl)
    } else {
        seq![s[0]] + replace_all(s.drop_first(), pat, repl)
    }
}

fn matches_at(v: &Vec<char>, pat: &Vec<char>, i: usize) -> (r: bool)
    requires
        i + pat@.len() <= v@.len(),
    ensures
        r == pat@.is_prefix_of(v@.skip(i as int)),
{
    let n = pat.len();
    let vn = v.len();
    let mut j: usize = 0;
    while j < n
        invariant
            j <= n == pat@.len(),
            vn == v@.len(),
            i + n <= vn,
            forall|k: int| 0 <= k < j ==> v@[i + k] == pat@[k],
        decreases n - j,
    {
        if v[i + j] != pat[j] {
            assert(v@.skip(i as int)[j as int] != pat@[j as int]);
            return false;
        }
        j = j + 1;
    }
    assert(pat@ =~= v@.skip(i as int).subrange(0, n as int));
    true
}

/// Every occurrence of `pat` in `v` replaced by `repl`.
pub fn replace_all_chars(v: &Vec<char>, pat: &Vec<char>, repl: &Vec<char>) -> (r: Vec<char>)
    requires
        pat@.len() > 0,
    ensures
        r@ == replace_all(v@, pat@, repl@),
{
    let n = v.len();
    let mut r: Vec<char> = Vec::new();
    proof {
        assert(v@.skip(0) =~= v@);
        assert(Seq::<char>::empty() + replace_all(v@, pat@, repl@) =~= replace_all(
            v@,
            pat@,
            repl@,
        ));
    }
    let mut i: usize = 0;
    while i < n
        invariant
            i <= n == v@.len(),
            pat@.len() > 0,
            replace_all(v@, pat@, repl@) == r@ + replace_all(v@.skip(i as int), pat@, repl@),
        decreases n - i,
    {
        if n - i >= pat.len() && matches_at(v, pat, i) {
            let m = repl.len();
            let ghost base = r@;
            let mut j: usize = 0;
            while j < m
                invariant
                    j <= m == repl@.len(),
                    r@ == base + repl@.subrange(0, j as int),
                decreases m - j,
            {
                r.push(repl[j]);
                proof {
                    assert(r@ =~= base + repl@.subrange(0, j + 1));
                }
                j = j + 1;
            }
            proof {
                assert(r@ =~= base + repl@);
                assert(v@.skip(i as int).skip(pat@.len() as int) =~= v@.skip(
                    i + pat@.len(),
                ));
            }
            i = i + pat.len();
        } else {
            proof {
                assert(v@.skip(i as int).drop_first() =~= v@.skip(i + 1));
                if v@.skip(i as int).len() < pat@.len() {
                    assert(replace_all(v@.skip(i as int), pat@, repl@) == v@.skip(i as int));
                    assert(replace_all(v@.skip(i + 1), pat@, repl@) == v@.skip(i + 1));
                    assert(v@.skip(i as int) =~= seq![v@[i as int]] + v@.skip(i + 1));
                }
            }
            r.push(v[i]);
            i = i + 1;
        }
    }
    proof {
        assert(v@.skip(n as int) =~= Seq::<char>::empty());
        assert(replace_all(Seq::<char>::empty(), pat@, repl@) == Seq::<char>::empty());
        assert(r@ =~= r@ + Seq::<char>::empty());
    }
    r
}

} // verus!
