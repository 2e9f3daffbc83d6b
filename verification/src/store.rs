//! The content store's decisions and computations, over plain values: the
//! surrounding shell enumerates directories, reads and writes files, and
//! hands the results in; every rule about names, collisions, ordering and
//! generated content lives here.

use crate::chars::chars_of;
use crate::frontmatter::display_name_spec;
use crate::sanitize::sanitize_slug_spec;
use crate::frontmatter::read_project_display_name;
use vstd::prelude::*;
use vstd::string::StrSliceExecFns;
use vstd::string::StringExecFns;

verus! {

broadcast use vstd::seq_lib::group_to_multiset_ensures;

/// One section of the authored site, backed by one directory.
#[derive(Debug)]
pub struct Project {
    /// The display name the user sees.
    pub name: String,
    /// The sanitized directory name.
    pub folder_name: String,
    /// `<pages-root>/<folder_name>`, derived.
    pub path: String,
}

/// One Markdown document with a frontmatter header.
#[derive(Debug)]
pub struct Post {
    pub filename: String,
    pub title: String,
    pub slug: String,
    pub content: String,
}

/// Why an operation was refused.
#[derive(Debug)]
pub enum StoreError {
    /// A name sanitized to the empty identifier.
    EmptyName,
    /// A directory for this folder name already exists.
    ProjectExists { folder_name: String },
    /// The project directory does not exist.
    ProjectNotFound { folder_name: String },
    /// The post file does not exist.
    PostNotFound { slug: String },
    /// A metadata update needed a frontmatter block and found none.
    NoFrontmatter,
    /// The storage failed; raised by the shell, never by the store itself.
    Io { message: String },
}

impl StoreError {
    pub open spec fn message_spec(&self) -> Seq<char> {
        match self {
            StoreError::EmptyName => "Project name cannot be empty after sanitization"@,
            StoreError::ProjectExists { folder_name } => "Project '"@ + folder_name@
                + "' already exists"@,
            StoreError::ProjectNotFound { folder_name } => "Project '"@ + folder_name@
                + "' does not exist"@,
            StoreError::PostNotFound { slug } => "Post '"@ + slug@ + "' does not exist"@,
            StoreError::NoFrontmatter => "No frontmatter found in index.astro"@,
            StoreError::Io { message } => message@,
        }
    }

    /// The error as the shell reports it.
    pub fn message(&self) -> (r: String)
        ensures
            r@ == self.message_spec(),
    {
        match self {
            StoreError::EmptyName => String::from_str(
                "Project name cannot be empty after sanitization",
            ),
            StoreError::ProjectExists { folder_name } => {
                let mut s = String::from_str("Project '");
                s.append(folder_name.as_str());
                s.append("' already exists");
                s
            },
            StoreError::ProjectNotFound { folder_name } => {
                let mut s = String::from_str("Project '");
                s.append(folder_name.as_str());
                s.append("' does not exist");
                s
            },
            StoreError::PostNotFound { slug } => {
                let mut s = String::from_str("Post '");
                s.append(slug.as_str());
                s.append("' does not exist");
                s
            },
            StoreError::NoFrontmatter => String::from_str("No frontmatter found in index.astro"),
            StoreError::Io { message } => message.clone(),
        }
    }
}

// ---------------------------------------------------------------------------
// Ordering by name
// ---------------------------------------------------------------------------
/// Lexicographic order on character sequences, by code point; on UTF-8 this
/// is the byte order the original listings sort in.
pub open spec fn seq_le(a: Seq<char>, b: Seq<char>) -> bool
    decreases a.len(),
{
    if a.len() == 0 {
        true
    } else if b.len() == 0 {
        false
    } else if a[0] != b[0] {
        a[0] < b[0]
    } else {
        seq_le(a.drop_first(), b.drop_first())
    }
}

pub proof fn lemma_seq_le_refl(a: Seq<char>)
    ensures
        seq_le(a, a),
    decreases a.len(),
{
    if a.len() > 0 {
        lemma_seq_le_refl(a.drop_first());
    }
}

pub proof fn lemma_seq_le_total(a: Seq<char>, b: Seq<char>)
    ensures
        seq_le(a, b) || seq_le(b, a),
    decreases a.len(),
{
    if a.len() == 0 {
    } else if b.len() == 0 {
    } else if a[0] != b[0] {
    } else {
        lemma_seq_le_total(a.drop_first(), b.drop_first());
    }
}

pub proof fn lemma_seq_le_trans(a: Seq<char>, b: Seq<char>, c: Seq<char>)
    requires
        seq_le(a, b),
        seq_le(b, c),
    ensures
        seq_le(a, c),
    decreases a.len(),
{
    if a.len() == 0 {
    } else {
        if a[0] == b[0] && b[0] == c[0] {
            lemma_seq_le_trans(a.drop_first(), b.drop_first(), c.drop_first());
        }
    }
}

fn string_le(a: &String, b: &String) -> (r: bool)
    ensures
        r == seq_le(a@, b@),
{
    let av = chars_of(a.as_str());
    let bv = chars_of(b.as_str());
    let an = av.len();
    let bn = bv.len();
    proof {
        assert(av@.skip(0) =~= av@);
        assert(bv@.skip(0) =~= bv@);
    }
    let mut i: usize = 0;
    loop
        invariant
            i <= an == av@.len(),
            i <= bn == bv@.len(),
            av@ == a@,
            bv@ == b@,
            seq_le(a@, b@) == seq_le(av@.skip(i as int), bv@.skip(i as int)),
        decreases an - i,
    {
        if i == an {
            assert(av@.skip(i as int) =~= Seq::<char>::empty());
            return true;
        }
        if i == bn {
            assert(bv@.skip(i as int) =~= Seq::<char>::empty());
            assert(av@.skip(i as int).len() > 0);
            return false;
        }
        let ca = av[i];
        let cb = bv[i];
        if ca != cb {
            assert(av@.skip(i as int)[0] == ca && bv@.skip(i as int)[0] == cb);
            return ca < cb;
        }
        proof {
            assert(av@.skip(i as int).drop_first() =~= av@.skip(i + 1));
            assert(bv@.skip(i as int).drop_first() =~= bv@.skip(i + 1));
        }
        i = i + 1;
    }
}

// ---------------------------------------------------------------------------
// Listing projects
// ---------------------------------------------------------------------------
/// The character sequences of a list of strings.
pub open spec fn string_views(v: Seq<String>) -> Seq<Seq<char>> {
    v.map_values(|s: String| s@)
}

pub open spec fn opt_view(o: Option<String>) -> Option<Seq<char>> {
    match o {
        Some(s) => Some(s@),
        None => None,
    }
}

/// The display name a listing shows: the stored `displayName` of the
/// project's listing file, or the raw folder name when the file is missing
/// or holds no such field.
pub open spec fn display_of(folder: Seq<char>, index: Option<Seq<char>>) -> Seq<char> {
    match index {
        Some(c) => match display_name_spec(c) {
            Some(d) => d,
            None => folder,
        },
        None => folder,
    }
}

/// The derived path of a project directory.
pub open spec fn path_of(root: Seq<char>, folder: Seq<char>) -> Seq<char> {
    root + "/"@ + folder
}

pub open spec fn project_view(p: Project) -> (Seq<char>, Seq<char>, Seq<char>) {
    (p.name@, p.folder_name@, p.path@)
}

pub open spec fn views_of(s: Seq<Project>) -> Seq<(Seq<char>, Seq<char>, Seq<char>)> {
    s.map_values(|p: Project| project_view(p))
}

/// What one directory entry becomes: `(display name, folder name, path)`.
pub open spec fn entry_project_view(root: Seq<char>, e: (String, Option<String>)) -> (
    Seq<char>,
    Seq<char>,
    Seq<char>,
) {
    (display_of(e.0@, opt_view(e.1)), e.0@, path_of(root, e.0@))
}

pub open spec fn entry_views_of(root: Seq<char>, s: Seq<(String, Option<String>)>) -> Seq<
    (Seq<char>, Seq<char>, Seq<char>),
> {
    s.map_values(|e: (String, Option<String>)| entry_project_view(root, e))
}

pub open spec fn sorted_by_name(s: Seq<Project>) -> bool {
    forall|i: int, j: int| 0 <= i < j < s.len() ==> seq_le(s[i].name@, s[j].name@)
}

fn sort_projects(v: Vec<Project>) -> (r: Vec<Project>)
    ensures
        r@.len() == v@.len(),
        sorted_by_name(r@),
        views_of(r@).to_multiset() == views_of(v@).to_multiset(),
{
    let mut rem = v;
    let mut out: Vec<Project> = Vec::new();
    proof {
        assert(views_of(out@) =~~= Seq::<(Seq<char>, Seq<char>, Seq<char>)>::empty());
        assert(views_of(out@).to_multiset().add(views_of(rem@).to_multiset()) =~= views_of(
            rem@,
        ).to_multiset());
    }
    let ghost orig = rem@;
    while rem.len() > 0
        invariant
            sorted_by_name(out@),
            views_of(out@).to_multiset().add(views_of(rem@).to_multiset()) == views_of(
                orig,
            ).to_multiset(),
            out@.len() + rem@.len() == orig.len(),
            forall|i: int, j: int|
                0 <= i < out@.len() && 0 <= j < rem@.len() ==> seq_le(
                    #[trigger] out@[i].name@,
                    #[trigger] rem@[j].name@,
                ),
        decreases rem@.len(),
    {
        let n = rem.len();
        proof {
            lemma_seq_le_refl(rem@[0].name@);
        }
        let mut min: usize = 0;
        let mut t: usize = 1;
        while t < n
            invariant
                n == rem@.len(),
                min < t <= n,
                forall|j: int| 0 <= j < t ==> seq_le(rem@[min as int].name@, #[trigger] rem@[j].name@),
            decreases n - t,
        {
            let lt = string_le(&rem[t].name, &rem[min].name) && !string_le(
                &rem[min].name,
                &rem[t].name,
            );
            proof {
                lemma_seq_le_total(rem@[t as int].name@, rem@[min as int].name@);
                if lt {
                    assert forall|j: int| 0 <= j < t + 1 implies seq_le(
                        rem@[t as int].name@,
                        #[trigger] rem@[j].name@,
                    ) by {
                        if j < t {
                            lemma_seq_le_trans(
                                rem@[t as int].name@,
                                rem@[min as int].name@,
                                rem@[j].name@,
                            );
                        } else {
                            lemma_seq_le_refl(rem@[t as int].name@);
                        }
                    }
                }
            }
            if lt {
                min = t;
            }
            t = t + 1;
        }
        let ghost old_rem = rem@;
        let ghost old_out = out@;
        let p = rem.remove(min);
        out.push(p);
        proof {
            assert(views_of(out@) =~~= views_of(old_out).push(project_view(p)));
            assert(views_of(rem@) =~~= views_of(old_rem).remove(min as int));
            assert(views_of(old_rem)[min as int] == project_view(p));
            assert(views_of(old_rem).contains(project_view(p)));
            assert(views_of(old_rem).to_multiset().count(project_view(p)) > 0);
            assert(views_of(out@).to_multiset().add(views_of(rem@).to_multiset()) =~= views_of(
                old_out,
            ).to_multiset().add(views_of(old_rem).to_multiset()));
            assert forall|i: int, j: int|
                0 <= i < out@.len() && 0 <= j < rem@.len() implies seq_le(
                #[trigger] out@[i].name@,
                #[trigger] rem@[j].name@,
            ) by {
                let pre = if j < min { old_rem[j] } else { old_rem[j + 1] };
                assert(rem@[j] == pre);
                if i < out@.len() - 1 {
                    assert(out@[i] == old_out[i]);
                } else {
                    assert(out@[i] == p);
                }
            }
            assert(sorted_by_name(out@));
        }
    }
    proof {
        assert(views_of(rem@) =~~= Seq::<(Seq<char>, Seq<char>, Seq<char>)>::empty());
        assert(views_of(out@).to_multiset() =~= views_of(out@).to_multiset().add(
            views_of(rem@).to_multiset(),
        ));
    }
    out
}

/// Builds the sorted project listing from the folder names found under the
/// pages root, paired with each folder's listing-file content where one
/// could be read. An empty or missing root gives the empty listing.
pub fn list_projects(pages_root: &str, entries: Vec<(String, Option<String>)>) -> (r: Vec<
    Project,
>)
    ensures
        r@.len() == entries@.len(),
        sorted_by_name(r@),
        views_of(r@).to_multiset() == entry_views_of(pages_root@, entries@).to_multiset(),
{
    let mut plain: Vec<Project> = Vec::new();
    let n = entries.len();
    let mut i: usize = 0;
    while i < n
        invariant
            i <= n == entries@.len(),
            views_of(plain@) == entry_views_of(pages_root@, entries@.subrange(0, i as int)),
        decreases n - i,
    {
        let ghost old_plain = plain@;
        let (folder, index) = &entries[i];
        let name: String = match index {
            Some(content) => {
                match read_project_display_name(content.as_str()) {
                    Some(d) => d,
                    None => folder.clone(),
                }
            },
            None => folder.clone(),
        };
        let mut path = String::from_str(pages_root);
        path.append("/");
        path.append(folder.as_str());
        let p = Project { name, folder_name: folder.clone(), path };
        assert(project_view(p) == entry_project_view(pages_root@, entries@[i as int]));
        plain.push(p);
        proof {
            assert(views_of(plain@) =~~= views_of(old_plain).push(project_view(p)));
            assert(views_of(plain@) =~~= entry_views_of(
                pages_root@,
                entries@.subrange(0, i + 1),
            ));
        }
        i = i + 1;
    }
    proof {
        assert(entries@.subrange(0, n as int) =~= entries@);
    }
    let r = sort_projects(plain);
    r
}

// ---------------------------------------------------------------------------
// Post filenames and slugs
// ---------------------------------------------------------------------------
/// The filename of a post with this slug.
pub open spec fn md_name(slug: Seq<char>) -> Seq<char> {
    slug + ".md"@
}

/// Whether a directory entry is a post file: a `.md` extension on a
/// nonempty stem, as the scans of the original layout see it.
pub open spec fn is_md_filename(s: Seq<char>) -> bool {
    s.len() > 3 && s.subrange(s.len() - 3, s.len() as int) == ".md"@
}

/// The slug of a post filename: the `.md` suffix stripped when present.
pub open spec fn slug_of_filename(s: Seq<char>) -> Seq<char> {
    if s.len() >= 3 && s.subrange(s.len() - 3, s.len() as int) == ".md"@ {
        s.subrange(0, s.len() - 3)
    } else {
        s
    }
}

fn filename_is_md(v: &Vec<char>) -> (r: bool)
    ensures
        r == is_md_filename(v@),
{
    proof {
        reveal_strlit(".md");
    }
    let n = v.len();
    if n <= 3 {
        return false;
    }
    let r = v[n - 3] == '.' && v[n - 2] == 'm' && v[n - 1] == 'd';
    proof {
        if r {
            assert(v@.subrange(n - 3, n as int) =~= ".md"@);
        } else {
            if v@.subrange(n - 3, n as int) == ".md"@ {
                assert(v@[n - 3] == ".md"@[0] && v@[n - 2] == ".md"@[1] && v@[n - 1]
                    == ".md"@[2]);
            }
        }
    }
    r
}

/// The `.md` entries of a directory listing, in the order given.
pub fn md_filenames(names: Vec<String>) -> (r: Vec<String>)
    ensures
        string_views(r@) == string_views(names@).filter(|n: Seq<char>| is_md_filename(n)),
{
    proof {
        reveal(Seq::filter);
    }
    let mut r: Vec<String> = Vec::new();
    let n = names.len();
    let mut i: usize = 0;
    while i < n
        invariant
            i <= n == names@.len(),
            string_views(r@) == string_views(names@.subrange(0, i as int)).filter(
                |m: Seq<char>| is_md_filename(m),
            ),
        decreases n - i,
    {
        proof {
            reveal(Seq::filter);
            assert(names@.subrange(0, i + 1) =~= names@.subrange(0, i as int).push(
                names@[i as int],
            ));
            assert(string_views(names@.subrange(0, i + 1)) =~= string_views(
                names@.subrange(0, i as int),
            ).push(names@[i as int]@));
            assert(string_views(names@.subrange(0, i + 1)).drop_last() =~= string_views(
                names@.subrange(0, i as int),
            ));
        }
        let ghost old_r = r@;
        let nv = chars_of(names[i].as_str());
        if filename_is_md(&nv) {
            r.push(names[i].clone());
            proof {
                assert(string_views(r@) =~= string_views(old_r).push(names@[i as int]@));
            }
        }
        i = i + 1;
    }
    proof {
        assert(names@.subrange(0, n as int) =~= names@);
    }
    r
}

fn strip_md_suffix(v: &Vec<char>) -> (r: Vec<char>)
    ensures
        r@ == slug_of_filename(v@),
{
    proof {
        reveal_strlit(".md");
    }
    let n = v.len();
    if n >= 3 && v[n - 3] == '.' && v[n - 2] == 'm' && v[n - 1] == 'd' {
        proof {
            assert(v@.subrange(n - 3, n as int) =~= ".md"@);
        }
        crate::frontmatter::subrange_chars(v, 0, n - 3)
    } else {
        proof {
            if n >= 3 && v@.subrange(n - 3, n as int) == ".md"@ {
                assert(v@[n - 3] == ".md"@[0] && v@[n - 2] == ".md"@[1] && v@[n - 1]
                    == ".md"@[2]);
            }
        }
        crate::segments::clone_chars(v)
    }
}

// ---------------------------------------------------------------------------
// Listing posts
// ---------------------------------------------------------------------------
pub open spec fn post_view(p: Post) -> (Seq<char>, Seq<char>, Seq<char>, Seq<char>) {
    (p.filename@, p.title@, p.slug@, p.content@)
}

pub open spec fn post_views_of(s: Seq<Post>) -> Seq<(Seq<char>, Seq<char>, Seq<char>, Seq<char>)> {
    s.map_values(|p: Post| post_view(p))
}

/// What one `(filename, content)` pair becomes in a listing: the title is
/// resolved from the content, and the content itself is left out.
pub open spec fn file_post_view(e: (String, String)) -> (Seq<char>, Seq<char>, Seq<char>, Seq<
    char,
>) {
    (
        e.0@,
        crate::frontmatter::resolve_title(e.1@, slug_of_filename(e.0@)),
        slug_of_filename(e.0@),
        Seq::<char>::empty(),
    )
}

pub open spec fn file_post_views_of(s: Seq<(String, String)>) -> Seq<
    (Seq<char>, Seq<char>, Seq<char>, Seq<char>),
> {
    s.map_values(|e: (String, String)| file_post_view(e))
}

pub open spec fn posts_sorted_by_filename(s: Seq<Post>) -> bool {
    forall|i: int, j: int| 0 <= i < j < s.len() ==> seq_le(s[i].filename@, s[j].filename@)
}

fn sort_posts(v: Vec<Post>) -> (r: Vec<Post>)
    ensures
        r@.len() == v@.len(),
        posts_sorted_by_filename(r@),
        post_views_of(r@).to_multiset() == post_views_of(v@).to_multiset(),
{
    let mut rem = v;
    let mut out: Vec<Post> = Vec::new();
    proof {
        assert(post_views_of(out@) =~~= Seq::<(Seq<char>, Seq<char>, Seq<char>, Seq<
            char,
        >)>::empty());
        assert(post_views_of(out@).to_multiset().add(post_views_of(rem@).to_multiset())
            =~= post_views_of(rem@).to_multiset());
    }
    let ghost orig = rem@;
    while rem.len() > 0
        invariant
            posts_sorted_by_filename(out@),
            post_views_of(out@).to_multiset().add(post_views_of(rem@).to_multiset())
                == post_views_of(orig).to_multiset(),
            out@.len() + rem@.len() == orig.len(),
            forall|i: int, j: int|
                0 <= i < out@.len() && 0 <= j < rem@.len() ==> seq_le(
                    #[trigger] out@[i].filename@,
                    #[trigger] rem@[j].filename@,
                ),
        decreases rem@.len(),
    {
        let n = rem.len();
        proof {
            lemma_seq_le_refl(rem@[0].filename@);
        }
        let mut min: usize = 0;
        let mut t: usize = 1;
        while t < n
            invariant
                n == rem@.len(),
                min < t <= n,
                forall|j: int|
                    0 <= j < t ==> seq_le(rem@[min as int].filename@, #[trigger] rem@[j].filename@),
            decreases n - t,
        {
            let lt = string_le(&rem[t].filename, &rem[min].filename) && !string_le(
                &rem[min].filename,
                &rem[t].filename,
            );
            proof {
                lemma_seq_le_total(rem@[t as int].filename@, rem@[min as int].filename@);
                if lt {
                    assert forall|j: int| 0 <= j < t + 1 implies seq_le(
                        rem@[t as int].filename@,
                        #[trigger] rem@[j].filename@,
                    ) by {
                        if j < t {
                            lemma_seq_le_trans(
                                rem@[t as int].filename@,
                                rem@[min as int].filename@,
                                rem@[j].filename@,
                            );
                        } else {
                            lemma_seq_le_refl(rem@[t as int].filename@);
                        }
                    }
                }
            }
            if lt {
                min = t;
            }
            t = t + 1;
        }
        let ghost old_rem = rem@;
        let ghost old_out = out@;
        let p = rem.remove(min);
        out.push(p);
        proof {
            assert(post_views_of(out@) =~~= post_views_of(old_out).push(post_view(p)));
            assert(post_views_of(rem@) =~~= post_views_of(old_rem).remove(min as int));
            assert(post_views_of(old_rem)[min as int] == post_view(p));
            assert(post_views_of(old_rem).contains(post_view(p)));
            assert(post_views_of(old_rem).to_multiset().count(post_view(p)) > 0);
            assert(post_views_of(out@).to_multiset().add(post_views_of(rem@).to_multiset())
                =~= post_views_of(old_out).to_multiset().add(post_views_of(old_rem).to_multiset()));
            assert forall|i: int, j: int|
                0 <= i < out@.len() && 0 <= j < rem@.len() implies seq_le(
                #[trigger] out@[i].filename@,
                #[trigger] rem@[j].filename@,
            ) by {
                let pre = if j < min {
                    old_rem[j]
                } else {
                    old_rem[j + 1]
                };
                assert(rem@[j] == pre);
                if i < out@.len() - 1 {
                    assert(out@[i] == old_out[i]);
                } else {
                    assert(out@[i] == p);
                }
            }
            assert(posts_sorted_by_filename(out@));
        }
    }
    proof {
        assert(post_views_of(rem@) =~~= Seq::<(Seq<char>, Seq<char>, Seq<char>, Seq<
            char,
        >)>::empty());
        assert(post_views_of(out@).to_multiset() =~= post_views_of(out@).to_multiset().add(
            post_views_of(rem@).to_multiset(),
        ));
    }
    out
}

/// Builds the post listing of a project from the `.md` files found in it,
/// sorted by filename, with each title resolved and bodies left out.
pub fn list_posts(folder_name: &str, project_exists: bool, files: &Vec<(String, String)>) -> (r:
    Result<Vec<Post>, StoreError>)
    ensures
        r is Ok <==> project_exists,
        r matches Ok(posts) ==> {
            &&& posts@.len() == files@.len()
            &&& posts_sorted_by_filename(posts@)
            &&& post_views_of(posts@).to_multiset() == file_post_views_of(files@).to_multiset()
        },
        r matches Err(e) ==> e matches StoreError::ProjectNotFound { folder_name: f } && f@
            == folder_name@,
{
    if !project_exists {
        return Err(StoreError::ProjectNotFound { folder_name: String::from_str(folder_name) });
    }
    let mut plain: Vec<Post> = Vec::new();
    let n = files.len();
    let mut i: usize = 0;
    while i < n
        invariant
            i <= n == files@.len(),
            post_views_of(plain@) == file_post_views_of(files@.subrange(0, i as int)),
        decreases n - i,
    {
        let ghost old_plain = plain@;
        let (filename, content) = &files[i];
        let fv = chars_of(filename.as_str());
        let slug_v = strip_md_suffix(&fv);
        let slug = crate::chars::string_of(slug_v);
        let title = crate::frontmatter::extract_title_from_markdown(content.as_str(), slug.as_str());
        let p = Post { filename: filename.clone(), title, slug, content: String::new() };
        assert(post_view(p) == file_post_view(files@[i as int]));
        plain.push(p);
        proof {
            assert(post_views_of(plain@) =~~= post_views_of(old_plain).push(post_view(p)));
            assert(post_views_of(plain@) =~~= file_post_views_of(files@.subrange(0, i + 1)));
        }
        i = i + 1;
    }
    proof {
        assert(files@.subrange(0, n as int) =~= files@);
    }
    Ok(sort_posts(plain))
}

// ---------------------------------------------------------------------------
// Creating a post: lowest free numbered slug
// ---------------------------------------------------------------------------
/// The `k`-th slug candidate for a base slug: the base itself, then
/// `base-1`, `base-2`, and so on.
pub open spec fn slug_with(base: Seq<char>, k: nat) -> Seq<char> {
    if k == 0 {
        base
    } else {
        base + "-"@ + crate::numbers::dec_string(k)
    }
}

proof fn lemma_md_name_injective(a: Seq<char>, b: Seq<char>)
    requires
        md_name(a) == md_name(b),
    ensures
        a == b,
{
    reveal_strlit(".md");
    assert(a =~= md_name(a).subrange(0, md_name(a).len() - 3));
    assert(b =~= md_name(b).subrange(0, md_name(b).len() - 3));
}

proof fn lemma_slug_with_injective(base: Seq<char>, j: nat, k: nat)
    requires
        slug_with(base, j) == slug_with(base, k),
    ensures
        j == k,
{
    reveal_strlit("-");
    if j == 0 && k == 0 {
    } else if j == 0 {
        assert(slug_with(base, k).len() > base.len());
    } else if k == 0 {
        assert(slug_with(base, j).len() > base.len());
    } else {
        let dj = crate::numbers::dec_string(j);
        let dk = crate::numbers::dec_string(k);
        assert(dj =~= slug_with(base, j).subrange(
            base.len() as int + 1,
            slug_with(base, j).len() as int,
        ));
        assert(dk =~= slug_with(base, k).subrange(
            base.len() as int + 1,
            slug_with(base, k).len() as int,
        ));
        crate::numbers::lemma_dec_string_injective(j, k);
    }
}

pub open spec fn cand_set(base: Seq<char>, k: nat) -> Set<Seq<char>> {
    Set::new(|s: Seq<char>| exists|j: nat| j < k && s == md_name(slug_with(base, j)))
}

proof fn lemma_cand_set_card(base: Seq<char>, k: nat)
    ensures
        cand_set(base, k).finite(),
        cand_set(base, k).len() == k,
    decreases k,
{
    if k == 0 {
        assert(cand_set(base, 0) =~= Set::<Seq<char>>::empty());
    } else {
        let k1 = (k - 1) as nat;
        lemma_cand_set_card(base, k1);
        let newest = md_name(slug_with(base, k1));
        assert forall|s: Seq<char>| cand_set(base, k).contains(s) implies cand_set(
            base,
            k1,
        ).insert(newest).contains(s) by {
            let j = choose|j: nat| j < k && s == md_name(slug_with(base, j));
            if j < k1 {
                assert(cand_set(base, k1).contains(s));
            }
        }
        assert forall|s: Seq<char>| cand_set(base, k1).insert(newest).contains(s) implies cand_set(
            base,
            k,
        ).contains(s) by {
            if cand_set(base, k1).contains(s) {
                let j = choose|j: nat| j < k1 && s == md_name(slug_with(base, j));
                assert(j < k && s == md_name(slug_with(base, j)));
            } else {
                assert(k1 < k && s == md_name(slug_with(base, k1)));
            }
        }
        assert(cand_set(base, k) =~= cand_set(base, k1).insert(newest));
        if cand_set(base, k1).contains(newest) {
            let j = choose|j: nat| j < k1 && newest == md_name(slug_with(base, j));
            lemma_md_name_injective(slug_with(base, j), slug_with(base, k1));
            lemma_slug_with_injective(base, j, k1);
        }
        assert(!cand_set(base, k1).contains(newest));
    }
}

/// If the first `k` candidates are all taken, the directory holds at least
/// `k` distinct names.
proof fn lemma_candidates_bound(names: Seq<Seq<char>>, base: Seq<char>, k: nat)
    requires
        forall|j: nat| j < k ==> names.contains(#[trigger] md_name(slug_with(base, j))),
    ensures
        k <= names.len(),
{
    lemma_cand_set_card(base, k);
    assert forall|s: Seq<char>| cand_set(base, k).contains(s) implies names.to_set().contains(
        s,
    ) by {
        let j = choose|j: nat| j < k && s == md_name(slug_with(base, j));
        assert(names.contains(md_name(slug_with(base, j))));
    }
    vstd::seq_lib::seq_to_set_is_finite(names);
    vstd::set_lib::lemma_len_subset(cand_set(base, k), names.to_set());
    names.lemma_cardinality_of_set();
}

fn slug_with_exec(base: &Vec<char>, k: usize) -> (r: Vec<char>)
    ensures
        r@ == slug_with(base@, k as nat),
{
    proof {
        reveal_strlit("-");
    }
    let mut r = crate::segments::clone_chars(base);
    if k > 0 {
        r.push('-');
        let d = crate::numbers::u64_to_dec(k as u64);
        crate::chars::push_chars(&mut r, &d);
        proof {
            assert(r@ =~= base@ + "-"@ + crate::numbers::dec_string(k as nat));
        }
    }
    r
}

fn contains_name(existing: &Vec<String>, cand: &Vec<char>) -> (r: bool)
    ensures
        r == string_views(existing@).contains(cand@),
{
    let n = existing.len();
    let mut i: usize = 0;
    while i < n
        invariant
            i <= n == existing@.len(),
            forall|j: int| 0 <= j < i ==> #[trigger] existing@[j]@ != cand@,
        decreases n - i,
    {
        let ev = chars_of(existing[i].as_str());
        if crate::chars::vec_chars_eq(&ev, cand) {
            assert(string_views(existing@)[i as int] == cand@);
            return true;
        }
        i = i + 1;
    }
    proof {
        assert forall|j: int| 0 <= j < string_views(existing@).len() implies #[trigger] string_views(
            existing@,
        )[j] != cand@ by {
            assert(string_views(existing@)[j] == existing@[j]@);
        }
    }
    false
}

/// Creates the post record for a title, against the `.md` filenames already
/// in the project's directory, with the given creation date. The chosen
/// slug is the first free candidate: collisions are resolved by counting
/// upward, never by overwriting.
pub fn create_post_with_date(
    folder_name: &str,
    project_exists: bool,
    existing: &Vec<String>,
    title: &str,
    date: &str,
) -> (r: Result<Post, StoreError>)
    requires
        existing@.len() < usize::MAX,
    ensures
        r is Ok <==> (project_exists && sanitize_slug_spec(title@).len() > 0),
        r matches Ok(p) ==> {
            &&& p.title@ == title@
            &&& p.filename@ == md_name(p.slug@)
            &&& p.content@ == crate::templates::post_content_spec(title@, date@)
            &&& !string_views(existing@).contains(p.filename@)
            &&& exists|k: nat|
                {
                    &&& p.slug@ == slug_with(sanitize_slug_spec(title@), k)
                    &&& forall|j: nat|
                        j < k ==> string_views(existing@).contains(
                            #[trigger] md_name(slug_with(sanitize_slug_spec(title@), j)),
                        )
                }
        },
        !project_exists ==> (r matches Err(StoreError::ProjectNotFound { folder_name: f }) && f@
            == folder_name@),
        project_exists && sanitize_slug_spec(title@).len() == 0 ==> r matches Err(
            StoreError::EmptyName,
        ),
{
    if !project_exists {
        return Err(StoreError::ProjectNotFound { folder_name: String::from_str(folder_name) });
    }
    let base_s = crate::sanitize::sanitize_slug(title);
    let base = chars_of(base_s.as_str());
    if base.len() == 0 {
        return Err(StoreError::EmptyName);
    }
    let ghost names = string_views(existing@);
    let cap = existing.len();
    let mut k: usize = 0;
    let slug_v: Vec<char>;
    loop
        invariant
            base@ == sanitize_slug_spec(title@),
            names == string_views(existing@),
            existing@.len() < usize::MAX,
            cap == existing@.len(),
            k <= cap,
            forall|j: nat| j < k ==> names.contains(#[trigger] md_name(slug_with(base@, j))),
        ensures
            slug_v@ == slug_with(base@, k as nat),
            !names.contains(md_name(slug_v@)),
            forall|j: nat| j < k ==> names.contains(#[trigger] md_name(slug_with(base@, j))),
        decreases cap - k + 1,
    {
        let cand_slug = slug_with_exec(&base, k);
        let mut cand_name = crate::segments::clone_chars(&cand_slug);
        crate::chars::push_str_chars(&mut cand_name, ".md");
        assert(cand_name@ == md_name(cand_slug@));
        if !contains_name(existing, &cand_name) {
            slug_v = cand_slug;
            break ;
        }
        proof {
            assert forall|j: nat| j < k + 1 implies names.contains(
                #[trigger] md_name(slug_with(base@, j)),
            ) by {}
            lemma_candidates_bound(names, base@, (k + 1) as nat);
        }
        k = k + 1;
    }
    let slug = crate::chars::string_of(slug_v);
    let mut filename = String::from_str(slug.as_str());
    filename.append(".md");
    let content = crate::templates::render_post_content(title, date);
    let p = Post { filename, title: String::from_str(title), slug, content };
    proof {
        assert(p.filename@ =~= md_name(p.slug@));
        assert(p.slug@ == slug_with(sanitize_slug_spec(title@), k as nat));
    }
    Ok(p)
}

/// Relies on chrono's `Utc::now` and its `%Y-%m-%d` formatting: the current
/// UTC date with a zero-padded four-digit (or longer) year, two-digit month
/// and two-digit day, hyphen-separated, so at least ten characters.
#[verifier::external_body]
fn today_ymd() -> (r: String)
    ensures
        r@.len() >= 10,
{
    chrono::Utc::now().format("%Y-%m-%d").to_string()
}

/// `create_post_with_date` at today's UTC date.
pub fn create_post(
    folder_name: &str,
    project_exists: bool,
    existing: &Vec<String>,
    title: &str,
) -> (r: Result<Post, StoreError>)
    requires
        existing@.len() < usize::MAX,
    ensures
        r is Ok <==> (project_exists && sanitize_slug_spec(title@).len() > 0),
        r matches Ok(p) ==> {
            &&& p.title@ == title@
            &&& p.filename@ == md_name(p.slug@)
            &&& exists|d: Seq<char>|
                #[trigger] crate::templates::post_content_spec(title@, d) == p.content@ && d.len()
                    >= 10
            &&& !string_views(existing@).contains(p.filename@)
            &&& exists|k: nat|
                {
                    &&& p.slug@ == slug_with(sanitize_slug_spec(title@), k)
                    &&& forall|j: nat|
                        j < k ==> string_views(existing@).contains(
                            #[trigger] md_name(slug_with(sanitize_slug_spec(title@), j)),
                        )
                }
        },
        !project_exists ==> (r matches Err(StoreError::ProjectNotFound { folder_name: f }) && f@
            == folder_name@),
        project_exists && sanitize_slug_spec(title@).len() == 0 ==> r matches Err(
            StoreError::EmptyName,
        ),
{
    let date = today_ymd();
    let r = create_post_with_date(folder_name, project_exists, existing, title, date.as_str());
    proof {
        if r is Ok {
            let p = r->Ok_0;
            assert(crate::templates::post_content_spec(title@, date@) == p.content@ && date@.len()
                >= 10);
        }
    }
    r
}

// ---------------------------------------------------------------------------
// Reading, updating and deleting a post
// ---------------------------------------------------------------------------
/// Builds the post record for an existing file's content; fails when the
/// file does not exist.
pub fn read_post(slug: &str, file_exists: bool, content: &str) -> (r: Result<Post, StoreError>)
    ensures
        r is Ok <==> file_exists,
        r matches Ok(p) ==> {
            &&& p.filename@ == md_name(slug@)
            &&& p.slug@ == slug@
            &&& p.content@ == content@
            &&& p.title@ == crate::frontmatter::resolve_title(content@, slug@)
        },
        r matches Err(e) ==> e matches StoreError::PostNotFound { slug: s } && s@ == slug@,
{
    if !file_exists {
        return Err(StoreError::PostNotFound { slug: String::from_str(slug) });
    }
    let title = crate::frontmatter::extract_title_from_markdown(content, slug);
    let mut filename = String::from_str(slug);
    filename.append(".md");
    proof {
        assert(filename@ =~= md_name(slug@));
    }
    Ok(
        Post {
            filename,
            title,
            slug: String::from_str(slug),
            content: String::from_str(content),
        },
    )
}

/// The two filenames of an atomic replacement: the target, and the
/// dot-prefixed temporary sibling that is written and synced first.
#[derive(Debug)]
pub struct UpdatePlan {
    pub filename: String,
    pub temp_filename: String,
    pub content: String,
}

/// The temporary sibling's name: dot-prefixed and `.tmp`-suffixed, so it
/// can collide with no post file and no directory scan lists it.
pub open spec fn temp_name(filename: Seq<char>) -> Seq<char> {
    "."@ + filename + ".tmp"@
}

/// Plans the atomic replacement of a post's content; fails when the file
/// does not exist, as an update never creates a post.
pub fn update_post(slug: &str, file_exists: bool, content: &str) -> (r: Result<
    UpdatePlan,
    StoreError,
>)
    ensures
        r is Ok <==> file_exists,
        r matches Ok(u) ==> {
            &&& u.filename@ == md_name(slug@)
            &&& u.temp_filename@ == temp_name(md_name(slug@))
            &&& u.content@ == content@
            &&& u.temp_filename@ != u.filename@
            &&& !is_md_filename(u.temp_filename@)
        },
        r matches Err(e) ==> e matches StoreError::PostNotFound { slug: s } && s@ == slug@,
{
    if !file_exists {
        return Err(StoreError::PostNotFound { slug: String::from_str(slug) });
    }
    let mut filename = String::from_str(slug);
    filename.append(".md");
    let mut temp_filename = String::from_str(".");
    temp_filename.append(filename.as_str());
    temp_filename.append(".tmp");
    proof {
        assert(filename@ =~= md_name(slug@));
        assert(temp_filename@ =~= temp_name(md_name(slug@)));
        reveal_strlit(".tmp");
        reveal_strlit(".md");
        reveal_strlit(".");
        let t = temp_filename@;
        assert(t.len() == filename@.len() + 5);
        if is_md_filename(t) {
            assert(t.subrange(t.len() - 3, t.len() as int)[2] == ".md"@[2]);
            assert(t[t.len() - 1] == (".tmp"@)[3]);
        }
    }
    Ok(UpdatePlan { filename, temp_filename, content: String::from_str(content) })
}

/// Names the file to remove; fails when the file does not exist.
pub fn delete_post(slug: &str, file_exists: bool) -> (r: Result<String, StoreError>)
    ensures
        r is Ok <==> file_exists,
        r matches Ok(f) ==> f@ == md_name(slug@),
        r matches Err(e) ==> e matches StoreError::PostNotFound { slug: s } && s@ == slug@,
{
    if !file_exists {
        return Err(StoreError::PostNotFound { slug: String::from_str(slug) });
    }
    let mut filename = String::from_str(slug);
    filename.append(".md");
    proof {
        assert(filename@ =~= md_name(slug@));
    }
    Ok(filename)
}

// ---------------------------------------------------------------------------
// Creating a project
// ---------------------------------------------------------------------------
/// Everything the shell must put on disk for a new project: the directory's
/// name and the two generated files.
#[derive(Debug)]
pub struct ProjectPlan {
    pub project: Project,
    pub layout_content: String,
    pub index_content: String,
}

/// Plans a new project for a display name, against the entries already under
/// the pages root: the sanitized folder name must be nonempty and free.
pub fn create_project(pages_root: &str, name: &str, existing_entries: &Vec<String>) -> (r: Result<
    ProjectPlan,
    StoreError,
>)
    ensures
        ({
            let folder = crate::sanitize::sanitize_project_spec(name@);
            &&& (r is Ok <==> (folder.len() > 0 && !string_views(existing_entries@).contains(
                folder,
            )))
            &&& (r matches Ok(plan) ==> {
                &&& plan.project.name@ == name@
                &&& plan.project.folder_name@ == folder
                &&& plan.project.path@ == path_of(pages_root@, folder)
                &&& plan.layout_content@ == crate::templates::layout_content_spec(folder)
                &&& plan.index_content@ == crate::templates::index_content_spec(name@, folder)
            })
            &&& (folder.len() == 0 ==> r matches Err(StoreError::EmptyName))
            &&& (folder.len() > 0 && string_views(existing_entries@).contains(folder) ==> (
            r matches Err(StoreError::ProjectExists { folder_name: f }) && f@ == folder))
        }),
{
    let folder_s = crate::sanitize::sanitize_project_name(name);
    let fv = chars_of(folder_s.as_str());
    if fv.len() == 0 {
        return Err(StoreError::EmptyName);
    }
    if contains_name(existing_entries, &fv) {
        return Err(StoreError::ProjectExists { folder_name: folder_s });
    }
    let layout_content = crate::templates::render_layout_content(folder_s.as_str());
    let index_content = crate::templates::render_index_content(name, folder_s.as_str());
    let mut path = String::from_str(pages_root);
    path.append("/");
    path.append(folder_s.as_str());
    let project = Project { name: String::from_str(name), folder_name: folder_s, path };
    Ok(ProjectPlan { project, layout_content, index_content })
}

// ---------------------------------------------------------------------------
// Renaming a project
// ---------------------------------------------------------------------------
/// Everything the shell must do for a rename, in order: write the new
/// listing-file content while the directory still has its old name, then,
/// when the folder name changed, rename the directory and rewrite the layout
/// file by the pattern replacement.
#[derive(Debug)]
pub struct RenamePlan {
    pub project: Project,
    pub folder_changed: bool,
    pub old_folder_name: String,
    pub new_index_content: Option<String>,
    pub layout_pattern: String,
    pub layout_replacement: String,
}

/// Updates a listing file's metadata block to a new display name and folder
/// name; fails when the text has no frontmatter block.
pub fn update_project_display_name(
    content: &str,
    new_display_name: &str,
    new_folder_name: &str,
) -> (r: Result<String, StoreError>)
    ensures
        r is Ok <==> crate::frontmatter::upsert_metadata_spec(
            content@,
            new_display_name@,
            new_folder_name@,
        ) is Some,
        r matches Ok(c) ==> c@ == crate::frontmatter::upsert_metadata_spec(
            content@,
            new_display_name@,
            new_folder_name@,
        )->0,
        r matches Err(e) ==> e is NoFrontmatter,
{
    match crate::frontmatter::upsert_metadata(content, new_display_name, new_folder_name) {
        Some(c) => Ok(c),
        None => Err(StoreError::NoFrontmatter),
    }
}

pub open spec fn layout_ref_line(folder: Seq<char>) -> Seq<char> {
    "const projectName = '"@ + folder + "';"@
}

/// The layout file's folder reference rewritten from the old folder name to
/// the new one, everywhere it occurs.
pub fn patch_layout(content: &str, old_folder_name: &str, new_folder_name: &str) -> (r: String)
    ensures
        r@ == crate::frontmatter::replace_all(
            content@,
            layout_ref_line(old_folder_name@),
            layout_ref_line(new_folder_name@),
        ),
{
    let old_v = chars_of(old_folder_name);
    let new_v = chars_of(new_folder_name);
    let pattern = crate::frontmatter::build_line("const projectName = '", &old_v, "';");
    let replacement = crate::frontmatter::build_line("const projectName = '", &new_v, "';");
    proof {
        reveal_strlit("const projectName = '");
        assert(pattern@.len() > 0);
    }
    let cv = chars_of(content);
    let out = crate::frontmatter::replace_all_chars(&cv, &pattern, &replacement);
    crate::chars::string_of(out)
}

/// Plans a rename: sanitizes the new display name, refuses an empty result,
/// a missing source directory or a collision with another directory, and
/// carries the new listing-file content, the directory rename decision and
/// the layout patch.
pub fn rename_project(
    pages_root: &str,
    old_folder_name: &str,
    new_display_name: &str,
    old_exists: bool,
    new_exists: bool,
    index_content: &Option<String>,
) -> (r: Result<RenamePlan, StoreError>)
    ensures
        ({
            let folder = crate::sanitize::sanitize_project_spec(new_display_name@);
            let meta_ok = match *index_content {
                Some(c) => crate::frontmatter::upsert_metadata_spec(
                    c@,
                    new_display_name@,
                    folder,
                ) is Some,
                None => true,
            };
            &&& (r is Ok <==> (folder.len() > 0 && old_exists && !(folder != old_folder_name@
                && new_exists) && meta_ok))
            &&& (r matches Ok(plan) ==> {
                &&& plan.project.name@ == new_display_name@
                &&& plan.project.folder_name@ == folder
                &&& plan.project.path@ == path_of(pages_root@, folder)
                &&& plan.folder_changed == (folder != old_folder_name@)
                &&& plan.old_folder_name@ == old_folder_name@
                &&& (plan.new_index_content is Some <==> *index_content is Some)
                &&& (*index_content matches Some(c) ==> plan.new_index_content matches Some(nc)
                    && nc@ == crate::frontmatter::upsert_metadata_spec(
                    c@,
                    new_display_name@,
                    folder,
                )->0)
                &&& plan.layout_pattern@ == layout_ref_line(old_folder_name@)
                &&& plan.layout_replacement@ == layout_ref_line(folder)
            })
            &&& (folder.len() == 0 ==> r matches Err(StoreError::EmptyName))
            &&& (folder.len() > 0 && !old_exists ==> (r matches Err(
                StoreError::ProjectNotFound { folder_name: f },
            ) && f@ == old_folder_name@))
            &&& (folder.len() > 0 && old_exists && folder != old_folder_name@ && new_exists ==> (
            r matches Err(StoreError::ProjectExists { folder_name: f }) && f@ == folder))
            &&& (folder.len() > 0 && old_exists && !(folder != old_folder_name@ && new_exists)
                && !meta_ok ==> r matches Err(StoreError::NoFrontmatter))
        }),
{
    let folder_s = crate::sanitize::sanitize_project_name(new_display_name);
    let fv = chars_of(folder_s.as_str());
    if fv.len() == 0 {
        return Err(StoreError::EmptyName);
    }
    if !old_exists {
        return Err(StoreError::ProjectNotFound { folder_name: String::from_str(old_folder_name) });
    }
    let old_v = chars_of(old_folder_name);
    let changed = !crate::chars::vec_chars_eq(&fv, &old_v);
    if changed && new_exists {
        return Err(StoreError::ProjectExists { folder_name: folder_s });
    }
    let new_index_content: Option<String> = match index_content {
        Some(c) => {
            match crate::frontmatter::upsert_metadata(
                c.as_str(),
                new_display_name,
                folder_s.as_str(),
            ) {
                Some(nc) => Some(nc),
                None => {
                    return Err(StoreError::NoFrontmatter);
                },
            }
        },
        None => None,
    };
    let pattern = crate::frontmatter::build_line("const projectName = '", &old_v, "';");
    let replacement = crate::frontmatter::build_line("const projectName = '", &fv, "';");
    let mut path = String::from_str(pages_root);
    path.append("/");
    path.append(folder_s.as_str());
    let project = Project {
        name: String::from_str(new_display_name),
        folder_name: folder_s,
        path,
    };
    Ok(
        RenamePlan {
            project,
            folder_changed: changed,
            old_folder_name: String::from_str(old_folder_name),
            new_index_content,
            layout_pattern: crate::chars::string_of(pattern),
            layout_replacement: crate::chars::string_of(replacement),
        },
    )
}

} // verus!
