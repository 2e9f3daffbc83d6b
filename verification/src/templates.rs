//! The generated file contents: a fresh post body, a project's layout file,
//! and a project's listing file. Each is a fixed text with the display name,
//! folder name, title or date spliced in verbatim.

use crate::chars::chars_of;
use crate::chars::push_chars;
use crate::chars::push_str_chars;
use crate::chars::string_of;
use vstd::prelude::*;

verus! {

/// A fresh post body: frontmatter with the quoted title and the date, then
/// a heading with the title and placeholder text.
pub open spec fn post_content_spec(title: Seq<char>, date: Seq<char>) -> Seq<char> {
    "---\ntitle: \""@ + title + "\"\ndate: "@ + date + "\n---\n\n# "@ + title
        + "\n\nWrite your content here...\n"@
}

/// A project's generated layout file: static boilerplate that names the
/// project's folder once.
pub open spec fn layout_content_spec(folder: Seq<char>) -> Seq<char> {
    "---\nimport PostLayout from '../../layouts/PostLayout.astro';\n\nexport interface Props {\n  title: string;\n}\n\nconst { title } = Astro.props;\nconst projectName = '"@
        + folder
        + "';\n---\n\n<PostLayout title={title} projectName={projectName}>\n  <slot />\n</PostLayout>\n"@
}

pub open spec fn index_head(name: Seq<char>) -> Seq<char> {
    "---\ntitle: \""@ + name + "\"\ndisplayName: \""@ + name
        + "\"\nimport ProjectLayout from '../../layouts/ProjectLayout.astro';\nimport { readdir } from 'node:fs/promises';\nimport path from 'node:path';\n\nconst projectName = '"@
        + name + "';\nconst displayName = '"@ + name + "';\nconst folderName = '"@
}

pub open spec fn index_tail() -> Seq<char> {
    "';\nconst projectDir = path.join(process.cwd(), 'src/pages', folderName);\n\n// Get all markdown posts\nlet posts = [];\ntry {\n  const entries = await readdir(projectDir);\n  posts = entries\n    .filter(file => file.endsWith('.md'))\n    .map(file => {\n      const slug = file.replace('.md', '');\n      return {\n        slug,\n        title: slug.replace(/-/g, ' ').replace(/\\b\\w/g, l => l.toUpperCase()),\n        href: `/${folderName}/${slug}`\n      };\n    });\n} catch (error) {\n  console.log('No posts found yet');\n}\n---\n\n<ProjectLayout title={displayName} projectName={projectName}>\n  <h2>Posts</h2>\n\n  {posts.length > 0 ? (\n    <div class=\"post-grid\">\n      {posts.map((post) => (\n        <a href={post.href} class=\"card post-card\">\n          {post.title}\n        </a>\n      ))}\n    </div>\n  ) : (\n    <div class=\"card\">\n      <h3>No posts yet</h3>\n      <p>Create your first post using Studio Builder Desktop!</p>\n    </div>\n  )}\n</ProjectLayout>\n"@
}

/// A project's generated listing file: a metadata block holding the display
/// name as `title` and `displayName` and as script constants, the folder
/// name as a script constant, and a listing of the folder's posts.
pub open spec fn index_content_spec(name: Seq<char>, folder: Seq<char>) -> Seq<char> {
    index_head(name) + folder + index_tail()
}

/// Renders a fresh post body for the given title and date.
pub fn render_post_content(title: &str, date: &str) -> (r: String)
    ensures
        r@ == post_content_spec(title@, date@),
{
    let tv = chars_of(title);
    let dv = chars_of(date);
    let mut v: Vec<char> = Vec::new();
    push_str_chars(&mut v, "---\ntitle: \"");
    push_chars(&mut v, &tv);
    push_str_chars(&mut v, "\"\ndate: ");
    push_chars(&mut v, &dv);
    push_str_chars(&mut v, "\n---\n\n# ");
    push_chars(&mut v, &tv);
    push_str_chars(&mut v, "\n\nWrite your content here...\n");
    proof {
        assert(v@ =~= post_content_spec(title@, date@));
    }
    string_of(v)
}

/// Renders a project's layout file.
pub fn render_layout_content(folder: &str) -> (r: String)
    ensures
        r@ == layout_content_spec(folder@),
{
    let fv = chars_of(folder);
    let mut v: Vec<char> = Vec::new();
    push_str_chars(
        &mut v,
        "---\nimport PostLayout from '../../layouts/PostLayout.astro';\n\nexport interface Props {\n  title: string;\n}\n\nconst { title } = Astro.props;\nconst projectName = '",
    );
    push_chars(&mut v, &fv);
    push_str_chars(
        &mut v,
        "';\n---\n\n<PostLayout title={title} projectName={projectName}>\n  <slot />\n</PostLayout>\n",
    );
    proof {
        assert(v@ =~= layout_content_spec(folder@));
    }
    string_of(v)
}

/// Renders a project's listing file.
pub fn render_index_content(name: &str, folder: &str) -> (r: String)
    ensures
        r@ == index_content_spec(name@, folder@),
{
    let nv = chars_of(name);
    let fv = chars_of(folder);
    let mut v: Vec<char> = Vec::new();
    push_str_chars(&mut v, "---\ntitle: \"");
    push_chars(&mut v, &nv);
    push_str_chars(&mut v, "\"\ndisplayName: \"");
    push_chars(&mut v, &nv);
    push_str_chars(
        &mut v,
        "\"\nimport ProjectLayout from '../../layouts/ProjectLayout.astro';\nimport { readdir } from 'node:fs/promises';\nimport path from 'node:path';\n\nconst projectName = '",
    );
    push_chars(&mut v, &nv);
    push_str_chars(&mut v, "';\nconst displayName = '");
    push_chars(&mut v, &nv);
    push_str_chars(&mut v, "';\nconst folderName = '");
    push_chars(&mut v, &fv);
    push_str_chars(
        &mut v,
        "';\nconst projectDir = path.join(process.cwd(), 'src/pages', folderName);\n\n// Get all markdown posts\nlet posts = [];\ntry {\n  const entries = await readdir(projectDir);\n  posts = entries\n    .filter(file => file.endsWith('.md'))\n    .map(file => {\n      const slug = file.replace('.md', '');\n      return {\n        slug,\n        title: slug.replace(/-/g, ' ').replace(/\\b\\w/g, l => l.toUpperCase()),\n        href: `/${folderName}/${slug}`\n      };\n    });\n} catch (error) {\n  console.log('No posts found yet');\n}\n---\n\n<ProjectLayout title={displayName} projectName={projectName}>\n  <h2>Posts</h2>\n\n  {posts.length > 0 ? (\n    <div class=\"post-grid\">\n      {posts.map((post) => (\n        <a href={post.href} class=\"card post-card\">\n          {post.title}\n        </a>\n      ))}\n    </div>\n  ) : (\n    <div class=\"card\">\n      <h3>No posts yet</h3>\n      <p>Create your first post using Studio Builder Desktop!</p>\n    </div>\n  )}\n</ProjectLayout>\n",
    );
    proof {
        assert(v@ =~= index_content_spec(name@, folder@));
    }
    string_of(v)
}

} // verus!
