//! The catalog of posts: each source document converted, given its output
//! path, and filed under its category.

use crate::header::{
    decoded_header_ok, front_matter_split, header_from, opt_view, split_md_and_header,
    toml_entries_of, DecodeError, PostHeader,
};
use crate::markdown::{convert_markdown, headings_view, html_of, markdown_events_of, scan, TocHeading};
use crate::order::{compare_option, reversed};
use crate::text::{
    chars_of, compare_text, lemma_text_order_antisymmetric, lemma_text_order_transitive, slice_chars,
    text_order,
};
use core::cmp::Ordering;
use vstd::prelude::*;
use vstd::string::StringExecFns;

verus! {

/// Metadata of a post from the build: its source file, the path of the HTML
/// file it is rendered to, its header if any, and its preview text.
#[derive(Debug, Clone)]
pub struct PostMeta {
    pub source_file: String,
    pub rendered_to: String,
    pub header: Option<PostHeader>,
    pub preview_text: String,
}

/// A converted post: metadata, HTML content and headings.
#[derive(Debug, Clone)]
pub struct Post {
    pub meta: PostMeta,
    pub content: String,
    pub headings: Vec<TocHeading>,
}

/// The index of the last `.` in `s`.
pub open spec fn last_dot(s: Seq<char>) -> Option<int>
    decreases s.len(),
{
    if s.len() == 0 {
        None
    } else if s.last() == '.' {
        Some(s.len() - 1)
    } else {
        last_dot(s.drop_last())
    }
}

/// A file name without its extension: the part before the last `.`, unless
/// that `.` starts the name; the name `..` has no extension.
pub open spec fn file_stem(name: Seq<char>) -> Seq<char> {
    if name == seq!['.', '.'] {
        name
    } else {
        match last_dot(name) {
            Some(i) => if i > 0 {
                name.take(i)
            } else {
                name
            },
            None => name,
        }
    }
}

/// The name of the HTML file made from the source file `name`.
pub open spec fn html_name(name: Seq<char>) -> Seq<char> {
    file_stem(name) + ".html"@
}

/// A file name under a directory, with one separator between them.
pub open spec fn join_path(dir: Seq<char>, file: Seq<char>) -> Seq<char> {
    if dir.len() == 0 {
        file
    } else if dir.last() == '/' {
        dir + file
    } else {
        dir + "/"@ + file
    }
}

/// Where a post from the source file `name` is rendered to: under its
/// category's directory, if it has a category.
pub open spec fn output_path(category: Option<Seq<char>>, name: Seq<char>) -> Seq<char> {
    match category {
        Some(c) => join_path(c, html_name(name)),
        None => html_name(name),
    }
}

/// The category of a post, if its header names one.
pub open spec fn post_category(p: Post) -> Option<Seq<char>> {
    match p.meta.header {
        Some(h) => opt_view(h.category),
        None => None,
    }
}

/// The source text can be read: its metadata block, if any, decodes.
pub open spec fn source_readable(source: Seq<char>) -> bool {
    front_matter_split(source).0 matches Some(block) ==> decoded_header_ok(block)
}

/// `p` is the post made from the source file `name` with text `source`.
pub open spec fn post_from(p: Post, name: Seq<char>, source: Seq<char>) -> bool {
    let block = front_matter_split(source).0;
    let body = front_matter_split(source).1;
    &&& p.meta.source_file@ == name
    &&& match block {
        None => p.meta.header is None,
        Some(b) => p.meta.header matches Some(h) && header_from(h, toml_entries_of(b)->Some_0),
    }
    &&& p.meta.rendered_to@ == output_path(post_category(p), name)
    &&& p.content@ == html_of(body)
    &&& headings_view(p.headings@) == scan(markdown_events_of(body)).headings
    &&& p.meta.preview_text@ == scan(markdown_events_of(body)).preview_text
}

/// The index of the last `.` in the characters `s`.
fn last_dot_exec(s: &Vec<char>) -> (r: Option<usize>)
    ensures
        r matches Some(i) ==> last_dot(s@) == Some(i as int) && i < s@.len(),
        r is None ==> last_dot(s@) is None,
{
    let mut i: usize = s.len();
    assert(s@.take(i as int) =~= s@);
    while i > 0
        invariant
            i <= s@.len(),
            last_dot(s@) == last_dot(s@.take(i as int)),
        decreases i,
    {
        assert(s@.take(i as int).drop_last() =~= s@.take(i - 1));
        if s[i - 1] == '.' {
            return Some(i - 1);
        }
        i = i - 1;
    }
    None
}

/// The name of a file without its extension.
pub fn stem_of(name: &str) -> (r: String)
    ensures
        r@ == file_stem(name@),
{
    let chars = chars_of(name);
    if chars.len() == 2 && chars[0] == '.' && chars[1] == '.' {
        assert(chars@ =~= seq!['.', '.']);
        return name.to_owned();
    }
    assert(chars@ != seq!['.', '.']) by {
        if chars@ == seq!['.', '.'] {
            assert(chars@.len() == 2 && chars@[0] == '.' && chars@[1] == '.');
        }
    }
    match last_dot_exec(&chars) {
        Some(i) => if i > 0 {
            slice_chars(name, 0, i).to_owned()
        } else {
            name.to_owned()
        },
        None => name.to_owned(),
    }
}

/// The path, relative to the output directory, that the post from the source
/// file `name` is rendered to.
pub fn output_path_of(category: &Option<String>, name: &str) -> (r: String)
    ensures
        r@ == output_path(opt_view(*category), name@),
{
    let mut file = stem_of(name);
    file.append(".html");
    match category {
        None => file,
        Some(c) => {
            let cs = chars_of(c.as_str());
            if cs.len() == 0 {
                file
            } else {
                let mut path = c.clone();
                if cs[cs.len() - 1] != '/' {
                    path.append("/");
                }
                path.append(file.as_str());
                path
            }
        },
    }
}

/// Converts one source document: splits off and decodes its header, converts
/// its markdown, and sets where it is rendered to. A metadata block that
/// cannot be decoded is an error.
pub fn convert_post(file_name: &str, source: &str) -> (r: Result<Post, DecodeError>)
    ensures
        r is Ok <==> source_readable(source@),
        r matches Ok(p) ==> post_from(p, file_name@, source@),
        r matches Ok(p) ==> (post_category(p) is None ==> p.meta.rendered_to@ == html_name(
            file_name@,
        )),
{
    let (header, markdown) = split_md_and_header(source)?;
    let category: Option<String> = match &header {
        Some(h) => match &h.category {
            Some(c) => Some(c.clone()),
            None => None,
        },
        None => None,
    };
    let rendered_to = output_path_of(&category, file_name);
    let converted = convert_markdown(markdown);
    let meta = PostMeta {
        source_file: file_name.to_owned(),
        rendered_to,
        header,
        preview_text: converted.preview_text,
    };
    Ok(Post { meta, content: converted.content, headings: converted.headings })
}

} // verus!

verus! {

/// The order of category keys: the uncategorized key `None` first, then
/// category names in the order of their text.
pub open spec fn key_order(a: Option<Seq<char>>, b: Option<Seq<char>>) -> Ordering {
    match (a, b) {
        (None, None) => Ordering::Equal,
        (None, Some(_)) => Ordering::Less,
        (Some(_), None) => Ordering::Greater,
        (Some(x), Some(y)) => text_order(x, y),
    }
}

proof fn lemma_key_order_antisymmetric(a: Option<Seq<char>>, b: Option<Seq<char>>)
    ensures
        (key_order(a, b) == Ordering::Equal) <==> a == b,
        key_order(a, b) == reversed(key_order(b, a)),
{
    if let (Some(x), Some(y)) = (a, b) {
        lemma_text_order_antisymmetric(x, y);
    }
}

proof fn lemma_key_order_transitive(a: Option<Seq<char>>, b: Option<Seq<char>>, c: Option<Seq<char>>)
    requires
        key_order(a, b) == Ordering::Less,
        key_order(b, c) == Ordering::Less,
    ensures
        key_order(a, c) == Ordering::Less,
{
    if let (Some(x), Some(y), Some(z)) = (a, b, c) {
        lemma_text_order_transitive(x, y, z);
    }
}

/// Compares two category keys.
pub fn compare_keys(a: &Option<String>, b: &Option<String>) -> (r: Ordering)
    ensures
        r == key_order(opt_view(*a), opt_view(*b)),
{
    let by_text = |x: &String, y: &String| -> (o: Ordering)
        ensures
            o == text_order(x@, y@),
        { compare_text(x.as_str(), y.as_str()) };
    compare_option(a, b, by_text)
}

/// The posts with category `k`, in their order in `posts`.
pub open spec fn posts_in(posts: Seq<Post>, k: Option<Seq<char>>) -> Seq<Post>
    decreases posts.len(),
{
    if posts.len() == 0 {
        Seq::empty()
    } else if post_category(posts.last()) == k {
        posts_in(posts.drop_last(), k).push(posts.last())
    } else {
        posts_in(posts.drop_last(), k)
    }
}

proof fn lemma_posts_in_absent(posts: Seq<Post>, k: Option<Seq<char>>)
    requires
        forall|j: int| 0 <= j < posts.len() ==> post_category(#[trigger] posts[j]) != k,
    ensures
        posts_in(posts, k) == Seq::<Post>::empty(),
    decreases posts.len(),
{
    if posts.len() > 0 {
        assert forall|j: int| 0 <= j < posts.drop_last().len() implies post_category(
            #[trigger] posts.drop_last()[j],
        ) != k by {
            assert(posts.drop_last()[j] == posts[j]);
        }
        lemma_posts_in_absent(posts.drop_last(), k);
    }
}

/// Posts filed by category: one bucket per category key, in key order, each
/// holding its posts in catalog order.
#[derive(Debug, Clone)]
pub struct CategoryIndex {
    pub buckets: Vec<(Option<String>, Vec<Post>)>,
}

impl CategoryIndex {
    /// The key of the bucket at `i`.
    pub open spec fn key(self, i: int) -> Option<Seq<char>> {
        opt_view(self.buckets@[i].0)
    }

    /// The keys are unique and in key order.
    pub open spec fn wf(self) -> bool {
        forall|i: int, j: int|
            0 <= i < j < self.buckets@.len() ==> key_order(self.key(i), self.key(j)) == Ordering::Less
    }

    /// The index files exactly `posts`: each bucket holds the posts of its
    /// key, none is empty, and every post's key has a bucket.
    pub open spec fn groups(self, posts: Seq<Post>) -> bool {
        &&& self.wf()
        &&& forall|i: int|
            0 <= i < self.buckets@.len() ==> #[trigger] self.buckets@[i].1@ == posts_in(posts, self.key(i))
                && self.buckets@[i].1@.len() > 0
        &&& forall|j: int|
            0 <= j < posts.len() ==> exists|i: int|
                0 <= i < self.buckets@.len() && self.key(i) == post_category(#[trigger] posts[j])
    }
}

/// The category key of a post, copied.
fn category_key(p: &Post) -> (r: Option<String>)
    ensures
        opt_view(r) == post_category(*p),
{
    match &p.meta.header {
        Some(h) => match &h.category {
            Some(c) => Some(c.clone()),
            None => None,
        },
        None => None,
    }
}

/// Where a bucket with key `key` stands or would stand: after every smaller key.
fn key_slot(index: &CategoryIndex, key: &Option<String>) -> (r: usize)
    ensures
        r <= index.buckets@.len(),
        forall|a: int| 0 <= a < r ==> key_order(index.key(a), opt_view(*key)) == Ordering::Less,
        r < index.buckets@.len() ==> key_order(index.key(r as int), opt_view(*key)) != Ordering::Less,
{
    let mut i: usize = 0;
    while i < index.buckets.len()
        invariant
            i <= index.buckets@.len(),
            forall|a: int| 0 <= a < i ==> key_order(index.key(a), opt_view(*key)) == Ordering::Less,
        decreases index.buckets@.len() - i,
    {
        if !matches!(compare_keys(&index.buckets[i].0, key), Ordering::Less) {
            return i;
        }
        i = i + 1;
    }
    i
}

/// Files posts by category, keeping their order within each category.
pub fn group_posts(posts: Vec<Post>) -> (r: CategoryIndex)
    ensures
        r.groups(posts@),
{
    let ghost all = posts@;
    let mut index = CategoryIndex { buckets: Vec::new() };
    assert(all.take(0) =~= Seq::<Post>::empty());
    for post in it: posts
        invariant
            it.seq() == all,
            index.groups(all.take(it.index() as int)),
    {
        let ghost j = it.index() as int;
        let ghost before = all.take(j);
        let ghost after = all.take(j + 1);
        let ghost old_index = index;
        assert(after.drop_last() =~= before);
        assert(after.last() == post);
        let key = category_key(&post);
        let ghost k = opt_view(key);
        let n = index.buckets.len();
        let i = key_slot(&index, &key);
        let found = i < n && matches!(compare_keys(&index.buckets[i].0, &key), Ordering::Equal);
        if found {
            proof {
                lemma_key_order_antisymmetric(index.key(i as int), k);
            }
            let (bucket_key, mut bucket) = index.buckets.remove(i);
            bucket.push(post);
            index.buckets.insert(i, (bucket_key, bucket));
            proof {
                assert(index.buckets@ =~= old_index.buckets@.update(i as int, (bucket_key, bucket)));
                assert forall|x: int| 0 <= x < index.buckets@.len() implies index.key(x) == old_index.key(x) by {
                    if x != i {
                        assert(index.buckets@[x] == old_index.buckets@[x]);
                    }
                }
                assert(index.wf());
                assert forall|a: int| 0 <= a < index.buckets@.len() implies #[trigger] index.buckets@[a].1@
                    == posts_in(after, index.key(a)) && index.buckets@[a].1@.len() > 0 by {
                    if a != i {
                        if a < i {
                            lemma_key_order_antisymmetric(old_index.key(a), old_index.key(i as int));
                        } else {
                            lemma_key_order_antisymmetric(old_index.key(i as int), old_index.key(a));
                        }
                        assert(old_index.buckets@[a].1@ == posts_in(before, old_index.key(a)));
                    }
                }
                assert forall|m: int| 0 <= m < after.len() implies exists|a: int|
                    0 <= a < index.buckets@.len() && index.key(a) == post_category(#[trigger] after[m]) by {
                    if m < j {
                        assert(after[m] == before[m]);
                        let a = choose|a: int|
                            0 <= a < old_index.buckets@.len() && old_index.key(a) == post_category(before[m]);
                        assert(index.key(a) == old_index.key(a));
                    } else {
                        assert(index.key(i as int) == post_category(after[m]));
                    }
                }
                assert(index.groups(after));
            }
        } else {
            if i < n {
                proof {
                    lemma_key_order_antisymmetric(index.key(i as int), k);
                }
            }
            assert forall|b: int| i <= b < old_index.buckets@.len() implies key_order(k, old_index.key(b))
                == Ordering::Less by {
                lemma_key_order_antisymmetric(old_index.key(i as int), k);
                if b > i {
                    lemma_key_order_transitive(k, old_index.key(i as int), old_index.key(b));
                }
            }
            assert forall|a: int| 0 <= a < old_index.buckets@.len() implies old_index.key(a) != k by {
                if a < i {
                    lemma_key_order_antisymmetric(old_index.key(a), k);
                } else {
                    lemma_key_order_antisymmetric(old_index.key(a), k);
                    if a > i {
                        lemma_key_order_transitive(k, old_index.key(i as int), old_index.key(a));
                    }
                }
            }
            assert forall|m: int| 0 <= m < before.len() implies post_category(#[trigger] before[m]) != k by {
                let a = choose|a: int|
                    0 <= a < old_index.buckets@.len() && old_index.key(a) == post_category(before[m]);
            }
            proof {
                lemma_posts_in_absent(before, k);
            }
            index.buckets.insert(i, (key, vec![post]));
            proof {
                assert forall|x: int| 0 <= x < index.buckets@.len() implies index.key(x) == (if x < i {
                    old_index.key(x)
                } else if x == i {
                    k
                } else {
                    old_index.key(x - 1)
                }) by {
                    if x > i {
                        assert(index.buckets@[x] == old_index.buckets@[x - 1]);
                    } else if x < i {
                        assert(index.buckets@[x] == old_index.buckets@[x]);
                    }
                }
                assert forall|a: int, b: int|
                    0 <= a < b < index.buckets@.len() implies key_order(index.key(a), index.key(b))
                    == Ordering::Less by {
                    if b < i {
                    } else if b == i {
                    } else if a < i {
                        lemma_key_order_transitive(index.key(a), k, index.key(b));
                    } else if a > i {
                        assert(key_order(old_index.key(a - 1), old_index.key(b - 1)) == Ordering::Less);
                    }
                }
                assert forall|a: int| 0 <= a < index.buckets@.len() implies #[trigger] index.buckets@[a].1@
                    == posts_in(after, index.key(a)) && index.buckets@[a].1@.len() > 0 by {
                    if a < i {
                        assert(index.buckets@[a] == old_index.buckets@[a]);
                        assert(old_index.buckets@[a].1@ == posts_in(before, old_index.key(a)));
                    } else if a > i {
                        assert(index.buckets@[a] == old_index.buckets@[a - 1]);
                        assert(old_index.buckets@[a - 1].1@ == posts_in(before, old_index.key(a - 1)));
                    } else {
                        assert(posts_in(after, k) =~= seq![post]);
                    }
                }
                assert forall|m: int| 0 <= m < after.len() implies exists|a: int|
                    0 <= a < index.buckets@.len() && index.key(a) == post_category(#[trigger] after[m]) by {
                    if m < j {
                        assert(after[m] == before[m]);
                        let a = choose|a: int|
                            0 <= a < old_index.buckets@.len() && old_index.key(a) == post_category(before[m]);
                        if a < i {
                            assert(index.key(a) == old_index.key(a));
                        } else {
                            assert(index.key(a + 1) == old_index.key(a));
                        }
                    } else {
                        assert(index.key(i as int) == post_category(after[m]));
                    }
                }
            }
        }
    }
    assert(all.take(all.len() as int) =~= all);
    index
}

} // verus!

verus! {

/// A post is in the bucket of its own key.
proof fn lemma_posts_in_contains(posts: Seq<Post>, j: int)
    requires
        0 <= j < posts.len(),
    ensures
        posts_in(posts, post_category(posts[j])).contains(posts[j]),
    decreases posts.len(),
{
    let k = post_category(posts[j]);
    if j == posts.len() - 1 {
        assert(posts_in(posts, k).last() == posts[j]);
    } else {
        assert(posts.drop_last()[j] == posts[j]);
        lemma_posts_in_contains(posts.drop_last(), j);
        let rest = posts_in(posts.drop_last(), k);
        if post_category(posts.last()) == k {
            let i = choose|i: int| 0 <= i < rest.len() && rest[i] == posts[j];
            assert(rest.push(posts.last())[i] == posts[j]);
        }
    }
}

/// A post whose header names no category is filed under the uncategorized
/// key `None`, and is rendered to its own name at the top of the output
/// directory, in no subdirectory.
pub proof fn lemma_uncategorized_post_placement(
    index: CategoryIndex,
    posts: Seq<Post>,
    j: int,
    name: Seq<char>,
    source: Seq<char>,
)
    requires
        index.groups(posts),
        0 <= j < posts.len(),
        post_from(posts[j], name, source),
        post_category(posts[j]) is None,
    ensures
        exists|i: int|
            0 <= i < index.buckets@.len() && index.key(i) is None && index.buckets@[i].1@.contains(
                posts[j],
            ),
        posts[j].meta.rendered_to@ == html_name(name),
{
    let i = choose|i: int| 0 <= i < index.buckets@.len() && index.key(i) == post_category(#[trigger] posts[j]);
    lemma_posts_in_contains(posts, j);
    assert(index.buckets@[i].1@ == posts_in(posts, index.key(i)));
}

/// Every document's source can be read.
pub open spec fn all_readable(files: Seq<(String, String)>) -> bool {
    forall|i: int| 0 <= i < files.len() ==> source_readable(#[trigger] files[i].1@)
}

/// `posts` are the posts made from `files`, one for each, in order.
pub open spec fn posts_from(posts: Seq<Post>, files: Seq<(String, String)>) -> bool {
    &&& posts.len() == files.len()
    &&& forall|i: int| 0 <= i < files.len() ==> post_from(#[trigger] posts[i], files[i].0@, files[i].1@)
}

/// Converts every source document, given as file name and text, and files the
/// posts by category. The first document whose metadata block cannot be
/// decoded ends the work with its error.
pub fn convert_posts(files: &Vec<(String, String)>) -> (r: Result<CategoryIndex, DecodeError>)
    ensures
        r is Ok <==> all_readable(files@),
        r matches Ok(index) ==> exists|posts: Seq<Post>|
            #[trigger] posts_from(posts, files@) && index.groups(posts),
        files@.len() == 0 ==> (r matches Ok(index) && index.buckets@.len() == 0),
{
    let mut posts: Vec<Post> = Vec::new();
    let mut i: usize = 0;
    while i < files.len()
        invariant
            i <= files@.len(),
            posts@.len() == i,
            forall|m: int| 0 <= m < i ==> source_readable(#[trigger] files@[m].1@),
            forall|m: int|
                0 <= m < i ==> post_from(#[trigger] posts@[m], files@[m].0@, files@[m].1@),
        decreases files@.len() - i,
    {
        let post = convert_post(files[i].0.as_str(), files[i].1.as_str())?;
        posts.push(post);
        i = i + 1;
    }
    let ghost converted = posts@;
    let index = group_posts(posts);
    if files.len() == 0 {
        if index.buckets.len() > 0 {
            assert(index.buckets@[0].1@ == posts_in(converted, index.key(0)));
        }
    }
    assert(posts_from(converted, files@));
    Ok(index)
}

} // verus!
