//! The build of the site: the order in which posts are listed, and the
//! sequence of pages that are rendered.

use crate::catalog::{CategoryIndex, PostMeta};
use crate::header::PostHeader;
use crate::order::{
    compare_dates, compare_option, header_date, parse_date, reversed, ymd_order, Date, DateError, DATE_FORMAT,
};
use core::cmp::Ordering;
use vstd::prelude::*;
use vstd::string::StringExecFns;

verus! {

/// What a post is listed by: `None` without a header, `Some(None)` with a
/// header but no date, else the date as year, month and day.
pub open spec fn date_key(h: Option<PostHeader>) -> Option<Option<(int, int, int)>> {
    match h {
        None => None,
        Some(h) => match h.date {
            None => Some(None),
            Some(d) => Some(header_date(d)),
        },
    }
}

/// The date of the header, if there is one, can be read.
pub open spec fn date_readable(h: Option<PostHeader>) -> bool {
    match h {
        Some(h) => match h.date {
            Some(d) => header_date(d) is Some,
            None => true,
        },
        None => true,
    }
}

/// The order of optional dates: no date first, then by date.
pub open spec fn optional_date_order(a: Option<(int, int, int)>, b: Option<(int, int, int)>) -> Ordering {
    match (a, b) {
        (None, None) => Ordering::Equal,
        (None, Some(_)) => Ordering::Less,
        (Some(_), None) => Ordering::Greater,
        (Some(x), Some(y)) => ymd_order(x, y),
    }
}

/// The order of listing keys: no header first, then headers by date as in
/// `compare_header_date`.
pub open spec fn key_cmp(a: Option<Option<(int, int, int)>>, b: Option<Option<(int, int, int)>>) -> Ordering {
    match (a, b) {
        (None, None) => Ordering::Equal,
        (None, Some(_)) => Ordering::Less,
        (Some(_), None) => Ordering::Greater,
        (Some(x), Some(y)) => optional_date_order(x, y),
    }
}

proof fn lemma_key_cmp_antisymmetric(a: Option<Option<(int, int, int)>>, b: Option<Option<(int, int, int)>>)
    ensures
        key_cmp(a, b) == reversed(key_cmp(b, a)),
{
}

proof fn lemma_key_cmp_greater_chain(
    a: Option<Option<(int, int, int)>>,
    b: Option<Option<(int, int, int)>>,
    c: Option<Option<(int, int, int)>>,
)
    requires
        key_cmp(a, b) == Ordering::Greater,
        key_cmp(b, c) != Ordering::Less,
    ensures
        key_cmp(a, c) == Ordering::Greater,
{
}

/// The view of a listing key.
pub open spec fn sort_key_view(k: Option<Option<Date>>) -> Option<Option<(int, int, int)>> {
    match k {
        None => None,
        Some(None) => Some(None),
        Some(Some(d)) => Some(Some(d.ymd())),
    }
}

fn compare_optional_dates(a: &Option<Date>, b: &Option<Date>) -> (r: Ordering)
    ensures
        r == optional_date_order(
            match *a {
                Some(d) => Some(d.ymd()),
                None => None,
            },
            match *b {
                Some(d) => Some(d.ymd()),
                None => None,
            },
        ),
{
    let by_date = |x: &Date, y: &Date| -> (o: Ordering)
        ensures
            o == ymd_order(x.ymd(), y.ymd()),
        { compare_dates(x, y) };
    compare_option(a, b, by_date)
}

/// Compares two listing keys.
fn compare_sort_keys(a: &Option<Option<Date>>, b: &Option<Option<Date>>) -> (r: Ordering)
    ensures
        r == key_cmp(sort_key_view(*a), sort_key_view(*b)),
{
    let by_dates = |x: &Option<Date>, y: &Option<Date>| -> (o: Ordering)
        ensures
            o == optional_date_order(
                match *x {
                    Some(d) => Some(d.ymd()),
                    None => None,
                },
                match *y {
                    Some(d) => Some(d.ymd()),
                    None => None,
                },
            ),
        { compare_optional_dates(x, y) };
    compare_option(a, b, by_dates)
}

/// The listing key of a post's metadata; a date that cannot be read is an
/// error that names it.
fn sort_key(meta: &PostMeta) -> (r: Result<Option<Option<Date>>, DateError>)
    ensures
        r is Ok <==> date_readable(meta.header),
        r matches Ok(k) ==> sort_key_view(k) == date_key(meta.header),
        r matches Err(e) ==> (meta.header matches Some(h) && h.date matches Some(d) && e.text@ == d@),
{
    match &meta.header {
        None => Ok(None),
        Some(h) => match &h.date {
            None => Ok(Some(None)),
            Some(d) => match parse_date(d.as_str(), DATE_FORMAT) {
                Some(date) => Ok(Some(Some(date))),
                None => Err(DateError { text: d.clone() }),
            },
        },
    }
}

/// A post's place in the index: its bucket and its position in the bucket.
pub open spec fn valid_position(index: CategoryIndex, p: (usize, usize)) -> bool {
    p.0 < index.buckets@.len() && p.1 < index.buckets@[p.0 as int].1@.len()
}

/// The metadata of the post at `p`.
pub open spec fn meta_at(index: CategoryIndex, p: (usize, usize)) -> PostMeta {
    index.buckets@[p.0 as int].1@[p.1 as int].meta
}

/// `p` comes before `q` in catalog order.
pub open spec fn position_before(p: (usize, usize), q: (usize, usize)) -> bool {
    p.0 < q.0 || (p.0 == q.0 && p.1 < q.1)
}

/// The dates of all posts in the index can be read.
pub open spec fn index_dates_readable(index: CategoryIndex) -> bool {
    forall|p: (usize, usize)| valid_position(index, p) ==> date_readable(#[trigger] meta_at(index, p).header)
}

/// `order` lists every post of the index once, latest first: posts with a
/// date by date, newest first, then posts with a header but no date, then
/// posts without a header.
pub open spec fn latest_first(index: CategoryIndex, order: Seq<(usize, usize)>) -> bool {
    &&& forall|x: int| 0 <= x < order.len() ==> valid_position(index, #[trigger] order[x])
    &&& forall|p: (usize, usize)| valid_position(index, p) ==> #[trigger] order.contains(p)
    &&& forall|x: int, y: int| 0 <= x < y < order.len() ==> order[x] != order[y]
    &&& forall|x: int, y: int|
        0 <= x < y < order.len() ==> key_cmp(
            date_key(meta_at(index, #[trigger] order[x]).header),
            date_key(meta_at(index, #[trigger] order[y]).header),
        ) != Ordering::Less
}

} // verus!

verus! {

/// `order` lists, latest first, the posts before `cur` in catalog order, and
/// `keys` holds their listing keys.
pub open spec fn listed_up_to(
    index: CategoryIndex,
    order: Seq<(usize, usize)>,
    keys: Seq<Option<Option<Date>>>,
    cur: (usize, usize),
) -> bool {
    &&& order.len() == keys.len()
    &&& forall|x: int|
        0 <= x < order.len() ==> sort_key_view(#[trigger] keys[x]) == date_key(meta_at(index, order[x]).header)
    &&& forall|x: int|
        0 <= x < order.len() ==> valid_position(index, #[trigger] order[x]) && position_before(order[x], cur)
    &&& forall|q: (usize, usize)|
        valid_position(index, q) && position_before(q, cur) ==> #[trigger] order.contains(q) && date_readable(
            meta_at(index, q).header,
        )
    &&& forall|x: int, y: int| 0 <= x < y < order.len() ==> order[x] != order[y]
    &&& forall|x: int, y: int|
        0 <= x < y < order.len() ==> key_cmp(sort_key_view(#[trigger] keys[x]), sort_key_view(#[trigger] keys[y]))
            != Ordering::Less
}

/// Where a post with listing key `key` goes in the sorted `keys`: after every
/// key that is not smaller.
fn insertion_slot(keys: &Vec<Option<Option<Date>>>, key: &Option<Option<Date>>) -> (r: usize)
    ensures
        r <= keys@.len(),
        forall|x: int| 0 <= x < r ==> key_cmp(sort_key_view(keys@[x]), sort_key_view(*key)) != Ordering::Less,
        r < keys@.len() ==> key_cmp(sort_key_view(keys@[r as int]), sort_key_view(*key)) == Ordering::Less,
{
    let mut s: usize = 0;
    while s < keys.len()
        invariant
            s <= keys@.len(),
            forall|x: int| 0 <= x < s ==> key_cmp(sort_key_view(keys@[x]), sort_key_view(*key)) != Ordering::Less,
        decreases keys@.len() - s,
    {
        if matches!(compare_sort_keys(&keys[s], key), Ordering::Less) {
            return s;
        }
        s = s + 1;
    }
    s
}

/// Lists the post at `pos`, the next in catalog order, in its place.
fn insert_listed(
    index: &CategoryIndex,
    order: &mut Vec<(usize, usize)>,
    keys: &mut Vec<Option<Option<Date>>>,
    pos: (usize, usize),
    key: Option<Option<Date>>,
)
    requires
        listed_up_to(*index, old(order)@, old(keys)@, pos),
        valid_position(*index, pos),
        pos.1 < usize::MAX,
        sort_key_view(key) == date_key(meta_at(*index, pos).header),
        date_readable(meta_at(*index, pos).header),
    ensures
        listed_up_to(*index, final(order)@, final(keys)@, (pos.0, (pos.1 + 1) as usize)),
{
    let ghost o = order@;
    let ghost ks = keys@;
    let ghost next: (usize, usize) = (pos.0, (pos.1 + 1) as usize);
    let s = insertion_slot(keys, &key);
    order.insert(s, pos);
    keys.insert(s, key);
    let ghost kn = sort_key_view(key);
    assert forall|x: int| 0 <= x < order@.len() implies order@[x] == (if x < s {
        o[x]
    } else if x == s {
        pos
    } else {
        o[x - 1]
    }) && keys@[x] == (if x < s {
        ks[x]
    } else if x == s {
        key
    } else {
        ks[x - 1]
    }) by {}
    assert forall|q: (usize, usize)|
        valid_position(*index, q) && position_before(q, next) implies #[trigger] order@.contains(q)
        && date_readable(meta_at(*index, q).header) by {
        if q != pos {
            assert(o.contains(q));
            let x = choose|x: int| 0 <= x < o.len() && o[x] == q;
            if x < s {
                assert(order@[x] == q);
            } else {
                assert(order@[x + 1] == q);
            }
        } else {
            assert(order@[s as int] == q);
        }
    }
    assert forall|x: int, y: int| 0 <= x < y < order@.len() implies order@[x] != order@[y] by {
        if x == s {
            assert(position_before(order@[y], pos));
        } else if y == s {
            assert(position_before(order@[x], pos));
        }
    }
    assert forall|x: int, y: int|
        0 <= x < y < order@.len() implies key_cmp(
        sort_key_view(#[trigger] keys@[x]),
        sort_key_view(#[trigger] keys@[y]),
    ) != Ordering::Less by {
        if x == s {
            lemma_key_cmp_antisymmetric(sort_key_view(ks[s as int]), kn);
            if y > s + 1 {
                lemma_key_cmp_greater_chain(kn, sort_key_view(ks[s as int]), sort_key_view(ks[y - 1]));
            }
        } else if y == s {
        } else if x < s && y > s {
        }
    }
    assert forall|x: int| 0 <= x < order@.len() implies sort_key_view(#[trigger] keys@[x]) == date_key(
        meta_at(*index, order@[x]).header,
    ) by {}
    assert forall|x: int| 0 <= x < order@.len() implies valid_position(*index, #[trigger] order@[x])
        && position_before(order@[x], next) by {
        if x != s {
            let ox = if x < s {
                x
            } else {
                x - 1
            };
            assert(position_before(o[ox], pos));
        }
    }
}

/// The posts of the index listed latest first, each as its bucket and its
/// position in the bucket: posts with a date by date, newest first, then
/// posts with a header but no date, then posts without a header. A date that
/// cannot be read is an error, which names it.
pub fn sorted_post_meta(index: &CategoryIndex) -> (r: Result<Vec<(usize, usize)>, DateError>)
    ensures
        r is Ok <==> index_dates_readable(*index),
        r matches Ok(order) ==> latest_first(*index, order@),
{
    let mut order: Vec<(usize, usize)> = Vec::new();
    let mut keys: Vec<Option<Option<Date>>> = Vec::new();
    let nb = index.buckets.len();
    let mut b: usize = 0;
    while b < nb
        invariant
            nb == index.buckets@.len(),
            b <= nb,
            listed_up_to(*index, order@, keys@, (b, 0)),
        decreases nb - b,
    {
        let np = index.buckets[b].1.len();
        let mut p: usize = 0;
        while p < np
            invariant
                nb == index.buckets@.len(),
                b < nb,
                np == index.buckets@[b as int].1@.len(),
                p <= np,
                listed_up_to(*index, order@, keys@, (b, p)),
            decreases np - p,
        {
            let key = match sort_key(&index.buckets[b].1[p].meta) {
                Ok(key) => key,
                Err(e) => {
                    assert(valid_position(*index, (b, p)));
                    assert(!date_readable(meta_at(*index, (b, p)).header));
                    return Err(e);
                },
            };
            insert_listed(index, &mut order, &mut keys, (b, p), key);
            p = p + 1;
        }
        assert forall|q: (usize, usize)|
            valid_position(*index, q) && position_before(q, ((b + 1) as usize, 0usize)) implies position_before(
            q,
            (b, p),
        ) by {}
        b = b + 1;
    }
    assert forall|q: (usize, usize)| valid_position(*index, q) implies position_before(q, (nb, 0usize)) by {}
    assert forall|x: int, y: int|
        0 <= x < y < order@.len() implies key_cmp(
        date_key(meta_at(*index, #[trigger] order@[x]).header),
        date_key(meta_at(*index, #[trigger] order@[y]).header),
    ) != Ordering::Less by {
        assert(sort_key_view(keys@[x]) == date_key(meta_at(*index, order@[x]).header));
        assert(sort_key_view(keys@[y]) == date_key(meta_at(*index, order@[y]).header));
    }
    assert forall|q: (usize, usize)| valid_position(*index, q) implies date_readable(
        #[trigger] meta_at(*index, q).header,
    ) by {
        assert(position_before(q, (nb, 0usize)));
        assert(order@.contains(q));
    }
    Ok(order)
}

} // verus!

verus! {

/// One step of a build. Posts are rendered with their content and header in
/// the render environment; after the posts of a category those two entries are
/// removed; a category page is rendered with the category and its posts,
/// which are removed again right after; the index is rendered last.
#[derive(Debug, Clone)]
pub enum RenderStep {
    /// render the post at this position of the index to `path`
    Post { bucket: usize, post: usize, path: String },
    /// remove the current post's content and header from the environment
    EndOfPosts,
    /// render the page of the category of this bucket to `path`
    Category { bucket: usize, path: String },
    /// render the index page to `path`
    Index { path: String },
}

/// A step as a mathematical value.
pub enum StepView {
    Post(int, int, Seq<char>),
    EndOfPosts,
    Category(int, Seq<char>),
    Index(Seq<char>),
}

pub open spec fn step_view(s: RenderStep) -> StepView {
    match s {
        RenderStep::Post { bucket, post, path } => StepView::Post(bucket as int, post as int, path@),
        RenderStep::EndOfPosts => StepView::EndOfPosts,
        RenderStep::Category { bucket, path } => StepView::Category(bucket as int, path@),
        RenderStep::Index { path } => StepView::Index(path@),
    }
}

pub open spec fn steps_view(s: Seq<RenderStep>) -> Seq<StepView> {
    s.map_values(|x: RenderStep| step_view(x))
}

/// The steps that render the first `n` posts of bucket `b`, each to its own path.
pub open spec fn post_steps(index: CategoryIndex, b: int, n: nat) -> Seq<StepView>
    decreases n,
{
    if n == 0 {
        Seq::empty()
    } else {
        post_steps(index, b, (n - 1) as nat).push(
            StepView::Post(b, n - 1, index.buckets@[b].1@[n - 1].meta.rendered_to@),
        )
    }
}

/// The steps of bucket `b`: its posts, the end of their scope, and the page of
/// its category where it has one, rendered to the category's name + `.html`.
pub open spec fn bucket_steps(index: CategoryIndex, b: int) -> Seq<StepView> {
    let posts = post_steps(index, b, index.buckets@[b].1@.len()).push(StepView::EndOfPosts);
    match index.key(b) {
        Some(c) => posts.push(StepView::Category(b, c + ".html"@)),
        None => posts,
    }
}

/// The steps of the first `n` buckets, in key order.
pub open spec fn buckets_steps(index: CategoryIndex, n: nat) -> Seq<StepView>
    decreases n,
{
    if n == 0 {
        Seq::empty()
    } else {
        buckets_steps(index, (n - 1) as nat) + bucket_steps(index, n - 1)
    }
}

/// The whole build: every bucket in key order, then the index page.
pub open spec fn site_steps(index: CategoryIndex) -> Seq<StepView> {
    buckets_steps(index, index.buckets@.len()).push(StepView::Index("index.html"@))
}

/// The steps that render the site from the index, in order.
pub fn render_plan(index: &CategoryIndex) -> (r: Vec<RenderStep>)
    ensures
        steps_view(r@) == site_steps(*index),
{
    let mut steps: Vec<RenderStep> = Vec::new();
    let nb = index.buckets.len();
    let mut b: usize = 0;
    assert(steps_view(steps@) =~= buckets_steps(*index, 0));
    while b < nb
        invariant
            nb == index.buckets@.len(),
            b <= nb,
            steps_view(steps@) == buckets_steps(*index, b as nat),
        decreases nb - b,
    {
        let ghost done = steps_view(steps@);
        let np = index.buckets[b].1.len();
        let mut p: usize = 0;
        while p < np
            invariant
                nb == index.buckets@.len(),
                b < nb,
                np == index.buckets@[b as int].1@.len(),
                p <= np,
                steps_view(steps@) == done + post_steps(*index, b as int, p as nat),
            decreases np - p,
        {
            let path = index.buckets[b].1[p].meta.rendered_to.clone();
            let ghost before = steps@;
            steps.push(RenderStep::Post { bucket: b, post: p, path });
            assert(steps_view(steps@) =~= steps_view(before).push(step_view(steps@.last())));
            assert(steps_view(steps@) =~= done + post_steps(*index, b as int, (p + 1) as nat));
            p = p + 1;
        }
        let ghost before = steps@;
        steps.push(RenderStep::EndOfPosts);
        assert(steps_view(steps@) =~= steps_view(before).push(StepView::EndOfPosts));
        match &index.buckets[b].0 {
            Some(c) => {
                let mut path = c.clone();
                path.append(".html");
                let ghost before = steps@;
                steps.push(RenderStep::Category { bucket: b, path });
                assert(steps_view(steps@) =~= steps_view(before).push(step_view(steps@.last())));
            },
            None => {},
        }
        assert(steps_view(steps@) =~= buckets_steps(*index, (b + 1) as nat));
        b = b + 1;
    }
    let ghost before = steps@;
    steps.push(RenderStep::Index { path: String::from_str("index.html") });
    assert(steps_view(steps@) =~= steps_view(before).push(step_view(steps@.last())));
    assert(steps_view(steps@) =~= site_steps(*index));
    steps
}

} // verus!
