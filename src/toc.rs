//! Tables of contents: nested lists rebuilt from the flat list of headings.

use crate::markdown::{headings_view, HeadingView, TocHeading};
use vstd::prelude::*;
use vstd::string::StringExecFns;

verus! {

/// The fragments of markup that a table of contents is made of, and whether
/// the first heading (most often the page title) is left out.
#[derive(Debug, Clone)]
pub struct TocOptions {
    pub open_list: String,
    pub close_list: String,
    pub open_list_item: String,
    pub close_list_item: String,
    pub skip_first: bool,
}

/// Markup, and how many lists it opened and closed.
pub struct TocProgress {
    pub html: Seq<char>,
    pub opened: nat,
    pub closed: nat,
}

/// One heading added to a table of contents. A list opens where the heading
/// is deeper than the one before it (or than level 0, where it is the first),
/// and one list closes where it is shallower; one level at a time, whatever
/// the distance. Then the heading's text is written as an item.
pub open spec fn toc_step(st: TocProgress, h: HeadingView, o: TocOptions) -> TocProgress {
    let prev = match h.prev_level {
        Some(p) => p,
        None => 0,
    };
    let opens = h.level > prev;
    let closes = h.prev_level is Some && h.level < prev;
    let html = st.html + (if opens {
        o.open_list@
    } else {
        Seq::empty()
    }) + (if closes {
        o.close_list@
    } else {
        Seq::empty()
    }) + o.open_list_item@ + h.text + o.close_list_item@;
    TocProgress {
        html,
        opened: if opens {
            st.opened + 1
        } else {
            st.opened
        },
        closed: if closes {
            st.closed + 1
        } else {
            st.closed
        },
    }
}

/// The headings added one by one.
pub open spec fn toc_items(hs: Seq<HeadingView>, o: TocOptions) -> TocProgress
    decreases hs.len(),
{
    if hs.len() == 0 {
        TocProgress { html: Seq::empty(), opened: 0, closed: 0 }
    } else {
        toc_step(toc_items(hs.drop_last(), o), hs.last(), o)
    }
}

/// `s` written `n` times.
pub open spec fn repeat_text(s: Seq<char>, n: nat) -> Seq<char>
    decreases n,
{
    if n == 0 {
        Seq::empty()
    } else {
        repeat_text(s, (n - 1) as nat) + s
    }
}

/// The lists still open: those opened less those closed, if that is positive.
pub open spec fn still_open(p: TocProgress) -> nat {
    if p.opened > p.closed {
        (p.opened - p.closed) as nat
    } else {
        0
    }
}

/// The headings that a table of contents lists.
pub open spec fn toc_headings(hs: Seq<HeadingView>, o: TocOptions) -> Seq<HeadingView> {
    if o.skip_first && hs.len() > 0 {
        hs.drop_first()
    } else {
        hs
    }
}

/// The table of contents of `hs`: each listed heading in turn, then a closing
/// fragment for each list still open.
pub open spec fn toc_html(hs: Seq<HeadingView>, o: TocOptions) -> Seq<char> {
    let p = toc_items(toc_headings(hs, o), o);
    p.html + repeat_text(o.close_list@, still_open(p))
}

/// Builds the table of contents of one post from its headings.
#[derive(Debug, Clone)]
pub struct TocBuilder {
    pub headings: Vec<TocHeading>,
}

impl TocBuilder {
    /// The table of contents of the post's headings, with the given markup.
    pub fn call(&self, options: &TocOptions) -> (r: String)
        ensures
            r@ == toc_html(headings_view(self.headings@), *options),
    {
        let ghost hs = headings_view(self.headings@);
        let ghost listed = toc_headings(hs, *options);
        let n = self.headings.len();
        let start: usize = if options.skip_first && n > 0 {
            1
        } else {
            0
        };
        assert(listed =~= hs.skip(start as int));
        let mut html = String::new();
        let mut opened: usize = 0;
        let mut closed: usize = 0;
        let mut i: usize = start;
        assert(listed.take(0) =~= Seq::<HeadingView>::empty());
        while i < n
            invariant
                n == self.headings@.len(),
                hs == headings_view(self.headings@),
                listed =~= hs.skip(start as int),
                start <= i <= n,
                opened <= i - start,
                closed <= i - start,
                toc_items(listed.take(i - start), *options) == (TocProgress {
                    html: html@,
                    opened: opened as nat,
                    closed: closed as nat,
                }),
            decreases n - i,
        {
            let h = &self.headings[i];
            assert(listed.take(i - start + 1).drop_last() =~= listed.take(i - start));
            assert(listed.take(i - start + 1).last() == h.view());
            let prev: u8 = match h.prev_level {
                Some(p) => p,
                None => 0,
            };
            if h.level > prev {
                html.append(options.open_list.as_str());
                opened = opened + 1;
            }
            if h.prev_level.is_some() && h.level < prev {
                html.append(options.close_list.as_str());
                closed = closed + 1;
            }
            html.append(options.open_list_item.as_str());
            html.append(h.text.as_str());
            html.append(options.close_list_item.as_str());
            i = i + 1;
        }
        assert(listed.take(n - start) =~= listed);
        let ghost items = html@;
        let left: usize = if opened > closed {
            opened - closed
        } else {
            0
        };
        let mut k: usize = 0;
        while k < left
            invariant
                k <= left,
                html@ == items + repeat_text(options.close_list@, k as nat),
            decreases left - k,
        {
            html.append(options.close_list.as_str());
            k = k + 1;
            assert(html@ =~= items + repeat_text(options.close_list@, k as nat));
        }
        html
    }
}

/// Leaving out the first heading is the same as building the table of
/// contents from the headings after it: the first heading has no part in the
/// nesting either.
pub proof fn lemma_skip_first_omits_first_heading(hs: Seq<HeadingView>, o: TocOptions)
    requires
        o.skip_first,
        hs.len() > 0,
    ensures
        toc_html(hs, o) == toc_html(hs.drop_first(), TocOptions { skip_first: false, ..o }),
{
    let o2 = TocOptions { skip_first: false, ..o };
    assert(toc_headings(hs.drop_first(), o2) == hs.drop_first());
    lemma_toc_items_fragments_only(hs.drop_first(), o, o2);
}

/// The items depend on the fragments of markup alone.
proof fn lemma_toc_items_fragments_only(hs: Seq<HeadingView>, a: TocOptions, b: TocOptions)
    requires
        a.open_list == b.open_list,
        a.close_list == b.close_list,
        a.open_list_item == b.open_list_item,
        a.close_list_item == b.close_list_item,
    ensures
        toc_items(hs, a) == toc_items(hs, b),
    decreases hs.len(),
{
    if hs.len() > 0 {
        lemma_toc_items_fragments_only(hs.drop_last(), a, b);
    }
}

} // verus!
