//! The news feed: the address fetched and the listing of the
//! newest items. Fetching and feed parsing happen outside the
//! library; the items come back in as plain titles and addresses.
use vstd::prelude::*;
use crate::cli::NewsCmd;

verus! {

/// One feed item: its title and its address.
pub struct NewsItem {
    pub title: String,
    pub url: String,
}

/// The feed address read for `cmd`.
pub fn handle(cmd: &NewsCmd) -> (r: String)
    ensures
        r@ == "https://archlinux.org/feeds/news/"@,
{
    match cmd {
        NewsCmd::Latest => String::from_str("https://archlinux.org/feeds/news/"),
    }
}

/// One item's two report lines.
pub open spec fn spec_item_lines(it: NewsItem) -> Seq<char> {
    "- "@ + it.title@ + "\n  "@ + it.url@ + "\n"@
}

/// The report lines for the first `k` items.
pub open spec fn spec_items_upto(items: Seq<NewsItem>, k: int) -> Seq<char>
    decreases k,
{
    if k <= 0 || items.len() == 0 {
        Seq::empty()
    } else if k > items.len() {
        spec_items_upto(items, items.len() as int)
    } else {
        spec_items_upto(items, k - 1) + spec_item_lines(items[k - 1])
    }
}

/// The news report: the newest ten items, each as a title line and
/// an indented address line.
pub open spec fn spec_latest_report(items: Seq<NewsItem>) -> Seq<char> {
    spec_items_upto(items, 10)
}

/// Renders the news report from the feed's items, newest first.
#[verifier::loop_isolation(false)]
pub fn latest_report(items: &Vec<NewsItem>) -> (r: String)
    ensures
        r@ == spec_latest_report(items@),
{
    let ghost its = items@;
    let n = items.len();
    let m: usize = if n > 10 {
        10
    } else {
        n
    };
    let mut r = String::new();
    let mut i: usize = 0;
    proof {
        assert(spec_items_upto(its, 0) == Seq::<char>::empty());
        assert(r@ =~= spec_items_upto(its, 0));
    }
    while i < m
        invariant
            0 <= i <= m,
            m <= n,
            n == its.len(),
            m == if n > 10 {
                10int
            } else {
                n as int
            },
            r@ == spec_items_upto(its, i as int),
        decreases m - i,
    {
        r.append("- ");
        r.append(items[i].title.as_str());
        r.append("\n  ");
        r.append(items[i].url.as_str());
        r.append("\n");
        proof {
            assert(r@ =~= spec_items_upto(its, i as int + 1));
        }
        i = i + 1;
    }
    proof {
        if n > 10 {
            assert(r@ == spec_items_upto(its, 10));
        } else {
            assert(spec_latest_report(its) == spec_items_upto(its, n as int)) by {
                if n < 10 {
                    lemma_items_upto_stops(its, 10);
                }
            }
        }
    }
    r
}

/// Counting past the end adds nothing.
proof fn lemma_items_upto_stops(items: Seq<NewsItem>, k: int)
    requires
        k >= items.len(),
    ensures
        spec_items_upto(items, k) == spec_items_upto(items, items.len() as int),
    decreases k,
{
    if k > items.len() {
        if items.len() == 0 {
            assert(spec_items_upto(items, k) == Seq::<char>::empty());
            assert(spec_items_upto(items, 0) == Seq::<char>::empty());
        } else {
            assert(spec_items_upto(items, k) == spec_items_upto(items, items.len() as int));
        }
    }
}

} // verus!
