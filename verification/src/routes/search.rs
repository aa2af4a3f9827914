//! The answer to a quick search.

use vstd::prelude::*;

use crate::numbers::{self, write_i64};
use crate::services::search_service::SearchResult;

verus! {

/// What a quick search asks for.
#[derive(Debug)]
pub struct SearchQuery {
    pub q: String,
}

/// One found disc.
pub open spec fn result_item(r: SearchResult) -> Seq<char> {
    "<li><a href=\"/disc/"@ + numbers::int_text(r.id as int) + "/\">"@ + r.title@ + " <small>("@ + r.system@
        + ")</small></a></li>"@
}

/// The found discs.
pub open spec fn result_items(v: Seq<SearchResult>) -> Seq<char>
    decreases v.len(),
{
    if v.len() == 0 {
        Seq::empty()
    } else {
        result_items(v.drop_last()) + result_item(v.last())
    }
}

/// The list of found discs, or that there are none.
pub open spec fn results_html(v: Seq<SearchResult>) -> Seq<char> {
    "<ul class=\"search-results\">"@ + (if v.len() == 0 {
        "<li>No results found</li>"@
    } else {
        result_items(v)
    }) + "</ul>"@
}

fn write_item(r: &SearchResult) -> (s: String)
    ensures
        s@ == result_item(*r),
{
    let mut s = String::from_str("<li><a href=\"/disc/");
    s.append(write_i64(r.id as i64).as_str());
    s.append("/\">");
    s.append(r.title.as_str());
    s.append(" <small>(");
    s.append(r.system.as_str());
    s.append(")</small></a></li>");
    s
}

/// The answer to a quick search.
pub fn render_results(results: &Vec<SearchResult>) -> (r: String)
    ensures
        r@ == results_html(results@),
{
    let mut html = String::from_str("<ul class=\"search-results\">");
    let ghost start = html@;
    assert(results@.take(0) =~= Seq::<SearchResult>::empty());
    assert(start + Seq::empty() =~= start);
    for i in 0..results.len()
        invariant
            html@ == start + result_items(results@.take(i as int)),
    {
        proof {
            assert(results@.take(i + 1).drop_last() =~= results@.take(i as int));
        }
        let item = write_item(&results[i]);
        let ghost before = result_items(results@.take(i as int));
        html.append(item.as_str());
        assert(html@ =~= start + (before + item@));
    }
    assert(results@.take(results@.len() as int) =~= results@);
    if results.len() == 0 {
        html.append("<li>No results found</li>");
        assert(html@ =~= start + "<li>No results found</li>"@);
    }
    html.append("</ul>");
    html
}

} // verus!
