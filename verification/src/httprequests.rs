//! Query strings for the REST backend and the paging through its results.
use vstd::prelude::*;
use vstd::string::*;
use crate::model::{Link, Root, Task, tasks_view};
use crate::text::str_eq;

verus! {

/// The filter term `<field>+eq+<value>`.
pub open spec fn eq_term(field: Seq<char>, value: Seq<char>) -> Seq<char> {
    field + "+eq+"@ + value
}

/// The terms of one filter group: the field compared with each of its values.
pub open spec fn group_terms(group: (Seq<char>, Seq<Seq<char>>)) -> Seq<Seq<char>> {
    group.1.map_values(|v: Seq<char>| eq_term(group.0, v))
}

/// Two terms joined by ` AND `.
pub open spec fn and_join(a: Seq<char>, b: Seq<char>) -> Seq<char> {
    a + " AND "@ + b
}

/// Every term of `a` joined with every term of `b`, `a` in the outer order.
pub open spec fn cross(a: Seq<Seq<char>>, b: Seq<Seq<char>>) -> Seq<Seq<char>>
    decreases a.len(),
{
    if a.len() == 0 {
        seq![]
    } else {
        cross(a.drop_last(), b) + b.map_values(|y: Seq<char>| and_join(a.last(), y))
    }
}

/// The queries built from the filter groups: the cross product of the first
/// two groups' terms when there are at least two groups (later groups are not
/// used), else the terms of the only group.
pub open spec fn url_queries(groups: Seq<(Seq<char>, Seq<Seq<char>>)>) -> Seq<Seq<char>> {
    if groups.len() > 1 {
        cross(group_terms(groups[0]), group_terms(groups[1]))
    } else {
        group_terms(groups[0])
    }
}

/// The terms of one filter group.
fn group_terms_exec(group: &(String, Vec<String>)) -> (r: Vec<String>)
    ensures
        r.deep_view() == group_terms(group.deep_view()),
{
    let mut r: Vec<String> = Vec::new();
    let values = &group.1;
    for k in 0..values.len()
        invariant
            values == group.1,
            r.deep_view() == group_terms(group.deep_view()).subrange(0, k as int),
    {
        let mut e = group.0.clone();
        e.append("+eq+");
        e.append(values[k].as_str());
        let ghost prev = r.deep_view();
        let ghost ev = e@;
        r.push(e);
        proof {
            assert(r.deep_view() =~= prev.push(ev));
            assert(group.deep_view().1[k as int] == values@[k as int]@);
            assert(ev == eq_term(group.deep_view().0, group.deep_view().1[k as int]));
            assert(group_terms(group.deep_view()).subrange(0, k + 1) =~= group_terms(
                group.deep_view(),
            ).subrange(0, k as int).push(ev));
        }
    }
    assert(group_terms(group.deep_view()).subrange(0, values.len() as int) =~= group_terms(
        group.deep_view(),
    ));
    r
}

/// Builds the query terms for the REST backend from the configured filter
/// groups (`urlsnippets` is not used).
pub fn urlsbuilder(urlsnippets: &str, urlfilter: &Vec<(String, Vec<String>)>) -> (r: Vec<String>)
    requires
        urlfilter.len() >= 1,
    ensures
        r.deep_view() == url_queries(urlfilter.deep_view()),
{
    let first = group_terms_exec(&urlfilter[0]);
    if urlfilter.len() > 1 {
        let second = group_terms_exec(&urlfilter[1]);
        let mut combined: Vec<String> = Vec::new();
        let ghost a = first.deep_view();
        let ghost b = second.deep_view();
        for i in 0..first.len()
            invariant
                a == first.deep_view(),
                b == second.deep_view(),
                combined.deep_view() == cross(a.subrange(0, i as int), b),
        {
            proof {
                assert(a.subrange(0, i + 1).drop_last() =~= a.subrange(0, i as int));
            }
            for j in 0..second.len()
                invariant
                    a == first.deep_view(),
                    b == second.deep_view(),
                    i < a.len(),
                    combined.deep_view() == cross(a.subrange(0, i as int), b) + b.subrange(
                        0,
                        j as int,
                    ).map_values(|y: Seq<char>| and_join(a[i as int], y)),
            {
                let mut e = first[i].clone();
                e.append(" AND ");
                e.append(second[j].as_str());
                let ghost prev = combined.deep_view();
                let ghost ev = e@;
                combined.push(e);
                assert(combined.deep_view() =~= prev.push(ev));
                assert(ev == and_join(a[i as int], b[j as int]));
                assert(b.subrange(0, j + 1).map_values(|y: Seq<char>| and_join(a[i as int], y))
                    =~= b.subrange(0, j as int).map_values(|y: Seq<char>| and_join(a[i as int], y)).push(ev));
                assert(combined.deep_view() =~= cross(a.subrange(0, i as int), b) + b.subrange(
                    0,
                    j + 1,
                ).map_values(|y: Seq<char>| and_join(a[i as int], y)));
            }
            assert(b.subrange(0, b.len() as int) =~= b);
        }
        assert(a.subrange(0, a.len() as int) =~= a);
        combined
    } else {
        first
    }
}

/// The number of joined terms is the product of the two groups' sizes.
pub proof fn lemma_cross_len(a: Seq<Seq<char>>, b: Seq<Seq<char>>)
    ensures
        cross(a, b).len() == a.len() * b.len(),
    decreases a.len(),
{
    if a.len() > 0 {
        lemma_cross_len(a.drop_last(), b);
        assert(a.len() * b.len() == (a.len() - 1) * b.len() + b.len()) by (nonlinear_arith);
    }
}

/// Position `i * |b| + j` of the cross product joins `a[i]` with `b[j]`.
pub proof fn lemma_cross_index(a: Seq<Seq<char>>, b: Seq<Seq<char>>, i: int, j: int)
    requires
        0 <= i < a.len(),
        0 <= j < b.len(),
    ensures
        i * b.len() + j < cross(a, b).len(),
        cross(a, b)[i * b.len() + j] == and_join(a[i], b[j]),
    decreases a.len(),
{
    lemma_cross_len(a.drop_last(), b);
    lemma_cross_len(a, b);
    if i < a.len() - 1 {
        lemma_cross_index(a.drop_last(), b, i, j);
        assert(i * b.len() + j < (a.len() - 1) * b.len()) by (nonlinear_arith)
            requires
                i < a.len() - 1,
                j < b.len(),
        ;
    } else {
        assert(i * b.len() == (a.len() - 1) * b.len());
    }
    assert(i * b.len() + j < a.len() * b.len()) by (nonlinear_arith)
        requires
            i < a.len(),
            j < b.len(),
            0 <= j,
    ;
}

/// With two or more filter groups, the query list holds exactly one query for
/// each pair of a first-group value and a second-group value, at position
/// `i * |second| + j`; with one group, one query per value.
pub proof fn urlsbuilder_pairs(groups: Seq<(Seq<char>, Seq<Seq<char>>)>, i: int, j: int)
    requires
        groups.len() > 1,
        0 <= i < groups[0].1.len(),
        0 <= j < groups[1].1.len(),
    ensures
        url_queries(groups).len() == groups[0].1.len() * groups[1].1.len(),
        url_queries(groups)[i * groups[1].1.len() + j] == eq_term(groups[0].0, groups[0].1[i])
            + " AND "@ + eq_term(groups[1].0, groups[1].1[j]),
{
    let a = group_terms(groups[0]);
    let b = group_terms(groups[1]);
    lemma_cross_len(a, b);
    lemma_cross_index(a, b, i, j);
}

/// The link target that paging follows next: the `href` of the last link
/// whose `rel` is `next`, or `current` when there is none.
pub open spec fn next_link(links: Seq<(Seq<char>, Seq<char>)>, current: Seq<char>) -> Seq<char>
    decreases links.len(),
{
    if links.len() == 0 {
        current
    } else if links.last().0 == "next"@ {
        links.last().1
    } else {
        next_link(links.drop_last(), current)
    }
}

/// The view of a list of links.
pub open spec fn links_view(links: Seq<Link>) -> Seq<(Seq<char>, Seq<char>)> {
    links.map_values(|l: Link| l@)
}

/// The progress figure of a result page that paging reports: its count
/// divided by its total result (integer division). A page whose total result
/// is 0 has none: the division would fail.
pub fn page_progress(data: &Root) -> (q: u64)
    requires
        data.total_result != 0,
    ensures
        q == data.count / data.total_result,
{
    data.count / data.total_result
}

/// Takes one result page: appends its tasks to `alltasks`, moves `url` to the
/// page's `next` link, and returns whether the backend has more results. The
/// page's progress figure (`page_progress`) is reported with it, so its total
/// result must not be 0.
pub fn fetchdatass(data: Root, alltasks: &mut Vec<Task>, url: &mut String) -> (more: bool)
    requires
        data.total_result != 0,
    ensures
        more == data.has_more,
        tasks_view(final(alltasks)@) == tasks_view(old(alltasks)@) + tasks_view(data.tasks@),
        final(url)@ == next_link(links_view(data.links@), old(url)@),
{
    let Root { tasks, has_more, links, count: _, total_result: _ } = data;
    let ghost old_tasks = alltasks@;
    let mut tasks = tasks;
    let ghost added = tasks@;
    alltasks.append(&mut tasks);
    assert(tasks_view(alltasks@) =~= tasks_view(old_tasks) + tasks_view(added));
    let ghost lv = links_view(links@);
    for k in 0..links.len()
        invariant
            lv == links_view(links@),
            url@ == next_link(lv.subrange(0, k as int), old(url)@),
    {
        proof {
            assert(lv.subrange(0, k + 1).drop_last() =~= lv.subrange(0, k as int));
        }
        if str_eq(links[k].rel.as_str(), "next") {
            *url = links[k].href.clone();
        }
    }
    assert(lv.subrange(0, links@.len() as int) =~= lv);
    has_more
}

/// Paging through the backend: the next page is requested at `url`, and
/// pages are requested until `fetched` pages have come back.
#[derive(Debug)]
pub struct PageFetch {
    pub url: String,
    pub fetched: u32,
    pub count: u32,
    pub tasks: Vec<Task>,
}

impl PageFetch {
    /// Starts paging at `url`, to request `fetched` pages.
    pub fn new(url: &str, fetched: u32) -> (p: PageFetch)
        ensures
            p.url@ == url@,
            p.fetched == fetched,
            p.count == 0,
            p.tasks@.len() == 0,
    {
        PageFetch { url: url.to_owned(), fetched, count: 0, tasks: Vec::new() }
    }

    /// The URL of the next page to request, or `None` once `fetched` pages
    /// have been taken.
    pub fn next_url(&self) -> (r: Option<String>)
        ensures
            r is Some <==> self.count < self.fetched,
            r matches Some(u) ==> u@ == self.url@,
    {
        if self.count < self.fetched {
            Some(self.url.clone())
        } else {
            None
        }
    }

    /// Takes a page that came back (see `fetchdatass`) and returns its
    /// progress figure, for the caller to report; the page's `has_more` does
    /// not stop the paging.
    pub fn on_page(&mut self, page: Root) -> (progress: u64)
        requires
            old(self).count < old(self).fetched,
            page.total_result != 0,
        ensures
            progress == page.count / page.total_result,
            final(self).count == old(self).count + 1,
            final(self).fetched == old(self).fetched,
            tasks_view(final(self).tasks@) == tasks_view(old(self).tasks@) + tasks_view(
                page.tasks@,
            ),
            final(self).url@ == next_link(links_view(page.links@), old(self).url@),
    {
        let progress = page_progress(&page);
        let _more = fetchdatass(page, &mut self.tasks, &mut self.url);
        self.count = self.count + 1;
        progress
    }
}

} // verus!
