//! Aggregation of a user's repositories into counts, stars, languages and the most starred
//! repository, and assembly of the statistics the service answers with.
use vstd::prelude::*;

use crate::text::{cap_u32, cap_u64};
use crate::types::{
    GitHubLanguage, GitHubStats, GqlUser, LangEdge, MostStarredRepo, Repo, RepoContribution,
};

verus! {

// ---------------------------------------------------------------------------------------
// The model
// ---------------------------------------------------------------------------------------

/// The names of a sequence of repositories.
pub open spec fn repo_names(s: Seq<Repo>) -> Seq<Seq<char>> {
    s.map_values(|r: Repo| r.name@)
}

/// The repositories that are counted from `s`: the first repository of each name, in the
/// order in which they come.
pub open spec fn kept(s: Seq<Repo>) -> Seq<Repo>
    decreases s.len(),
{
    if s.len() == 0 {
        seq![]
    } else {
        let k = kept(s.drop_last());
        if repo_names(k).contains(s.last().name@) {
            k
        } else {
            k.push(s.last())
        }
    }
}

/// Sum of the stars of `s`.
pub open spec fn star_sum(s: Seq<Repo>) -> nat
    decreases s.len(),
{
    if s.len() == 0 {
        0
    } else {
        star_sum(s.drop_last()) + s.last().stargazer_count as nat
    }
}

/// Total bytes over a list of language edges.
pub open spec fn edge_bytes_total(es: Seq<LangEdge>) -> nat
    decreases es.len(),
{
    if es.len() == 0 {
        0
    } else {
        edge_bytes_total(es.drop_last()) + es.last().size as nat
    }
}

/// The language edges of the counted repositories that have any language bytes at all,
/// repository after repository.
pub open spec fn counted_edges(k: Seq<Repo>) -> Seq<LangEdge>
    decreases k.len(),
{
    if k.len() == 0 {
        seq![]
    } else {
        let prev = counted_edges(k.drop_last());
        let es = k.last().languages.edges@;
        if edge_bytes_total(es) > 0 {
            prev + es
        } else {
            prev
        }
    }
}

/// The language names of a list of edges.
pub open spec fn edge_names(es: Seq<LangEdge>) -> Seq<Seq<char>> {
    es.map_values(|e: LangEdge| e.node.name@)
}

/// The distinct elements of `s`, in the order of their first appearance.
pub open spec fn distinct_in_order(s: Seq<Seq<char>>) -> Seq<Seq<char>>
    decreases s.len(),
{
    if s.len() == 0 {
        seq![]
    } else {
        let d = distinct_in_order(s.drop_last());
        if d.contains(s.last()) {
            d
        } else {
            d.push(s.last())
        }
    }
}

/// The bytes that the edges `es` attribute to language `lang`.
pub open spec fn lang_bytes_in(es: Seq<LangEdge>, lang: Seq<char>) -> nat
    decreases es.len(),
{
    if es.len() == 0 {
        0
    } else {
        lang_bytes_in(es.drop_last(), lang) + (if es.last().node.name@ == lang {
            es.last().size as nat
        } else {
            0nat
        })
    }
}

/// `m` is the repository at `i` of `k`, it has more stars than any before it and no fewer
/// than any after it, and it has at least one star.
pub open spec fn top_at(m: MostStarredRepo, k: Seq<Repo>, i: int) -> bool {
    &&& 0 <= i < k.len()
    &&& k[i].name@ == m.name@
    &&& k[i].url@ == m.url@
    &&& k[i].stargazer_count == m.stars
    &&& m.stars > 0
    &&& forall|j: int| 0 <= j < i ==> #[trigger] k[j].stargazer_count < m.stars
    &&& forall|j: int| 0 <= j < k.len() ==> #[trigger] k[j].stargazer_count <= m.stars
}

/// `top` is the first repository of `k` with the most stars, or nothing when no repository
/// of `k` has a star.
pub open spec fn is_top(top: Option<MostStarredRepo>, k: Seq<Repo>) -> bool {
    match top {
        None => forall|j: int| 0 <= j < k.len() ==> #[trigger] k[j].stargazer_count == 0,
        Some(m) => exists|i: int| top_at(m, k, i),
    }
}

/// `x` comes before `y` when ranking the totals `t`: more bytes first, and among equal
/// totals the language seen first.
pub open spec fn ranked_before(t: Seq<u64>, x: int, y: int) -> bool {
    t[x] > t[y] || (t[x] == t[y] && x < y)
}

/// `out` lists every language of the edges `es` once, with its bytes (saturated at
/// `u64::MAX`), most bytes first, and languages with equal bytes in the order in which
/// they first appear in `es`.
pub open spec fn languages_ranked(out: Seq<(String, u64)>, es: Seq<LangEdge>) -> bool {
    let order = distinct_in_order(edge_names(es));
    &&& out.len() == order.len()
    &&& forall|i: int|
        0 <= i < out.len() ==> order.contains(#[trigger] out[i].0@) && out[i].1 == cap_u64(
            lang_bytes_in(es, out[i].0@),
        )
    &&& forall|i: int, j: int| 0 <= i < j < out.len() ==> #[trigger] out[i].0@ != #[trigger] out[j].0@
    &&& forall|i: int, j: int| 0 <= i < j < out.len() ==> #[trigger] out[i].1 >= #[trigger] out[j].1
    &&& forall|i: int, j: int, p: int, q: int|
        0 <= i < j < out.len() && 0 <= p < order.len() && 0 <= q < order.len() && #[trigger] order[p]
            == #[trigger] out[i].0@ && #[trigger] order[q] == #[trigger] out[j].0@ && out[i].1
            == out[j].1 ==> p < q
}

// ---------------------------------------------------------------------------------------
// Lemmas on the model
// ---------------------------------------------------------------------------------------

/// The distinct elements list each element of `s` exactly once.
pub proof fn lemma_distinct_in_order(s: Seq<Seq<char>>)
    ensures
        forall|i: int, j: int|
            0 <= i < distinct_in_order(s).len() && 0 <= j < distinct_in_order(s).len() && i != j
                ==> distinct_in_order(s)[i] != distinct_in_order(s)[j],
        forall|x: Seq<char>| distinct_in_order(s).contains(x) <==> s.contains(x),
    decreases s.len(),
{
    if s.len() > 0 {
        let p = s.drop_last();
        let l = s.last();
        lemma_distinct_in_order(p);
        let d = distinct_in_order(p);
        assert(s == p.push(l));
        assert forall|x: Seq<char>| distinct_in_order(s).contains(x) <==> s.contains(x) by {
            if x == l {
                assert(s[s.len() - 1] == x);
                if !d.contains(l) {
                    assert(distinct_in_order(s)[d.len() as int] == x);
                }
            } else {
                if s.contains(x) {
                    let i = choose|i: int| 0 <= i < s.len() && s[i] == x;
                    assert(p[i] == x);
                }
                if p.contains(x) {
                    let i = choose|i: int| 0 <= i < p.len() && p[i] == x;
                    assert(s[i] == x);
                }
                if distinct_in_order(s).contains(x) {
                    let i = choose|i: int|
                        0 <= i < distinct_in_order(s).len() && distinct_in_order(s)[i] == x;
                    assert(d[i] == x);
                }
                if d.contains(x) {
                    let i = choose|i: int| 0 <= i < d.len() && d[i] == x;
                    assert(distinct_in_order(s)[i] == x);
                }
            }
        }
        if !d.contains(l) {
            assert forall|i: int, j: int|
                0 <= i < distinct_in_order(s).len() && 0 <= j < distinct_in_order(s).len() && i
                    != j implies distinct_in_order(s)[i] != distinct_in_order(s)[j] by {
                if i == d.len() {
                    assert(d[j] != l) by {
                        assert(d.contains(d[j]));
                    }
                } else if j == d.len() {
                    assert(d[i] != l) by {
                        assert(d.contains(d[i]));
                    }
                }
            }
        }
    }
}

/// A language that no edge names has no bytes.
pub proof fn lemma_lang_bytes_absent(es: Seq<LangEdge>, lang: Seq<char>)
    requires
        !edge_names(es).contains(lang),
    ensures
        lang_bytes_in(es, lang) == 0,
    decreases es.len(),
{
    if es.len() > 0 {
        let p = es.drop_last();
        if edge_names(p).contains(lang) {
            let i = choose|i: int| 0 <= i < edge_names(p).len() && edge_names(p)[i] == lang;
            assert(edge_names(es)[i] == lang);
        }
        assert(edge_names(es)[es.len() - 1] == es.last().node.name@);
        lemma_lang_bytes_absent(p, lang);
    }
}

/// Appending one edge appends its language name.
proof fn lemma_edge_names_push(es: Seq<LangEdge>, e: LangEdge)
    ensures
        edge_names(es.push(e)) == edge_names(es).push(e.node.name@),
        es.push(e).drop_last() == es,
{
    assert(edge_names(es.push(e)) =~= edge_names(es).push(e.node.name@));
    assert(es.push(e).drop_last() =~= es);
}

/// Counting keeps exactly one repository per name: the names of the counted repositories
/// are the distinct names of all repositories, in order of first appearance. So the count is
/// the number of distinct names.
pub proof fn lemma_kept_names(s: Seq<Repo>)
    ensures
        repo_names(kept(s)) == distinct_in_order(repo_names(s)),
    decreases s.len(),
{
    if s.len() > 0 {
        let p = s.drop_last();
        lemma_kept_names(p);
        assert(repo_names(s).drop_last() == repo_names(p));
        assert(repo_names(s).last() == s.last().name@);
        let k = kept(p);
        if !repo_names(k).contains(s.last().name@) {
            assert(repo_names(k.push(s.last())) == repo_names(k).push(s.last().name@));
        }
    }
}

/// Listing again repositories whose names were already listed changes nothing that is
/// counted, whatever else those repositories hold.
pub proof fn lemma_repeated_repos_ignored(s: Seq<Repo>, t: Seq<Repo>)
    requires
        forall|j: int| 0 <= j < t.len() ==> repo_names(s).contains(#[trigger] t[j].name@),
    ensures
        kept(s + t) == kept(s),
    decreases t.len(),
{
    if t.len() > 0 {
        let t0 = t.drop_last();
        assert forall|j: int| 0 <= j < t0.len() implies repo_names(s).contains(#[trigger] t0[j].name@) by {
            assert(t0[j] == t[j]);
        }
        lemma_repeated_repos_ignored(s, t0);
        assert((s + t).drop_last() == s + t0);
        assert((s + t).last() == t.last());
        lemma_kept_names(s);
        lemma_distinct_in_order(repo_names(s));
        assert(repo_names(s).contains(t[t.len() - 1].name@));
    }
}

// ---------------------------------------------------------------------------------------
// Accumulation
// ---------------------------------------------------------------------------------------

/// The languages seen so far, in first-appearance order, with their byte totals.
pub open spec fn languages_tallied(names: Seq<String>, totals: Seq<u64>, es: Seq<LangEdge>) -> bool {
    let order = distinct_in_order(edge_names(es));
    &&& names.len() == order.len()
    &&& totals.len() == order.len()
    &&& forall|i: int|
        0 <= i < order.len() ==> #[trigger] names[i]@ == order[i] && totals[i] == cap_u64(
            lang_bytes_in(es, order[i]),
        )
}

/// Whether any edge carries bytes.
fn has_language_bytes(es: &Vec<LangEdge>) -> (b: bool)
    ensures
        b == (edge_bytes_total(es@) > 0),
{
    let mut found = false;
    let mut i: usize = 0;
    while i < es.len()
        invariant
            i <= es@.len(),
            found == (edge_bytes_total(es@.take(i as int)) > 0),
        decreases es@.len() - i,
    {
        proof {
            assert(es@.take(i + 1).drop_last() == es@.take(i as int));
        }
        if es[i].size > 0 {
            found = true;
        }
        i = i + 1;
    }
    proof {
        assert(es@.take(i as int) == es@);
    }
    found
}

/// How one more edge changes the bytes of each language.
proof fn lemma_lang_bytes_push(es: Seq<LangEdge>, e: LangEdge, x: Seq<char>)
    ensures
        lang_bytes_in(es.push(e), x) == lang_bytes_in(es, x) + (if x == e.node.name@ {
            e.size as nat
        } else {
            0nat
        }),
{
    assert(es.push(e).drop_last() == es);
    assert(es.push(e).last() == e);
}

/// An edge of a language already tallied adds its bytes to that language only.
proof fn lemma_tally_existing(
    names: Seq<String>,
    old_totals: Seq<u64>,
    new_totals: Seq<u64>,
    es: Seq<LangEdge>,
    e: LangEdge,
    p: int,
)
    requires
        languages_tallied(names, old_totals, es),
        0 <= p < names.len(),
        names[p]@ == e.node.name@,
        new_totals.len() == old_totals.len(),
        forall|i: int| 0 <= i < new_totals.len() && i != p ==> new_totals[i] == old_totals[i],
        new_totals[p] == (if old_totals[p] + e.size > u64::MAX {
            u64::MAX as int
        } else {
            old_totals[p] + e.size
        }),
    ensures
        languages_tallied(names, new_totals, es.push(e)),
{
    let order = distinct_in_order(edge_names(es));
    let es2 = es.push(e);
    lemma_edge_names_push(es, e);
    lemma_distinct_in_order(edge_names(es));
    assert(edge_names(es2).drop_last() == edge_names(es));
    assert(edge_names(es2).last() == e.node.name@);
    assert(order[p] == e.node.name@);
    assert(order.contains(e.node.name@));
    assert(distinct_in_order(edge_names(es2)) == order);
    assert forall|i: int| 0 <= i < order.len() implies #[trigger] names[i]@ == order[i]
        && new_totals[i] == cap_u64(lang_bytes_in(es2, order[i])) by {
        lemma_lang_bytes_push(es, e, order[i]);
        assert(names[i]@ == order[i]);
        assert(old_totals[i] == cap_u64(lang_bytes_in(es, order[i])));
        if i != p {
            assert(order[i] != order[p]);
            assert(new_totals[i] == cap_u64(lang_bytes_in(es2, order[i])));
        } else {
            assert(new_totals[i] == cap_u64(lang_bytes_in(es2, order[i])));
        }
    }
    assert(languages_tallied(names, new_totals, es2));
}

/// An edge of a language not tallied yet appends that language with the edge's bytes.
proof fn lemma_tally_new(
    old_names: Seq<String>,
    old_totals: Seq<u64>,
    es: Seq<LangEdge>,
    e: LangEdge,
    name: String,
)
    requires
        languages_tallied(old_names, old_totals, es),
        forall|q: int| 0 <= q < old_names.len() ==> #[trigger] old_names[q]@ != e.node.name@,
        name@ == e.node.name@,
    ensures
        languages_tallied(old_names.push(name), old_totals.push(e.size), es.push(e)),
{
    let order = distinct_in_order(edge_names(es));
    let es2 = es.push(e);
    let names = old_names.push(name);
    let totals = old_totals.push(e.size);
    lemma_edge_names_push(es, e);
    lemma_distinct_in_order(edge_names(es));
    assert(!order.contains(e.node.name@)) by {
        if order.contains(e.node.name@) {
            let i = choose|i: int| 0 <= i < order.len() && order[i] == e.node.name@;
            assert(old_names[i]@ == e.node.name@);
        }
    }
    assert(!edge_names(es).contains(e.node.name@));
    lemma_lang_bytes_absent(es, e.node.name@);
    assert(edge_names(es2).drop_last() == edge_names(es));
    assert(edge_names(es2).last() == e.node.name@);
    let order2 = distinct_in_order(edge_names(es2));
    assert(order2 == order.push(e.node.name@));
    assert forall|i: int| 0 <= i < order2.len() implies #[trigger] names[i]@ == order2[i]
        && totals[i] == cap_u64(lang_bytes_in(es2, order2[i])) by {
        lemma_lang_bytes_push(es, e, order2[i]);
        if i < order.len() {
            assert(order[i] != e.node.name@) by {
                assert(order.contains(order[i]));
            }
            assert(names[i] == old_names[i]);
            assert(totals[i] == old_totals[i]);
            assert(order2[i] == order[i]);
            assert(old_names[i]@ == order[i]);
            assert(old_totals[i] == cap_u64(lang_bytes_in(es, order[i])));
            assert(totals[i] == cap_u64(lang_bytes_in(es2, order2[i])));
        } else {
            assert(order2[i] == e.node.name@);
            assert(totals[i] == e.size);
            assert(totals[i] == cap_u64(lang_bytes_in(es2, order2[i])));
        }
    }
    assert(languages_tallied(names, totals, es2));
}

/// Adds one edge's bytes to the tally of its language.
fn tally_edge(names: &mut Vec<String>, totals: &mut Vec<u64>, e: &LangEdge, Ghost(es): Ghost<
    Seq<LangEdge>,
>)
    requires
        languages_tallied(old(names)@, old(totals)@, es),
    ensures
        languages_tallied(final(names)@, final(totals)@, es.push(*e)),
{
    let mut p: usize = 0;
    let mut found = false;
    while p < names.len() && !found
        invariant
            languages_tallied(names@, totals@, es),
            p <= names@.len(),
            found ==> p < names@.len() && names@[p as int]@ == e.node.name@,
            !found ==> forall|q: int| 0 <= q < p ==> #[trigger] names@[q]@ != e.node.name@,
        decreases names@.len() - p + (if found { 0int } else { 1int }),
    {
        if names[p] == e.node.name {
            found = true;
        } else {
            p = p + 1;
        }
    }
    let ghost old_totals = totals@;
    let ghost old_names = names@;
    if found {
        let t = totals[p].saturating_add(e.size);
        totals.set(p, t);
        proof {
            lemma_tally_existing(names@, old_totals, totals@, es, *e, p as int);
        }
    } else {
        let name = e.node.name.clone();
        proof {
            lemma_tally_new(old_names, old_totals, es, *e, name);
        }
        names.push(name);
        totals.push(e.size);
    }
}

/// Adds the bytes of a repository's edges, in order.
fn tally_edges(names: &mut Vec<String>, totals: &mut Vec<u64>, edges: &Vec<LangEdge>, Ghost(
    es,
): Ghost<Seq<LangEdge>>)
    requires
        languages_tallied(old(names)@, old(totals)@, es),
    ensures
        languages_tallied(final(names)@, final(totals)@, es + edges@),
{
    let mut j: usize = 0;
    while j < edges.len()
        invariant
            j <= edges@.len(),
            languages_tallied(names@, totals@, es + edges@.take(j as int)),
        decreases edges@.len() - j,
    {
        proof {
            assert(es + edges@.take(j + 1) == (es + edges@.take(j as int)).push(edges@[j as int]));
        }
        tally_edge(names, totals, &edges[j], Ghost(es + edges@.take(j as int)));
        j = j + 1;
    }
    proof {
        assert(edges@.take(j as int) == edges@);
    }
}

/// What has been accumulated over the repositories seen so far.
struct Tally {
    seen: Vec<String>,
    stars: u32,
    top: Option<MostStarredRepo>,
    lang_names: Vec<String>,
    lang_totals: Vec<u64>,
}

impl Tally {
    /// The tally summarises the repositories `s`.
    spec fn summarises(&self, s: Seq<Repo>) -> bool {
        let k = kept(s);
        &&& self.seen@.len() == k.len()
        &&& forall|i: int| 0 <= i < k.len() ==> #[trigger] self.seen@[i]@ == k[i].name@
        &&& self.stars == cap_u32(star_sum(k))
        &&& is_top(self.top, k)
        &&& languages_tallied(self.lang_names@, self.lang_totals@, counted_edges(k))
    }

    fn absorb(&mut self, r: &Repo, Ghost(s): Ghost<Seq<Repo>>)
        requires
            old(self).summarises(s),
        ensures
            final(self).summarises(s.push(*r)),
    {
        let ghost k = kept(s);
        let ghost s2 = s.push(*r);
        proof {
            assert(s2.drop_last() == s);
            assert(s2.last() == *r);
        }
        let mut i: usize = 0;
        let mut found = false;
        while i < self.seen.len() && !found
            invariant
                self.summarises(s),
                k == kept(s),
                i <= self.seen@.len(),
                found ==> i < self.seen@.len() && self.seen@[i as int]@ == r.name@,
                !found ==> forall|q: int| 0 <= q < i ==> #[trigger] self.seen@[q]@ != r.name@,
            decreases self.seen@.len() - i + (if found { 0int } else { 1int }),
        {
            if self.seen[i] == r.name {
                found = true;
            } else {
                i = i + 1;
            }
        }
        if found {
            proof {
                assert(repo_names(k)[i as int] == r.name@);
                assert(repo_names(k).contains(r.name@));
                assert(kept(s2) == k);
            }
            return;
        }
        proof {
            assert(!repo_names(k).contains(r.name@)) by {
                if repo_names(k).contains(r.name@) {
                    let q = choose|q: int| 0 <= q < repo_names(k).len() && repo_names(k)[q] == r.name@;
                    assert(self.seen@[q]@ == r.name@);
                }
            }
            assert(kept(s2) == k.push(*r));
            assert(k.push(*r).drop_last() == k);
            assert(k.push(*r).last() == *r);
        }
        let ghost k2 = k.push(*r);
        self.seen.push(r.name.clone());
        self.stars = self.stars.saturating_add(r.stargazer_count);
        let best: u32 = match &self.top {
            Some(m) => m.stars,
            None => 0,
        };
        if r.stargazer_count > best {
            self.top = Some(
                MostStarredRepo {
                    name: r.name.clone(),
                    stars: r.stargazer_count,
                    url: r.url.clone(),
                },
            );
            proof {
                let m = self.top.unwrap();
                assert forall|j: int| 0 <= j < k.len() implies #[trigger] k2[j].stargazer_count
                    < m.stars by {
                    assert(k2[j] == k[j]);
                    match old(self).top {
                        Some(om) => {
                            let w = choose|w: int| top_at(om, k, w);
                            assert(k[j].stargazer_count <= om.stars);
                        },
                        None => {
                            assert(k[j].stargazer_count == 0);
                        },
                    }
                }
                assert(top_at(m, k2, k.len() as int));
            }
        } else {
            proof {
                let tp = self.top;
                match tp {
                    Some(m) => {
                        let w = choose|w: int| top_at(m, k, w);
                        assert forall|j: int| 0 <= j < w implies #[trigger] k2[j].stargazer_count
                            < m.stars by {
                            assert(k2[j] == k[j]);
                        }
                        assert forall|j: int| 0 <= j < k2.len() implies #[trigger] k2[j].stargazer_count
                            <= m.stars by {
                            if j < k.len() {
                                assert(k2[j] == k[j]);
                            }
                        }
                        assert(top_at(m, k2, w));
                    },
                    None => {
                        assert forall|j: int| 0 <= j < k2.len() implies #[trigger] k2[j].stargazer_count
                            == 0 by {
                            if j < k.len() {
                                assert(k2[j] == k[j]);
                            }
                        }
                    },
                }
            }
        }
        let counts = has_language_bytes(&r.languages.edges);
        proof {
            assert(counted_edges(k2) == if counts {
                counted_edges(k) + r.languages.edges@
            } else {
                counted_edges(k)
            });
        }
        if counts {
            tally_edges(
                &mut self.lang_names,
                &mut self.lang_totals,
                &r.languages.edges,
                Ghost(counted_edges(k)),
            );
        }
        proof {
            assert forall|q: int| 0 <= q < k2.len() implies #[trigger] self.seen@[q]@ == k2[q].name@ by {
                if q < k.len() {
                    assert(k2[q] == k[q]);
                }
            }
        }
    }
}

/// Inserting position `k`, larger than every position ranked so far, right before the first
/// position with fewer bytes keeps the ranking.
proof fn lemma_insert_ranked(t: Seq<u64>, ord: Seq<usize>, p: int, k: int)
    requires
        0 <= k < t.len(),
        k <= usize::MAX,
        0 <= p <= ord.len(),
        forall|a: int| 0 <= a < ord.len() ==> #[trigger] ord[a] < k,
        forall|a: int, b: int| 0 <= a < b < ord.len() ==> #[trigger] ord[a] != #[trigger] ord[b],
        forall|a: int, b: int|
            0 <= a < b < ord.len() ==> ranked_before(t, #[trigger] ord[a] as int, #[trigger] ord[b] as int),
        forall|a: int| 0 <= a < p ==> t[#[trigger] ord[a] as int] >= t[k],
        p < ord.len() ==> t[ord[p] as int] < t[k],
    ensures
        ({
            let n = ord.insert(p, k as usize);
            &&& n.len() == ord.len() + 1
            &&& forall|a: int| 0 <= a < n.len() ==> #[trigger] n[a] < k + 1
            &&& forall|a: int, b: int| 0 <= a < b < n.len() ==> #[trigger] n[a] != #[trigger] n[b]
            &&& forall|a: int, b: int|
                0 <= a < b < n.len() ==> ranked_before(t, #[trigger] n[a] as int, #[trigger] n[b] as int)
        }),
{
    let n = ord.insert(p, k as usize);
    ord.insert_ensures(p, k as usize);
    assert forall|a: int| 0 <= a < n.len() implies #[trigger] n[a] < k + 1 by {
        if a < p {
            assert(n[a] == ord[a]);
        } else if a > p {
            assert(n[a] == ord[a - 1]);
        }
    }
    assert forall|a: int, b: int| 0 <= a < b < n.len() implies #[trigger] n[a] != #[trigger] n[b]
        && ranked_before(t, n[a] as int, n[b] as int) by {
        if b < p {
            assert(n[a] == ord[a] && n[b] == ord[b]);
        } else if b == p {
            assert(n[a] == ord[a]);
        } else if a == p {
            assert(n[b] == ord[b - 1]);
            if b - 1 > p {
                assert(ranked_before(t, ord[p] as int, ord[b - 1] as int));
            }
        } else if a < p {
            assert(n[a] == ord[a] && n[b] == ord[b - 1]);
        } else {
            assert(n[a] == ord[a - 1] && n[b] == ord[b - 1]);
        }
    }
}

/// Orders the positions of `totals`: more bytes first, and among equal totals the earlier
/// position first.
fn rank_order(totals: &Vec<u64>) -> (ord: Vec<usize>)
    ensures
        ord@.len() == totals@.len(),
        forall|a: int| 0 <= a < ord@.len() ==> #[trigger] ord@[a] < totals@.len(),
        forall|a: int, b: int| 0 <= a < b < ord@.len() ==> #[trigger] ord@[a] != #[trigger] ord@[b],
        forall|a: int, b: int|
            0 <= a < b < ord@.len() ==> ranked_before(
                totals@,
                #[trigger] ord@[a] as int,
                #[trigger] ord@[b] as int,
            ),
{
    let mut ord: Vec<usize> = Vec::new();
    let mut k: usize = 0;
    while k < totals.len()
        invariant
            k <= totals@.len(),
            ord@.len() == k,
            forall|a: int| 0 <= a < ord@.len() ==> #[trigger] ord@[a] < k,
            forall|a: int, b: int| 0 <= a < b < ord@.len() ==> #[trigger] ord@[a] != #[trigger] ord@[b],
            forall|a: int, b: int|
                0 <= a < b < ord@.len() ==> ranked_before(
                    totals@,
                    #[trigger] ord@[a] as int,
                    #[trigger] ord@[b] as int,
                ),
        decreases totals@.len() - k,
    {
        let tk = totals[k];
        let mut p: usize = 0;
        while p < ord.len() && totals[ord[p]] >= tk
            invariant
                k < totals@.len(),
                tk == totals@[k as int],
                p <= ord@.len(),
                forall|a: int| 0 <= a < ord@.len() ==> #[trigger] ord@[a] < k,
                forall|a: int| 0 <= a < p ==> totals@[#[trigger] ord@[a] as int] >= tk,
            decreases ord@.len() - p,
        {
            p = p + 1;
        }
        let ghost old_ord = ord@;
        ord.insert(p, k);
        proof {
            lemma_insert_ranked(totals@, old_ord, p as int, k as int);
        }
        k = k + 1;
    }
    ord
}

/// Counts the distinct repositories of the three lists (the first repository of each name
/// is counted; later ones with the same name are skipped), sums their stars (saturating at
/// `u32::MAX`), totals the bytes of each language over the counted repositories that have
/// language bytes (saturating at `u64::MAX`), ranked most bytes first, and finds the first
/// repository with the most stars, when any has a star.
#[verifier::spinoff_prover]
pub fn process_repos(private: &[Repo], public: &[Repo], contributed: &[Repo]) -> (res: (
    u32,
    u32,
    Vec<(String, u64)>,
    Option<MostStarredRepo>,
))
    ensures
        ({
            let k = kept(private@ + public@ + contributed@);
            &&& res.0 == k.len() as u32
            &&& res.1 == cap_u32(star_sum(k))
            &&& languages_ranked(res.2@, counted_edges(k))
            &&& is_top(res.3, k)
        }),
{
    let mut t = Tally {
        seen: Vec::new(),
        stars: 0,
        top: None,
        lang_names: Vec::new(),
        lang_totals: Vec::new(),
    };
    proof {
        assert(kept(Seq::<Repo>::empty()) == Seq::<Repo>::empty());
        assert(distinct_in_order(edge_names(Seq::<LangEdge>::empty())) == Seq::<Seq<char>>::empty());
    }
    let mut i: usize = 0;
    while i < private.len()
        invariant
            i <= private@.len(),
            t.summarises(private@.take(i as int)),
        decreases private@.len() - i,
    {
        proof {
            assert(private@.take(i + 1) == private@.take(i as int).push(private@[i as int]));
        }
        t.absorb(&private[i], Ghost(private@.take(i as int)));
        i = i + 1;
    }
    proof {
        assert(private@.take(i as int) == private@);
    }
    let ghost base1 = private@;
    let mut i: usize = 0;
    while i < public.len()
        invariant
            i <= public@.len(),
            t.summarises(base1 + public@.take(i as int)),
        decreases public@.len() - i,
    {
        proof {
            assert(base1 + public@.take(i + 1) == (base1 + public@.take(i as int)).push(
                public@[i as int],
            ));
        }
        t.absorb(&public[i], Ghost(base1 + public@.take(i as int)));
        i = i + 1;
    }
    proof {
        assert(public@.take(i as int) == public@);
    }
    let ghost base2 = private@ + public@;
    let mut i: usize = 0;
    while i < contributed.len()
        invariant
            i <= contributed@.len(),
            t.summarises(base2 + contributed@.take(i as int)),
        decreases contributed@.len() - i,
    {
        proof {
            assert(base2 + contributed@.take(i + 1) == (base2 + contributed@.take(i as int)).push(
                contributed@[i as int],
            ));
        }
        t.absorb(&contributed[i], Ghost(base2 + contributed@.take(i as int)));
        i = i + 1;
    }
    proof {
        assert(contributed@.take(i as int) == contributed@);
    }
    let ghost all = private@ + public@ + contributed@;
    let ghost k = kept(all);
    let ghost es = counted_edges(k);
    let ghost order = distinct_in_order(edge_names(es));
    let ord = rank_order(&t.lang_totals);
    let mut langs: Vec<(String, u64)> = Vec::new();
    let mut a: usize = 0;
    while a < ord.len()
        invariant
            languages_tallied(t.lang_names@, t.lang_totals@, es),
            order == distinct_in_order(edge_names(es)),
            ord@.len() == t.lang_totals@.len(),
            forall|x: int| 0 <= x < ord@.len() ==> #[trigger] ord@[x] < t.lang_totals@.len(),
            a <= ord@.len(),
            langs@.len() == a,
            forall|x: int|
                0 <= x < a ==> #[trigger] langs@[x].0@ == t.lang_names@[ord@[x] as int]@ && langs@[x].1
                    == t.lang_totals@[ord@[x] as int],
        decreases ord@.len() - a,
    {
        let at = ord[a];
        let ghost before = langs@;
        langs.push((t.lang_names[at].clone(), t.lang_totals[at]));
        proof {
            assert forall|x: int| 0 <= x < a + 1 implies #[trigger] langs@[x].0@
                == t.lang_names@[ord@[x] as int]@ && langs@[x].1 == t.lang_totals@[ord@[x] as int] by {
                if x < a {
                    assert(langs@[x] == before[x]);
                }
            }
        }
        a = a + 1;
    }
    proof {
        lemma_distinct_in_order(edge_names(es));
        let out = langs@;
        assert forall|x: int| 0 <= x < out.len() implies order.contains(#[trigger] out[x].0@)
            && out[x].1 == cap_u64(lang_bytes_in(es, out[x].0@)) by {
            assert(langs@[x].0@ == t.lang_names@[ord@[x] as int]@);
            assert(order[ord@[x] as int] == out[x].0@);
        }
        assert forall|x: int, y: int| 0 <= x < y < out.len() implies #[trigger] out[x].0@
            != #[trigger] out[y].0@ by {
            assert(ord@[x] != ord@[y]);
            assert(langs@[x].0@ == t.lang_names@[ord@[x] as int]@);
            assert(langs@[y].0@ == t.lang_names@[ord@[y] as int]@);
            assert(order[ord@[x] as int] == out[x].0@);
            assert(order[ord@[y] as int] == out[y].0@);
        }
        assert forall|x: int, y: int| 0 <= x < y < out.len() implies #[trigger] out[x].1
            >= #[trigger] out[y].1 by {
            assert(ranked_before(t.lang_totals@, ord@[x] as int, ord@[y] as int));
            assert(langs@[x].0@ == t.lang_names@[ord@[x] as int]@);
            assert(langs@[y].0@ == t.lang_names@[ord@[y] as int]@);
        }
        assert forall|x: int, y: int, p: int, q: int|
            0 <= x < y < out.len() && 0 <= p < order.len() && 0 <= q < order.len()
                && #[trigger] order[p] == #[trigger] out[x].0@ && #[trigger] order[q]
                == #[trigger] out[y].0@ && out[x].1 == out[y].1 implies p < q by {
            assert(ranked_before(t.lang_totals@, ord@[x] as int, ord@[y] as int));
            assert(langs@[x].0@ == t.lang_names@[ord@[x] as int]@);
            assert(langs@[y].0@ == t.lang_names@[ord@[y] as int]@);
            assert(order[ord@[x] as int] == out[x].0@);
            assert(order[ord@[y] as int] == out[y].0@);
            assert(p == ord@[x]);
            assert(q == ord@[y]);
        }
    }
    let cnt = #[verifier::truncate] (t.seen.len() as u32);
    (cnt, t.stars, langs, t.top)
}

// ---------------------------------------------------------------------------------------
// Statistics
// ---------------------------------------------------------------------------------------

/// Sum of the byte totals of a ranked language list.
pub open spec fn bytes_total(langs: Seq<(String, u64)>) -> nat
    decreases langs.len(),
{
    if langs.len() == 0 {
        0
    } else {
        bytes_total(langs.drop_last()) + langs.last().1 as nat
    }
}

/// `bytes` as a whole percentage of `total`, rounded to the nearest integer with halves
/// rounded up; 0 when there are no bytes at all.
pub open spec fn percent_of(bytes: nat, total: nat) -> nat {
    if total == 0 {
        0
    } else {
        ((100 * bytes) / total + (if 2 * ((100 * bytes) % total) >= total {
            1int
        } else {
            0int
        })) as nat
    }
}

/// The languages that make up at least half a percent of all bytes, in the order given, with
/// their percentages.
pub open spec fn shown_languages(langs: Seq<(String, u64)>, total: nat) -> Seq<(Seq<char>, nat)>
    decreases langs.len(),
{
    if langs.len() == 0 {
        seq![]
    } else {
        let prev = shown_languages(langs.drop_last(), total);
        let p = percent_of(langs.last().1 as nat, total);
        if p > 0 {
            prev.push((langs.last().0@, p))
        } else {
            prev
        }
    }
}

/// A share rounds to the nearest whole percent, halves up: `percent_of(bytes, total)` is the
/// `p` with `p - 1/2 <= 100 * bytes / total < p + 1/2`.
pub proof fn lemma_percent_rounds_to_nearest(bytes: nat, total: nat)
    requires
        total > 0,
    ensures
        2 * percent_of(bytes, total) * total <= 200 * bytes + total,
        200 * bytes + total < 2 * percent_of(bytes, total) * total + 2 * total,
{
    let q = (100 * bytes) / total;
    let r = (100 * bytes) % total;
    assert(100 * bytes == q * total + r && 0 <= r < total) by (nonlinear_arith)
        requires
            total > 0,
            q == (100 * bytes) / total,
            r == (100 * bytes) % total,
    ;
    if 2 * r >= total {
        assert(2 * (q + 1) * total <= 200 * bytes + total && 200 * bytes + total < 2 * (q + 1)
            * total + 2 * total) by (nonlinear_arith)
            requires
                100 * bytes == q * total + r,
                0 <= r < total,
                2 * r >= total,
        ;
    } else {
        assert(2 * q * total <= 200 * bytes + total && 200 * bytes + total < 2 * q * total + 2
            * total) by (nonlinear_arith)
            requires
                100 * bytes == q * total + r,
                0 <= r,
                2 * r < total,
        ;
    }
}

/// The languages shown are exactly those whose share rounds to at least one percent, however
/// many there are: each of them is shown under its name with its share, each entry shown is
/// one of them, and there are as many entries as such languages.
pub proof fn lemma_shown_languages_complete(langs: Seq<(String, u64)>, total: nat)
    ensures
        forall|i: int|
            0 <= i < langs.len() && percent_of(#[trigger] langs[i].1 as nat, total) > 0 ==> exists|
                j: int,
            |
                0 <= j < shown_languages(langs, total).len() && #[trigger] shown_languages(
                    langs,
                    total,
                )[j] == (langs[i].0@, percent_of(langs[i].1 as nat, total)),
        forall|j: int|
            0 <= j < shown_languages(langs, total).len() ==> exists|i: int|
                0 <= i < langs.len() && percent_of(#[trigger] langs[i].1 as nat, total) > 0
                    && #[trigger] shown_languages(langs, total)[j] == (
                    langs[i].0@,
                    percent_of(langs[i].1 as nat, total),
                ),
        shown_languages(langs, total).len() == langs.filter(
            |e: (String, u64)| percent_of(e.1 as nat, total) > 0,
        ).len(),
    decreases langs.len(),
{
    reveal(Seq::filter);
    if langs.len() > 0 {
        let p = langs.drop_last();
        let e = langs.last();
        lemma_shown_languages_complete(p, total);
        let prev = shown_languages(p, total);
        let cur = shown_languages(langs, total);
        let pct = percent_of(e.1 as nat, total);
        assert(langs.filter(|e: (String, u64)| percent_of(e.1 as nat, total) > 0) == (if pct > 0 {
            p.filter(|e: (String, u64)| percent_of(e.1 as nat, total) > 0).push(e)
        } else {
            p.filter(|e: (String, u64)| percent_of(e.1 as nat, total) > 0)
        }));
        assert forall|i: int|
            0 <= i < langs.len() && percent_of(#[trigger] langs[i].1 as nat, total) > 0 implies exists|
                j: int,
            |
                0 <= j < cur.len() && #[trigger] cur[j] == (
                    langs[i].0@,
                    percent_of(langs[i].1 as nat, total),
                ) by {
            if i < langs.len() - 1 {
                assert(p[i] == langs[i]);
                assert(percent_of(p[i].1 as nat, total) > 0);
                let j = choose|j: int|
                    0 <= j < prev.len() && #[trigger] prev[j] == (
                        p[i].0@,
                        percent_of(p[i].1 as nat, total),
                    );
                assert(cur[j] == prev[j]);
            } else {
                assert(cur[prev.len() as int] == (langs[i].0@, percent_of(langs[i].1 as nat, total)));
            }
        }
        assert forall|j: int| 0 <= j < cur.len() implies exists|i: int|
            0 <= i < langs.len() && percent_of(#[trigger] langs[i].1 as nat, total) > 0
                && #[trigger] cur[j] == (langs[i].0@, percent_of(langs[i].1 as nat, total)) by {
            if j < prev.len() {
                let i = choose|i: int|
                    0 <= i < p.len() && percent_of(#[trigger] p[i].1 as nat, total) > 0
                        && #[trigger] prev[j] == (p[i].0@, percent_of(p[i].1 as nat, total));
                assert(p[i] == langs[i]);
                assert(cur[j] == prev[j]);
            } else {
                let i = langs.len() - 1;
                assert(langs[i] == e);
                assert(cur[j] == (langs[i].0@, percent_of(langs[i].1 as nat, total)));
            }
        }
    }
}

/// The names and percentages of a language list.
pub open spec fn language_view(ls: Seq<GitHubLanguage>) -> Seq<(Seq<char>, nat)> {
    ls.map_values(|g: GitHubLanguage| (g.name@, g.percentage as nat))
}

/// The name shown for a user: the profile name when there is one, else the login.
pub open spec fn shown_name(name: Option<String>, login: Seq<char>) -> Seq<char> {
    match name {
        Some(n) => n@,
        None => login,
    }
}

/// One entry never exceeds the total.
proof fn lemma_entry_within_total(langs: Seq<(String, u64)>, i: int)
    requires
        0 <= i < langs.len(),
    ensures
        langs[i].1 <= bytes_total(langs),
    decreases langs.len(),
{
    if i < langs.len() - 1 {
        lemma_entry_within_total(langs.drop_last(), i);
        assert(langs.drop_last()[i] == langs[i]);
    }
}

/// A share of a total is at most a hundred percent.
pub proof fn lemma_percent_at_most_100(bytes: nat, total: nat)
    requires
        bytes <= total,
    ensures
        percent_of(bytes, total) <= 100,
{
    if total > 0 {
        let q = (100 * bytes) / total;
        let r = (100 * bytes) % total;
        assert(100 * bytes == q * total + r && 0 <= r < total) by (nonlinear_arith)
            requires
                total > 0,
                q == (100 * bytes) / total,
                r == (100 * bytes) % total,
        ;
        assert(q <= 100 && (q == 100 ==> r == 0)) by (nonlinear_arith)
            requires
                100 * bytes == q * total + r,
                0 <= r < total,
                bytes <= total,
                q >= 0,
        ;
    }
}

/// The shown name: the profile name when present, else the login.
pub fn display_name(name: Option<String>, login: &str) -> (r: String)
    ensures
        r@ == shown_name(name, login@),
{
    match name {
        Some(n) => n,
        None => login.to_owned(),
    }
}

/// The repositories of a list of contributions, in order.
pub open spec fn contributed_repos(cs: Seq<RepoContribution>) -> Seq<Repo> {
    cs.map_values(|c: RepoContribution| c.repository)
}

/// The repositories counted for a user: the owned and collaborated ones, then the public
/// ones, then those contributed to.
pub open spec fn user_repos(u: GqlUser) -> Seq<Repo> {
    u.repositories.nodes@ + u.public_repositories.nodes@ + contributed_repos(
        u.contributions_collection.commit_contributions_by_repository@,
    )
}

/// The language edges of a list of repositories, repository after repository.
pub open spec fn all_edges(repos: Seq<Repo>) -> Seq<LangEdge>
    decreases repos.len(),
{
    if repos.len() == 0 {
        seq![]
    } else {
        all_edges(repos.drop_last()) + repos.last().languages.edges@
    }
}

/// The text of an optional string.
pub open spec fn optional_text(o: Option<String>) -> Option<Seq<char>> {
    match o {
        Some(s) => Some(s@),
        None => None,
    }
}

/// Some edge of `es` is for language `name`.
pub open spec fn names_language(es: Seq<LangEdge>, name: Seq<char>) -> bool {
    exists|i: int| 0 <= i < es.len() && #[trigger] es[i].node.name@ == name
}

/// The colour of language `name`: the one given with the first edge of `es` for it (none
/// when that edge gives none, or when no edge is for it).
pub open spec fn color_in(es: Seq<LangEdge>, name: Seq<char>) -> Option<Seq<char>>
    decreases es.len(),
{
    if es.len() == 0 {
        None
    } else if names_language(es.drop_last(), name) {
        color_in(es.drop_last(), name)
    } else if es.last().node.name@ == name {
        optional_text(es.last().node.color)
    } else {
        None
    }
}

/// One more edge names a language when it, or an earlier edge, does.
proof fn lemma_names_language_push(es: Seq<LangEdge>, e: LangEdge, name: Seq<char>)
    ensures
        names_language(es.push(e), name) == (names_language(es, name) || e.node.name@ == name),
        es.push(e).drop_last() == es,
        es.push(e).last() == e,
{
    let n = es.push(e);
    assert(n.drop_last() == es);
    if names_language(es, name) {
        let i = choose|i: int| 0 <= i < es.len() && #[trigger] es[i].node.name@ == name;
        assert(n[i] == es[i]);
    }
    if e.node.name@ == name {
        assert(n[es.len() as int] == e);
    }
    if names_language(n, name) {
        let i = choose|i: int| 0 <= i < n.len() && #[trigger] n[i].node.name@ == name;
        if i < es.len() {
            assert(n[i] == es[i]);
        }
    }
}

fn copy_color(c: &Option<String>) -> (r: Option<String>)
    ensures
        optional_text(r) == optional_text(*c),
{
    match c {
        Some(s) => Some(s.clone()),
        None => None,
    }
}

/// Goes on looking for the colour of `name` through the edges `es`, after the edges `base`.
fn scan_edges(
    es: &Vec<LangEdge>,
    name: &String,
    found: bool,
    color: Option<String>,
    Ghost(base): Ghost<Seq<LangEdge>>,
) -> (r: (bool, Option<String>))
    requires
        found == names_language(base, name@),
        found ==> optional_text(color) == color_in(base, name@),
    ensures
        r.0 == names_language(base + es@, name@),
        r.0 ==> optional_text(r.1) == color_in(base + es@, name@),
{
    let mut found = found;
    let mut color = color;
    let mut i: usize = 0;
    while i < es.len()
        invariant
            i <= es@.len(),
            found == names_language(base + es@.take(i as int), name@),
            found ==> optional_text(color) == color_in(base + es@.take(i as int), name@),
        decreases es@.len() - i,
    {
        let ghost prev = base + es@.take(i as int);
        proof {
            assert(base + es@.take(i + 1) == prev.push(es@[i as int]));
            lemma_names_language_push(prev, es@[i as int], name@);
        }
        if !found && es[i].node.name == *name {
            found = true;
            color = copy_color(&es[i].node.color);
        }
        i = i + 1;
    }
    proof {
        assert(es@.take(i as int) == es@);
    }
    (found, color)
}

/// The edges of one more repository follow those of the repositories before it.
proof fn lemma_all_edges_push(repos: Seq<Repo>, r: Repo)
    ensures
        all_edges(repos.push(r)) == all_edges(repos) + r.languages.edges@,
{
    assert(repos.push(r).drop_last() == repos);
    assert(repos.push(r).last() == r);
}

/// The edges of two lists of repositories, one after the other.
proof fn lemma_all_edges_concat(a: Seq<Repo>, b: Seq<Repo>)
    ensures
        all_edges(a + b) == all_edges(a) + all_edges(b),
    decreases b.len(),
{
    if b.len() == 0 {
        assert(a + b == a);
        assert(all_edges(b) == Seq::<LangEdge>::empty());
        assert(all_edges(a) + all_edges(b) == all_edges(a));
    } else {
        let b0 = b.drop_last();
        lemma_all_edges_concat(a, b0);
        assert(a + b == (a + b0).push(b.last()));
        assert(b == b0.push(b.last()));
        lemma_all_edges_push(a + b0, b.last());
        lemma_all_edges_push(b0, b.last());
    }
}

/// Goes on looking for the colour of `name` through the edges of `repos`, after the edges
/// `base`.
fn scan_repos(
    repos: &Vec<Repo>,
    name: &String,
    found: bool,
    color: Option<String>,
    Ghost(base): Ghost<Seq<LangEdge>>,
) -> (r: (bool, Option<String>))
    requires
        found == names_language(base, name@),
        found ==> optional_text(color) == color_in(base, name@),
    ensures
        r.0 == names_language(base + all_edges(repos@), name@),
        r.0 ==> optional_text(r.1) == color_in(base + all_edges(repos@), name@),
{
    let mut found = found;
    let mut color = color;
    let mut i: usize = 0;
    proof {
        assert(repos@.take(0) == Seq::<Repo>::empty());
        assert(base + all_edges(repos@.take(0)) == base);
    }
    while i < repos.len()
        invariant
            i <= repos@.len(),
            found == names_language(base + all_edges(repos@.take(i as int)), name@),
            found ==> optional_text(color) == color_in(base + all_edges(repos@.take(i as int)), name@),
        decreases repos@.len() - i,
    {
        proof {
            assert(repos@.take(i + 1) == repos@.take(i as int).push(repos@[i as int]));
            lemma_all_edges_push(repos@.take(i as int), repos@[i as int]);
            assert(base + all_edges(repos@.take(i + 1)) == (base + all_edges(repos@.take(i as int)))
                + repos@[i as int].languages.edges@);
        }
        let (f, c) = scan_edges(
            &repos[i].languages.edges,
            name,
            found,
            color,
            Ghost(base + all_edges(repos@.take(i as int))),
        );
        found = f;
        color = c;
        i = i + 1;
    }
    proof {
        assert(repos@.take(i as int) == repos@);
    }
    (found, color)
}

/// Goes on looking for the colour of `name` through the edges of the repositories
/// contributed to, after the edges `base`.
fn scan_contributions(
    cs: &Vec<RepoContribution>,
    name: &String,
    found: bool,
    color: Option<String>,
    Ghost(base): Ghost<Seq<LangEdge>>,
) -> (r: (bool, Option<String>))
    requires
        found == names_language(base, name@),
        found ==> optional_text(color) == color_in(base, name@),
    ensures
        r.0 == names_language(base + all_edges(contributed_repos(cs@)), name@),
        r.0 ==> optional_text(r.1) == color_in(base + all_edges(contributed_repos(cs@)), name@),
{
    let ghost rs = contributed_repos(cs@);
    let mut found = found;
    let mut color = color;
    let mut i: usize = 0;
    proof {
        assert(rs.take(0) == Seq::<Repo>::empty());
        assert(base + all_edges(rs.take(0)) == base);
    }
    while i < cs.len()
        invariant
            rs == contributed_repos(cs@),
            i <= cs@.len(),
            found == names_language(base + all_edges(rs.take(i as int)), name@),
            found ==> optional_text(color) == color_in(base + all_edges(rs.take(i as int)), name@),
        decreases cs@.len() - i,
    {
        proof {
            assert(rs[i as int] == cs@[i as int].repository);
            assert(rs.take(i + 1) == rs.take(i as int).push(rs[i as int]));
            lemma_all_edges_push(rs.take(i as int), rs[i as int]);
            assert(base + all_edges(rs.take(i + 1)) == (base + all_edges(rs.take(i as int)))
                + rs[i as int].languages.edges@);
        }
        let (f, c) = scan_edges(
            &cs[i].repository.languages.edges,
            name,
            found,
            color,
            Ghost(base + all_edges(rs.take(i as int))),
        );
        found = f;
        color = c;
        i = i + 1;
    }
    proof {
        assert(rs.take(i as int) == rs);
    }
    (found, color)
}

/// The colour of language `name` among the edges of a user's repositories.
fn language_color(user: &GqlUser, name: &String) -> (c: Option<String>)
    ensures
        optional_text(c) == color_in(all_edges(user_repos(*user)), name@),
{
    let ghost e1 = all_edges(user.repositories.nodes@);
    let ghost e2 = all_edges(user.public_repositories.nodes@);
    let ghost e3 = all_edges(
        contributed_repos(user.contributions_collection.commit_contributions_by_repository@),
    );
    proof {
        assert(Seq::<LangEdge>::empty() + e1 == e1);
        assert(!names_language(Seq::<LangEdge>::empty(), name@));
        lemma_all_edges_concat(
            user.repositories.nodes@,
            user.public_repositories.nodes@,
        );
        lemma_all_edges_concat(
            user.repositories.nodes@ + user.public_repositories.nodes@,
            contributed_repos(user.contributions_collection.commit_contributions_by_repository@),
        );
        assert(all_edges(user_repos(*user)) == e1 + e2 + e3);
    }
    let (f1, c1) = scan_repos(&user.repositories.nodes, name, false, None, Ghost(Seq::empty()));
    let (f2, c2) = scan_repos(&user.public_repositories.nodes, name, f1, c1, Ghost(e1));
    let (f3, c3) = scan_contributions(
        &user.contributions_collection.commit_contributions_by_repository,
        name,
        f2,
        c2,
        Ghost(e1 + e2),
    );
    proof {
        if !f3 {
            lemma_color_absent(e1 + e2 + e3, name@);
        }
    }
    if f3 {
        c3
    } else {
        None
    }
}

/// No edge for a language: no colour.
proof fn lemma_color_absent(es: Seq<LangEdge>, name: Seq<char>)
    requires
        !names_language(es, name),
    ensures
        color_in(es, name) is None,
    decreases es.len(),
{
    if es.len() > 0 {
        let p = es.drop_last();
        lemma_names_language_push(p, es.last(), name);
        assert(p.push(es.last()) == es);
        lemma_color_absent(p, name);
    }
}

/// Rounds each language's share of all bytes to a whole percentage and keeps those that
/// round to at least one percent, in the order given, each with its colour among the edges
/// of the user's repositories.
fn language_percentages(langs: &Vec<(String, u64)>, user: &GqlUser) -> (r: Vec<GitHubLanguage>)
    ensures
        language_view(r@) == shown_languages(langs@, bytes_total(langs@)),
        forall|i: int| 0 <= i < r@.len() ==> 1 <= #[trigger] r@[i].percentage <= 100,
        forall|i: int|
            0 <= i < r@.len() ==> optional_text(#[trigger] r@[i].color) == color_in(
                all_edges(user_repos(*user)),
                r@[i].name@,
            ),
{
    let n = langs.len();
    let mut total: u128 = 0;
    let mut i: usize = 0;
    while i < n
        invariant
            n == langs@.len(),
            n <= usize::MAX,
            i <= n,
            total == bytes_total(langs@.take(i as int)),
            total <= i * 18446744073709551615,
        decreases n - i,
    {
        proof {
            assert(langs@.take(i + 1).drop_last() == langs@.take(i as int));
        }
        total = total + langs[i].1 as u128;
        i = i + 1;
    }
    proof {
        assert(langs@.take(n as int) == langs@);
    }
    let ghost t = bytes_total(langs@);
    let mut out: Vec<GitHubLanguage> = Vec::new();
    let mut j: usize = 0;
    while j < n
        invariant
            n == langs@.len(),
            j <= n,
            total == t,
            t == bytes_total(langs@),
            language_view(out@) == shown_languages(langs@.take(j as int), t),
            forall|x: int| 0 <= x < out@.len() ==> 1 <= #[trigger] out@[x].percentage <= 100,
            forall|x: int|
                0 <= x < out@.len() ==> optional_text(#[trigger] out@[x].color) == color_in(
                    all_edges(user_repos(*user)),
                    out@[x].name@,
                ),
        decreases n - j,
    {
        let b = langs[j].1;
        proof {
            lemma_entry_within_total(langs@, j as int);
            lemma_percent_at_most_100(b as nat, t);
            assert(langs@.take(j + 1).drop_last() == langs@.take(j as int));
            assert(langs@.take(j + 1).last() == langs@[j as int]);
        }
        if total > 0 {
            let scaled = 100 * (b as u128);
            let q = scaled / total;
            let r = scaled % total;
            let pct: u128 = if r >= total - r {
                q + 1
            } else {
                q
            };
            proof {
                assert((r >= total - r) == (2 * r >= total));
                assert(pct == percent_of(b as nat, t));
            }
            if pct > 0 {
                let ghost before = out@;
                let name = langs[j].0.clone();
                let color = language_color(user, &name);
                out.push(GitHubLanguage { name, percentage: pct as u32, color });
                proof {
                    assert(language_view(out@) == language_view(before).push(
                        (langs@[j as int].0@, pct as nat),
                    ));
                    assert forall|x: int| 0 <= x < out@.len() implies 1 <= #[trigger] out@[x].percentage
                        <= 100 by {
                        if x < before.len() {
                            assert(out@[x] == before[x]);
                        }
                    }
                    assert forall|x: int| 0 <= x < out@.len() implies optional_text(
                        #[trigger] out@[x].color,
                    ) == color_in(all_edges(user_repos(*user)), out@[x].name@) by {
                        if x < before.len() {
                            assert(out@[x] == before[x]);
                        }
                    }
                }
            }
        }
        j = j + 1;
    }
    proof {
        assert(langs@.take(n as int) == langs@);
    }
    out
}

/// Assembles the statistics answered for `username` from the GraphQL user record and the
/// aggregated repositories: languages become whole percentages of all counted bytes (those
/// under half a percent are left out), and the display name falls back to the login.
pub fn build_stats(
    user: GqlUser,
    username: &str,
    repo_cnt: u32,
    total_stars: u32,
    langs: Vec<(String, u64)>,
    top_repo: Option<MostStarredRepo>,
) -> (s: GitHubStats)
    ensures
        s.total_repos == repo_cnt,
        s.total_stars == total_stars,
        s.total_contributions == user.contributions_collection.contribution_calendar.total_contributions,
        s.followers == user.followers.total_count,
        s.following == user.following.total_count,
        s.total_commits == user.contributions_collection.total_commit_contributions,
        s.total_prs == user.contributions_collection.total_pull_request_contributions,
        s.total_issues == user.contributions_collection.total_issue_contributions,
        s.account_created_at@ == user.created_at@,
        s.most_starred_repo == top_repo,
        s.avatar_url@ == user.avatar_url@,
        s.display_name@ == shown_name(user.name, username@),
        s.bio@ == (match user.bio {
            Some(b) => b@,
            None => Seq::<char>::empty(),
        }),
        language_view(s.languages@) == shown_languages(langs@, bytes_total(langs@)),
        forall|i: int| 0 <= i < s.languages@.len() ==> 1 <= #[trigger] s.languages@[i].percentage <= 100,
        forall|i: int|
            0 <= i < s.languages@.len() ==> optional_text(#[trigger] s.languages@[i].color)
                == color_in(all_edges(user_repos(user)), s.languages@[i].name@),
{
    let languages = language_percentages(&langs, &user);
    let bio = match user.bio {
        Some(b) => b,
        None => String::new(),
    };
    GitHubStats {
        total_repos: repo_cnt,
        total_contributions: user.contributions_collection.contribution_calendar.total_contributions,
        total_stars,
        followers: user.followers.total_count,
        following: user.following.total_count,
        total_commits: user.contributions_collection.total_commit_contributions,
        total_prs: user.contributions_collection.total_pull_request_contributions,
        total_issues: user.contributions_collection.total_issue_contributions,
        account_created_at: user.created_at,
        most_starred_repo: top_repo,
        avatar_url: user.avatar_url,
        display_name: display_name(user.name, username),
        bio,
        languages,
    }
}

} // verus!
