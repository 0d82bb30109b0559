//! Ranking the traits a high-centrality customer shares with its neighbors,
//! and merging those rankings into a category/value report.
use crate::customer::Customer;
use crate::graph::{graph_edge_set, graph_node_count, graph_wf, norm_pair, CustomerGraph};
use crate::similarity::{get_shared_characteristics, lemma_traits_len, spec_traits};
use crate::text::str_eq;
use vstd::arithmetic::div_mod::{lemma_fundamental_div_mod, lemma_mod_bound};
use vstd::prelude::*;
use vstd::string::StrSliceExecFns;

verus! {

/// The neighbors of a, listed in ascending node order: the deterministic
/// presentation of the neighbor set.
pub open spec fn spec_neighbors(es: Set<(usize, usize)>, a: usize, n: nat) -> Seq<usize>
    decreases n,
{
    if n == 0 {
        Seq::empty()
    } else {
        spec_neighbors(es, a, (n - 1) as nat) + if es.contains(
            norm_pair(a, (n - 1) as usize),
        ) {
            seq![(n - 1) as usize]
        } else {
            Seq::empty()
        }
    }
}

/// The view of an executable tally: each formatted text with its count.
pub open spec fn tview(v: Seq<(String, u64)>) -> Seq<(Seq<char>, int)> {
    Seq::new(v.len(), |i: int| (v[i].0@, v[i].1 as int))
}

/// Add `add` to the count of `key` in an association list, keeping discovery
/// order: the first entry with that text is bumped, or a new entry appended.
pub open spec fn tally_add(t: Seq<(Seq<char>, int)>, key: Seq<char>, add: int) -> Seq<
    (Seq<char>, int),
>
    decreases t.len(),
{
    if t.len() == 0 {
        seq![(key, add)]
    } else if t.first().0 == key {
        seq![(t.first().0, t.first().1 + add)] + t.drop_first()
    } else {
        seq![t.first()] + tally_add(t.drop_first(), key, add)
    }
}

/// Tally every text of a list, in order, each by `add`.
pub open spec fn tally_texts(
    t: Seq<(Seq<char>, int)>,
    texts: Seq<Seq<char>>,
    add: int,
) -> Seq<(Seq<char>, int)>
    decreases texts.len(),
{
    if texts.len() == 0 {
        t
    } else {
        tally_add(tally_texts(t, texts.drop_last(), add), texts.last(), add)
    }
}

/// Tally the shared traits between customer a and each neighbor in order;
/// a neighbor outside the customer list contributes nothing.
pub open spec fn tally_neighbors(cs: Seq<Customer>, a: usize, neigh: Seq<usize>) -> Seq<
    (Seq<char>, int),
>
    decreases neigh.len(),
{
    if neigh.len() == 0 {
        Seq::empty()
    } else {
        let pre = tally_neighbors(cs, a, neigh.drop_last());
        let b = neigh.last();
        if (b as int) < cs.len() {
            tally_texts(pre, spec_traits(cs[a as int], cs[b as int]), 1)
        } else {
            pre
        }
    }
}

/// Insert an entry into a count-descending list, after every entry whose
/// count is at least as large: a later arrival never overtakes an equal
/// count, which keeps the sort stable.
pub open spec fn insert_desc(s: Seq<(Seq<char>, int)>, x: (Seq<char>, int)) -> Seq<
    (Seq<char>, int),
>
    decreases s.len(),
{
    if s.len() == 0 {
        seq![x]
    } else if s.first().1 >= x.1 {
        seq![s.first()] + insert_desc(s.drop_first(), x)
    } else {
        seq![x] + s
    }
}

/// Stable sort by descending count.
pub open spec fn sort_desc(s: Seq<(Seq<char>, int)>) -> Seq<(Seq<char>, int)>
    decreases s.len(),
{
    if s.len() == 0 {
        Seq::empty()
    } else {
        insert_desc(sort_desc(s.drop_last()), s.last())
    }
}

/// The four highest-count entries (all of them when there are fewer).
pub open spec fn spec_top4(s: Seq<(Seq<char>, int)>) -> Seq<(Seq<char>, int)> {
    if s.len() <= 4 {
        s
    } else {
        s.take(4)
    }
}

/// What the trait ranking for one node returns: its neighbors' shared traits
/// tallied in discovery order, sorted stably by descending count, cut to the
/// top four.
pub open spec fn spec_find_top(
    es: Set<(usize, usize)>,
    n: nat,
    cs: Seq<Customer>,
    a: usize,
) -> Seq<(Seq<char>, int)> {
    spec_top4(sort_desc(tally_neighbors(cs, a, spec_neighbors(es, a, n))))
}

proof fn lemma_tally_add_found(t: Seq<(Seq<char>, int)>, key: Seq<char>, add: int, m: int)
    requires
        0 <= m < t.len(),
        forall|j: int| 0 <= j < m ==> (#[trigger] t[j]).0 != key,
        t[m].0 == key,
    ensures
        tally_add(t, key, add) =~= t.update(m, (t[m].0, t[m].1 + add)),
    decreases m,
{
    if m == 0 {
    } else {
        lemma_tally_add_found(t.drop_first(), key, add, m - 1);
    }
}

proof fn lemma_tally_add_absent(t: Seq<(Seq<char>, int)>, key: Seq<char>, add: int)
    requires
        forall|j: int| 0 <= j < t.len() ==> (#[trigger] t[j]).0 != key,
    ensures
        tally_add(t, key, add) =~= t.push((key, add)),
    decreases t.len(),
{
    if t.len() == 0 {
    } else {
        lemma_tally_add_absent(t.drop_first(), key, add);
    }
}

proof fn lemma_insert_desc_at(s: Seq<(Seq<char>, int)>, x: (Seq<char>, int), pos: int)
    requires
        0 <= pos <= s.len(),
        forall|j: int| 0 <= j < pos ==> (#[trigger] s[j]).1 >= x.1,
        pos < s.len() ==> s[pos].1 < x.1,
    ensures
        insert_desc(s, x) =~= s.take(pos) + seq![x] + s.skip(pos),
    decreases s.len(),
{
    if s.len() == 0 {
    } else if pos == 0 {
    } else {
        assert(s[0].1 >= x.1);
        lemma_insert_desc_at(s.drop_first(), x, pos - 1);
        assert(s.drop_first().take(pos - 1) =~= s.take(pos).drop_first());
        assert(s.drop_first().skip(pos - 1) =~= s.skip(pos));
    }
}

fn vec_contains_usize(v: &Vec<usize>, b: usize) -> (r: bool)
    ensures
        r == v@.contains(b),
{
    let mut i: usize = 0;
    while i < v.len()
        invariant
            i <= v@.len(),
            forall|j: int| 0 <= j < i ==> v@[j] != b,
        decreases v@.len() - i,
    {
        if v[i] == b {
            return true;
        }
        i += 1;
    }
    false
}

/// The neighbors of node a, in ascending node order.
fn neighbor_list(graph: &CustomerGraph, a: usize) -> (r: Vec<usize>)
    requires
        graph_wf(*graph),
        a < graph_node_count(*graph),
    ensures
        r@ == spec_neighbors(graph_edge_set(*graph), a, graph_node_count(*graph)),
        r@.len() <= graph_node_count(*graph),
{
    let raw = graph.neighbors(a);
    let n = graph.node_count();
    let mut out: Vec<usize> = Vec::new();
    let mut b: usize = 0;
    while b < n
        invariant
            b <= n,
            n == graph_node_count(*graph),
            graph_wf(*graph),
            forall|x: usize| #[trigger]
                raw@.contains(x) <==> graph_edge_set(*graph).contains(norm_pair(a, x)),
            out@ == spec_neighbors(graph_edge_set(*graph), a, b as nat),
            out@.len() <= b,
        decreases n - b,
    {
        if vec_contains_usize(&raw, b) {
            out.push(b);
        }
        b += 1;
    }
    out
}

/// The top four traits (with their tallies) that customer `node_index`
/// shares with its graph neighbors: tallied in discovery order, stably
/// sorted by descending count, cut to four.
pub fn find_top_shared_characteristics(
    graph: &CustomerGraph,
    node_index: usize,
    customers: &Vec<Customer>,
) -> (r: Vec<(String, u64)>)
    requires
        graph_wf(*graph),
        graph_node_count(*graph) <= 1000,
        node_index < graph_node_count(*graph),
        node_index < customers@.len(),
    ensures
        tview(r@) == spec_find_top(
            graph_edge_set(*graph),
            graph_node_count(*graph),
            customers@,
            node_index,
        ),
        forall|x: int| 0 <= x < r@.len() ==> 1 <= (#[trigger] r@[x]).1 <= 14000,
{
    let ghost es = graph_edge_set(*graph);
    let ghost n = graph_node_count(*graph);
    let ghost cs = customers@;
    let neigh = neighbor_list(graph, node_index);
    let mut tally: Vec<(String, u64)> = Vec::new();
    let mut i: usize = 0;
    while i < neigh.len()
        invariant
            i <= neigh@.len(),
            neigh@.len() <= n <= 1000,
            neigh@ == spec_neighbors(es, node_index, n),
            node_index < cs.len(),
            cs == customers@,
            tview(tally@) == tally_neighbors(cs, node_index, neigh@.take(i as int)),
            forall|x: int| 0 <= x < tally@.len() ==> 1 <= (#[trigger] tally@[x]).1 <= 14 * i,
        decreases neigh@.len() - i,
    {
        proof {
            assert(neigh@.take(i as int + 1).drop_last() =~= neigh@.take(i as int));
            assert(neigh@.take(i as int + 1).last() == neigh@[i as int]);
        }
        let b = neigh[i];
        if b < customers.len() {
            let traits = get_shared_characteristics(&customers[node_index], &customers[b]);
            let ghost ts = spec_traits(cs[node_index as int], cs[b as int]);
            proof {
                lemma_traits_len(cs[node_index as int], cs[b as int]);
            }
            let mut k: usize = 0;
            while k < traits.len()
                invariant
                    k <= traits@.len(),
                    traits.deep_view() == ts,
                    ts.len() <= 14,
                    i < neigh@.len() <= 1000,
                    tview(tally@) == tally_texts(
                        tally_neighbors(cs, node_index, neigh@.take(i as int)),
                        ts.take(k as int),
                        1,
                    ),
                    forall|x: int|
                        0 <= x < tally@.len() ==> 1 <= (#[trigger] tally@[x]).1 <= 14 * i + k,
                decreases traits@.len() - k,
            {
                proof {
                    assert(ts.take(k as int + 1).drop_last() =~= ts.take(k as int));
                    assert(ts.take(k as int + 1).last() == ts[k as int]);
                    assert(traits@[k as int]@ == ts[k as int]);
                }
                let ghost pre = tview(tally@);
                let key = &traits[k];
                let mut m: usize = 0;
                let mut found: bool = false;
                while m < tally.len() && !found
                    invariant
                        m <= tally@.len(),
                        !found ==> forall|j: int|
                            0 <= j < m ==> (#[trigger] tally@[j]).0@ != key@,
                        found ==> m < tally@.len() && tally@[m as int].0@ == key@ && forall|
                            j: int,
                        |
                            0 <= j < m ==> (#[trigger] tally@[j]).0@ != key@,
                    decreases tally@.len() - m + if found {
                        0int
                    } else {
                        1int
                    },
                {
                    if str_eq(tally[m].0.as_str(), key.as_str()) {
                        found = true;
                    } else {
                        m += 1;
                    }
                }
                if found {
                    let cnt = tally[m].1;
                    let text = tally[m].0.clone();
                    let _old = tally.remove(m);
                    tally.insert(m, (text, cnt + 1));
                    proof {
                        lemma_tally_add_found(pre, key@, 1, m as int);
                        assert(tview(tally@) =~= tally_add(pre, key@, 1));
                    }
                } else {
                    tally.push((key.clone(), 1));
                    proof {
                        lemma_tally_add_absent(pre, key@, 1);
                        assert(tview(tally@) =~= tally_add(pre, key@, 1));
                    }
                }
                k += 1;
            }
            proof {
                assert(ts.take(ts.len() as int) =~= ts);
            }
        } else {
            proof {
                assert(tview(tally@) == tally_neighbors(cs, node_index, neigh@.take(i as int + 1)));
            }
        }
        i += 1;
    }
    proof {
        assert(neigh@.take(neigh@.len() as int) =~= neigh@);
    }
    // stable sort by descending count
    let mut sorted: Vec<(String, u64)> = Vec::new();
    let mut i: usize = 0;
    while i < tally.len()
        invariant
            i <= tally@.len(),
            tview(sorted@) == sort_desc(tview(tally@).take(i as int)),
            sorted@.len() == i,
            forall|x: int| 0 <= x < tally@.len() ==> 1 <= (#[trigger] tally@[x]).1 <= 14000,
            forall|x: int| 0 <= x < sorted@.len() ==> 1 <= (#[trigger] sorted@[x]).1 <= 14000,
        decreases tally@.len() - i,
    {
        proof {
            assert(tview(tally@).take(i as int + 1).drop_last() =~= tview(tally@).take(i as int));
            assert(tview(tally@).take(i as int + 1).last() == tview(tally@)[i as int]);
        }
        let cnt = tally[i].1;
        let mut pos: usize = 0;
        while pos < sorted.len() && sorted[pos].1 >= cnt
            invariant
                pos <= sorted@.len(),
                forall|j: int| 0 <= j < pos ==> (#[trigger] sorted@[j]).1 >= cnt,
            decreases sorted@.len() - pos,
        {
            pos += 1;
        }
        let ghost prev = tview(sorted@);
        let text = tally[i].0.clone();
        sorted.insert(pos, (text, cnt));
        proof {
            assert forall|j: int| 0 <= j < pos implies (#[trigger] prev[j]).1 >= cnt by {
                assert(prev[j].1 == sorted@[j].1);
            }
            lemma_insert_desc_at(prev, (tally@[i as int].0@, cnt as int), pos as int);
            assert(tview(sorted@) =~= prev.take(pos as int) + seq![
                (tally@[i as int].0@, cnt as int),
            ] + prev.skip(pos as int));
        }
        i += 1;
    }
    proof {
        assert(tview(tally@).take(tally@.len() as int) =~= tview(tally@));
    }
    // keep the top four
    let mut out: Vec<(String, u64)> = Vec::new();
    let mut i: usize = 0;
    while i < sorted.len() && i < 4
        invariant
            i <= sorted@.len(),
            i <= 4,
            out@ == sorted@.take(i as int),
            forall|x: int| 0 <= x < sorted@.len() ==> 1 <= (#[trigger] sorted@[x]).1 <= 14000,
        decreases sorted@.len() - i,
    {
        let text = sorted[i].0.clone();
        let cnt = sorted[i].1;
        out.push((text, cnt));
        proof {
            assert(out@ =~= sorted@.take(i as int + 1));
        }
        i += 1;
    }
    proof {
        if sorted@.len() <= 4 {
            assert(sorted@.take(sorted@.len() as int) =~= sorted@);
            assert(tview(out@) =~= spec_top4(tview(sorted@)));
        } else {
            assert(tview(out@) =~= tview(sorted@).take(4));
        }
        assert forall|x: int| 0 <= x < out@.len() implies 1 <= (#[trigger] out@[x]).1 <= 14000 by {
            assert(out@[x] == sorted@[x]);
        }
    }
    out
}


// ---------------------------------------------------------------------------
// Splitting a formatted trait into its category and value
// ---------------------------------------------------------------------------
/// Index of the first colon, or the length when there is none.
pub open spec fn first_colon(s: Seq<char>) -> int
    decreases s.len(),
{
    if s.len() == 0 {
        0
    } else if s.first() == ':' {
        0
    } else {
        1 + first_colon(s.drop_first())
    }
}

proof fn lemma_first_colon(s: Seq<char>)
    ensures
        0 <= first_colon(s) <= s.len(),
        first_colon(s) < s.len() ==> s[first_colon(s)] == ':',
        forall|j: int| 0 <= j < first_colon(s) ==> s[j] != ':',
    decreases s.len(),
{
    if s.len() == 0 {
    } else if s.first() == ':' {
    } else {
        lemma_first_colon(s.drop_first());
        assert forall|j: int| 0 <= j < first_colon(s) implies s[j] != ':' by {
            if j > 0 {
                assert(s.drop_first()[j - 1] != ':');
            }
        }
    }
}

/// The text with leading spaces removed.
pub open spec fn trim_front(s: Seq<char>) -> Seq<char>
    decreases s.len(),
{
    if s.len() > 0 && s.first() == ' ' {
        trim_front(s.drop_first())
    } else {
        s
    }
}

/// The text with trailing spaces removed.
pub open spec fn trim_back(s: Seq<char>) -> Seq<char>
    decreases s.len(),
{
    if s.len() > 0 && s.last() == ' ' {
        trim_back(s.drop_last())
    } else {
        s
    }
}

/// The text with leading and trailing spaces removed.
pub open spec fn spec_trim(s: Seq<char>) -> Seq<char> {
    trim_back(trim_front(s))
}

/// How a formatted trait splits: at the first colon, both halves trimmed;
/// a text without a colon does not split.
pub open spec fn spec_split(s: Seq<char>) -> Option<(Seq<char>, Seq<char>)> {
    if first_colon(s) < s.len() {
        Some(
            (spec_trim(s.take(first_colon(s))), spec_trim(s.skip(first_colon(s) + 1))),
        )
    } else {
        None
    }
}

proof fn lemma_trim_front_at(s: Seq<char>, k: int)
    requires
        0 <= k <= s.len(),
        forall|j: int| 0 <= j < k ==> s[j] == ' ',
        k < s.len() ==> s[k] != ' ',
    ensures
        trim_front(s) == s.skip(k),
    decreases k,
{
    if k == 0 {
        assert(s.skip(0) =~= s);
    } else {
        assert(s.first() == ' ');
        let d = s.drop_first();
        assert forall|j: int| 0 <= j < k - 1 implies d[j] == ' ' by {
            assert(d[j] == s[j + 1]);
        }
        lemma_trim_front_at(d, k - 1);
        assert(d.skip(k - 1) =~= s.skip(k));
    }
}

proof fn lemma_trim_back_at(s: Seq<char>, k: int)
    requires
        0 <= k <= s.len(),
        forall|j: int| k <= j < s.len() ==> s[j] == ' ',
        k > 0 ==> s[k - 1] != ' ',
    ensures
        trim_back(s) == s.take(k),
    decreases s.len() - k,
{
    if k == s.len() {
        assert(s.take(k) =~= s);
    } else {
        assert(s.last() == ' ');
        let d = s.drop_last();
        lemma_trim_back_at(d, k);
        assert(d.take(k) =~= s.take(k));
    }
}

/// Remove leading and trailing spaces.
fn trim_spaces(s: &str) -> (r: String)
    ensures
        r@ == spec_trim(s@),
{
    let len = s.unicode_len();
    let mut start: usize = 0;
    while start < len && s.get_char(start) == ' '
        invariant
            start <= len,
            len == s@.len(),
            forall|j: int| 0 <= j < start ==> s@[j] == ' ',
        decreases len - start,
    {
        start += 1;
    }
    let mut end: usize = len;
    while end > start && s.get_char(end - 1) == ' '
        invariant
            start <= end <= len,
            len == s@.len(),
            forall|j: int| 0 <= j < start ==> s@[j] == ' ',
            start < len ==> s@[start as int] != ' ',
            forall|j: int| end <= j < len ==> s@[j] == ' ',
        decreases end - start,
    {
        end -= 1;
    }
    let sub = s.substring_char(start, end);
    proof {
        lemma_trim_front_at(s@, start as int);
        let suffix = s@.skip(start as int);
        assert forall|j: int| end - start <= j < suffix.len() implies suffix[j] == ' ' by {
            assert(suffix[j] == s@[start + j]);
        }
        if end > start {
            assert(suffix[end - start - 1] == s@[end - 1]);
        }
        lemma_trim_back_at(suffix, end - start);
        assert(suffix.take(end - start) =~= s@.subrange(start as int, end as int));
    }
    String::from_str(sub)
}

/// Split a formatted trait at its first colon into the trimmed category and
/// the trimmed value; None when the text has no colon.
pub fn split_category_value(s: &str) -> (r: Option<(String, String)>)
    ensures
        match r {
            Some(p) => spec_split(s@) == Some((p.0@, p.1@)),
            None => spec_split(s@) is None,
        },
{
    let len = s.unicode_len();
    let mut i: usize = 0;
    while i < len && s.get_char(i) != ':'
        invariant
            i <= len,
            len == s@.len(),
            forall|j: int| 0 <= j < i ==> s@[j] != ':',
        decreases len - i,
    {
        i += 1;
    }
    proof {
        lemma_first_colon(s@);
    }
    if i == len {
        return None;
    }
    let cat = trim_spaces(s.substring_char(0, i));
    let val = trim_spaces(s.substring_char(i + 1, len));
    proof {
        assert(s@.subrange(0, i as int) =~= s@.take(i as int));
        assert(s@.subrange(i as int + 1, len as int) =~= s@.skip(i as int + 1));
    }
    Some((cat, val))
}

// ---------------------------------------------------------------------------
// Merging the per-node rankings into category and value tallies
// ---------------------------------------------------------------------------
/// Bump the value tally of one category, keeping discovery order of
/// categories and of values within a category.
pub open spec fn cat_add(
    cats: Seq<(Seq<char>, Seq<(Seq<char>, int)>)>,
    cat: Seq<char>,
    val: Seq<char>,
    add: int,
) -> Seq<(Seq<char>, Seq<(Seq<char>, int)>)>
    decreases cats.len(),
{
    if cats.len() == 0 {
        seq![(cat, seq![(val, add)])]
    } else if cats.first().0 == cat {
        seq![(cats.first().0, tally_add(cats.first().1, val, add))] + cats.drop_first()
    } else {
        seq![cats.first()] + cat_add(cats.drop_first(), cat, val, add)
    }
}

/// Merge one node's ranked trait entries into the flat tally and the
/// category split. An entry whose text does not split feeds only the flat
/// tally.
pub open spec fn merge_entries(
    flat: Seq<(Seq<char>, int)>,
    cats: Seq<(Seq<char>, Seq<(Seq<char>, int)>)>,
    entries: Seq<(Seq<char>, int)>,
) -> (Seq<(Seq<char>, int)>, Seq<(Seq<char>, Seq<(Seq<char>, int)>)>)
    decreases entries.len(),
{
    if entries.len() == 0 {
        (flat, cats)
    } else {
        let r = merge_entries(flat, cats, entries.drop_last());
        let e = entries.last();
        let f2 = tally_add(r.0, e.0, e.1);
        let c2 = match spec_split(e.0) {
            Some(cv) => cat_add(r.1, cv.0, cv.1, e.1),
            None => r.1,
        };
        (f2, c2)
    }
}

/// Merge the rankings of every selected node, in order. A node outside the
/// customer list is recorded as invalid and skipped.
pub open spec fn merge_nodes(
    es: Set<(usize, usize)>,
    n: nat,
    cs: Seq<Customer>,
    sel: Seq<usize>,
) -> (Seq<(Seq<char>, int)>, Seq<(Seq<char>, Seq<(Seq<char>, int)>)>, Seq<usize>)
    decreases sel.len(),
{
    if sel.len() == 0 {
        (Seq::empty(), Seq::empty(), Seq::empty())
    } else {
        let r = merge_nodes(es, n, cs, sel.drop_last());
        let node = sel.last();
        if (node as int) < cs.len() {
            let m = merge_entries(r.0, r.1, spec_find_top(es, n, cs, node));
            (m.0, m.1, r.2)
        } else {
            (r.0, r.1, r.2.push(node))
        }
    }
}

/// Sum of the counts in a tally.
pub open spec fn counts_total(t: Seq<(Seq<char>, int)>) -> int
    decreases t.len(),
{
    if t.len() == 0 {
        0
    } else {
        counts_total(t.drop_last()) + t.last().1
    }
}

/// Sum of every count across all categories.
pub open spec fn grand_total(cats: Seq<(Seq<char>, Seq<(Seq<char>, int)>)>) -> int
    decreases cats.len(),
{
    if cats.len() == 0 {
        0
    } else {
        grand_total(cats.drop_last()) + counts_total(cats.last().1)
    }
}

/// 100 * count / total, rounded half-up to one decimal and returned in
/// tenths of a percent.
pub open spec fn spec_round_tenths(count: int, total: int) -> int
    recommends
        total >= 1,
{
    (2000 * count + total) / (2 * total)
}

proof fn lemma_cat_add_found(
    c: Seq<(Seq<char>, Seq<(Seq<char>, int)>)>,
    cat: Seq<char>,
    val: Seq<char>,
    add: int,
    m: int,
)
    requires
        0 <= m < c.len(),
        forall|j: int| 0 <= j < m ==> (#[trigger] c[j]).0 != cat,
        c[m].0 == cat,
    ensures
        cat_add(c, cat, val, add) =~= c.update(m, (c[m].0, tally_add(c[m].1, val, add))),
    decreases m,
{
    if m == 0 {
    } else {
        lemma_cat_add_found(c.drop_first(), cat, val, add, m - 1);
    }
}

proof fn lemma_cat_add_absent(
    c: Seq<(Seq<char>, Seq<(Seq<char>, int)>)>,
    cat: Seq<char>,
    val: Seq<char>,
    add: int,
)
    requires
        forall|j: int| 0 <= j < c.len() ==> (#[trigger] c[j]).0 != cat,
    ensures
        cat_add(c, cat, val, add) =~= c.push((cat, seq![(val, add)])),
    decreases c.len(),
{
    if c.len() == 0 {
    } else {
        lemma_cat_add_absent(c.drop_first(), cat, val, add);
    }
}

proof fn lemma_counts_total_single(e: (Seq<char>, int))
    ensures
        counts_total(seq![e]) == e.1,
{
    reveal_with_fuel(counts_total, 2);
    assert(seq![e].drop_last() =~= Seq::<(Seq<char>, int)>::empty());
}

proof fn lemma_grand_total_single(e: (Seq<char>, Seq<(Seq<char>, int)>))
    ensures
        grand_total(seq![e]) == counts_total(e.1),
{
    reveal_with_fuel(grand_total, 2);
    assert(seq![e].drop_last() =~= Seq::<(Seq<char>, Seq<(Seq<char>, int)>)>::empty());
}

proof fn lemma_counts_total_concat(a: Seq<(Seq<char>, int)>, b: Seq<(Seq<char>, int)>)
    ensures
        counts_total(a + b) == counts_total(a) + counts_total(b),
    decreases b.len(),
{
    if b.len() == 0 {
        assert(a + b =~= a);
    } else {
        lemma_counts_total_concat(a, b.drop_last());
        assert((a + b).drop_last() =~= a + b.drop_last());
        assert((a + b).last() == b.last());
    }
}

/// A tally bump raises the total by exactly what was added.
proof fn lemma_tally_add_total(t: Seq<(Seq<char>, int)>, key: Seq<char>, add: int)
    ensures
        counts_total(tally_add(t, key, add)) == counts_total(t) + add,
    decreases t.len(),
{
    if t.len() == 0 {
        lemma_counts_total_single((key, add));
    } else if t.first().0 == key {
        lemma_counts_total_single((t.first().0, t.first().1 + add));
        lemma_counts_total_single(t.first());
        lemma_counts_total_concat(seq![(t.first().0, t.first().1 + add)], t.drop_first());
        lemma_counts_total_concat(seq![t.first()], t.drop_first());
        assert(t =~= seq![t.first()] + t.drop_first());
    } else {
        lemma_tally_add_total(t.drop_first(), key, add);
        lemma_counts_total_single(t.first());
        lemma_counts_total_concat(seq![t.first()], tally_add(t.drop_first(), key, add));
        lemma_counts_total_concat(seq![t.first()], t.drop_first());
        assert(t =~= seq![t.first()] + t.drop_first());
    }
}

proof fn lemma_grand_total_concat(
    a: Seq<(Seq<char>, Seq<(Seq<char>, int)>)>,
    b: Seq<(Seq<char>, Seq<(Seq<char>, int)>)>,
)
    ensures
        grand_total(a + b) == grand_total(a) + grand_total(b),
    decreases b.len(),
{
    if b.len() == 0 {
        assert(a + b =~= a);
    } else {
        lemma_grand_total_concat(a, b.drop_last());
        assert((a + b).drop_last() =~= a + b.drop_last());
        assert((a + b).last() == b.last());
    }
}

/// A category bump raises the grand total by exactly what was added.
proof fn lemma_cat_add_total(
    c: Seq<(Seq<char>, Seq<(Seq<char>, int)>)>,
    cat: Seq<char>,
    val: Seq<char>,
    add: int,
)
    ensures
        grand_total(cat_add(c, cat, val, add)) == grand_total(c) + add,
    decreases c.len(),
{
    if c.len() == 0 {
        lemma_grand_total_single((cat, seq![(val, add)]));
        lemma_counts_total_single((val, add));
    } else if c.first().0 == cat {
        lemma_tally_add_total(c.first().1, val, add);
        lemma_grand_total_single((c.first().0, tally_add(c.first().1, val, add)));
        lemma_grand_total_single(c.first());
        lemma_grand_total_concat(
            seq![(c.first().0, tally_add(c.first().1, val, add))],
            c.drop_first(),
        );
        lemma_grand_total_concat(seq![c.first()], c.drop_first());
        assert(c =~= seq![c.first()] + c.drop_first());
    } else {
        lemma_cat_add_total(c.drop_first(), cat, val, add);
        lemma_grand_total_single(c.first());
        lemma_grand_total_concat(seq![c.first()], cat_add(c.drop_first(), cat, val, add));
        lemma_grand_total_concat(seq![c.first()], c.drop_first());
        assert(c =~= seq![c.first()] + c.drop_first());
    }
}

/// A prefix of a non-negative tally never exceeds the whole total.
proof fn lemma_counts_total_take(t: Seq<(Seq<char>, int)>, j: int)
    requires
        0 <= j <= t.len(),
        forall|x: int| 0 <= x < t.len() ==> (#[trigger] t[x]).1 >= 0,
    ensures
        counts_total(t.take(j)) <= counts_total(t),
        counts_total(t.take(j)) >= 0,
    decreases t.len() - j,
{
    if j == t.len() {
        assert(t.take(j) =~= t);
        lemma_counts_total_nonneg(t);
    } else {
        lemma_counts_total_take(t, j + 1);
        assert(t.take(j + 1).drop_last() =~= t.take(j));
        assert(t.take(j + 1).last() == t[j]);
        assert forall|x: int| 0 <= x < t.take(j).len() implies (#[trigger] t.take(j)[x]).1
            >= 0 by {
            assert(t.take(j)[x] == t[x]);
        }
        lemma_counts_total_nonneg(t.take(j));
    }
}

proof fn lemma_counts_total_nonneg(t: Seq<(Seq<char>, int)>)
    requires
        forall|x: int| 0 <= x < t.len() ==> (#[trigger] t[x]).1 >= 0,
    ensures
        counts_total(t) >= 0,
    decreases t.len(),
{
    if t.len() == 0 {
    } else {
        lemma_counts_total_nonneg(t.drop_last());
    }
}

/// Each count takes part in the total.
proof fn lemma_counts_total_elem(t: Seq<(Seq<char>, int)>, i: int)
    requires
        0 <= i < t.len(),
        forall|x: int| 0 <= x < t.len() ==> (#[trigger] t[x]).1 >= 0,
    ensures
        t[i].1 <= counts_total(t),
    decreases t.len(),
{
    if i == t.len() - 1 {
        lemma_counts_total_nonneg(t.drop_last());
    } else {
        lemma_counts_total_elem(t.drop_last(), i);
    }
}

proof fn lemma_grand_total_nonneg(c: Seq<(Seq<char>, Seq<(Seq<char>, int)>)>)
    requires
        forall|x: int, y: int|
            0 <= x < c.len() && 0 <= y < (#[trigger] c[x]).1.len() ==> (#[trigger] c[x].1[y]).1
                >= 0,
    ensures
        grand_total(c) >= 0,
    decreases c.len(),
{
    if c.len() == 0 {
    } else {
        lemma_grand_total_nonneg(c.drop_last());
        lemma_counts_total_nonneg(c.last().1);
    }
}

/// Each category's total takes part in the grand total.
proof fn lemma_grand_total_elem(c: Seq<(Seq<char>, Seq<(Seq<char>, int)>)>, i: int)
    requires
        0 <= i < c.len(),
        forall|x: int, y: int|
            0 <= x < c.len() && 0 <= y < (#[trigger] c[x]).1.len() ==> (#[trigger] c[x].1[y]).1
                >= 0,
    ensures
        counts_total(c[i].1) <= grand_total(c),
    decreases c.len(),
{
    if i == c.len() - 1 {
        lemma_grand_total_nonneg(c.drop_last());
    } else {
        lemma_grand_total_elem(c.drop_last(), i);
        lemma_counts_total_nonneg(c.last().1);
    }
}


/// Percentage breakdown of one category.
pub struct ValueReport {
    pub value: String,
    pub count: u64,
    /// 100 * count / category total, rounded half-up, in tenths of a percent.
    pub pct_tenths: u64,
}

/// One category of the aggregated report.
pub struct CategoryReport {
    pub category: String,
    /// Sum of the value counts of this category.
    pub total: u64,
    /// 100 * total / grand total, rounded half-up, in tenths of a percent.
    pub pct_tenths: u64,
    pub values: Vec<ValueReport>,
}

/// The aggregated report over the selected high-centrality nodes.
pub enum Report {
    /// No nodes were selected: an explicit outcome, not an error.
    NoHighCentralityNodes,
    Breakdown {
        /// Selected nodes outside the customer list, reported and skipped.
        invalid_nodes: Vec<usize>,
        /// Total count per distinct trait text.
        trait_totals: Vec<(String, u64)>,
        categories: Vec<CategoryReport>,
        /// Sum of every value count across all categories.
        grand_total: u64,
    },
}

/// The view of the executable category tallies.
pub open spec fn cview(c: Seq<(String, Vec<(String, u64)>)>) -> Seq<
    (Seq<char>, Seq<(Seq<char>, int)>),
> {
    Seq::new(c.len(), |i: int| (c[i].0@, tview(c[i].1@)))
}

/// The view of a value-report list: texts and counts.
pub open spec fn vrview(v: Seq<ValueReport>) -> Seq<(Seq<char>, int)> {
    Seq::new(v.len(), |i: int| (v[i].value@, v[i].count as int))
}

fn bump_tally(t: &mut Vec<(String, u64)>, key: &String, add: u64, Ghost(cap): Ghost<int>)
    requires
        1 <= add,
        cap >= 0,
        add + cap <= 0xFFFF_FFFF_FFFF_FFFF,
        forall|x: int| 0 <= x < old(t)@.len() ==> 1 <= (#[trigger] old(t)@[x]).1 <= cap,
    ensures
        tview(final(t)@) == tally_add(tview(old(t)@), key@, add as int),
        final(t)@.len() >= old(t)@.len(),
        forall|x: int| 0 <= x < final(t)@.len() ==> 1 <= (#[trigger] final(t)@[x]).1 <= cap + add,
{
    let ghost pre = tview(t@);
    let mut m: usize = 0;
    let mut found: bool = false;
    while m < t.len() && !found
        invariant
            m <= t@.len(),
            t@ == old(t)@,
            !found ==> forall|j: int| 0 <= j < m ==> (#[trigger] t@[j]).0@ != key@,
            found ==> m < t@.len() && t@[m as int].0@ == key@ && forall|j: int|
                0 <= j < m ==> (#[trigger] t@[j]).0@ != key@,
        decreases t@.len() - m + if found {
            0int
        } else {
            1int
        },
    {
        if str_eq(t[m].0.as_str(), key.as_str()) {
            found = true;
        } else {
            m += 1;
        }
    }
    if found {
        let cnt = t[m].1;
        let text = t[m].0.clone();
        let _old_entry = t.remove(m);
        t.insert(m, (text, cnt + add));
        proof {
            lemma_tally_add_found(pre, key@, add as int, m as int);
            assert(tview(t@) =~= tally_add(pre, key@, add as int));
        }
    } else {
        t.push((key.clone(), add));
        proof {
            lemma_tally_add_absent(pre, key@, add as int);
            assert(tview(t@) =~= tally_add(pre, key@, add as int));
        }
    }
}

fn bump_cats(
    cats: &mut Vec<(String, Vec<(String, u64)>)>,
    cat: String,
    val: String,
    add: u64,
    Ghost(cap): Ghost<int>,
)
    requires
        1 <= add,
        cap >= 0,
        add + cap <= 0xFFFF_FFFF_FFFF_FFFF,
        forall|x: int, y: int|
            0 <= x < old(cats)@.len() && 0 <= y < (#[trigger] old(cats)@[x]).1@.len() ==> 1 <= (
            #[trigger] old(cats)@[x].1@[y]).1 <= cap,
        forall|x: int| 0 <= x < old(cats)@.len() ==> (#[trigger] old(cats)@[x]).1@.len() >= 1,
    ensures
        cview(final(cats)@) == cat_add(cview(old(cats)@), cat@, val@, add as int),
        forall|x: int, y: int|
            0 <= x < final(cats)@.len() && 0 <= y < (#[trigger] final(cats)@[x]).1@.len() ==> 1 <= (
            #[trigger] final(cats)@[x].1@[y]).1 <= cap + add,
        forall|x: int| 0 <= x < final(cats)@.len() ==> (#[trigger] final(cats)@[x]).1@.len() >= 1,
{
    let ghost pre = cview(cats@);
    let mut m: usize = 0;
    let mut found: bool = false;
    while m < cats.len() && !found
        invariant
            m <= cats@.len(),
            cats@ == old(cats)@,
            !found ==> forall|j: int| 0 <= j < m ==> (#[trigger] cats@[j]).0@ != cat@,
            found ==> m < cats@.len() && cats@[m as int].0@ == cat@ && forall|j: int|
                0 <= j < m ==> (#[trigger] cats@[j]).0@ != cat@,
        decreases cats@.len() - m + if found {
            0int
        } else {
            1int
        },
    {
        if str_eq(cats[m].0.as_str(), cat.as_str()) {
            found = true;
        } else {
            m += 1;
        }
    }
    if found {
        let ghost cats0 = cats@;
        let pair = cats.remove(m);
        let cname = pair.0;
        let mut vals = pair.1;
        proof {
            assert(pair == cats0[m as int]);
            assert(tview(vals@) == pre[m as int].1);
        }
        bump_tally(&mut vals, &val, add, Ghost(cap));
        let ghost vals_view = vals@;
        cats.insert(m, (cname, vals));
        proof {
            assert(cats@ =~= cats0.update(m as int, cats@[m as int]));
            assert(cats@[m as int].0@ == pre[m as int].0);
            assert(tview(cats@[m as int].1@) == tally_add(pre[m as int].1, val@, add as int));
            lemma_cat_add_found(pre, cat@, val@, add as int, m as int);
            let target = cat_add(pre, cat@, val@, add as int);
            assert(target == pre.update(
                m as int,
                (pre[m as int].0, tally_add(pre[m as int].1, val@, add as int)),
            ));
            assert forall|x: int| 0 <= x < cview(cats@).len() implies cview(cats@)[x] == target[x] by {
                if x == m {
                    assert(cview(cats@)[x] == (cats@[m as int].0@, tview(cats@[m as int].1@)));
                } else {
                    assert(cats@[x] == cats0[x]);
                    assert(pre[x] == (cats0[x].0@, tview(cats0[x].1@)));
                    assert(cview(cats@)[x] == (cats@[x].0@, tview(cats@[x].1@)));
                }
            }
            assert(cview(cats@) =~= target);
            assert forall|x: int, y: int|
                0 <= x < cats@.len() && 0 <= y < (#[trigger] cats@[x]).1@.len() implies 1 <= (
            #[trigger] cats@[x].1@[y]).1 <= cap + add by {
                if x != m {
                    assert(cats@[x] == cats0[x]);
                } else {
                    assert(cats@[x].1@ == vals_view);
                    assert(1 <= vals_view[y].1 <= cap + add);
                }
            }
            assert forall|x: int| 0 <= x < cats@.len() implies (#[trigger] cats@[x]).1@.len()
                >= 1 by {
                if x != m {
                    assert(cats@[x] == cats0[x]);
                } else {
                    assert(cats@[x].1@ == vals_view);
                    assert(vals_view.len() >= cats0[m as int].1@.len());
                }
            }
        }
    } else {
        let mut vals: Vec<(String, u64)> = Vec::new();
        vals.push((val, add));
        cats.push((cat, vals));
        proof {
            lemma_cat_add_absent(pre, cat@, val@, add as int);
            let last = cats@.len() - 1;
            assert(tview(cats@[last].1@) =~= seq![(val@, add as int)]);
            let target = pre.push((cat@, seq![(val@, add as int)]));
            assert forall|x: int| 0 <= x < cview(cats@).len() implies cview(cats@)[x]
                == target[x] by {
                assert(cview(cats@)[x] == (cats@[x].0@, tview(cats@[x].1@)));
                if x < last {
                    assert(cats@[x] == old(cats)@[x]);
                    assert(pre[x] == (old(cats)@[x].0@, tview(old(cats)@[x].1@)));
                }
            }
            assert(cview(cats@) =~= cat_add(pre, cat@, val@, add as int));
            assert forall|x: int, y: int|
                0 <= x < cats@.len() && 0 <= y < (#[trigger] cats@[x]).1@.len() implies 1 <= (
            #[trigger] cats@[x].1@[y]).1 <= cap + add by {
                if x < last {
                    assert(cats@[x] == old(cats)@[x]);
                } else {
                    assert(cats@[x].1@[y] == (cats@[x].1@[0].0, add as u64));
                }
            }
            assert forall|x: int| 0 <= x < cats@.len() implies (#[trigger] cats@[x]).1@.len()
                >= 1 by {
                if x < last {
                    assert(cats@[x] == old(cats)@[x]);
                }
            }
        }
    }
}

/// 100 * count / total, rounded half-up to one decimal, in tenths of a
/// percent.
pub fn round_pct_tenths(count: u64, total: u64) -> (r: u64)
    requires
        1 <= total,
        count <= total,
    ensures
        r as int == spec_round_tenths(count as int, total as int),
        r <= 1000,
{
    let num: u128 = 2000u128 * (count as u128) + (total as u128);
    let den: u128 = 2u128 * (total as u128);
    let q: u128 = num / den;
    proof {
        let qi = (num as int) / (den as int);
        lemma_fundamental_div_mod(num as int, den as int);
        lemma_mod_bound(num as int, den as int);
        assert(qi <= 1000) by (nonlinear_arith)
            requires
                num as int == den as int * qi + (num as int) % (den as int),
                0 <= (num as int) % (den as int) < den as int,
                num as int == 2000 * (count as int) + (total as int),
                den as int == 2 * (total as int),
                count as int <= total as int,
                total as int >= 1,
        ;
    }
    q as u64
}

/// What a correct report for a node selection says: the explicit empty
/// outcome for an empty selection, else the merged tallies with every
/// percentage rounded from its category's and the grand total.
pub open spec fn report_matches(
    r: Report,
    es: Set<(usize, usize)>,
    n: nat,
    cs: Seq<Customer>,
    sel: Seq<usize>,
) -> bool {
    let m = merge_nodes(es, n, cs, sel);
    match r {
        Report::NoHighCentralityNodes => sel.len() == 0,
        Report::Breakdown { invalid_nodes, trait_totals, categories, grand_total: g } => {
            &&& sel.len() > 0
            &&& invalid_nodes@ == m.2
            &&& tview(trait_totals@) == m.0
            &&& categories@.len() == m.1.len()
            &&& g as int == grand_total(m.1)
            &&& forall|i: int|
                0 <= i < categories@.len() ==> {
                    let cat = #[trigger] categories@[i];
                    &&& cat.category@ == m.1[i].0
                    &&& vrview(cat.values@) == m.1[i].1
                    &&& cat.total as int == counts_total(m.1[i].1)
                    &&& cat.pct_tenths as int == spec_round_tenths(
                        counts_total(m.1[i].1),
                        grand_total(m.1),
                    )
                    &&& forall|j: int|
                        0 <= j < cat.values@.len() ==> (#[trigger] cat.values@[j]).pct_tenths
                            as int == spec_round_tenths(
                            cat.values@[j].count as int,
                            counts_total(m.1[i].1),
                        )
                }
        },
    }
}

/// Build the aggregated report for the selected high-centrality nodes: each
/// node's top shared traits are merged into a flat tally and a category
/// split, and each category gets its share of the grand total as its value
/// counts get their share of the category total. An empty selection yields
/// the explicit no-high-centrality outcome.
pub fn build_report(
    high_centrality_nodes: &Vec<usize>,
    customers: &Vec<Customer>,
    graph: &CustomerGraph,
) -> (r: Report)
    requires
        graph_wf(*graph),
        graph_node_count(*graph) <= 1000,
        customers@.len() <= graph_node_count(*graph),
        high_centrality_nodes@.len() <= 0xFFFF_FFFF,
    ensures
        report_matches(
            r,
            graph_edge_set(*graph),
            graph_node_count(*graph),
            customers@,
            high_centrality_nodes@,
        ),
{
    let ghost es = graph_edge_set(*graph);
    let ghost n = graph_node_count(*graph);
    let ghost cs = customers@;
    let ghost sel = high_centrality_nodes@;
    if high_centrality_nodes.len() == 0 {
        return Report::NoHighCentralityNodes;
    }
    let mut flat: Vec<(String, u64)> = Vec::new();
    let mut cats: Vec<(String, Vec<(String, u64)>)> = Vec::new();
    let mut invalid: Vec<usize> = Vec::new();
    let mut idx: usize = 0;
    while idx < high_centrality_nodes.len()
        invariant
            idx <= sel.len(),
            sel == high_centrality_nodes@,
            sel.len() <= 0xFFFF_FFFF,
            cs == customers@,
            es == graph_edge_set(*graph),
            n == graph_node_count(*graph),
            graph_wf(*graph),
            n <= 1000,
            cs.len() <= n,
            ({
                let m = merge_nodes(es, n, cs, sel.take(idx as int));
                tview(flat@) == m.0 && cview(cats@) == m.1 && invalid@ == m.2
            }),
            forall|x: int| 0 <= x < flat@.len() ==> 1 <= (#[trigger] flat@[x]).1 <= 56000 * idx,
            forall|x: int, y: int|
                0 <= x < cats@.len() && 0 <= y < (#[trigger] cats@[x]).1@.len() ==> 1 <= (
                #[trigger] cats@[x].1@[y]).1 <= 56000 * idx,
            forall|x: int| 0 <= x < cats@.len() ==> (#[trigger] cats@[x]).1@.len() >= 1,
            grand_total(cview(cats@)) <= 56000 * idx,
            counts_total(tview(flat@)) <= 56000 * idx,
        decreases sel.len() - idx,
    {
        proof {
            assert(sel.take(idx as int + 1).drop_last() =~= sel.take(idx as int));
            assert(sel.take(idx as int + 1).last() == sel[idx as int]);
        }
        let node = high_centrality_nodes[idx];
        if node < customers.len() {
            let top = find_top_shared_characteristics(graph, node, customers);
            let ghost top_spec = spec_find_top(es, n, cs, node);
            let ghost m0 = merge_nodes(es, n, cs, sel.take(idx as int));
            proof {
                assert(top@.len() == tview(top@).len());
                assert(top_spec.len() <= 4);
                assert(top_spec.take(0) =~= Seq::<(Seq<char>, int)>::empty());
            }
            let mut k: usize = 0;
            while k < top.len()
                invariant
                    k <= top@.len(),
                    top@.len() <= 4,
                    tview(top@) == top_spec,
                    forall|x: int| 0 <= x < top@.len() ==> 1 <= (#[trigger] top@[x]).1 <= 14000,
                    m0 == merge_nodes(es, n, cs, sel.take(idx as int)),
                    idx < sel.len() <= 0xFFFF_FFFF,
                    ({
                        let me = merge_entries(m0.0, m0.1, top_spec.take(k as int));
                        tview(flat@) == me.0 && cview(cats@) == me.1
                    }),
                    forall|x: int|
                        0 <= x < flat@.len() ==> 1 <= (#[trigger] flat@[x]).1 <= 56000 * idx + 14000
                            * k,
                    forall|x: int, y: int|
                        0 <= x < cats@.len() && 0 <= y < (#[trigger] cats@[x]).1@.len() ==> 1 <= (
                        #[trigger] cats@[x].1@[y]).1 <= 56000 * idx + 14000 * k,
                    forall|x: int| 0 <= x < cats@.len() ==> (#[trigger] cats@[x]).1@.len() >= 1,
                    grand_total(cview(cats@)) <= 56000 * idx + 14000 * k,
                    counts_total(tview(flat@)) <= 56000 * idx + 14000 * k,
                decreases top@.len() - k,
            {
                proof {
                    assert(top_spec.take(k as int + 1).drop_last() =~= top_spec.take(k as int));
                    assert(top_spec.take(k as int + 1).last() == top_spec[k as int]);
                }
                let e_cnt = top[k].1;
                let ghost pre_flat = tview(flat@);
                let ghost pre_cats = cview(cats@);
                let e_text = top[k].0.clone();
                bump_tally(&mut flat, &e_text, e_cnt, Ghost(56000 * idx + 14000 * k));
                proof {
                    lemma_tally_add_total(pre_flat, e_text@, e_cnt as int);
                }
                let split = split_category_value(e_text.as_str());
                match split {
                    Some(cv) => {
                        let (cat_name, val_name) = cv;
                        proof {
                            lemma_cat_add_total(pre_cats, cat_name@, val_name@, e_cnt as int);
                        }
                        bump_cats(
                            &mut cats,
                            cat_name,
                            val_name,
                            e_cnt,
                            Ghost(56000 * idx + 14000 * k),
                        );
                    },
                    None => {},
                }
                k += 1;
            }
            proof {
                assert(top_spec.take(top_spec.len() as int) =~= top_spec);
            }
        } else {
            invalid.push(node);
        }
        idx += 1;
    }
    proof {
        assert(sel.take(sel.len() as int) =~= sel);
    }
    let ghost m = merge_nodes(es, n, cs, sel);
    proof {
        assert(cview(cats@).take(0) =~= Seq::<(Seq<char>, Seq<(Seq<char>, int)>)>::empty());
        assert forall|x: int, y: int|
            0 <= x < cview(cats@).len() && 0 <= y < (#[trigger] cview(cats@)[x]).1.len() implies (
        #[trigger] cview(cats@)[x].1[y]).1 >= 0 by {}
        lemma_grand_total_nonneg(cview(cats@));
    }
    // category totals and the grand total
    let mut totals: Vec<u64> = Vec::new();
    let mut grand: u64 = 0;
    let mut i: usize = 0;
    while i < cats.len()
        invariant
            i <= cats@.len(),
            cview(cats@) == m.1,
            tview(flat@) == m.0,
            invalid@ == m.2,
            sel.len() <= 0xFFFF_FFFF,
            forall|x: int, y: int|
                0 <= x < cats@.len() && 0 <= y < (#[trigger] cats@[x]).1@.len() ==> 1 <= (
                #[trigger] cats@[x].1@[y]).1 <= 56000 * sel.len(),
            forall|x: int| 0 <= x < cats@.len() ==> (#[trigger] cats@[x]).1@.len() >= 1,
            grand_total(cview(cats@)) <= 56000 * sel.len(),
            totals@.len() == i,
            forall|x: int|
                0 <= x < i ==> (#[trigger] totals@[x]) as int == counts_total(cview(cats@)[x].1),
            grand as int == grand_total(cview(cats@).take(i as int)),
            grand as int <= grand_total(cview(cats@)),
        decreases cats@.len() - i,
    {
        let vals_len = cats[i].1.len();
        proof {
            let tv = tview(cats@[i as int].1@);
            assert(tv.take(0) =~= Seq::<(Seq<char>, int)>::empty());
            assert forall|x: int| 0 <= x < tv.len() implies (#[trigger] tv[x]).1 >= 0 by {}
            lemma_counts_total_nonneg(tv);
        }
        let mut ct: u64 = 0;
        let mut j: usize = 0;
        while j < vals_len
            invariant
                j <= vals_len,
                i < cats@.len(),
                vals_len == cats@[i as int].1@.len(),
                cview(cats@) == m.1,
                forall|x: int, y: int|
                    0 <= x < cats@.len() && 0 <= y < (#[trigger] cats@[x]).1@.len() ==> 1 <= (
                    #[trigger] cats@[x].1@[y]).1 <= 56000 * sel.len(),
                sel.len() <= 0xFFFF_FFFF,
                grand_total(cview(cats@)) <= 56000 * sel.len(),
                ct as int == counts_total(tview(cats@[i as int].1@).take(j as int)),
                ct as int <= counts_total(tview(cats@[i as int].1@)),
            decreases vals_len - j,
        {
            let ghost tv = tview(cats@[i as int].1@);
            proof {
                assert(tv.take(j as int + 1).drop_last() =~= tv.take(j as int));
                assert(tv.take(j as int + 1).last() == tv[j as int]);
                assert forall|x: int| 0 <= x < tv.len() implies (#[trigger] tv[x]).1 >= 0 by {}
                lemma_counts_total_take(tv, j as int + 1);
                lemma_grand_total_elem(cview(cats@), i as int);
                lemma_counts_total_nonneg(tv.take(j as int));
            }
            ct += cats[i].1[j].1;
            j += 1;
        }
        proof {
            let tv = tview(cats@[i as int].1@);
            assert(tv.take(tv.len() as int) =~= tv);
            assert(cview(cats@).take(i as int + 1).drop_last() =~= cview(cats@).take(i as int));
            assert(cview(cats@).take(i as int + 1).last() == cview(cats@)[i as int]);
            lemma_grand_take_le(cview(cats@), i as int + 1);
        }
        totals.push(ct);
        grand += ct;
        i += 1;
    }
    proof {
        assert(cview(cats@).take(cats@.len() as int) =~= cview(cats@));
    }
    // report rows
    let mut categories: Vec<CategoryReport> = Vec::new();
    let mut i: usize = 0;
    while i < cats.len()
        invariant
            i <= cats@.len(),
            cview(cats@) == m.1,
            tview(flat@) == m.0,
            invalid@ == m.2,
            totals@.len() == cats@.len(),
            forall|x: int|
                0 <= x < cats@.len() ==> (#[trigger] totals@[x]) as int == counts_total(
                    cview(cats@)[x].1,
                ),
            forall|x: int, y: int|
                0 <= x < cats@.len() && 0 <= y < (#[trigger] cats@[x]).1@.len() ==> 1 <= (
                #[trigger] cats@[x].1@[y]).1,
            forall|x: int| 0 <= x < cats@.len() ==> (#[trigger] cats@[x]).1@.len() >= 1,
            grand as int == grand_total(cview(cats@)),
            categories@.len() == i,
            forall|x: int|
                0 <= x < i ==> {
                    let cat = #[trigger] categories@[x];
                    &&& cat.category@ == m.1[x].0
                    &&& vrview(cat.values@) == m.1[x].1
                    &&& cat.total as int == counts_total(m.1[x].1)
                    &&& cat.pct_tenths as int == spec_round_tenths(
                        counts_total(m.1[x].1),
                        grand_total(m.1),
                    )
                    &&& forall|j: int|
                        0 <= j < cat.values@.len() ==> (#[trigger] cat.values@[j]).pct_tenths
                            as int == spec_round_tenths(
                            cat.values@[j].count as int,
                            counts_total(m.1[x].1),
                        )
                },
        decreases cats@.len() - i,
    {
        let ct = totals[i];
        proof {
            let tv = tview(cats@[i as int].1@);
            assert forall|x: int| 0 <= x < tv.len() implies (#[trigger] tv[x]).1 >= 0 by {}
            lemma_counts_total_elem(tv, 0);
            lemma_grand_total_elem(cview(cats@), i as int);
        }
        let cat_pct = round_pct_tenths(ct, grand);
        let vals_len = cats[i].1.len();
        proof {
            assert(vrview(Seq::<ValueReport>::empty()) =~= tview(cats@[i as int].1@).take(0));
        }
        let mut values: Vec<ValueReport> = Vec::new();
        let mut j: usize = 0;
        while j < vals_len
            invariant
                j <= vals_len,
                i < cats@.len(),
                vals_len == cats@[i as int].1@.len(),
                cview(cats@) == m.1,
                ct as int == counts_total(cview(cats@)[i as int].1),
                ct >= 1,
                forall|x: int, y: int|
                    0 <= x < cats@.len() && 0 <= y < (#[trigger] cats@[x]).1@.len() ==> 1 <= (
                    #[trigger] cats@[x].1@[y]).1,
                values@.len() == j,
                vrview(values@) == tview(cats@[i as int].1@).take(j as int),
                forall|y: int|
                    0 <= y < j ==> (#[trigger] values@[y]).pct_tenths as int == spec_round_tenths(
                        values@[y].count as int,
                        ct as int,
                    ),
            decreases vals_len - j,
        {
            let vtext = cats[i].1[j].0.clone();
            let vcnt = cats[i].1[j].1;
            proof {
                let tv = tview(cats@[i as int].1@);
                assert forall|x: int| 0 <= x < tv.len() implies (#[trigger] tv[x]).1 >= 0 by {}
                lemma_counts_total_elem(tv, j as int);
            }
            let vpct = round_pct_tenths(vcnt, ct);
            values.push(ValueReport { value: vtext, count: vcnt, pct_tenths: vpct });
            proof {
                assert(vrview(values@) =~= tview(cats@[i as int].1@).take(j as int + 1));
            }
            j += 1;
        }
        proof {
            let tv = tview(cats@[i as int].1@);
            assert(tv.take(tv.len() as int) =~= tv);
        }
        let cname = cats[i].0.clone();
        categories.push(
            CategoryReport { category: cname, total: ct, pct_tenths: cat_pct, values },
        );
        i += 1;
    }
    Report::Breakdown { invalid_nodes: invalid, trait_totals: flat, categories, grand_total: grand }
}

proof fn lemma_grand_take_le(c: Seq<(Seq<char>, Seq<(Seq<char>, int)>)>, j: int)
    requires
        0 <= j <= c.len(),
        forall|x: int, y: int|
            0 <= x < c.len() && 0 <= y < (#[trigger] c[x]).1.len() ==> (#[trigger] c[x].1[y]).1
                >= 0,
    ensures
        grand_total(c.take(j)) <= grand_total(c),
        grand_total(c.take(j)) >= 0,
    decreases c.len() - j,
{
    if j == c.len() {
        assert(c.take(j) =~= c);
        lemma_grand_total_nonneg(c);
    } else {
        lemma_grand_take_le(c, j + 1);
        assert(c.take(j + 1).drop_last() =~= c.take(j));
        assert(c.take(j + 1).last() == c[j]);
        lemma_counts_total_nonneg(c[j].1);
        assert forall|x: int, y: int|
            0 <= x < c.take(j).len() && 0 <= y < (#[trigger] c.take(j)[x]).1.len() implies (
        #[trigger] c.take(j)[x].1[y]).1 >= 0 by {
            assert(c.take(j)[x] == c[x]);
        }
        lemma_grand_total_nonneg(c.take(j));
    }
}

/// Sum of the rounded per-value percentages of one category, in tenths.
pub open spec fn sum_round_tenths(vals: Seq<(Seq<char>, int)>, total: int) -> int
    decreases vals.len(),
{
    if vals.len() == 0 {
        0
    } else {
        sum_round_tenths(vals.drop_last(), total) + spec_round_tenths(vals.last().1, total)
    }
}

proof fn lemma_sum_round_bounds(vals: Seq<(Seq<char>, int)>, total: int)
    requires
        total >= 1,
        forall|x: int| 0 <= x < vals.len() ==> (#[trigger] vals[x]).1 >= 0,
    ensures
        2 * total * sum_round_tenths(vals, total) <= 2000 * counts_total(vals) + vals.len()
            * total,
        2 * total * sum_round_tenths(vals, total) >= 2000 * counts_total(vals) - vals.len() * total
            + vals.len(),
    decreases vals.len(),
{
    if vals.len() == 0 {
    } else {
        lemma_sum_round_bounds(vals.drop_last(), total);
        let ghost spre = sum_round_tenths(vals.drop_last(), total);
        let ghost tpre = counts_total(vals.drop_last());
        let ghost c = vals.last().1;
        let ghost rr = spec_round_tenths(c, total);
        let ghost k = vals.len() - 1;
        lemma_fundamental_div_mod(2000 * c + total, 2 * total);
        lemma_mod_bound(2000 * c + total, 2 * total);
        assert(2 * total * sum_round_tenths(vals, total) <= 2000 * counts_total(vals) + vals.len()
            * total && 2 * total * sum_round_tenths(vals, total) >= 2000 * counts_total(vals)
            - vals.len() * total + vals.len()) by (nonlinear_arith)
            requires
                sum_round_tenths(vals, total) == spre + rr,
                counts_total(vals) == tpre + c,
                vals.len() == k + 1,
                2 * total * spre <= 2000 * tpre + k * total,
                2 * total * spre >= 2000 * tpre - k * total + k,
                2000 * c + total == 2 * total * rr + (2000 * c + total) % (2 * total),
                0 <= (2000 * c + total) % (2 * total) < 2 * total,
                total >= 1,
                k >= 0,
        ;
    }
}

/// Within one category the rounded value percentages sum to 100%, up to half
/// a tenth of a percent per value: with k values, twice the sum of the
/// tenths lies within k of 2000.
pub proof fn lemma_value_percentages_sum(vals: Seq<(Seq<char>, int)>, total: int)
    requires
        total == counts_total(vals),
        total >= 1,
        forall|x: int| 0 <= x < vals.len() ==> (#[trigger] vals[x]).1 >= 0,
    ensures
        2000 - vals.len() <= 2 * sum_round_tenths(vals, total) <= 2000 + vals.len(),
{
    lemma_sum_round_bounds(vals, total);
    let ghost ss = sum_round_tenths(vals, total);
    let ghost k = vals.len() as int;
    assert(2000 - k <= 2 * ss <= 2000 + k) by (nonlinear_arith)
        requires
            2 * total * ss <= 2000 * total + k * total,
            2 * total * ss >= 2000 * total - k * total + k,
            total >= 1,
            k >= 0,
    ;
}

/// With at most four values in a category, the rounded value percentages
/// sum to 100% within two tenths of a percent.
pub proof fn lemma_value_percentages_sum_tolerance(vals: Seq<(Seq<char>, int)>, total: int)
    requires
        total == counts_total(vals),
        total >= 1,
        vals.len() <= 4,
        forall|x: int| 0 <= x < vals.len() ==> (#[trigger] vals[x]).1 >= 0,
    ensures
        998 <= sum_round_tenths(vals, total) <= 1002,
{
    lemma_value_percentages_sum(vals, total);
}

} // verus!
