//! Grouping facts for semantic compression: a fact joins the first group that shares one
//! of its semantic terms or whose first fact has its category; otherwise it starts a group.

use vstd::prelude::*;
use crate::memory::FactCategory;
use crate::text::str_eq;

verus! {

/// A group of facts: the terms seen in it, and its facts by position, in order.
pub struct ClusterView {
    pub terms: Set<Seq<char>>,
    pub members: Seq<int>,
}

/// The set of texts in a list.
pub open spec fn text_set(s: Seq<String>) -> Set<Seq<char>> {
    s.map_values(|t: String| t@).to_set()
}

/// The two sets have a text in common.
pub open spec fn shares_term(a: Set<Seq<char>>, b: Set<Seq<char>>) -> bool {
    exists|t: Seq<char>| a.contains(t) && b.contains(t)
}

/// A fact with these terms and this category joins the group: they share a term, or the
/// group's first fact has the same category.
pub open spec fn joins(group: ClusterView, categories: Seq<FactCategory>, terms: Set<Seq<char>>, category: FactCategory) -> bool {
    shares_term(group.terms, terms) || categories[group.members[0]] == category
}

/// The first group from `k` on that the fact joins, or -1.
pub open spec fn first_joined(
    groups: Seq<ClusterView>,
    categories: Seq<FactCategory>,
    terms: Set<Seq<char>>,
    category: FactCategory,
    k: int,
) -> int
    decreases groups.len() - k,
{
    if k >= groups.len() || k < 0 {
        -1
    } else if joins(groups[k], categories, terms, category) {
        k
    } else {
        first_joined(groups, categories, terms, category, k + 1)
    }
}

/// The groups of the first `n` facts, given each fact's category and semantic terms.
pub open spec fn clusters_of(categories: Seq<FactCategory>, terms: Seq<Set<Seq<char>>>, n: nat) -> Seq<ClusterView>
    decreases n,
{
    if n == 0 {
        Seq::empty()
    } else {
        let groups = clusters_of(categories, terms, (n - 1) as nat);
        let i = n - 1;
        let k = first_joined(groups, categories, terms[i], categories[i], 0);
        if k < 0 {
            groups.push(ClusterView { terms: terms[i], members: seq![i] })
        } else {
            groups.update(k, ClusterView { terms: groups[k].terms.union(terms[i]), members: groups[k].members.push(i) })
        }
    }
}

/// A group's facts are some, all before position `n`.
pub open spec fn members_below(m: Seq<int>, n: int) -> bool {
    m.len() > 0 && forall|j: int| 0 <= j < m.len() ==> 0 <= #[trigger] m[j] < n
}

/// Positions as integers.
pub open spec fn positions(v: Seq<usize>) -> Seq<int> {
    v.map_values(|p: usize| p as int)
}

/// The facts of each group, by position.
pub open spec fn cluster_members(groups: Seq<ClusterView>) -> Seq<Seq<int>> {
    groups.map_values(|g: ClusterView| g.members)
}

pub(crate) proof fn lemma_clusters_members_below(categories: Seq<FactCategory>, terms: Seq<Set<Seq<char>>>, n: nat)
    ensures
        forall|g: int| 0 <= g < clusters_of(categories, terms, n).len() ==> members_below(
            #[trigger] clusters_of(categories, terms, n)[g].members,
            n as int,
        ),
    decreases n,
{
    if n > 0 {
        lemma_clusters_members_below(categories, terms, (n - 1) as nat);
        let groups = clusters_of(categories, terms, (n - 1) as nat);
        let i = n - 1;
        let k = first_joined(groups, categories, terms[i], categories[i], 0);
        lemma_first_joined_range(groups, categories, terms[i], categories[i], 0);
        let out = clusters_of(categories, terms, n);
        assert forall|g: int| 0 <= g < out.len() implies members_below(#[trigger] out[g].members, n as int) by {
            if k < 0 {
                if g < groups.len() {
                    assert(out[g] == groups[g]);
                }
            } else if g != k {
                assert(out[g] == groups[g]);
            } else {
                let m = groups[k].members.push(i);
                assert forall|j: int| 0 <= j < m.len() implies 0 <= #[trigger] m[j] < n by {
                    if j < m.len() - 1 {
                        assert(m[j] == groups[k].members[j]);
                    }
                }
            }
        }
    }
}

proof fn lemma_first_joined_range(
    groups: Seq<ClusterView>,
    categories: Seq<FactCategory>,
    terms: Set<Seq<char>>,
    category: FactCategory,
    k: int,
)
    requires
        0 <= k,
    ensures
        first_joined(groups, categories, terms, category, k) == -1 || k <= first_joined(groups, categories, terms, category, k) < groups.len(),
    decreases groups.len() - k,
{
    if k < groups.len() && !joins(groups[k], categories, terms, category) {
        lemma_first_joined_range(groups, categories, terms, category, k + 1);
    }
}

/// Whether the two lists have a text in common.
fn lists_share_term(a: &Vec<String>, b: &Vec<String>) -> (r: bool)
    ensures
        r == shares_term(text_set(a@), text_set(b@)),
{
    let mut i: usize = 0;
    while i < a.len()
        invariant
            i <= a@.len(),
            forall|x: int, y: int| 0 <= x < i && 0 <= y < b@.len() ==> a@[x]@ != b@[y]@,
        decreases a@.len() - i,
    {
        let mut j: usize = 0;
        while j < b.len()
            invariant
                i < a@.len(),
                j <= b@.len(),
                forall|x: int, y: int| 0 <= x < i && 0 <= y < b@.len() ==> a@[x]@ != b@[y]@,
                forall|y: int| 0 <= y < j ==> a@[i as int]@ != b@[y]@,
            decreases b@.len() - j,
        {
            if str_eq(a[i].as_str(), b[j].as_str()) {
                proof {
                    let t = a@[i as int]@;
                    assert(a@.map_values(|s: String| s@)[i as int] == t);
                    assert(b@.map_values(|s: String| s@)[j as int] == t);
                    assert(text_set(a@).contains(t));
                    assert(text_set(b@).contains(t));
                }
                return true;
            }
            j = j + 1;
        }
        i = i + 1;
    }
    proof {
        if shares_term(text_set(a@), text_set(b@)) {
            let t = choose|t: Seq<char>| text_set(a@).contains(t) && text_set(b@).contains(t);
            let av = a@.map_values(|s: String| s@);
            let bv = b@.map_values(|s: String| s@);
            assert(av.contains(t) && bv.contains(t));
            let x = choose|x: int| 0 <= x < av.len() && #[trigger] av[x] == t;
            let y = choose|y: int| 0 <= y < bv.len() && #[trigger] bv[y] == t;
            assert(a@[x]@ != b@[y]@);
        }
    }
    false
}

/// `a` with the texts of `b` added.
fn add_terms(a: &mut Vec<String>, b: &Vec<String>)
    ensures
        text_set(final(a)@) == text_set(old(a)@).union(text_set(b@)),
{
    let ghost start = a@;
    let mut j: usize = 0;
    while j < b.len()
        invariant
            j <= b@.len(),
            a@ == start + b@.take(j as int),
        decreases b@.len() - j,
    {
        a.push(b[j].clone());
        assert(a@ =~= start + b@.take(j + 1));
        j = j + 1;
    }
    assert(b@.take(b@.len() as int) =~= b@);
    assert(a@.map_values(|s: String| s@) =~= start.map_values(|s: String| s@) + b@.map_values(|s: String| s@));
    let ghost l = start.map_values(|s: String| s@);
    let ghost r = b@.map_values(|s: String| s@);
    assert forall|t: Seq<char>| (l + r).contains(t) == (l.contains(t) || r.contains(t)) by {
        if (l + r).contains(t) {
            let x = choose|x: int| 0 <= x < (l + r).len() && #[trigger] (l + r)[x] == t;
            if x >= l.len() {
                assert(r[x - l.len()] == t);
            }
        }
        if l.contains(t) {
            let x = choose|x: int| 0 <= x < l.len() && #[trigger] l[x] == t;
            assert((l + r)[x] == t);
        }
        if r.contains(t) {
            let x = choose|x: int| 0 <= x < r.len() && #[trigger] r[x] == t;
            assert((l + r)[l.len() + x] == t);
        }
    }
    assert(text_set(a@) =~= text_set(start).union(text_set(b@)));
}

fn copy_terms(b: &Vec<String>) -> (r: Vec<String>)
    ensures
        text_set(r@) == text_set(b@),
{
    let mut r: Vec<String> = Vec::new();
    add_terms(&mut r, b);
    assert(text_set(Seq::<String>::empty()) =~= Set::<Seq<char>>::empty());
    assert(text_set(r@) =~= text_set(b@));
    r
}

/// Groups facts, given each fact's category and semantic terms, in order: a fact joins the
/// first group that shares one of its terms or whose first fact has its category, and
/// brings its terms to that group; otherwise it starts a group of its own. Gives the
/// positions of each group's facts.
pub fn cluster_facts(categories: &Vec<FactCategory>, terms: &Vec<Vec<String>>) -> (r: Vec<Vec<usize>>)
    requires
        categories@.len() == terms@.len(),
    ensures
        r@.map_values(|g: Vec<usize>| positions(g@)) == cluster_members(
            clusters_of(categories@, terms@.map_values(|t: Vec<String>| text_set(t@)), terms@.len()),
        ),
{
    let ghost sets = terms@.map_values(|t: Vec<String>| text_set(t@));
    let mut group_terms: Vec<Vec<String>> = Vec::new();
    let mut group_members: Vec<Vec<usize>> = Vec::new();
    let mut i: usize = 0;
    while i < terms.len()
        invariant
            i <= terms@.len(),
            categories@.len() == terms@.len(),
            sets == terms@.map_values(|t: Vec<String>| text_set(t@)),
            group_terms@.len() == group_members@.len(),
            group_terms@.len() == clusters_of(categories@, sets, i as nat).len(),
            forall|g: int| 0 <= g < group_terms@.len() ==> #[trigger] text_set(group_terms@[g]@)
                == clusters_of(categories@, sets, i as nat)[g].terms,
            forall|g: int| 0 <= g < group_members@.len() ==> #[trigger] positions(group_members@[g]@)
                == clusters_of(categories@, sets, i as nat)[g].members,
        decreases terms@.len() - i,
    {
        let ghost groups = clusters_of(categories@, sets, i as nat);
        proof {
            lemma_clusters_members_below(categories@, sets, i as nat);
        }
        let mut k: usize = 0;
        let mut found = false;
        while k < group_terms.len()
            invariant_except_break
                k <= group_terms@.len(),
                !found,
            invariant
                i < terms@.len(),
                categories@.len() == terms@.len(),
                sets == terms@.map_values(|t: Vec<String>| text_set(t@)),
                groups == clusters_of(categories@, sets, i as nat),
                group_terms@.len() == group_members@.len(),
                group_terms@.len() == groups.len(),
                forall|g: int| 0 <= g < group_terms@.len() ==> #[trigger] text_set(group_terms@[g]@) == groups[g].terms,
                forall|g: int| 0 <= g < group_members@.len() ==> #[trigger] positions(group_members@[g]@)
                    == groups[g].members,
                forall|g: int| 0 <= g < groups.len() ==> members_below(#[trigger] groups[g].members, i as int),
                first_joined(groups, categories@, sets[i as int], categories@[i as int], 0)
                    == first_joined(groups, categories@, sets[i as int], categories@[i as int], k as int),
            ensures
                found ==> k < groups.len() && first_joined(groups, categories@, sets[i as int], categories@[i as int], 0) == k,
                !found ==> first_joined(groups, categories@, sets[i as int], categories@[i as int], 0) == -1,
            decreases group_terms@.len() - k,
        {
            let shared = lists_share_term(&group_terms[k], &terms[i]);
            assert(positions(group_members@[k as int]@) == groups[k as int].members);
            assert(groups[k as int].members.len() > 0);
            let first = group_members[k][0];
            assert(first as int == groups[k as int].members[0]);
            let same_category = categories[first] == categories[i];
            assert(sets[i as int] == text_set(terms@[i as int]@));
            if shared || same_category {
                found = true;
                break;
            }
            k = k + 1;
        }
        let ghost next = clusters_of(categories@, sets, (i + 1) as nat);
        assert(sets[i as int] == text_set(terms@[i as int]@));
        if found {
            let ghost before_terms = group_terms@;
            let ghost before_members = group_members@;
            let mut t = group_terms.remove(k);
            add_terms(&mut t, &terms[i]);
            group_terms.insert(k, t);
            assert(group_terms@ =~= before_terms.update(k as int, t));
            let mut m = group_members.remove(k);
            let ghost before_m = m@;
            m.push(i);
            assert(positions(m@) =~= positions(before_m).push(i as int));
            group_members.insert(k, m);
            assert(group_members@ =~= before_members.update(k as int, m));
        } else {
            group_terms.push(copy_terms(&terms[i]));
            let mut m: Vec<usize> = Vec::new();
            m.push(i);
            assert(positions(m@) =~= seq![i as int]);
            group_members.push(m);
        }
        i = i + 1;
    }
    let mut out: Vec<Vec<usize>> = Vec::new();
    let ghost final_groups = clusters_of(categories@, sets, terms@.len() as nat);
    while group_members.len() > 0
        invariant
            group_members@.len() + out@.len() == final_groups.len(),
            forall|g: int| 0 <= g < out@.len() ==> #[trigger] positions(out@[g]@) == final_groups[g].members,
            forall|g: int| 0 <= g < group_members@.len() ==> #[trigger] positions(group_members@[g]@)
                == final_groups[out@.len() + g].members,
        decreases group_members@.len(),
    {
        let g = group_members.remove(0);
        out.push(g);
    }
    assert(out@.map_values(|g: Vec<usize>| positions(g@)) =~= cluster_members(final_groups));
    out
}


/// The terms of the facts at these positions, together.
pub open spec fn member_terms(terms: Seq<Set<Seq<char>>>, members: Seq<int>) -> Set<Seq<char>>
    decreases members.len(),
{
    if members.len() == 0 {
        Set::empty()
    } else {
        member_terms(terms, members.drop_last()).union(terms[members.last()])
    }
}

/// The `k`-th fact of a group shares a term with the facts of the group before it, or has
/// the category of the group's first fact.
pub open spec fn joined_by_rule(categories: Seq<FactCategory>, terms: Seq<Set<Seq<char>>>, members: Seq<int>, k: int) -> bool {
    let j = members[k];
    ||| exists|t: Seq<char>| member_terms(terms, members.take(k)).contains(t) && #[trigger] terms[j].contains(t)
    ||| categories[j] == categories[members[0]]
}

proof fn lemma_first_joined_joins(
    groups: Seq<ClusterView>,
    categories: Seq<FactCategory>,
    terms: Set<Seq<char>>,
    category: FactCategory,
    k: int,
)
    requires
        0 <= k,
    ensures
        first_joined(groups, categories, terms, category, k) >= 0 ==> joins(
            groups[first_joined(groups, categories, terms, category, k)],
            categories,
            terms,
            category,
        ),
    decreases groups.len() - k,
{
    if k < groups.len() && !joins(groups[k], categories, terms, category) {
        lemma_first_joined_joins(groups, categories, terms, category, k + 1);
    }
}

proof fn lemma_cluster_terms(categories: Seq<FactCategory>, terms: Seq<Set<Seq<char>>>, n: nat)
    ensures
        forall|g: int| 0 <= g < clusters_of(categories, terms, n).len() ==> #[trigger] clusters_of(categories, terms, n)[g].terms
            == member_terms(terms, clusters_of(categories, terms, n)[g].members),
    decreases n,
{
    if n > 0 {
        lemma_cluster_terms(categories, terms, (n - 1) as nat);
        let groups = clusters_of(categories, terms, (n - 1) as nat);
        let i = n - 1;
        let k = first_joined(groups, categories, terms[i], categories[i], 0);
        lemma_first_joined_range(groups, categories, terms[i], categories[i], 0);
        let out = clusters_of(categories, terms, n);
        assert forall|g: int| 0 <= g < out.len() implies #[trigger] out[g].terms == member_terms(terms, out[g].members) by {
            if k < 0 {
                if g < groups.len() {
                    assert(out[g] == groups[g]);
                } else {
                    let m = seq![i as int];
                    assert(out[g].members == m);
                    assert(out[g].terms == terms[i]);
                    assert(m.len() == 1);
                    assert(m.last() == i);
                    assert(m.drop_last() =~= Seq::<int>::empty());
                    assert(member_terms(terms, m.drop_last()) == Set::<Seq<char>>::empty());
                    assert(Set::<Seq<char>>::empty().union(terms[i]) =~= terms[i]);
                    assert(member_terms(terms, m) == member_terms(terms, m.drop_last()).union(terms[m.last()]));
                }
            } else if g != k {
                assert(out[g] == groups[g]);
            } else {
                let m = groups[k].members.push(i as int);
                assert(m.drop_last() =~= groups[k].members);
            }
        }
    }
}

/// Grouping puts a fact into a group only when it shares a semantic term with the facts
/// already in that group, or has the category of the group's first fact.
pub proof fn law_fact_joins_by_term_or_first_category(categories: Seq<FactCategory>, terms: Seq<Set<Seq<char>>>, n: nat)
    ensures
        forall|g: int, k: int|
            0 <= g < clusters_of(categories, terms, n).len() && 0 < k < clusters_of(categories, terms, n)[g].members.len()
                ==> #[trigger] joined_by_rule(categories, terms, clusters_of(categories, terms, n)[g].members, k),
    decreases n,
{
    if n > 0 {
        law_fact_joins_by_term_or_first_category(categories, terms, (n - 1) as nat);
        lemma_cluster_terms(categories, terms, (n - 1) as nat);
        lemma_clusters_members_below(categories, terms, (n - 1) as nat);
        let groups = clusters_of(categories, terms, (n - 1) as nat);
        let i = n - 1;
        let k = first_joined(groups, categories, terms[i], categories[i], 0);
        lemma_first_joined_range(groups, categories, terms[i], categories[i], 0);
        lemma_first_joined_joins(groups, categories, terms[i], categories[i], 0);
        let out = clusters_of(categories, terms, n);
        assert forall|g: int, kk: int| 0 <= g < out.len() && 0 < kk < out[g].members.len()
            implies #[trigger] joined_by_rule(categories, terms, out[g].members, kk) by {
            if k < 0 {
                if g < groups.len() {
                    assert(out[g] == groups[g]);
                    assert(joined_by_rule(categories, terms, groups[g].members, kk));
                }
            } else if g != k {
                assert(out[g] == groups[g]);
                assert(joined_by_rule(categories, terms, groups[g].members, kk));
            } else {
                let m0 = groups[k].members;
                let m = m0.push(i as int);
                assert(out[g].members == m);
                assert(m[0] == m0[0]);
                if kk < m0.len() {
                    assert(m.take(kk) =~= m0.take(kk));
                    assert(m[kk] == m0[kk]);
                    assert(joined_by_rule(categories, terms, m0, kk));
                } else {
                    assert(m.take(kk) =~= m0);
                    assert(m[kk] == i);
                    assert(groups[k].terms == member_terms(terms, m0));
                    if shares_term(groups[k].terms, terms[i]) {
                        let t = choose|t: Seq<char>| groups[k].terms.contains(t) && terms[i].contains(t);
                        assert(member_terms(terms, m.take(kk)).contains(t) && terms[m[kk]].contains(t));
                    }
                }
            }
        }
    }
}
/// The fact at position `x` could have joined a group with these facts when it came: the
/// group's first fact has its category, or one of the group's facts before it shares one
/// of its semantic terms.
pub open spec fn eligible_before(categories: Seq<FactCategory>, terms: Seq<Set<Seq<char>>>, members: Seq<int>, x: int) -> bool {
    ||| categories[members[0]] == categories[x]
    ||| exists|j: int| 0 <= j < members.len() && members[j] < x && shares_term(#[trigger] terms[members[j]], terms[x])
}

proof fn lemma_member_terms_hold(terms: Seq<Set<Seq<char>>>, members: Seq<int>, j: int, t: Seq<char>)
    requires
        0 <= j < members.len(),
        terms[members[j]].contains(t),
    ensures
        member_terms(terms, members).contains(t),
    decreases members.len(),
{
    if j < members.len() - 1 {
        lemma_member_terms_hold(terms, members.drop_last(), j, t);
    }
}

/// Grouping puts each fact into the first group it could join: no group formed before
/// the fact's own group could have taken it, having neither a first fact of its category
/// nor an earlier fact that shares one of its semantic terms. In particular a fact starts
/// a group of its own only when no earlier group could take it.
pub proof fn law_fact_goes_to_first_fitting_group(categories: Seq<FactCategory>, terms: Seq<Set<Seq<char>>>, n: nat)
    ensures
        forall|g: int, h: int, k: int|
            0 <= h < g < clusters_of(categories, terms, n).len() && 0 <= k < clusters_of(categories, terms, n)[g].members.len()
                ==> !eligible_before(
                categories,
                terms,
                #[trigger] clusters_of(categories, terms, n)[h].members,
                #[trigger] clusters_of(categories, terms, n)[g].members[k],
            ),
    decreases n,
{
    if n > 0 {
        law_fact_goes_to_first_fitting_group(categories, terms, (n - 1) as nat);
        lemma_cluster_terms(categories, terms, (n - 1) as nat);
        lemma_clusters_members_below(categories, terms, (n - 1) as nat);
        let groups = clusters_of(categories, terms, (n - 1) as nat);
        let i: int = n - 1;
        let k = first_joined(groups, categories, terms[i], categories[i], 0);
        lemma_first_joined_range(groups, categories, terms[i], categories[i], 0);
        lemma_first_joined_skips(groups, categories, terms[i], categories[i], 0);
        let out = clusters_of(categories, terms, n);
        assert forall|g: int, h: int, kk: int|
            0 <= h < g < out.len() && 0 <= kk < out[g].members.len()
                implies !eligible_before(categories, terms, #[trigger] out[h].members, #[trigger] out[g].members[kk]) by {
            let x = out[g].members[kk];
            if k < 0 {
                if g < groups.len() {
                    assert(out[g] == groups[g]);
                    assert(out[h] == groups[h]);
                } else {
                    assert(out[g].members == seq![i]);
                    assert(x == i);
                    assert(out[h] == groups[h]);
                    lemma_not_joined_not_eligible(categories, terms, groups[h], i);
                }
            } else {
                let mk = groups[k].members;
                if g == k {
                    assert(out[h] == groups[h]);
                    if kk < mk.len() {
                        assert(x == mk[kk]);
                        assert(!eligible_before(categories, terms, groups[h].members, groups[g].members[kk]));
                    } else {
                        assert(x == i);
                        lemma_not_joined_not_eligible(categories, terms, groups[h], i);
                    }
                } else {
                    assert(out[g] == groups[g]);
                    assert(members_below(groups[g].members, i));
                    assert(x < i);
                    assert(!eligible_before(categories, terms, groups[h].members, groups[g].members[kk]));
                    if h == k {
                        let m = mk.push(i);
                        assert(out[h].members == m);
                        assert(m[0] == mk[0]);
                        if eligible_before(categories, terms, m, x) {
                            if categories[m[0]] != categories[x] {
                                let j = choose|j: int| 0 <= j < m.len() && m[j] < x && shares_term(#[trigger] terms[m[j]], terms[x]);
                                assert(j < mk.len());
                                assert(m[j] == mk[j]);
                                assert(eligible_before(categories, terms, mk, x));
                            }
                        }
                    } else {
                        assert(out[h] == groups[h]);
                    }
                }
            }
        }
    }
}

proof fn lemma_first_joined_skips(
    groups: Seq<ClusterView>,
    categories: Seq<FactCategory>,
    terms: Set<Seq<char>>,
    category: FactCategory,
    k: int,
)
    requires
        0 <= k,
    ensures
        forall|h: int| k <= h < groups.len() && (first_joined(groups, categories, terms, category, k) < 0 || h < first_joined(groups, categories, terms, category, k))
            ==> !joins(#[trigger] groups[h], categories, terms, category),
    decreases groups.len() - k,
{
    if k < groups.len() && !joins(groups[k], categories, terms, category) {
        lemma_first_joined_skips(groups, categories, terms, category, k + 1);
    }
}

proof fn lemma_not_joined_not_eligible(categories: Seq<FactCategory>, terms: Seq<Set<Seq<char>>>, group: ClusterView, x: int)
    requires
        !joins(group, categories, terms[x], categories[x]),
        group.terms == member_terms(terms, group.members),
    ensures
        !eligible_before(categories, terms, group.members, x),
{
    let m = group.members;
    if exists|j: int| 0 <= j < m.len() && m[j] < x && shares_term(#[trigger] terms[m[j]], terms[x]) {
        let j = choose|j: int| 0 <= j < m.len() && m[j] < x && shares_term(#[trigger] terms[m[j]], terms[x]);
        let t = choose|t: Seq<char>| terms[m[j]].contains(t) && terms[x].contains(t);
        lemma_member_terms_hold(terms, m, j, t);
        assert(group.terms.contains(t) && terms[x].contains(t));
    }
}

/// Some group has the fact at position `x` among its members.
pub open spec fn placed(groups: Seq<ClusterView>, x: int) -> bool {
    exists|g: int, k: int| 0 <= g < groups.len() && 0 <= k < groups[g].members.len() && #[trigger] groups[g].members[k] == x
}

/// Grouping places every fact in exactly one group, once: each position below `n` is a
/// member of some group, and no position is a member twice, in one group or in two.
pub proof fn law_each_fact_in_exactly_one_group(categories: Seq<FactCategory>, terms: Seq<Set<Seq<char>>>, n: nat)
    ensures
        forall|x: int| 0 <= x < n ==> #[trigger] placed(clusters_of(categories, terms, n), x),
        forall|g1: int, k1: int, g2: int, k2: int|
            0 <= g1 < clusters_of(categories, terms, n).len() && 0 <= k1 < clusters_of(categories, terms, n)[g1].members.len()
                && 0 <= g2 < clusters_of(categories, terms, n).len() && 0 <= k2 < clusters_of(categories, terms, n)[g2].members.len()
                && #[trigger] clusters_of(categories, terms, n)[g1].members[k1] == #[trigger] clusters_of(categories, terms, n)[g2].members[k2]
                ==> g1 == g2 && k1 == k2,
    decreases n,
{
    if n > 0 {
        law_each_fact_in_exactly_one_group(categories, terms, (n - 1) as nat);
        lemma_clusters_members_below(categories, terms, (n - 1) as nat);
        let groups = clusters_of(categories, terms, (n - 1) as nat);
        let i: int = n - 1;
        let k = first_joined(groups, categories, terms[i], categories[i], 0);
        lemma_first_joined_range(groups, categories, terms[i], categories[i], 0);
        let out = clusters_of(categories, terms, n);
        assert(out.len() >= groups.len());
        assert forall|g: int, j: int| 0 <= g < groups.len() && 0 <= j < groups[g].members.len()
            implies j < out[g].members.len() && #[trigger] out[g].members[j] == groups[g].members[j] by {
            if k >= 0 && g == k {
                assert(out[g].members == groups[k].members.push(i));
            } else {
                assert(out[g] == groups[g]);
            }
        }
        let gi: int = if k < 0 { groups.len() as int } else { k };
        let ki: int = if k < 0 { 0 } else { groups[k].members.len() as int };
        assert(out[gi].members[ki] == i);
        assert forall|g: int, j: int| 0 <= g < out.len() && 0 <= j < out[g].members.len() && !(g == gi && j == ki)
            implies g < groups.len() && j < groups[g].members.len() && #[trigger] out[g].members[j] == groups[g].members[j] by {
            if k < 0 {
                if g == groups.len() {
                    assert(out[g].members == seq![i]);
                } else {
                    assert(out[g] == groups[g]);
                }
            } else if g == k {
                assert(out[g].members == groups[k].members.push(i));
            } else {
                assert(out[g] == groups[g]);
            }
        }
        assert forall|x: int| 0 <= x < n implies #[trigger] placed(out, x) by {
            if x < i {
                assert(placed(groups, x));
                let (g, kk) = choose|g: int, kk: int|
                    0 <= g < groups.len() && 0 <= kk < groups[g].members.len() && #[trigger] groups[g].members[kk] == x;
                assert(out[g].members[kk] == x);
            } else {
                assert(out[gi].members[ki] == x);
            }
        }
        assert forall|g1: int, k1: int, g2: int, k2: int|
            0 <= g1 < out.len() && 0 <= k1 < out[g1].members.len() && 0 <= g2 < out.len() && 0 <= k2 < out[g2].members.len()
                && #[trigger] out[g1].members[k1] == #[trigger] out[g2].members[k2] implies g1 == g2 && k1 == k2 by {
            if !(g1 == gi && k1 == ki) && !(g2 == gi && k2 == ki) {
                assert(out[g1].members[k1] == groups[g1].members[k1]);
                assert(out[g2].members[k2] == groups[g2].members[k2]);
                assert(groups[g1].members[k1] == groups[g2].members[k2]);
            } else if !(g1 == gi && k1 == ki) {
                assert(out[g1].members[k1] == groups[g1].members[k1]);
                assert(members_below(groups[g1].members, i));
            } else if !(g2 == gi && k2 == ki) {
                assert(out[g2].members[k2] == groups[g2].members[k2]);
                assert(members_below(groups[g2].members, i));
            }
        }
    }
}

/// Grouping keeps the facts' order: within a group the facts stand in the order they came,
/// and the groups stand in the order of their first facts.
pub proof fn law_groups_keep_fact_order(categories: Seq<FactCategory>, terms: Seq<Set<Seq<char>>>, n: nat)
    ensures
        forall|g: int, j1: int, j2: int|
            0 <= g < clusters_of(categories, terms, n).len() && 0 <= j1 < j2 < clusters_of(categories, terms, n)[g].members.len()
                ==> #[trigger] clusters_of(categories, terms, n)[g].members[j1] < #[trigger] clusters_of(categories, terms, n)[g].members[j2],
        forall|g1: int, g2: int|
            0 <= g1 < g2 < clusters_of(categories, terms, n).len() ==> #[trigger] clusters_of(categories, terms, n)[g1].members[0]
                < #[trigger] clusters_of(categories, terms, n)[g2].members[0],
    decreases n,
{
    if n > 0 {
        law_groups_keep_fact_order(categories, terms, (n - 1) as nat);
        lemma_clusters_members_below(categories, terms, (n - 1) as nat);
        let groups = clusters_of(categories, terms, (n - 1) as nat);
        let i: int = n - 1;
        let k = first_joined(groups, categories, terms[i], categories[i], 0);
        lemma_first_joined_range(groups, categories, terms[i], categories[i], 0);
        let out = clusters_of(categories, terms, n);
        assert forall|g: int, j1: int, j2: int| 0 <= g < out.len() && 0 <= j1 < j2 < out[g].members.len()
            implies #[trigger] out[g].members[j1] < #[trigger] out[g].members[j2] by {
            if k < 0 {
                if g < groups.len() {
                    assert(out[g] == groups[g]);
                } else {
                    assert(out[g].members == seq![i]);
                }
            } else if g == k {
                let m = groups[k].members;
                assert(out[g].members == m.push(i));
                assert(members_below(m, i));
                assert(out[g].members[j1] == m[j1]);
                if j2 < m.len() {
                    assert(out[g].members[j2] == m[j2]);
                }
            } else {
                assert(out[g] == groups[g]);
            }
        }
        assert forall|g1: int, g2: int| 0 <= g1 < g2 < out.len()
            implies #[trigger] out[g1].members[0] < #[trigger] out[g2].members[0] by {
            assert(g1 < groups.len());
            assert(out[g1].members[0] == groups[g1].members[0]) by {
                if k >= 0 && g1 == k {
                    assert(out[g1].members == groups[k].members.push(i));
                } else {
                    assert(out[g1] == groups[g1]);
                }
            }
            assert(members_below(groups[g1].members, i));
            if g2 < groups.len() {
                if k >= 0 && g2 == k {
                    assert(out[g2].members == groups[k].members.push(i));
                } else {
                    assert(out[g2] == groups[g2]);
                }
            } else {
                assert(out[g2].members == seq![i]);
            }
        }
    }
}

} // verus!
