//! Issues offered for selection, and the queries that list them.
use crate::text::{decimal, push_decimal, push_text};
use vstd::multiset::Multiset;
use vstd::prelude::*;

verus! {

/// An issue of the tracker: its number and its title.
#[derive(Debug, Clone, PartialEq, Eq, PartialOrd, Ord)]
pub struct Issue {
    pub number: u64,
    pub title: String,
}

/// Whose issues a query lists.
#[derive(Debug, Clone, Copy, PartialEq, Eq, Structural)]
pub enum Assignee {
    Unassigned,
    CurrentUser,
}

impl Issue {
    pub fn new(number: u64, title: String) -> (r: Issue)
        ensures
            r.number == number,
            r.title@ == title@,
    {
        Issue { number, title }
    }

    /// A copy of the issue.
    pub fn duplicate(&self) -> (r: Issue)
        ensures
            r.number == self.number,
            r.title@ == self.title@,
    {
        Issue { number: self.number, title: self.title.clone() }
    }

    /// The line shown in the selection list, `#<number> | <title>`.
    pub fn label(&self) -> (r: String)
        ensures
            r@ == seq!['#'] + decimal(self.number as nat) + " | "@ + self.title@,
    {
        let mut s = String::new();
        push_text(&mut s, "#");
        push_decimal(&mut s, self.number as u128);
        push_text(&mut s, " | ");
        push_text(&mut s, self.title.as_str());
        proof {
            reveal_strlit("#");
        }
        assert(s@ =~= seq!['#'] + decimal(self.number as nat) + " | "@ + self.title@);
        s
    }
}

impl Assignee {
    /// The search filter that selects these issues.
    pub fn search_filter(&self) -> (r: String)
        ensures
            r@ == (match *self {
                Assignee::Unassigned => "no:assignee"@,
                Assignee::CurrentUser => "assignee:@me"@,
            }),
    {
        match self {
            Assignee::Unassigned => "no:assignee".to_owned(),
            Assignee::CurrentUser => "assignee:@me".to_owned(),
        }
    }
}

/// The arguments of the tracker's command that lists task issues as JSON.
pub open spec fn issue_list_args(repo: Seq<char>, assignee: Assignee, show_all: bool) -> Seq<
    Seq<char>,
> {
    seq![
        "issue"@,
        "list"@,
        "--label"@,
        "task"@,
        "--json"@,
        "number,title"@,
        "--state"@,
        if show_all {
            "all"@
        } else {
            "open"@
        },
        "--repo"@,
        repo,
        "--search"@,
        match assignee {
            Assignee::Unassigned => "no:assignee"@,
            Assignee::CurrentUser => "assignee:@me"@,
        },
    ]
}

/// Builds the arguments that list the task issues of `repo` for `assignee`,
/// closed ones included when `show_all` holds.
pub fn gh_issue_list_args(repo: &str, assignee: Assignee, show_all: bool) -> (r: Vec<String>)
    ensures
        r@.map_values(|a: String| a@) == issue_list_args(repo@, assignee, show_all),
{
    let mut args: Vec<String> = Vec::new();
    args.push("issue".to_owned());
    args.push("list".to_owned());
    args.push("--label".to_owned());
    args.push("task".to_owned());
    args.push("--json".to_owned());
    args.push("number,title".to_owned());
    args.push("--state".to_owned());
    if show_all {
        args.push("all".to_owned());
    } else {
        args.push("open".to_owned());
    }
    args.push("--repo".to_owned());
    args.push(repo.to_owned());
    args.push("--search".to_owned());
    args.push(assignee.search_filter());
    assert(args@.map_values(|a: String| a@) =~= issue_list_args(repo@, assignee, show_all));
    args
}

/// Titles in lexicographic order of their characters' code points, which is
/// the order of `String`'s comparison.
pub open spec fn title_le(a: Seq<char>, b: Seq<char>) -> bool
    decreases a.len(),
{
    if a.len() == 0 {
        true
    } else if b.len() == 0 {
        false
    } else if (a[0] as u32) != (b[0] as u32) {
        (a[0] as u32) < (b[0] as u32)
    } else {
        title_le(a.drop_first(), b.drop_first())
    }
}

/// Issues ordered by number, then by title.
pub open spec fn issue_le(a: Issue, b: Issue) -> bool {
    a.number < b.number || (a.number == b.number && title_le(a.title@, b.title@))
}

/// Each issue of `issues` comes no later than the ones after it.
pub open spec fn sorted_issues(issues: Seq<Issue>) -> bool {
    forall|i: int, j: int| 0 <= i < j < issues.len() ==> issue_le(issues[i], issues[j])
}

/// No two issues of `issues` share a number.
pub open spec fn numbers_unique(issues: Seq<Issue>) -> bool {
    forall|i: int, j: int| 0 <= i < j < issues.len() ==> issues[i].number != issues[j].number
}

/// Some issue of `issues` has the number `n`.
pub open spec fn has_number(issues: Seq<Issue>, n: u64) -> bool {
    exists|t: int| 0 <= t < issues.len() && (#[trigger] issues[t]).number == n
}

proof fn lemma_title_le_total(a: Seq<char>, b: Seq<char>)
    ensures
        title_le(a, b) || title_le(b, a),
    decreases a.len(),
{
    if a.len() > 0 && b.len() > 0 && (a[0] as u32) == (b[0] as u32) {
        lemma_title_le_total(a.drop_first(), b.drop_first());
    }
}

proof fn lemma_title_le_transitive(a: Seq<char>, b: Seq<char>, c: Seq<char>)
    requires
        title_le(a, b),
        title_le(b, c),
    ensures
        title_le(a, c),
    decreases a.len(),
{
    if a.len() > 0 && b.len() > 0 && c.len() > 0 && (a[0] as u32) == (b[0] as u32) && (b[0] as u32)
        == (c[0] as u32) {
        lemma_title_le_transitive(a.drop_first(), b.drop_first(), c.drop_first());
    }
}

proof fn lemma_issue_le_total(a: Issue, b: Issue)
    ensures
        issue_le(a, b) || issue_le(b, a),
{
    lemma_title_le_total(a.title@, b.title@);
}

proof fn lemma_issue_le_transitive(a: Issue, b: Issue, c: Issue)
    requires
        issue_le(a, b),
        issue_le(b, c),
    ensures
        issue_le(a, c),
{
    if a.number == b.number && b.number == c.number {
        lemma_title_le_transitive(a.title@, b.title@, c.title@);
    }
}

/// Compares two titles character by character.
fn title_le_exec(a: &str, b: &str) -> (r: bool)
    ensures
        r == title_le(a@, b@),
{
    let la = a.unicode_len();
    let lb = b.unicode_len();
    let mut i: usize = 0;
    assert(a@.skip(0) =~= a@ && b@.skip(0) =~= b@);
    while i < la && i < lb
        invariant
            la == a@.len(),
            lb == b@.len(),
            i <= la,
            i <= lb,
            title_le(a@, b@) == title_le(a@.skip(i as int), b@.skip(i as int)),
        decreases la - i,
    {
        let ca = a.get_char(i);
        let cb = b.get_char(i);
        assert(a@.skip(i as int)[0] == ca && b@.skip(i as int)[0] == cb);
        if (ca as u32) != (cb as u32) {
            return (ca as u32) < (cb as u32);
        }
        assert(a@.skip(i as int).drop_first() =~= a@.skip(i + 1));
        assert(b@.skip(i as int).drop_first() =~= b@.skip(i + 1));
        i = i + 1;
    }
    if i == la {
        assert(a@.skip(i as int).len() == 0);
        true
    } else {
        assert(b@.skip(i as int).len() == 0);
        false
    }
}

/// Whether `a` comes no later than `b`: by number, then by title.
pub fn issue_le_exec(a: &Issue, b: &Issue) -> (r: bool)
    ensures
        r == issue_le(*a, *b),
{
    a.number < b.number || (a.number == b.number && title_le_exec(
        a.title.as_str(),
        b.title.as_str(),
    ))
}

/// `issues` ordered by number, then by title.
pub fn sort_issues(issues: Vec<Issue>) -> (r: Vec<Issue>)
    ensures
        sorted_issues(r@),
        r@.to_multiset() == issues@.to_multiset(),
        r@.len() == issues@.len(),
{
    let mut sorted: Vec<Issue> = Vec::new();
    let mut rest = issues;
    let ghost all = rest@;
    proof {
        sorted@.to_multiset_ensures();
        vstd::multiset::lemma_multiset_empty_len(sorted@.to_multiset());
    }
    assert(sorted@.to_multiset() =~= Multiset::<Issue>::empty());
    assert(Multiset::<Issue>::empty().add(all.to_multiset()) =~= all.to_multiset());
    while rest.len() > 0
        invariant
            sorted_issues(sorted@),
            sorted@.to_multiset().add(rest@.to_multiset()) == all.to_multiset(),
        decreases rest@.len(),
    {
        let ghost rest_at_start = rest@;
        let item = rest.pop().unwrap();
        let ghost rest_before = rest@.push(item);
        assert(rest_before =~= rest_at_start);
        let mut pos: usize = 0;
        while pos < sorted.len() && !issue_le_exec(&item, &sorted[pos])
            invariant
                pos <= sorted@.len(),
                forall|i: int| 0 <= i < pos ==> issue_le(#[trigger] sorted@[i], item),
            decreases sorted@.len() - pos,
        {
            proof {
                lemma_issue_le_total(item, sorted@[pos as int]);
            }
            pos = pos + 1;
        }
        let ghost before = sorted@;
        sorted.insert(pos, item);
        proof {
            before.to_multiset_ensures();
            rest@.to_multiset_ensures();
            vstd::seq_lib::to_multiset_insert(before, pos as int, item);
            assert forall|i: int, j: int| 0 <= i < j < sorted@.len() implies issue_le(
                sorted@[i],
                sorted@[j],
            ) by {
                if j < pos {
                    assert(sorted@[i] == before[i] && sorted@[j] == before[j]);
                } else if j == pos {
                    assert(sorted@[i] == before[i]);
                } else if i < pos {
                    assert(sorted@[i] == before[i] && sorted@[j] == before[j - 1]);
                } else if i == pos {
                    assert(sorted@[j] == before[j - 1]);
                    if j - 1 > pos {
                        lemma_issue_le_transitive(item, before[pos as int], before[j - 1]);
                    }
                } else {
                    assert(sorted@[i] == before[i - 1] && sorted@[j] == before[j - 1]);
                }
            }
            assert(rest_before.to_multiset() =~= rest@.to_multiset().insert(item));
            assert(sorted@.to_multiset() =~= before.to_multiset().insert(item));
            assert(sorted@.to_multiset().add(rest@.to_multiset()) =~= all.to_multiset());
        }
    }
    proof {
        rest@.to_multiset_ensures();
        vstd::multiset::lemma_multiset_empty_len(rest@.to_multiset());
        assert(rest@.to_multiset() =~= Multiset::empty());
        assert(sorted@.to_multiset().add(Multiset::empty()) =~= sorted@.to_multiset());
        sorted@.to_multiset_ensures();
        all.to_multiset_ensures();
    }
    sorted
}

/// Whether some issue of `issues` has the number `n`.
fn contains_number(issues: &Vec<Issue>, n: u64) -> (r: bool)
    ensures
        r == has_number(issues@, n),
{
    let mut t: usize = 0;
    while t < issues.len()
        invariant
            t <= issues@.len(),
            forall|s: int| 0 <= s < t ==> (#[trigger] issues@[s]).number != n,
        decreases issues@.len() - t,
    {
        if issues[t].number == n {
            return true;
        }
        t = t + 1;
    }
    false
}

/// Appends, in order, each issue of `sorted` whose number `out` does not hold yet.
fn append_new_numbers(out: &mut Vec<Issue>, sorted: Vec<Issue>)
    requires
        numbers_unique(old(out)@),
        sorted_issues(sorted@),
    ensures
        final(out)@.len() >= old(out)@.len(),
        final(out)@.subrange(0, old(out)@.len() as int) == old(out)@,
        numbers_unique(final(out)@),
        sorted_issues(final(out)@.subrange(old(out)@.len() as int, final(out)@.len() as int)),
        forall|t: int|
            old(out)@.len() <= t < final(out)@.len() ==> sorted@.contains(#[trigger] final(out)@[t]),
        forall|j: int| 0 <= j < sorted@.len() ==> has_number(final(out)@, #[trigger] sorted@[j].number),
{
    let ghost base = out@;
    let ghost orig = sorted@;
    let mut rest = sorted;
    let n = rest.len();
    let mut i: usize = 0;
    while rest.len() > 0
        invariant
            orig.len() == n,
            rest@ == orig.skip(i as int),
            i <= orig.len(),
            sorted_issues(orig),
            out@.len() >= base.len(),
            out@.subrange(0, base.len() as int) == base,
            numbers_unique(out@),
            forall|t: int|
                #![trigger out@[t]]
                base.len() <= t < out@.len() ==> exists|j: int|
                    0 <= j < i && out@[t] == (#[trigger] orig[j]),
            sorted_issues(out@.subrange(base.len() as int, out@.len() as int)),
            forall|j: int| 0 <= j < i ==> has_number(out@, #[trigger] orig[j].number),
        decreases rest@.len(),
    {
        assert(i < orig.len());
        let x = rest.remove(0);
        assert(x == orig[i as int]);
        let ghost prev = out@;
        if !contains_number(out, x.number) {
            out.push(x);
            proof {
                assert(out@.subrange(0, base.len() as int) =~= prev.subrange(0, base.len() as int));
                assert forall|t: int| #![trigger out@[t]] base.len() <= t < out@.len() implies exists|j: int|
                    0 <= j < i + 1 && out@[t] == (#[trigger] orig[j]) by {
                    if t < prev.len() {
                        assert(out@[t] == prev[t]);
                    } else {
                        assert(out@[t] == orig[i as int]);
                    }
                }
                let g = out@.subrange(base.len() as int, out@.len() as int);
                let pg = prev.subrange(base.len() as int, prev.len() as int);
                assert forall|a: int, b: int| 0 <= a < b < g.len() implies issue_le(g[a], g[b]) by {
                    if b < g.len() - 1 {
                        assert(g[a] == pg[a] && g[b] == pg[b]);
                    } else {
                        let t = base.len() + a;
                        assert(g[a] == prev[t]);
                        let j = choose|j: int| 0 <= j < i && prev[t] == (#[trigger] orig[j]);
                        assert(g[b] == orig[i as int]);
                    }
                }
                assert forall|j: int| 0 <= j < i + 1 implies has_number(out@, #[trigger] orig[j].number) by {
                    if j < i {
                        let t = choose|t: int| 0 <= t < prev.len() && (#[trigger] prev[t]).number == orig[j].number;
                        assert(out@[t] == prev[t]);
                    } else {
                        assert(out@[prev.len() as int] == orig[j]);
                    }
                }
            }
        } else {
            proof {
                assert forall|t: int| #![trigger out@[t]] base.len() <= t < out@.len() implies exists|j: int|
                    0 <= j < i + 1 && out@[t] == (#[trigger] orig[j]) by {
                    let j = choose|j: int| 0 <= j < i && out@[t] == (#[trigger] orig[j]);
                }
            }
        }
        assert(rest@ =~= orig.skip(i + 1));
        i = i + 1;
    }
    proof {
        assert forall|t: int| base.len() <= t < out@.len() implies orig.contains(#[trigger] out@[t]) by {
            let j = choose|j: int| 0 <= j < i && out@[t] == (#[trigger] orig[j]);
        }
    }
}

/// The issues assigned to the current user, then the unassigned ones, each
/// group ordered by number and then title. A number appears once: where an
/// assigned issue has it, that issue is kept; otherwise the first unassigned
/// one in this order.
pub fn merge_issue_lists(assigned: Vec<Issue>, unassigned: Vec<Issue>) -> (r: Vec<Issue>)
    ensures
        numbers_unique(r@),
        exists|k: int|
            #![trigger r@.subrange(0, k)]
            0 <= k <= r@.len() && sorted_issues(r@.subrange(0, k)) && sorted_issues(
                r@.subrange(k, r@.len() as int),
            ) && (forall|t: int| 0 <= t < k ==> assigned@.contains(#[trigger] r@[t])) && (forall|
                t: int,
            |
                k <= t < r@.len() ==> unassigned@.contains(#[trigger] r@[t]) && !has_number(
                    assigned@,
                    r@[t].number,
                )) && (forall|i: int|
                0 <= i < assigned@.len() ==> has_number(
                    r@.subrange(0, k),
                    #[trigger] assigned@[i].number,
                )),
        forall|i: int| 0 <= i < assigned@.len() ==> has_number(r@, #[trigger] assigned@[i].number),
        forall|i: int|
            0 <= i < unassigned@.len() ==> has_number(r@, #[trigger] unassigned@[i].number),
{
    let ghost a0 = assigned@;
    let ghost u0 = unassigned@;
    let first = sort_issues(assigned);
    let second = sort_issues(unassigned);
    let ghost fs = first@;
    let ghost ss = second@;
    let mut out: Vec<Issue> = Vec::new();
    append_new_numbers(&mut out, first);
    let ghost group = out@;
    let k = out.len();
    append_new_numbers(&mut out, second);
    proof {
        a0.to_multiset_ensures();
        u0.to_multiset_ensures();
        fs.to_multiset_ensures();
        ss.to_multiset_ensures();
        assert(out@.subrange(0, 0) =~= Seq::<Issue>::empty());
        assert(out@.subrange(0, k as int) == group);
        // every number of `assigned` is in the first group
        assert forall|i: int| 0 <= i < a0.len() implies has_number(group, #[trigger] a0[i].number) by {
            assert(a0.contains(a0[i]));
            assert(fs.to_multiset().count(a0[i]) > 0);
            let j = choose|j: int| 0 <= j < fs.len() && fs[j] == a0[i];
            assert(has_number(group, fs[j].number));
        }
        assert forall|t: int| 0 <= t < k implies a0.contains(#[trigger] out@[t]) by {
            assert(out@[t] == group[t]);
            assert(fs.contains(group[t]));
            assert(fs.to_multiset().count(group[t]) > 0);
        }
        assert forall|t: int| k <= t < out@.len() implies u0.contains(#[trigger] out@[t])
            && !has_number(a0, out@[t].number) by {
            assert(ss.contains(out@[t]));
            assert(ss.to_multiset().count(out@[t]) > 0);
            if has_number(a0, out@[t].number) {
                let i = choose|i: int| 0 <= i < a0.len() && (#[trigger] a0[i]).number == out@[t].number;
                assert(has_number(group, a0[i].number));
                let s = choose|s: int| 0 <= s < group.len() && (#[trigger] group[s]).number == a0[i].number;
                assert(out@[s] == group[s]);
            }
        }
        assert forall|i: int| 0 <= i < a0.len() implies has_number(out@, #[trigger] a0[i].number) by {
            assert(has_number(group, a0[i].number));
            let s = choose|s: int| 0 <= s < group.len() && (#[trigger] group[s]).number == a0[i].number;
            assert(out@[s] == group[s]);
        }
        assert forall|i: int| 0 <= i < u0.len() implies has_number(out@, #[trigger] u0[i].number) by {
            assert(u0.contains(u0[i]));
            assert(ss.to_multiset().count(u0[i]) > 0);
            let j = choose|j: int| 0 <= j < ss.len() && ss[j] == u0[i];
            assert(has_number(out@, ss[j].number));
        }
        assert(group.subrange(0, group.len() as int) =~= group);
        assert(sorted_issues(out@.subrange(0, k as int)));
    }
    out
}

} // verus!
