//! Diagnostics and their ordering by line.

use vstd::prelude::*;

verus! {

/// One reported problem: the index of the line within its section and a message.
#[derive(Debug)]
pub struct Diagnostic {
    pub line: usize,
    pub message: String,
}

impl View for Diagnostic {
    type V = (nat, Seq<char>);

    open spec fn view(&self) -> (nat, Seq<char>) {
        (self.line as nat, self.message@)
    }
}

/// The views of a sequence of diagnostics.
pub open spec fn diag_views(v: Seq<Diagnostic>) -> Seq<(nat, Seq<char>)> {
    v.map_values(|d: Diagnostic| d@)
}

/// `d` placed after every entry of `s` whose line is not greater than its own.
pub open spec fn insert_by_line(s: Seq<(nat, Seq<char>)>, d: (nat, Seq<char>)) -> Seq<(nat, Seq<char>)>
    decreases s.len(),
{
    if s.len() == 0 {
        seq![d]
    } else if s.last().0 <= d.0 {
        s.push(d)
    } else {
        insert_by_line(s.drop_last(), d).push(s.last())
    }
}

/// The stable sort of `s` by line: ascending lines, and entries on one line in
/// their order in `s`.
pub open spec fn sort_by_line(s: Seq<(nat, Seq<char>)>) -> Seq<(nat, Seq<char>)>
    decreases s.len(),
{
    if s.len() == 0 {
        s
    } else {
        insert_by_line(sort_by_line(s.drop_last()), s.last())
    }
}

/// Whether the lines of `s` never decrease.
pub open spec fn lines_ascending(s: Seq<(nat, Seq<char>)>) -> bool {
    forall|i: int, j: int| 0 <= i < j < s.len() ==> s[i].0 <= s[j].0
}

/// Inserting at the position after the last entry whose line is not greater.
proof fn lemma_insert_at(s: Seq<(nat, Seq<char>)>, d: (nat, Seq<char>), p: int)
    requires
        0 <= p <= s.len(),
        forall|k: int| p <= k < s.len() ==> s[k].0 > d.0,
        p > 0 ==> s[p - 1].0 <= d.0,
    ensures
        insert_by_line(s, d) == s.insert(p, d),
    decreases s.len(),
{
    if s.len() == 0 {
        assert(s.insert(p, d) =~= seq![d]);
    } else if s.last().0 <= d.0 {
        assert(p == s.len());
        assert(s.insert(p, d) =~= s.push(d));
    } else {
        lemma_insert_at(s.drop_last(), d, p);
        assert(s.drop_last().insert(p, d).push(s.last()) =~= s.insert(p, d));
    }
}

/// Inserting keeps ascending lines.
proof fn lemma_insert_ascending(s: Seq<(nat, Seq<char>)>, d: (nat, Seq<char>))
    requires
        lines_ascending(s),
    ensures
        lines_ascending(insert_by_line(s, d)),
        insert_by_line(s, d).len() == s.len() + 1,
    decreases s.len(),
{
    if s.len() > 0 && s.last().0 > d.0 {
        lemma_insert_ascending(s.drop_last(), d);
        let t = insert_by_line(s.drop_last(), d);
        assert forall|k: int| 0 <= k < t.len() implies t[k].0 <= s.last().0 by {
            lemma_insert_members(s.drop_last(), d, k);
        }
    }
}

/// Every entry of an insertion is the inserted one or one of `s`.
proof fn lemma_insert_members(s: Seq<(nat, Seq<char>)>, d: (nat, Seq<char>), k: int)
    requires
        0 <= k < insert_by_line(s, d).len(),
    ensures
        insert_by_line(s, d)[k] == d || s.contains(insert_by_line(s, d)[k]),
    decreases s.len(),
{
    if s.len() > 0 && s.last().0 > d.0 {
        let t = insert_by_line(s.drop_last(), d);
        if k < t.len() {
            lemma_insert_members(s.drop_last(), d, k);
            if t[k] != d {
                let j = choose|j: int| 0 <= j < s.drop_last().len() && s.drop_last()[j] == t[k];
                assert(s[j] == t[k]);
            }
        } else {
            assert(s[s.len() - 1] == s.last());
        }
    } else if s.len() > 0 {
        if k < s.len() {
            assert(s[k] == s.push(d)[k]);
        }
    }
}

/// Sorts diagnostics by line, stably: diagnostics on one line keep their order.
pub fn sort_diagnostics(v: &Vec<Diagnostic>) -> (r: Vec<Diagnostic>)
    ensures
        diag_views(r@) == sort_by_line(diag_views(v@)),
        lines_ascending(diag_views(r@)),
{
    let mut r: Vec<Diagnostic> = Vec::new();
    let ghost all = diag_views(v@);
    let n = v.len();
    let mut i: usize = 0;
    while i < n
        invariant
            i <= n,
            n == all.len() == v@.len(),
            all == diag_views(v@),
            diag_views(r@) == sort_by_line(all.take(i as int)),
            lines_ascending(diag_views(r@)),
        decreases n - i,
    {
        let d = Diagnostic { line: v[i].line, message: v[i].message.clone() };
        let ghost dv = d@;
        assert(dv == all[i as int]);
        let mut p: usize = r.len();
        while p > 0 && r[p - 1].line > d.line
            invariant
                p <= r@.len(),
                dv == d@,
                forall|k: int| p <= k < r@.len() ==> #[trigger] r@[k]@.0 > dv.0,
            decreases p,
        {
            assert(r@[p - 1]@.0 > dv.0);
            p = p - 1;
        }
        let ghost before = diag_views(r@);
        proof {
            lemma_insert_at(before, dv, p as int);
            assert(all.take(i + 1).drop_last() =~= all.take(i as int));
            assert(all.take(i + 1).last() == dv);
            lemma_insert_ascending(before, dv);
        }
        r.insert(p, d);
        assert(diag_views(r@) =~= before.insert(p as int, dv));
        i = i + 1;
    }
    assert(all.take(n as int) =~= all);
    r
}

} // verus!
