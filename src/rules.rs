//! The two kinds of rule applied to the lines of a section: line patterns and
//! paired block constructs.

use vstd::prelude::*;
use vstd::string::StringExecFns;
use crate::diagnostic::{Diagnostic, diag_views};
use crate::pattern::{Matcher, regex_matches};
use crate::text::{trim, trimmed, views};

verus! {

/// "A line that matches `trigger` must also match `validation`."
pub struct PatternRule {
    pub trigger: Matcher,
    pub validation: Matcher,
    pub message: String,
}

/// A paired construct: an opening line, optional separator lines inside it and
/// a closing line, with the labels used in messages.
pub struct BlockRule {
    pub open: Matcher,
    pub middle: Option<Matcher>,
    pub close: Matcher,
    pub open_label: String,
    pub close_label: String,
}

/// The message of a pattern rule as it is reported.
pub open spec fn pattern_message(message: Seq<char>) -> Seq<char> {
    "<- "@ + message
}

/// Whether the trimmed `line` matches the rule's trigger but not its validation.
pub open spec fn violates(rule: &PatternRule, line: Seq<char>) -> bool {
    regex_matches(rule.trigger.pattern(), trimmed(line)) && !regex_matches(
        rule.validation.pattern(),
        trimmed(line),
    )
}

/// The diagnostics of a pattern rule: one per violating line, in line order.
pub open spec fn pattern_diags(rule: &PatternRule, lines: Seq<Seq<char>>) -> Seq<(nat, Seq<char>)>
    decreases lines.len(),
{
    if lines.len() == 0 {
        seq![]
    } else {
        let prev = pattern_diags(rule, lines.drop_last());
        if violates(rule, lines.last()) {
            prev.push(((lines.len() - 1) as nat, pattern_message(rule.message@)))
        } else {
            prev
        }
    }
}

/// Checks every line of `lines` against a pattern rule.
pub fn check_pattern(rule: &PatternRule, lines: &Vec<String>) -> (r: Vec<Diagnostic>)
    ensures
        diag_views(r@) == pattern_diags(rule, views(lines@)),
{
    let mut message = String::from_str("<- ");
    message.append(rule.message.as_str());
    let mut out: Vec<Diagnostic> = Vec::new();
    let n = lines.len();
    let mut i: usize = 0;
    while i < n
        invariant
            i <= n == lines@.len(),
            message@ == pattern_message(rule.message@),
            diag_views(out@) == pattern_diags(rule, views(lines@).take(i as int)),
        decreases n - i,
    {
        let line = trim(lines[i].as_str());
        let ghost before = diag_views(out@);
        if rule.trigger.is_match(line) && !rule.validation.is_match(line) {
            out.push(Diagnostic { line: i, message: message.clone() });
        }
        assert(views(lines@).take(i + 1).drop_last() =~= views(lines@).take(i as int));
        assert(diag_views(out@) =~= pattern_diags(rule, views(lines@).take(i + 1)));
        i = i + 1;
    }
    assert(views(lines@).take(n as int) =~= views(lines@));
    out
}

/// How one line stands to a block construct.
pub enum Mark {
    Open,
    Middle,
    Close,
    Other,
}

/// The role of `line` (trimmed) in a construct: open first, then middle, then close.
pub open spec fn mark_of(rule: &BlockRule, line: Seq<char>) -> Mark {
    let t = trimmed(line);
    if regex_matches(rule.open.pattern(), t) {
        Mark::Open
    } else if rule.middle is Some && regex_matches(rule.middle->Some_0.pattern(), t) {
        Mark::Middle
    } else if regex_matches(rule.close.pattern(), t) {
        Mark::Close
    } else {
        Mark::Other
    }
}

/// The role of each line.
pub open spec fn marks_of(rule: &BlockRule, lines: Seq<Seq<char>>) -> Seq<Mark> {
    lines.map_values(|l: Seq<char>| mark_of(rule, l))
}

/// The state of a scan: the lines of opens not yet closed (innermost last) and
/// the lines of middles and closes found with no open.
pub struct ScanState {
    pub pending: Seq<nat>,
    pub unopened: Seq<nat>,
}

/// The state after scanning `marks` from the first line to the last.
pub open spec fn scan(marks: Seq<Mark>) -> ScanState
    decreases marks.len(),
{
    if marks.len() == 0 {
        ScanState { pending: seq![], unopened: seq![] }
    } else {
        let s = scan(marks.drop_last());
        let i = (marks.len() - 1) as nat;
        match marks.last() {
            Mark::Open => ScanState { pending: s.pending.push(i), unopened: s.unopened },
            Mark::Middle => if s.pending.len() == 0 {
                ScanState { pending: s.pending, unopened: s.unopened.push(i) }
            } else {
                s
            },
            Mark::Close => if s.pending.len() == 0 {
                ScanState { pending: s.pending, unopened: s.unopened.push(i) }
            } else {
                ScanState { pending: s.pending.drop_last(), unopened: s.unopened }
            },
            Mark::Other => s,
        }
    }
}

/// The message for a middle or close line with no open.
pub open spec fn no_opening(open_label: Seq<char>) -> Seq<char> {
    "<- no opening "@ + open_label + " found"@
}

/// The message for an open line that is never closed.
pub open spec fn no_closing(close_label: Seq<char>) -> Seq<char> {
    "<- no closing "@ + close_label + " found"@
}

/// The diagnostics of a scan: first each line with no open, in line order,
/// then each open left unclosed, outermost first.
pub open spec fn scan_diags(marks: Seq<Mark>, open_label: Seq<char>, close_label: Seq<char>) -> Seq<
    (nat, Seq<char>),
> {
    let s = scan(marks);
    s.unopened.map_values(|i: nat| (i, no_opening(open_label))) + s.pending.map_values(
        |i: nat| (i, no_closing(close_label)),
    )
}

/// The diagnostics of a block construct over `lines`.
pub open spec fn block_diags(rule: &BlockRule, lines: Seq<Seq<char>>) -> Seq<(nat, Seq<char>)> {
    scan_diags(marks_of(rule, lines), rule.open_label@, rule.close_label@)
}

/// The role of one line in a construct.
fn mark_line(rule: &BlockRule, line: &str) -> (r: Mark)
    ensures
        r == mark_of(rule, line@),
{
    let t = trim(line);
    if rule.open.is_match(t) {
        Mark::Open
    } else if match &rule.middle {
        Some(m) => m.is_match(t),
        None => false,
    } {
        Mark::Middle
    } else if rule.close.is_match(t) {
        Mark::Close
    } else {
        Mark::Other
    }
}

/// Checks that the construct's opens, middles and closes are nested and closed.
pub fn check_block(rule: &BlockRule, lines: &Vec<String>) -> (r: Vec<Diagnostic>)
    ensures
        diag_views(r@) == block_diags(rule, views(lines@)),
{
    let mut opening = String::from_str("<- no opening ");
    opening.append(rule.open_label.as_str());
    opening.append(" found");
    let mut closing = String::from_str("<- no closing ");
    closing.append(rule.close_label.as_str());
    closing.append(" found");
    let ghost marks = marks_of(rule, views(lines@));
    let mut stack: Vec<usize> = Vec::new();
    let mut out: Vec<Diagnostic> = Vec::new();
    let n = lines.len();
    let mut i: usize = 0;
    while i < n
        invariant
            i <= n == lines@.len() == marks.len(),
            marks == marks_of(rule, views(lines@)),
            opening@ == no_opening(rule.open_label@),
            stack@.map_values(|x: usize| x as nat) == scan(marks.take(i as int)).pending,
            diag_views(out@) == scan(marks.take(i as int)).unopened.map_values(
                |k: nat| (k, no_opening(rule.open_label@)),
            ),
            forall|k: int| 0 <= k < stack@.len() ==> stack@[k] < i,
        decreases n - i,
    {
        let m = mark_line(rule, lines[i].as_str());
        assert(m == marks[i as int]);
        assert(marks.take(i + 1).drop_last() =~= marks.take(i as int));
        assert(marks.take(i + 1).last() == m);
        let ghost s = scan(marks.take(i as int));
        let ghost st = stack@;
        let ghost ot = out@;
        match m {
            Mark::Open => {
                stack.push(i);
                assert(stack@.map_values(|x: usize| x as nat) =~= s.pending.push(i as nat));
            },
            Mark::Middle => {
                if stack.len() == 0 {
                    out.push(Diagnostic { line: i, message: opening.clone() });
                    assert(diag_views(out@) =~= diag_views(ot).push((i as nat, opening@)));
                    assert(s.unopened.push(i as nat).map_values(
                        |k: nat| (k, no_opening(rule.open_label@)),
                    ) =~= diag_views(ot).push((i as nat, opening@)));
                }
            },
            Mark::Close => {
                if stack.len() == 0 {
                    out.push(Diagnostic { line: i, message: opening.clone() });
                    assert(diag_views(out@) =~= diag_views(ot).push((i as nat, opening@)));
                    assert(s.unopened.push(i as nat).map_values(
                        |k: nat| (k, no_opening(rule.open_label@)),
                    ) =~= diag_views(ot).push((i as nat, opening@)));
                } else {
                    stack.pop();
                    assert(stack@.map_values(|x: usize| x as nat) =~= s.pending.drop_last());
                }
            },
            Mark::Other => {},
        }
        i = i + 1;
    }
    assert(marks.take(n as int) =~= marks);
    let ghost unopened_part = diag_views(out@);
    let mut j: usize = 0;
    while j < stack.len()
        invariant
            j <= stack@.len(),
            closing@ == no_closing(rule.close_label@),
            diag_views(out@) == unopened_part + stack@.take(j as int).map_values(
                |x: usize| (x as nat, no_closing(rule.close_label@)),
            ),
        decreases stack@.len() - j,
    {
        let ghost ot = diag_views(out@);
        out.push(Diagnostic { line: stack[j], message: closing.clone() });
        assert(stack@.take(j + 1).map_values(|x: usize| (x as nat, no_closing(rule.close_label@)))
            =~= stack@.take(j as int).map_values(
            |x: usize| (x as nat, no_closing(rule.close_label@)),
        ).push((stack@[j as int] as nat, closing@)));
        assert(diag_views(out@) =~= ot.push((stack@[j as int] as nat, closing@)));
        j = j + 1;
    }
    assert(stack@.take(stack@.len() as int) =~= stack@);
    assert(stack@.map_values(|x: usize| (x as nat, no_closing(rule.close_label@))) =~= scan(
        marks,
    ).pending.map_values(|i: nat| (i, no_closing(rule.close_label@))));
    out
}

/// A pattern rule reports a line exactly when the line violates it: then one
/// diagnostic stands at that line, with the rule's message; otherwise none.
pub proof fn lemma_pattern_rule_per_line(rule: &PatternRule, lines: Seq<Seq<char>>, i: int)
    requires
        0 <= i < lines.len(),
    ensures
        violates(rule, lines[i]) ==> exists|k: int|
            0 <= k < pattern_diags(rule, lines).len() && pattern_diags(rule, lines)[k] == (
                i as nat,
                pattern_message(rule.message@),
            ) && forall|k2: int|
                0 <= k2 < pattern_diags(rule, lines).len() && #[trigger] pattern_diags(
                    rule,
                    lines,
                )[k2].0 == i ==> k2 == k,
        !violates(rule, lines[i]) ==> forall|k: int|
            0 <= k < pattern_diags(rule, lines).len() ==> #[trigger] pattern_diags(
                rule,
                lines,
            )[k].0 != i,
    decreases lines.len(),
{
    let prev = pattern_diags(rule, lines.drop_last());
    lemma_pattern_lines_below(rule, lines.drop_last());
    if i < lines.len() - 1 {
        assert(lines.drop_last()[i] == lines[i]);
        lemma_pattern_rule_per_line(rule, lines.drop_last(), i);
        if violates(rule, lines[i]) {
            let k = choose|k: int|
                0 <= k < prev.len() && prev[k] == (i as nat, pattern_message(rule.message@))
                    && forall|k2: int|
                    0 <= k2 < prev.len() && #[trigger] prev[k2].0 == i ==> k2 == k;
            assert(pattern_diags(rule, lines)[k] == prev[k]);
        }
    } else {
        assert(lines.last() == lines[i]);
        if violates(rule, lines[i]) {
            let k = prev.len() as int;
            assert(pattern_diags(rule, lines)[k] == (i as nat, pattern_message(rule.message@)));
        }
    }
}

/// Every diagnostic of a pattern rule stands at one of the lines.
proof fn lemma_pattern_lines_below(rule: &PatternRule, lines: Seq<Seq<char>>)
    ensures
        forall|k: int|
            0 <= k < pattern_diags(rule, lines).len() ==> #[trigger] pattern_diags(
                rule,
                lines,
            )[k].0 < lines.len(),
    decreases lines.len(),
{
    if lines.len() > 0 {
        let prev = pattern_diags(rule, lines.drop_last());
        lemma_pattern_lines_below(rule, lines.drop_last());
        assert forall|k: int| 0 <= k < pattern_diags(rule, lines).len() implies #[trigger] pattern_diags(
            rule,
            lines,
        )[k].0 < lines.len() by {
            if k < prev.len() {
                assert(prev[k].0 < lines.drop_last().len());
                assert(pattern_diags(rule, lines)[k] == prev[k]);
            }
        }
    }
}

/// Whether the entries of `s` strictly increase.
pub open spec fn strictly_ascending(s: Seq<nat>) -> bool {
    forall|a: int, b: int| 0 <= a < b < s.len() ==> s[a] < s[b]
}

/// What a scan keeps: open lines still pending and lines with no open, each
/// in line order, each among the lines scanned.
proof fn lemma_scan_shape(marks: Seq<Mark>)
    ensures
        strictly_ascending(scan(marks).pending),
        strictly_ascending(scan(marks).unopened),
        forall|k: int|
            0 <= k < scan(marks).pending.len() ==> #[trigger] scan(marks).pending[k] < marks.len()
                && marks[scan(marks).pending[k] as int] is Open,
        forall|k: int|
            0 <= k < scan(marks).unopened.len() ==> #[trigger] scan(marks).unopened[k] < marks.len()
                && !(marks[scan(marks).unopened[k] as int] is Open),
    decreases marks.len(),
{
    if marks.len() > 0 {
        let prev = marks.drop_last();
        lemma_scan_shape(prev);
        assert forall|k: int| 0 <= k < prev.len() implies prev[k] == marks[k] by {}
    }
}

/// The nesting depth after `marks`: opens counted up, closes down.
pub open spec fn depth(marks: Seq<Mark>) -> int
    decreases marks.len(),
{
    if marks.len() == 0 {
        0
    } else {
        depth(marks.drop_last()) + match marks.last() {
            Mark::Open => 1int,
            Mark::Close => -1int,
            _ => 0int,
        }
    }
}

/// Whether every close and every middle stands inside an open construct.
pub open spec fn never_unopened(marks: Seq<Mark>) -> bool {
    forall|k: int|
        0 <= k < marks.len() && (marks[k] is Close || marks[k] is Middle) ==> depth(
            #[trigger] marks.take(k),
        ) > 0
}

/// Whether every open has its close and every middle and close stands inside
/// an open construct.
pub open spec fn balanced(marks: Seq<Mark>) -> bool {
    never_unopened(marks) && depth(marks) == 0
}

/// While no line lacks its open, the pending opens are as many as the depth.
proof fn lemma_pending_is_depth(marks: Seq<Mark>)
    requires
        never_unopened(marks),
    ensures
        scan(marks).pending.len() == depth(marks),
        scan(marks).unopened.len() == 0,
    decreases marks.len(),
{
    if marks.len() > 0 {
        let prev = marks.drop_last();
        assert forall|k: int|
            0 <= k < prev.len() && (prev[k] is Close || prev[k] is Middle) implies depth(
            #[trigger] prev.take(k),
        ) > 0 by {
            assert(prev.take(k) =~= marks.take(k));
            assert(prev[k] == marks[k]);
        }
        lemma_pending_is_depth(prev);
        assert(marks.take(marks.len() - 1) =~= prev);
    }
}

/// Balanced input gives no diagnostics and leaves no open pending.
pub proof fn lemma_balanced_is_clean(marks: Seq<Mark>, open_label: Seq<char>, close_label: Seq<char>)
    requires
        balanced(marks),
    ensures
        scan(marks).pending.len() == 0,
        scan_diags(marks, open_label, close_label).len() == 0,
{
    lemma_pending_is_depth(marks);
}

/// A construct reports each line at most once.
pub proof fn lemma_one_diagnostic_per_line(marks: Seq<Mark>, open_label: Seq<char>, close_label: Seq<char>)
    ensures
        forall|k1: int, k2: int|
            0 <= k1 < k2 < scan_diags(marks, open_label, close_label).len() ==> #[trigger] scan_diags(
                marks,
                open_label,
                close_label,
            )[k1].0 != #[trigger] scan_diags(marks, open_label, close_label)[k2].0,
{
    lemma_scan_shape(marks);
    let s = scan(marks);
    let d = scan_diags(marks, open_label, close_label);
    let u = s.unopened.len() as int;
    assert forall|k1: int, k2: int| 0 <= k1 < k2 < d.len() implies #[trigger] d[k1].0 != #[trigger] d[k2].0 by {
        if k2 < u {
            assert(d[k1].0 == s.unopened[k1] && d[k2].0 == s.unopened[k2]);
        } else if k1 >= u {
            assert(d[k1].0 == s.pending[k1 - u] && d[k2].0 == s.pending[k2 - u]);
        } else {
            assert(d[k1].0 == s.unopened[k1] && d[k2].0 == s.pending[k2 - u]);
        }
    }
}

/// An open line stays pending while no close follows it.
proof fn lemma_open_stays_pending(marks: Seq<Mark>, i: int, m: int)
    requires
        0 <= i < m <= marks.len(),
        marks[i] is Open,
        forall|j: int| i < j < marks.len() ==> !(#[trigger] marks[j] is Close),
    ensures
        scan(marks.take(m)).pending.contains(i as nat),
    decreases m - i,
{
    let t = marks.take(m);
    assert(t.drop_last() =~= marks.take(m - 1));
    assert(t.last() == marks[m - 1]);
    if m == i + 1 {
        let s = scan(marks.take(i));
        assert(scan(t).pending == s.pending.push(i as nat));
        assert(scan(t).pending[s.pending.len() as int] == i);
    } else {
        lemma_open_stays_pending(marks, i, m - 1);
        let s = scan(marks.take(m - 1));
        let p = choose|p: int| 0 <= p < s.pending.len() && s.pending[p] == i as nat;
        assert(scan(t).pending[p] == i);
    }
}

/// An open with no close after it gets exactly one diagnostic: the one that
/// says its close is missing.
pub proof fn lemma_unclosed_open(marks: Seq<Mark>, i: int, open_label: Seq<char>, close_label: Seq<char>)
    requires
        0 <= i < marks.len(),
        marks[i] is Open,
        forall|j: int| i < j < marks.len() ==> !(#[trigger] marks[j] is Close),
    ensures
        exists|k: int|
            0 <= k < scan_diags(marks, open_label, close_label).len() && scan_diags(
                marks,
                open_label,
                close_label,
            )[k] == (i as nat, no_closing(close_label)) && forall|k2: int|
                0 <= k2 < scan_diags(marks, open_label, close_label).len() && #[trigger] scan_diags(
                    marks,
                    open_label,
                    close_label,
                )[k2].0 == i ==> k2 == k,
{
    assert(marks.take(marks.len() as int) =~= marks);
    lemma_open_stays_pending(marks, i, marks.len() as int);
    lemma_scan_shape(marks);
    let s = scan(marks);
    let d = scan_diags(marks, open_label, close_label);
    let u = s.unopened.len() as int;
    let p = choose|p: int| 0 <= p < s.pending.len() && s.pending[p] == i as nat;
    let k = u + p;
    assert(d[k] == (i as nat, no_closing(close_label)));
    assert forall|k2: int| 0 <= k2 < d.len() && #[trigger] d[k2].0 == i implies k2 == k by {
        if k2 < u {
            assert(d[k2].0 == s.unopened[k2]);
        } else {
            assert(d[k2].0 == s.pending[k2 - u]);
        }
    }
}

/// Scans of equal length that end with the same pending opens go on alike.
proof fn lemma_pending_step(a: Seq<Mark>, b: Seq<Mark>, x: Mark)
    requires
        a.len() == b.len(),
        scan(a).pending == scan(b).pending,
    ensures
        scan(a.push(x)).pending == scan(b.push(x)).pending,
{
    assert(a.push(x).drop_last() =~= a);
    assert(b.push(x).drop_last() =~= b);
    assert(a.push(x).last() == x);
    assert(b.push(x).last() == x);
    match x {
        Mark::Open => {},
        Mark::Middle => {},
        Mark::Close => {},
        Mark::Other => {},
    }
}

/// A close with no open before it gets exactly one diagnostic, the one that
/// says its open is missing, and leaves the pending opens as they would be
/// without it.
pub proof fn lemma_close_without_open(marks: Seq<Mark>, i: int, open_label: Seq<char>, close_label: Seq<char>)
    requires
        0 <= i < marks.len(),
        marks[i] is Close,
        forall|j: int| 0 <= j < i ==> !(#[trigger] marks[j] is Open),
    ensures
        exists|k: int|
            0 <= k < scan_diags(marks, open_label, close_label).len() && scan_diags(
                marks,
                open_label,
                close_label,
            )[k] == (i as nat, no_opening(open_label)) && forall|k2: int|
                0 <= k2 < scan_diags(marks, open_label, close_label).len() && #[trigger] scan_diags(
                    marks,
                    open_label,
                    close_label,
                )[k2].0 == i ==> k2 == k,
        scan(marks).pending == scan(marks.update(i, Mark::Other)).pending,
{
    let other = marks.update(i, Mark::Other);
    lemma_scan_shape(marks.take(i));
    let s = scan(marks.take(i));
    if s.pending.len() > 0 {
        let j = s.pending[0] as int;
        assert(marks.take(i)[j] is Open);
        assert(marks.take(i)[j] == marks[j]);
    }
    assert(marks.take(i + 1).drop_last() =~= marks.take(i));
    assert(other.take(i + 1).drop_last() =~= marks.take(i));
    assert(marks.take(i + 1).last() == marks[i]);
    assert(other.take(i + 1).last() == Mark::Other);
    assert(scan(marks.take(i + 1)).unopened[s.unopened.len() as int] == i);
    assert(scan(marks.take(i + 1)).pending == scan(other.take(i + 1)).pending);
    assert(scan(marks.take(i + 1)).unopened == s.unopened.push(i as nat));
    lemma_unopened_stays(marks, i, marks.len() as int);
    lemma_same_pending_after(marks, other, i + 1);
    assert(marks.take(marks.len() as int) =~= marks);
    assert(other.take(other.len() as int) =~= other);
    lemma_scan_shape(marks);
    let f = scan(marks);
    let d = scan_diags(marks, open_label, close_label);
    let u = f.unopened.len() as int;
    let k = choose|k: int| 0 <= k < f.unopened.len() && f.unopened[k] == i as nat;
    assert(d[k] == (i as nat, no_opening(open_label)));
    assert forall|k2: int| 0 <= k2 < d.len() && #[trigger] d[k2].0 == i implies k2 == k by {
        if k2 < u {
            assert(d[k2].0 == f.unopened[k2]);
        } else {
            assert(d[k2].0 == f.pending[k2 - u]);
        }
    }
}

/// A line with no open stays reported as the scan goes on.
proof fn lemma_unopened_stays(marks: Seq<Mark>, i: int, m: int)
    requires
        0 <= i < m <= marks.len(),
        scan(marks.take(i + 1)).unopened.contains(i as nat),
    ensures
        scan(marks.take(m)).unopened.contains(i as nat),
    decreases m - i,
{
    if m > i + 1 {
        lemma_unopened_stays(marks, i, m - 1);
        let t = marks.take(m);
        assert(t.drop_last() =~= marks.take(m - 1));
        let s = scan(marks.take(m - 1));
        let p = choose|p: int| 0 <= p < s.unopened.len() && s.unopened[p] == i as nat;
        assert(scan(t).unopened[p] == i);
    }
}

/// Two inputs that differ only before `m`, where their pending opens agree,
/// end with the same pending opens.
proof fn lemma_same_pending_after(a: Seq<Mark>, b: Seq<Mark>, m: int)
    requires
        0 <= m <= a.len() == b.len(),
        scan(a.take(m)).pending == scan(b.take(m)).pending,
        forall|j: int| m <= j < a.len() ==> a[j] == b[j],
    ensures
        scan(a).pending == scan(b).pending,
    decreases a.len() - m,
{
    if m < a.len() {
        lemma_pending_step(a.take(m), b.take(m), a[m]);
        assert(a.take(m).push(a[m]) =~= a.take(m + 1));
        assert(b.take(m).push(a[m]) =~= b.take(m + 1));
        lemma_same_pending_after(a, b, m + 1);
    } else {
        assert(a.take(m) =~= a);
        assert(b.take(m) =~= b);
    }
}

/// Closes match the innermost pending open: after two opens and one close the
/// outer open is still pending, and a second close leaves the scan as it was
/// before the two opens.
pub proof fn lemma_nesting_last_in_first_out(marks: Seq<Mark>)
    ensures
        scan(marks.push(Mark::Open).push(Mark::Open).push(Mark::Close)).pending == scan(
            marks,
        ).pending.push(marks.len() as nat),
        scan(marks.push(Mark::Open).push(Mark::Open).push(Mark::Close).push(Mark::Close)) == scan(
            marks,
        ),
{
    let a = marks.push(Mark::Open);
    let b = a.push(Mark::Open);
    let c = b.push(Mark::Close);
    let d = c.push(Mark::Close);
    assert(a.drop_last() =~= marks);
    assert(b.drop_last() =~= a);
    assert(c.drop_last() =~= b);
    assert(d.drop_last() =~= c);
    let n = marks.len() as nat;
    assert(a.last() == Mark::Open);
    assert(b.last() == Mark::Open);
    assert(c.last() == Mark::Close);
    assert(d.last() == Mark::Close);
    assert(scan(a).pending == scan(marks).pending.push(n));
    assert(scan(b).pending == scan(marks).pending.push(n).push(n + 1));
    assert(scan(c).pending =~= scan(marks).pending.push(n));
    assert(scan(d).pending =~= scan(marks).pending);
    assert(scan(d).unopened == scan(marks).unopened);
}

} // verus!
