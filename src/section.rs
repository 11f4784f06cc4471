//! The standard rule set and the validation of one section.

use vstd::prelude::*;
use vstd::string::StringExecFns;
use crate::diagnostic::{Diagnostic, diag_views, lines_ascending, sort_by_line, sort_diagnostics};
use crate::pattern::{Matcher, PatternError, regex_compiles};
use crate::rules::{
    BlockRule, PatternRule, block_diags, check_block, check_pattern, pattern_diags,
};
use crate::text::views;

verus! {

pub const PREFIX_TRIGGER: &'static str = r"[^;]*?;$";
pub const PREFIX_VALID: &'static str = r":[^;]*?;";
pub const PREFIX_MESSAGE: &'static str = "missing ':' at the beginning of the line (doesnt check multiline)";
pub const TERMINATOR_TRIGGER: &'static str = r":[^;]*?";
pub const TERMINATOR_VALID: &'static str = r":[^;]*?;$";
pub const TERMINATOR_MESSAGE: &'static str = "missing ';' at the end of the line (doesnt check multiline)";

pub const IF_OPEN: &'static str = r"^if\s*\([^)]*\)\s*then\s*\([^)]*\)";
pub const IF_MIDDLE: &'static str = r"^(?:else\s*\([^)]*\)|(?:\([^)]*\))?\s*elseif\s*(?:\([^)]*\))?\s*then\s*(?:\([^)]*\))?)";
pub const IF_CLOSE: &'static str = r"^endif";
pub const IF_OPEN_LABEL: &'static str = "if (*) then (*)";
pub const IF_CLOSE_LABEL: &'static str = "endif";

pub const SWITCH_OPEN: &'static str = r"^switch\s*\((.*?)\)";
pub const SWITCH_MIDDLE: &'static str = r"^case\s*\((.*?)\)";
pub const SWITCH_CLOSE: &'static str = r"^endswitch$";
pub const SWITCH_OPEN_LABEL: &'static str = "switch (*)";
pub const SWITCH_CLOSE_LABEL: &'static str = "endswitch";

pub const REPEAT_OPEN: &'static str = r"^repeat\b";
pub const REPEAT_CLOSE: &'static str = r"^repeat\s+while\s*\((.*?)\)\s+is\s+(.*)";
pub const REPEAT_OPEN_LABEL: &'static str = "repeat";
pub const REPEAT_CLOSE_LABEL: &'static str = "repeat while (*) is (*)";

pub const WHILE_OPEN: &'static str = r"^while\s*\((.*?)\)";
pub const WHILE_CLOSE: &'static str = r"^endwhile\s*\((.*?)\)";
pub const WHILE_OPEN_LABEL: &'static str = "while (*) [is (*)]";
pub const WHILE_CLOSE_LABEL: &'static str = "endwhile [(*)]";

pub const FORK_OPEN: &'static str = r"^fork";
pub const FORK_MIDDLE: &'static str = r"^fork again$";
pub const FORK_CLOSE: &'static str = r"^end fork|^end merge";
pub const FORK_OPEN_LABEL: &'static str = "fork";
pub const FORK_CLOSE_LABEL: &'static str = "end fork|end merge";

pub const SPLIT_OPEN: &'static str = r"^split";
pub const SPLIT_MIDDLE: &'static str = r"^fork again$";
pub const SPLIT_CLOSE: &'static str = r"^end split";
pub const SPLIT_OPEN_LABEL: &'static str = "split";
pub const SPLIT_CLOSE_LABEL: &'static str = "end split";

/// The rules applied to every section: pattern rules first, then block constructs.
pub struct RuleSet {
    pub patterns: Vec<PatternRule>,
    pub blocks: Vec<BlockRule>,
}

/// The diagnostics of each pattern rule in turn.
pub open spec fn all_pattern_diags(rules: Seq<PatternRule>, lines: Seq<Seq<char>>) -> Seq<
    (nat, Seq<char>),
>
    decreases rules.len(),
{
    if rules.len() == 0 {
        seq![]
    } else {
        all_pattern_diags(rules.drop_last(), lines) + pattern_diags(&rules.last(), lines)
    }
}

/// The diagnostics of each block construct in turn.
pub open spec fn all_block_diags(rules: Seq<BlockRule>, lines: Seq<Seq<char>>) -> Seq<
    (nat, Seq<char>),
>
    decreases rules.len(),
{
    if rules.len() == 0 {
        seq![]
    } else {
        all_block_diags(rules.drop_last(), lines) + block_diags(&rules.last(), lines)
    }
}

/// The diagnostics of a section: those of every rule, stably sorted by line.
pub open spec fn section_diags(rules: &RuleSet, lines: Seq<Seq<char>>) -> Seq<(nat, Seq<char>)> {
    sort_by_line(all_pattern_diags(rules.patterns@, lines) + all_block_diags(rules.blocks@, lines))
}

/// Whether `r` is the pattern rule made of these texts.
pub open spec fn pattern_rule_is(r: PatternRule, trigger: &str, valid: &str, message: &str) -> bool {
    r.trigger.pattern() == trigger@ && r.validation.pattern() == valid@ && r.message@ == message@
}

/// Whether `b` is the block rule made of these texts.
pub open spec fn block_rule_is(
    b: BlockRule,
    open: &str,
    middle: Option<&str>,
    close: &str,
    open_label: &str,
    close_label: &str,
) -> bool {
    &&& b.open.pattern() == open@
    &&& b.middle is Some == middle is Some
    &&& middle matches Some(m) ==> b.middle->Some_0.pattern() == m@
    &&& b.close.pattern() == close@
    &&& b.open_label@ == open_label@
    &&& b.close_label@ == close_label@
}

/// Whether the patterns of a block rule compile.
pub open spec fn block_compiles(open: &str, middle: Option<&str>, close: &str) -> bool {
    &&& regex_compiles(open@)
    &&& middle matches Some(m) ==> regex_compiles(m@)
    &&& regex_compiles(close@)
}

/// Whether every pattern of the standard rule set compiles.
pub open spec fn standard_compiles() -> bool {
    &&& regex_compiles(PREFIX_TRIGGER@) && regex_compiles(PREFIX_VALID@)
    &&& regex_compiles(TERMINATOR_TRIGGER@) && regex_compiles(TERMINATOR_VALID@)
    &&& block_compiles(IF_OPEN, Some(IF_MIDDLE), IF_CLOSE)
    &&& block_compiles(SWITCH_OPEN, Some(SWITCH_MIDDLE), SWITCH_CLOSE)
    &&& block_compiles(REPEAT_OPEN, None, REPEAT_CLOSE)
    &&& block_compiles(WHILE_OPEN, None, WHILE_CLOSE)
    &&& block_compiles(FORK_OPEN, Some(FORK_MIDDLE), FORK_CLOSE)
    &&& block_compiles(SPLIT_OPEN, Some(SPLIT_MIDDLE), SPLIT_CLOSE)
}

impl RuleSet {
    /// Whether these are the standard rules, in the standard order.
    pub open spec fn is_standard(&self) -> bool {
        &&& self.patterns@.len() == 2
        &&& pattern_rule_is(self.patterns@[0], PREFIX_TRIGGER, PREFIX_VALID, PREFIX_MESSAGE)
        &&& pattern_rule_is(
            self.patterns@[1],
            TERMINATOR_TRIGGER,
            TERMINATOR_VALID,
            TERMINATOR_MESSAGE,
        )
        &&& self.blocks@.len() == 6
        &&& block_rule_is(
            self.blocks@[0],
            IF_OPEN,
            Some(IF_MIDDLE),
            IF_CLOSE,
            IF_OPEN_LABEL,
            IF_CLOSE_LABEL,
        )
        &&& block_rule_is(
            self.blocks@[1],
            SWITCH_OPEN,
            Some(SWITCH_MIDDLE),
            SWITCH_CLOSE,
            SWITCH_OPEN_LABEL,
            SWITCH_CLOSE_LABEL,
        )
        &&& block_rule_is(
            self.blocks@[2],
            REPEAT_OPEN,
            None,
            REPEAT_CLOSE,
            REPEAT_OPEN_LABEL,
            REPEAT_CLOSE_LABEL,
        )
        &&& block_rule_is(
            self.blocks@[3],
            WHILE_OPEN,
            None,
            WHILE_CLOSE,
            WHILE_OPEN_LABEL,
            WHILE_CLOSE_LABEL,
        )
        &&& block_rule_is(
            self.blocks@[4],
            FORK_OPEN,
            Some(FORK_MIDDLE),
            FORK_CLOSE,
            FORK_OPEN_LABEL,
            FORK_CLOSE_LABEL,
        )
        &&& block_rule_is(
            self.blocks@[5],
            SPLIT_OPEN,
            Some(SPLIT_MIDDLE),
            SPLIT_CLOSE,
            SPLIT_OPEN_LABEL,
            SPLIT_CLOSE_LABEL,
        )
    }

    /// Compiles the standard rules; fails, naming the pattern, exactly when one
    /// of their patterns does not compile.
    pub fn standard() -> (r: Result<RuleSet, PatternError>)
        ensures
            r is Ok <==> standard_compiles(),
            r matches Ok(rs) ==> rs.is_standard(),
    {
        let prefix = match pattern_rule(PREFIX_TRIGGER, PREFIX_VALID, PREFIX_MESSAGE) {
            Ok(p) => p,
            Err(e) => return Err(e),
        };
        let terminator = match pattern_rule(TERMINATOR_TRIGGER, TERMINATOR_VALID, TERMINATOR_MESSAGE) {
            Ok(p) => p,
            Err(e) => return Err(e),
        };
        let if_block = match block_rule(
            IF_OPEN,
            Some(IF_MIDDLE),
            IF_CLOSE,
            IF_OPEN_LABEL,
            IF_CLOSE_LABEL,
        ) {
            Ok(b) => b,
            Err(e) => return Err(e),
        };
        let switch_block = match block_rule(
            SWITCH_OPEN,
            Some(SWITCH_MIDDLE),
            SWITCH_CLOSE,
            SWITCH_OPEN_LABEL,
            SWITCH_CLOSE_LABEL,
        ) {
            Ok(b) => b,
            Err(e) => return Err(e),
        };
        let repeat_block = match block_rule(
            REPEAT_OPEN,
            None,
            REPEAT_CLOSE,
            REPEAT_OPEN_LABEL,
            REPEAT_CLOSE_LABEL,
        ) {
            Ok(b) => b,
            Err(e) => return Err(e),
        };
        let while_block = match block_rule(
            WHILE_OPEN,
            None,
            WHILE_CLOSE,
            WHILE_OPEN_LABEL,
            WHILE_CLOSE_LABEL,
        ) {
            Ok(b) => b,
            Err(e) => return Err(e),
        };
        let fork_block = match block_rule(
            FORK_OPEN,
            Some(FORK_MIDDLE),
            FORK_CLOSE,
            FORK_OPEN_LABEL,
            FORK_CLOSE_LABEL,
        ) {
            Ok(b) => b,
            Err(e) => return Err(e),
        };
        let split_block = match block_rule(
            SPLIT_OPEN,
            Some(SPLIT_MIDDLE),
            SPLIT_CLOSE,
            SPLIT_OPEN_LABEL,
            SPLIT_CLOSE_LABEL,
        ) {
            Ok(b) => b,
            Err(e) => return Err(e),
        };
        let patterns = vec![prefix, terminator];
        let blocks = vec![if_block, switch_block, repeat_block, while_block, fork_block, split_block];
        Ok(RuleSet { patterns, blocks })
    }
}

/// Compiles a pattern rule; fails exactly when one of its patterns does not compile.
pub fn pattern_rule(trigger: &str, valid: &str, message: &str) -> (r: Result<PatternRule, PatternError>)
    ensures
        r is Ok <==> regex_compiles(trigger@) && regex_compiles(valid@),
        r matches Ok(p) ==> pattern_rule_is(p, trigger, valid, message),
{
    let trigger = match Matcher::new(trigger) {
        Ok(m) => m,
        Err(e) => return Err(e),
    };
    let validation = match Matcher::new(valid) {
        Ok(m) => m,
        Err(e) => return Err(e),
    };
    Ok(PatternRule { trigger, validation, message: String::from_str(message) })
}

/// Compiles a block rule; fails exactly when one of its patterns does not compile.
pub fn block_rule(
    open: &str,
    middle: Option<&str>,
    close: &str,
    open_label: &str,
    close_label: &str,
) -> (r: Result<BlockRule, PatternError>)
    ensures
        r is Ok <==> block_compiles(open, middle, close),
        r matches Ok(b) ==> block_rule_is(b, open, middle, close, open_label, close_label),
{
    let open = match Matcher::new(open) {
        Ok(m) => m,
        Err(e) => return Err(e),
    };
    let middle = match middle {
        Some(p) => match Matcher::new(p) {
            Ok(m) => Some(m),
            Err(e) => return Err(e),
        },
        None => None,
    };
    let close = match Matcher::new(close) {
        Ok(m) => m,
        Err(e) => return Err(e),
    };
    Ok(
        BlockRule {
            open,
            middle,
            close,
            open_label: String::from_str(open_label),
            close_label: String::from_str(close_label),
        },
    )
}

/// One `@startuml` section: the line where it starts in its file, its lines
/// and the diagnostics of its last validation.
pub struct Puml {
    pub starting_line: usize,
    pub lines: Vec<String>,
    pub errors: Vec<Diagnostic>,
}

/// The diagnostics of a concatenation are those of its parts, concatenated.
proof fn lemma_diag_views_concat(a: Seq<Diagnostic>, b: Seq<Diagnostic>)
    ensures
        diag_views(a + b) == diag_views(a) + diag_views(b),
{
    assert(diag_views(a + b) =~= diag_views(a) + diag_views(b));
}

impl Puml {
    /// An empty section starting at line 0.
    pub fn new() -> (r: Puml)
        ensures
            r.starting_line == 0,
            r.lines@.len() == 0,
            r.errors@.len() == 0,
    {
        Puml { starting_line: 0, lines: Vec::new(), errors: Vec::new() }
    }

    /// Runs every rule over the section's lines and keeps their diagnostics,
    /// sorted by line; diagnostics on one line keep the order of the rules.
    pub fn validate(&mut self, rules: &RuleSet)
        ensures
            final(self).starting_line == old(self).starting_line,
            final(self).lines == old(self).lines,
            diag_views(final(self).errors@) == section_diags(rules, views(old(self).lines@)),
            lines_ascending(diag_views(final(self).errors@)),
    {
        let ghost lines = views(self.lines@);
        let mut all: Vec<Diagnostic> = Vec::new();
        let mut k: usize = 0;
        while k < rules.patterns.len()
            invariant
                k <= rules.patterns@.len(),
                lines == views(self.lines@),
                diag_views(all@) == all_pattern_diags(rules.patterns@.take(k as int), lines),
            decreases rules.patterns@.len() - k,
        {
            let mut found = check_pattern(&rules.patterns[k], &self.lines);
            let ghost before = all@;
            let ghost added = found@;
            all.append(&mut found);
            proof {
                lemma_diag_views_concat(before, added);
                assert(rules.patterns@.take(k + 1).drop_last() =~= rules.patterns@.take(k as int));
            }
            k = k + 1;
        }
        assert(rules.patterns@.take(k as int) =~= rules.patterns@);
        let ghost pattern_part = all@;
        let mut blocks: Vec<Diagnostic> = Vec::new();
        let mut k: usize = 0;
        while k < rules.blocks.len()
            invariant
                k <= rules.blocks@.len(),
                lines == views(self.lines@),
                diag_views(blocks@) == all_block_diags(rules.blocks@.take(k as int), lines),
            decreases rules.blocks@.len() - k,
        {
            let mut found = check_block(&rules.blocks[k], &self.lines);
            let ghost before = blocks@;
            let ghost added = found@;
            blocks.append(&mut found);
            proof {
                lemma_diag_views_concat(before, added);
                assert(rules.blocks@.take(k + 1).drop_last() =~= rules.blocks@.take(k as int));
            }
            k = k + 1;
        }
        assert(rules.blocks@.take(k as int) =~= rules.blocks@);
        let ghost block_part = blocks@;
        all.append(&mut blocks);
        proof {
            lemma_diag_views_concat(pattern_part, block_part);
        }
        self.errors = sort_diagnostics(&all);
    }
}

} // verus!
