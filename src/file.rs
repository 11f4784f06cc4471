//! Cutting a file into its `@startuml` / `@enduml` sections, and validating
//! whole files.

use vstd::prelude::*;
use vstd::string::StringExecFns;
use crate::diagnostic::diag_views;
use crate::pattern::PatternError;
use crate::section::{Puml, RuleSet, section_diags, standard_compiles};
use crate::text::{lines_of, split_lines, starts_with, trim, trimmed, views};

verus! {

/// Why a file was skipped: an `@enduml` with no open section
/// (`open_line` is `None`), or an `@startuml` while the section that started
/// at `open_line` is still open.
#[derive(Debug)]
pub struct SectionError {
    pub line: usize,
    pub text: String,
    pub open_line: Option<usize>,
}

/// The failing line, and the line of the open section where there is one.
pub open spec fn failure_of(e: SectionError) -> (nat, Option<nat>) {
    (
        e.line as nat,
        match e.open_line {
            Some(l) => Some(l as nat),
            None => None,
        },
    )
}

/// Where the cutting of a file stands after some of its lines.
pub struct ExtractState {
    /// The sections closed so far: starting line and trimmed lines.
    pub sections: Seq<(nat, Seq<Seq<char>>)>,
    pub reading: bool,
    pub start: nat,
    pub buf: Seq<Seq<char>>,
    /// The line that made the file fail, and for a nested start the line of
    /// the open section.
    pub failure: Option<(nat, Option<nat>)>,
}

/// Whether the trimmed line opens a section.
pub open spec fn is_start(t: Seq<char>) -> bool {
    "@startuml"@.is_prefix_of(t)
}

/// Whether the trimmed line closes a section.
pub open spec fn is_end(t: Seq<char>) -> bool {
    "@enduml"@.is_prefix_of(t)
}

/// One step of the cutting, on line `i` whose trimmed text is `t`.
pub open spec fn extract_step(s: ExtractState, i: nat, t: Seq<char>) -> ExtractState {
    if s.failure is Some {
        s
    } else if is_end(t) && !s.reading {
        ExtractState { failure: Some((i, None)), ..s }
    } else {
        let s1 = if is_end(t) {
            ExtractState {
                sections: s.sections.push((s.start, s.buf)),
                reading: false,
                start: 0,
                buf: seq![],
                ..s
            }
        } else {
            s
        };
        let s2 = if s1.reading {
            ExtractState { buf: s1.buf.push(t), ..s1 }
        } else {
            s1
        };
        if is_start(t) {
            if !s2.reading {
                ExtractState { reading: true, start: i, ..s2 }
            } else {
                ExtractState { failure: Some((i, Some(s2.start))), ..s2 }
            }
        } else {
            s2
        }
    }
}

/// The state after the given lines, from the first to the last.
pub open spec fn extract(lines: Seq<Seq<char>>) -> ExtractState
    decreases lines.len(),
{
    if lines.len() == 0 {
        ExtractState { sections: seq![], reading: false, start: 0, buf: seq![], failure: None }
    } else {
        extract_step(
            extract(lines.drop_last()),
            (lines.len() - 1) as nat,
            trimmed(lines.last()),
        )
    }
}

/// Once the cutting has failed, later lines change nothing.
pub proof fn lemma_failure_sticks(lines: Seq<Seq<char>>, k: int)
    requires
        0 <= k <= lines.len(),
        extract(lines.take(k)).failure is Some,
    ensures
        extract(lines) == extract(lines.take(k)),
    decreases lines.len() - k,
{
    if k < lines.len() {
        assert(lines.take(k + 1).take(k) =~= lines.take(k));
        assert(lines.take(k + 1).drop_last() =~= lines.take(k));
        lemma_failure_sticks(lines, k + 1);
    } else {
        assert(lines.take(k) =~= lines);
    }
}

/// The starting line and lines of a section.
pub open spec fn puml_view(p: Puml) -> (nat, Seq<Seq<char>>) {
    (p.starting_line as nat, views(p.lines@))
}

/// The starting lines and lines of sections.
pub open spec fn puml_views(s: Seq<Puml>) -> Seq<(nat, Seq<Seq<char>>)> {
    s.map_values(|p: Puml| puml_view(p))
}

/// A file cut into its sections.
pub struct PumlFile {
    pub filename: String,
    pub pumls: Vec<Puml>,
}

impl PumlFile {
    /// Cuts `content` into its sections. Fails at the first `@enduml` with no
    /// open section, or the first `@startuml` inside an open one. A section
    /// still open at the end of the file is dropped.
    pub fn parse(filename: String, content: &str) -> (r: Result<PumlFile, SectionError>)
        ensures
            ({
                let st = extract(lines_of(content@));
                &&& (r is Ok <==> st.failure is None)
                &&& r matches Ok(f) ==> {
                    &&& f.filename@ == filename@
                    &&& puml_views(f.pumls@) == st.sections
                    &&& forall|j: int| 0 <= j < f.pumls@.len() ==> #[trigger] f.pumls@[j].errors@.len() == 0
                }
                &&& r matches Err(e) ==> {
                    &&& st.failure == Some(failure_of(e))
                    &&& e.line < lines_of(content@).len()
                    &&& e.text@ == trimmed(lines_of(content@)[e.line as int])
                }
            }),
    {
        let lines = split_lines(content);
        let ghost all = lines_of(content@);
        assert(views(lines@) =~= all);
        let mut pumls: Vec<Puml> = Vec::new();
        let mut reading = false;
        let mut start: usize = 0;
        let mut buf: Vec<String> = Vec::new();
        let n = lines.len();
        let mut i: usize = 0;
        while i < n
            invariant
                i <= n == all.len() == lines@.len(),
                views(lines@) == all,
                all == lines_of(content@),
                extract(all.take(i as int)).failure is None,
                puml_views(pumls@) == extract(all.take(i as int)).sections,
                reading == extract(all.take(i as int)).reading,
                start as nat == extract(all.take(i as int)).start,
                views(buf@) == extract(all.take(i as int)).buf,
                forall|j: int| 0 <= j < pumls@.len() ==> #[trigger] pumls@[j].errors@.len() == 0,
            decreases n - i,
        {
            let ghost s = extract(all.take(i as int));
            assert(all.take(i + 1).drop_last() =~= all.take(i as int));
            assert(all.take(i + 1).last() == all[i as int]);
            let t = trim(lines[i].as_str());
            assert(t@ == trimmed(all[i as int]));
            let end = starts_with(t, "@enduml");
            if end {
                if reading {
                    reading = false;
                    let ghost before = pumls@;
                    let done = Puml { starting_line: start, lines: buf, errors: Vec::new() };
                    pumls.push(done);
                    assert(puml_views(pumls@) =~= puml_views(before).push((s.start, s.buf)));
                    buf = Vec::new();
                    start = 0;
                } else {
                    proof {
                        assert(extract(all.take(i + 1)) == extract_step(s, i as nat, t@));
                        assert(is_end(t@));
                        assert(extract(all.take(i + 1)).failure == Some((i as nat, None::<nat>)));
                        lemma_failure_sticks(all, i + 1);
                    }
                    return Err(SectionError { line: i, text: String::from_str(t), open_line: None });
                }
            }
            if reading {
                let ghost before = buf@;
                buf.push(String::from_str(t));
                assert(views(buf@) =~= views(before).push(t@));
            }
            if starts_with(t, "@startuml") {
                if !reading {
                    reading = true;
                    start = i;
                } else {
                    proof {
                        lemma_failure_sticks(all, i + 1);
                    }
                    return Err(
                        SectionError { line: i, text: String::from_str(t), open_line: Some(start) },
                    );
                }
            }
            i = i + 1;
        }
        assert(all.take(n as int) =~= all);
        Ok(PumlFile { filename, pumls })
    }
}

/// Whether `after` is `before` with its diagnostics set by `rules`.
pub open spec fn validated(before: Puml, after: Puml, rules: &RuleSet) -> bool {
    &&& after.starting_line == before.starting_line
    &&& after.lines == before.lines
    &&& diag_views(after.errors@) == section_diags(rules, views(before.lines@))
}

/// Validating a section a second time gives the same diagnostics, in the
/// same order, as the first time.
pub proof fn lemma_validation_repeatable(p: Puml, q: Puml, r: Puml, rules: &RuleSet)
    requires
        validated(p, q, rules),
        validated(q, r, rules),
    ensures
        r.lines == p.lines,
        r.starting_line == p.starting_line,
        diag_views(r.errors@) == diag_views(q.errors@),
{
}

impl PumlFile {
    /// Validates every section of the file.
    pub fn validate(&mut self, rules: &RuleSet)
        ensures
            final(self).filename == old(self).filename,
            final(self).pumls@.len() == old(self).pumls@.len(),
            forall|j: int|
                0 <= j < old(self).pumls@.len() ==> validated(
                    #[trigger] old(self).pumls@[j],
                    final(self).pumls@[j],
                    rules,
                ),
    {
        let mut rest: Vec<Puml> = Vec::new();
        std::mem::swap(&mut rest, &mut self.pumls);
        let ghost orig = rest@;
        let n = rest.len();
        let mut j: usize = 0;
        while j < n
            invariant
                j <= n == orig.len(),
                rest@ == orig.skip(j as int),
                self.pumls@.len() == j,
                self.filename == old(self).filename,
                forall|k: int| 0 <= k < j ==> validated(#[trigger] orig[k], self.pumls@[k], rules),
            decreases n - j,
        {
            let mut p = rest.remove(0);
            assert(p == orig[j as int]);
            p.validate(rules);
            self.pumls.push(p);
            assert(orig.skip(j as int).remove(0) =~= orig.skip(j + 1));
            j = j + 1;
        }
    }
}

/// A file's name and text.
pub struct SourceFile {
    pub name: String,
    pub content: String,
}

/// A file left out, and why.
pub struct SkippedFile {
    pub name: String,
    pub error: SectionError,
}

/// The name and sections of each file that could be cut into sections, in order.
pub open spec fn accepted_files(files: Seq<SourceFile>) -> Seq<(Seq<char>, Seq<(nat, Seq<Seq<char>>)>)>
    decreases files.len(),
{
    if files.len() == 0 {
        seq![]
    } else {
        let prev = accepted_files(files.drop_last());
        let st = extract(lines_of(files.last().content@));
        if st.failure is None {
            prev.push((files.last().name@, st.sections))
        } else {
            prev
        }
    }
}

/// The name and failure of each file that could not be cut into sections, in order.
pub open spec fn skipped_files(files: Seq<SourceFile>) -> Seq<(Seq<char>, (nat, Option<nat>))>
    decreases files.len(),
{
    if files.len() == 0 {
        seq![]
    } else {
        let prev = skipped_files(files.drop_last());
        let st = extract(lines_of(files.last().content@));
        if st.failure is Some {
            prev.push((files.last().name@, st.failure->Some_0))
        } else {
            prev
        }
    }
}

/// The name and sections of a file.
pub open spec fn file_view(f: PumlFile) -> (Seq<char>, Seq<(nat, Seq<Seq<char>>)>) {
    (f.filename@, puml_views(f.pumls@))
}

/// The name and failure of a skipped file.
pub open spec fn skipped_view(s: SkippedFile) -> (Seq<char>, (nat, Option<nat>)) {
    (s.name@, failure_of(s.error))
}

/// The files to check, those skipped, and the rules they are checked against.
pub struct PumlValidator {
    pub puml_files: Vec<PumlFile>,
    pub skipped: Vec<SkippedFile>,
    pub rules: RuleSet,
}

impl PumlValidator {
    /// Compiles the standard rules and cuts each file into its sections. Fails
    /// exactly when a standard pattern does not compile. A file whose
    /// sections are malformed is skipped, with the reason; the others are kept.
    pub fn new(files: Vec<SourceFile>) -> (r: Result<PumlValidator, PatternError>)
        ensures
            r is Ok <==> standard_compiles(),
            r matches Ok(v) ==> {
                &&& v.rules.is_standard()
                &&& v.puml_files@.map_values(|f: PumlFile| file_view(f)) == accepted_files(files@)
                &&& v.skipped@.map_values(|s: SkippedFile| skipped_view(s)) == skipped_files(files@)
            },
    {
        let rules = match RuleSet::standard() {
            Ok(rules) => rules,
            Err(e) => return Err(e),
        };
        let mut puml_files: Vec<PumlFile> = Vec::new();
        let mut skipped: Vec<SkippedFile> = Vec::new();
        let n = files.len();
        let mut i: usize = 0;
        while i < n
            invariant
                i <= n == files@.len(),
                puml_files@.map_values(|f: PumlFile| file_view(f)) == accepted_files(
                    files@.take(i as int),
                ),
                skipped@.map_values(|s: SkippedFile| skipped_view(s)) == skipped_files(
                    files@.take(i as int),
                ),
            decreases n - i,
        {
            assert(files@.take(i + 1).drop_last() =~= files@.take(i as int));
            assert(files@.take(i + 1).last() == files@[i as int]);
            let ghost fs = puml_files@;
            let ghost ss = skipped@;
            match PumlFile::parse(files[i].name.clone(), files[i].content.as_str()) {
                Ok(f) => {
                    puml_files.push(f);
                    assert(puml_files@.map_values(|f: PumlFile| file_view(f)) =~= fs.map_values(
                        |f: PumlFile| file_view(f),
                    ).push(file_view(puml_files@.last())));
                },
                Err(error) => {
                    skipped.push(SkippedFile { name: files[i].name.clone(), error });
                    assert(skipped@.map_values(|s: SkippedFile| skipped_view(s)) =~= ss.map_values(
                        |s: SkippedFile| skipped_view(s),
                    ).push(skipped_view(skipped@.last())));
                },
            }
            i = i + 1;
        }
        assert(files@.take(n as int) =~= files@);
        Ok(PumlValidator { puml_files, skipped, rules })
    }

    /// Validates every section of every file against the rules.
    pub fn validate(&mut self)
        ensures
            final(self).rules == old(self).rules,
            final(self).skipped == old(self).skipped,
            final(self).puml_files@.len() == old(self).puml_files@.len(),
            forall|i: int|
                0 <= i < old(self).puml_files@.len() ==> {
                    let (a, b) = (#[trigger] old(self).puml_files@[i], final(self).puml_files@[i]);
                    &&& b.filename == a.filename
                    &&& b.pumls@.len() == a.pumls@.len()
                    &&& forall|j: int|
                        0 <= j < a.pumls@.len() ==> validated(
                            #[trigger] a.pumls@[j],
                            b.pumls@[j],
                            &old(self).rules,
                        )
                },
    {
        let mut rest: Vec<PumlFile> = Vec::new();
        std::mem::swap(&mut rest, &mut self.puml_files);
        let ghost orig = rest@;
        let n = rest.len();
        let mut i: usize = 0;
        while i < n
            invariant
                i <= n == orig.len(),
                rest@ == orig.skip(i as int),
                self.puml_files@.len() == i,
                self.rules == old(self).rules,
                self.skipped == old(self).skipped,
                forall|k: int|
                    0 <= k < i ==> {
                        let (a, b) = (#[trigger] orig[k], self.puml_files@[k]);
                        &&& b.filename == a.filename
                        &&& b.pumls@.len() == a.pumls@.len()
                        &&& forall|j: int|
                            0 <= j < a.pumls@.len() ==> validated(
                                #[trigger] a.pumls@[j],
                                b.pumls@[j],
                                &old(self).rules,
                            )
                    },
            decreases n - i,
        {
            let mut f = rest.remove(0);
            assert(f == orig[i as int]);
            f.validate(&self.rules);
            self.puml_files.push(f);
            assert(orig.skip(i as int).remove(0) =~= orig.skip(i + 1));
            i = i + 1;
        }
    }
}

} // verus!
