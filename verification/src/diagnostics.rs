//! Diagnostics of source files: a list of findings without duplicates, and an
//! analyzer that scans a file's text line by line for a fixed set of patterns.

use crate::text::{
    byte_offset, chars_of, contains, copy_option, decimal, ends_with, find, first_occurrence, includes,
    lemma_first_occurrence, lemma_utf8_len_push, lemma_utf8_len_subrange, lines,
    occurs_at_index, option_text, push_decimal, same_text, split_lines, starts_with, trim, trim_bounds,
    trim_start, utf8_len, views_of,
};
use vstd::prelude::*;

verus! {

/// One finding in a source file.
#[derive(Debug)]
pub struct DiagnosticError {
    pub id: String,
    pub severity: String,
    pub message: String,
    pub file: String,
    pub line: usize,
    pub column: usize,
    pub code: Option<String>,
    pub suggestion: Option<String>,
    pub fixable: Option<bool>,
    pub source: Option<String>,
}

/// What a `DiagnosticError` holds, with each string as its characters.
pub struct DiagnosticErrorView {
    pub id: Seq<char>,
    pub severity: Seq<char>,
    pub message: Seq<char>,
    pub file: Seq<char>,
    pub line: nat,
    pub column: nat,
    pub code: Option<Seq<char>>,
    pub suggestion: Option<Seq<char>>,
    pub fixable: Option<bool>,
    pub source: Option<Seq<char>>,
}

impl View for DiagnosticError {
    type V = DiagnosticErrorView;

    open spec fn view(&self) -> DiagnosticErrorView {
        DiagnosticErrorView {
            id: self.id@,
            severity: self.severity@,
            message: self.message@,
            file: self.file@,
            line: self.line as nat,
            column: self.column as nat,
            code: option_text(self.code),
            suggestion: option_text(self.suggestion),
            fixable: self.fixable,
            source: option_text(self.source),
        }
    }
}

impl Clone for DiagnosticError {
    fn clone(&self) -> (r: Self)
        ensures
            r@ == self@,
    {
        DiagnosticError {
            id: self.id.clone(),
            severity: self.severity.clone(),
            message: self.message.clone(),
            file: self.file.clone(),
            line: self.line,
            column: self.column,
            code: copy_option(&self.code),
            suggestion: copy_option(&self.suggestion),
            fixable: self.fixable,
            source: copy_option(&self.source),
        }
    }
}

/// The views of a list of findings.
pub open spec fn views(errors: Seq<DiagnosticError>) -> Seq<DiagnosticErrorView> {
    Seq::new(errors.len(), |i: int| errors[i]@)
}

/// Two findings are the same report: same file, line, column and message.
pub open spec fn same_report(a: DiagnosticErrorView, b: DiagnosticErrorView) -> bool {
    &&& a.file == b.file
    &&& a.line == b.line
    &&& a.column == b.column
    &&& a.message == b.message
}

/// `errors` holds a finding that is the same report as `error`.
pub open spec fn reported(errors: Seq<DiagnosticErrorView>, error: DiagnosticErrorView) -> bool {
    exists|i: int| 0 <= i < errors.len() && same_report(#[trigger] errors[i], error)
}

/// No two findings of `errors` are the same report.
pub open spec fn distinct_reports(errors: Seq<DiagnosticErrorView>) -> bool {
    forall|i: int, j: int|
        0 <= i < j < errors.len() ==> !same_report(#[trigger] errors[i], #[trigger] errors[j])
}

/// The findings of `errors` that are not in `file`, in their order.
pub open spec fn outside_file(errors: Seq<DiagnosticErrorView>, file: Seq<char>) -> Seq<
    DiagnosticErrorView,
>
    decreases errors.len(),
{
    if errors.len() == 0 {
        Seq::empty()
    } else if errors.last().file == file {
        outside_file(errors.drop_last(), file)
    } else {
        outside_file(errors.drop_last(), file).push(errors.last())
    }
}

/// `outside_file` is the list filtered by the file.
pub proof fn lemma_outside_file_is_filter(errors: Seq<DiagnosticErrorView>, file: Seq<char>)
    ensures
        outside_file(errors, file) == errors.filter(|e: DiagnosticErrorView| e.file != file),
    decreases errors.len(),
{
    reveal(Seq::filter);
    if errors.len() > 0 {
        lemma_outside_file_is_filter(errors.drop_last(), file);
    }
}

/// None of the findings that `outside_file` keeps is in `file`; each of them
/// stands in `errors`, and every two of them stand there in the same order.
/// Where no two findings of `errors` are the same report, no two of those
/// kept are.
pub proof fn lemma_outside_file(errors: Seq<DiagnosticErrorView>, file: Seq<char>)
    ensures
        forall|i: int|
            0 <= i < outside_file(errors, file).len() ==> (#[trigger] outside_file(
                errors,
                file,
            )[i]).file != file,
        forall|i: int|
            0 <= i < outside_file(errors, file).len() ==> exists|a: int|
                0 <= a < errors.len() && errors[a] == #[trigger] outside_file(errors, file)[i],
        forall|i: int, j: int|
            0 <= i < j < outside_file(errors, file).len() ==> exists|a: int, b: int|
                0 <= a < b < errors.len() && errors[a] == #[trigger] outside_file(errors, file)[i]
                    && errors[b] == #[trigger] outside_file(errors, file)[j],
        distinct_reports(errors) ==> distinct_reports(outside_file(errors, file)),
    decreases errors.len(),
{
    let kept = outside_file(errors, file);
    if errors.len() > 0 {
        let front = errors.drop_last();
        let kept_front = outside_file(front, file);
        lemma_outside_file(front, file);
        assert forall|i: int| 0 <= i < kept.len() implies exists|a: int|
            0 <= a < errors.len() && errors[a] == #[trigger] kept[i] by {
            if i < kept_front.len() {
                let a = choose|a: int| 0 <= a < front.len() && front[a] == kept_front[i];
            }
        }
        assert forall|i: int, j: int| 0 <= i < j < kept.len() implies exists|a: int, b: int|
            0 <= a < b < errors.len() && errors[a] == #[trigger] kept[i] && errors[b]
                == #[trigger] kept[j] by {
            if j < kept_front.len() {
                let (a, b) = choose|a: int, b: int|
                    0 <= a < b < front.len() && front[a] == kept_front[i] && front[b]
                        == kept_front[j];
            }
        }
    }
    if distinct_reports(errors) {
        assert forall|i: int, j: int| 0 <= i < j < kept.len() implies !same_report(
            #[trigger] kept[i],
            #[trigger] kept[j],
        ) by {
            let (a, b) = choose|a: int, b: int|
                0 <= a < b < errors.len() && errors[a] == kept[i] && errors[b] == kept[j];
        }
    }
}

/// The patterns that the analyzer reports.
#[derive(Clone, Copy, Debug)]
pub enum Rule {
    /// A call of `console.log`.
    Console,
    /// A declaration with `var`.
    Var,
    /// A comparison with `==` where `===` is meant.
    LooseEquality,
    /// A statement that ends with `)` and no semicolon.
    Semicolon,
    /// A `TODO` or `FIXME` comment.
    Todo,
}

impl Rule {
    /// The end of the identifier of a finding of this rule.
    pub open spec fn tag(self) -> Seq<char> {
        match self {
            Rule::Console => "console"@,
            Rule::Var => "var"@,
            Rule::LooseEquality => "eqeq"@,
            Rule::Semicolon => "semi"@,
            Rule::Todo => "todo"@,
        }
    }

    /// How severe a finding of this rule is.
    pub open spec fn severity(self) -> Seq<char> {
        match self {
            Rule::Console | Rule::Var | Rule::LooseEquality => "warning"@,
            Rule::Semicolon | Rule::Todo => "info"@,
        }
    }

    /// The message of a finding of this rule.
    pub open spec fn message(self) -> Seq<char> {
        match self {
            Rule::Console => "Uso de console.log() detectado"@,
            Rule::Var => "Uso de 'var' está desaconsejado"@,
            Rule::LooseEquality => "Usa '===' en lugar de '=='"@,
            Rule::Semicolon => "Falta punto y coma"@,
            Rule::Todo => "Comentario TODO pendiente"@,
        }
    }

    /// The lint code of this rule.
    pub open spec fn code(self) -> Seq<char> {
        match self {
            Rule::Console => "no-console"@,
            Rule::Var => "no-var"@,
            Rule::LooseEquality => "eqeqeq"@,
            Rule::Semicolon => "semi"@,
            Rule::Todo => "no-warning-comments"@,
        }
    }

    /// What a finding of this rule suggests, if anything.
    pub open spec fn suggestion(self) -> Option<Seq<char>> {
        match self {
            Rule::Console => Some("Considera usar un logger apropiado"@),
            Rule::Var => Some("Usa 'const' o 'let' en su lugar"@),
            Rule::LooseEquality => Some("Usa '===' para comparación estricta"@),
            Rule::Semicolon | Rule::Todo => None,
        }
    }

    /// Whether a finding of this rule can be fixed automatically.
    pub open spec fn fixable(self) -> bool {
        !(self is Todo)
    }
}

/// Number of rules.
pub const RULE_COUNT: usize = 5;

/// The rules in the order in which the analyzer applies them to a line.
pub open spec fn rule_at(k: int) -> Rule {
    if k <= 0 {
        Rule::Console
    } else if k == 1 {
        Rule::Var
    } else if k == 2 {
        Rule::LooseEquality
    } else if k == 3 {
        Rule::Semicolon
    } else {
        Rule::Todo
    }
}

/// The column, counted in bytes of UTF-8 from 1, at which `needle` first
/// stands in `line`; 1 where it does not.
pub open spec fn column_of(line: Seq<char>, needle: Seq<char>) -> nat {
    match first_occurrence(line, needle) {
        Some(at) => utf8_len(line.take(at)) + 1,
        None => 1,
    }
}

/// The column at which `rule` reports `line`, or `None` where it does not
/// report it.
pub open spec fn rule_column(rule: Rule, line: Seq<char>) -> Option<nat> {
    match rule {
        Rule::Console => if contains(line, "console.log"@) {
            Some(column_of(line, "console.log"@))
        } else {
            None
        },
        Rule::Var => if starts_with(trim_start(line), "var "@) {
            Some(column_of(line, "var"@))
        } else {
            None
        },
        Rule::LooseEquality => if contains(line, " == "@) && !contains(line, "==="@) {
            Some(column_of(line, " == "@))
        } else {
            None
        },
        Rule::Semicolon => if ends_with(trim(line), ")"@) {
            Some(utf8_len(line))
        } else {
            None
        },
        Rule::Todo => if contains(line, "TODO"@) {
            Some(column_of(line, "TODO"@))
        } else if contains(line, "FIXME"@) {
            Some(column_of(line, "FIXME"@))
        } else {
            None
        },
    }
}

/// The finding of `rule` in line `number` of `file`, at `column`.
pub open spec fn finding(file: Seq<char>, number: nat, column: nat, rule: Rule) -> DiagnosticErrorView {
    DiagnosticErrorView {
        id: file + "-"@ + decimal(number) + "-"@ + rule.tag(),
        severity: rule.severity(),
        message: rule.message(),
        file,
        line: number,
        column,
        code: Some(rule.code()),
        suggestion: rule.suggestion(),
        fixable: Some(rule.fixable()),
        source: Some("aeditor"@),
    }
}

/// The findings of the first `k` rules in line `number` of `file`, in the
/// order of the rules.
pub open spec fn line_findings_upto(file: Seq<char>, number: nat, line: Seq<char>, k: int) -> Seq<
    DiagnosticErrorView,
>
    decreases k,
{
    if k <= 0 {
        Seq::empty()
    } else {
        let before = line_findings_upto(file, number, line, k - 1);
        match rule_column(rule_at(k - 1), line) {
            Some(column) => before.push(finding(file, number, column, rule_at(k - 1))),
            None => before,
        }
    }
}

/// The findings of all rules in line `number` of `file`.
pub open spec fn line_findings(file: Seq<char>, number: nat, line: Seq<char>) -> Seq<
    DiagnosticErrorView,
> {
    line_findings_upto(file, number, line, RULE_COUNT as int)
}

/// The findings in a file whose lines are `rows`: those of the first line,
/// then those of the second, and so on. Lines are numbered from 1.
pub open spec fn findings(file: Seq<char>, rows: Seq<Seq<char>>) -> Seq<DiagnosticErrorView>
    decreases rows.len(),
{
    if rows.len() == 0 {
        Seq::empty()
    } else {
        findings(file, rows.drop_last()) + line_findings(file, rows.len(), rows.last())
    }
}

/// Two rules with the same message are the same rule.
pub proof fn lemma_messages_differ(j: int, k: int)
    requires
        0 <= j < k < RULE_COUNT,
    ensures
        rule_at(j).message() != rule_at(k).message(),
{
    reveal_strlit("Uso de console.log() detectado");
    reveal_strlit("Uso de 'var' está desaconsejado");
    reveal_strlit("Usa '===' en lugar de '=='");
    reveal_strlit("Falta punto y coma");
    reveal_strlit("Comentario TODO pendiente");
    assert(rule_at(j).message().len() != rule_at(k).message().len());
}

/// The findings of the first `k` rules in a line are in that file and line,
/// and each has the message of one of those rules.
pub proof fn lemma_line_findings_upto(file: Seq<char>, number: nat, line: Seq<char>, k: int)
    requires
        0 <= k <= RULE_COUNT,
    ensures
        forall|i: int|
            0 <= i < line_findings_upto(file, number, line, k).len() ==> {
                let f = #[trigger] line_findings_upto(file, number, line, k)[i];
                &&& f.file == file
                &&& f.line == number
                &&& exists|j: int| 0 <= j < k && f.message == rule_at(j).message()
            },
    decreases k,
{
    if k > 0 {
        lemma_line_findings_upto(file, number, line, k - 1);
        let before = line_findings_upto(file, number, line, k - 1);
        let now = line_findings_upto(file, number, line, k);
    }
}

/// The findings in a file are in that file, in lines numbered from 1 to the
/// number of lines.
pub proof fn lemma_findings(file: Seq<char>, rows: Seq<Seq<char>>)
    ensures
        forall|i: int|
            0 <= i < findings(file, rows).len() ==> {
                let f = #[trigger] findings(file, rows)[i];
                &&& f.file == file
                &&& 1 <= f.line <= rows.len()
            },
    decreases rows.len(),
{
    if rows.len() > 0 {
        lemma_findings(file, rows.drop_last());
        lemma_line_findings_upto(file, rows.len(), rows.last(), RULE_COUNT as int);
    }
}

/// Taking the findings of a file out of a concatenation takes them out of
/// its parts.
pub proof fn lemma_outside_file_concat(
    a: Seq<DiagnosticErrorView>,
    b: Seq<DiagnosticErrorView>,
    file: Seq<char>,
)
    ensures
        outside_file(a + b, file) == outside_file(a, file) + outside_file(b, file),
    decreases b.len(),
{
    if b.len() == 0 {
        assert(a + b == a);
    } else {
        assert((a + b).drop_last() == a + b.drop_last());
        lemma_outside_file_concat(a, b.drop_last(), file);
    }
}

/// A list without findings in a file is left as it is when the findings of
/// that file are taken out; a list with findings in that file only is left
/// empty.
pub proof fn lemma_outside_file_trivial(errors: Seq<DiagnosticErrorView>, file: Seq<char>)
    ensures
        (forall|i: int| 0 <= i < errors.len() ==> (#[trigger] errors[i]).file != file)
            ==> outside_file(errors, file) == errors,
        (forall|i: int| 0 <= i < errors.len() ==> (#[trigger] errors[i]).file == file)
            ==> outside_file(errors, file) == Seq::<DiagnosticErrorView>::empty(),
    decreases errors.len(),
{
    if errors.len() > 0 {
        let front = errors.drop_last();
        lemma_outside_file_trivial(front, file);
        if forall|i: int| 0 <= i < errors.len() ==> (#[trigger] errors[i]).file != file {
            assert forall|i: int| 0 <= i < front.len() implies (#[trigger] front[i]).file
                != file by {
                assert(front[i] == errors[i]);
            }
            assert(front.push(errors.last()) == errors);
        }
        if forall|i: int| 0 <= i < errors.len() ==> (#[trigger] errors[i]).file == file {
            assert forall|i: int| 0 <= i < front.len() implies (#[trigger] front[i]).file
                == file by {
                assert(front[i] == errors[i]);
            }
            assert(errors[errors.len() - 1].file == file);
        }
    }
}

/// Analysing a file once more with the same text changes nothing: the
/// findings of the first analysis are replaced by the same findings.
pub proof fn lemma_analysis_is_idempotent(
    errors: Seq<DiagnosticErrorView>,
    file: Seq<char>,
    rows: Seq<Seq<char>>,
)
    ensures
        outside_file(outside_file(errors, file) + findings(file, rows), file) + findings(
            file,
            rows,
        ) == outside_file(errors, file) + findings(file, rows),
{
    let kept = outside_file(errors, file);
    let found = findings(file, rows);
    lemma_outside_file(errors, file);
    lemma_findings(file, rows);
    lemma_outside_file_concat(kept, found, file);
    lemma_outside_file_trivial(kept, file);
    lemma_outside_file_trivial(found, file);
    assert(kept + Seq::<DiagnosticErrorView>::empty() == kept);
}

/// The texts that the rules look for, as characters.
pub struct Patterns {
    console: Vec<char>,
    var_keyword: Vec<char>,
    var_name: Vec<char>,
    loose: Vec<char>,
    strict: Vec<char>,
    todo: Vec<char>,
    fixme: Vec<char>,
}

impl Patterns {
    /// Each field holds the text that its rule looks for.
    pub closed spec fn complete(&self) -> bool {
        &&& self.console@ == "console.log"@
        &&& self.var_keyword@ == "var "@
        &&& self.var_name@ == "var"@
        &&& self.loose@ == " == "@
        &&& self.strict@ == "==="@
        &&& self.todo@ == "TODO"@
        &&& self.fixme@ == "FIXME"@
    }

    /// The texts of all rules.
    pub fn new() -> (p: Self)
        ensures
            p.complete(),
    {
        Patterns {
            console: chars_of("console.log"),
            var_keyword: chars_of("var "),
            var_name: chars_of("var"),
            loose: chars_of(" == "),
            strict: chars_of("==="),
            todo: chars_of("TODO"),
            fixme: chars_of("FIXME"),
        }
    }
}

/// The rule with the given place in the order of application.
pub fn rule_of(k: usize) -> (rule: Rule)
    requires
        k < RULE_COUNT,
    ensures
        rule == rule_at(k as int),
{
    if k == 0 {
        Rule::Console
    } else if k == 1 {
        Rule::Var
    } else if k == 2 {
        Rule::LooseEquality
    } else if k == 3 {
        Rule::Semicolon
    } else {
        Rule::Todo
    }
}

/// The column, counted in bytes from 1, at which `needle` first stands in
/// `line`; 1 where it does not.
fn column_in(line: &Vec<char>, needle: &Vec<char>) -> (column: usize)
    requires
        utf8_len(line@) <= usize::MAX,
        needle@.len() > 0,
    ensures
        column == column_of(line@, needle@),
{
    match find(line, needle) {
        Some(at) => {
            proof {
                lemma_first_occurrence(line@, needle@);
                assert(line@.take(at + 1) == line@.take(at as int).push(line@[at as int]));
                lemma_utf8_len_push(line@.take(at as int), line@[at as int]);
                lemma_utf8_len_subrange(line@, 0, at + 1);
            }
            byte_offset(line, at) + 1
        },
        None => 1,
    }
}

/// The column at which `rule` reports `line`, if it does.
pub fn rule_column_in(rule: Rule, line: &Vec<char>, patterns: &Patterns) -> (r: Option<usize>)
    requires
        patterns.complete(),
        utf8_len(line@) <= usize::MAX,
    ensures
        match r {
            Some(column) => rule_column(rule, line@) == Some(column as nat),
            None => rule_column(rule, line@) is None,
        },
{
    proof {
        reveal_strlit("console.log");
        reveal_strlit("var");
        reveal_strlit(" == ");
        reveal_strlit("TODO");
        reveal_strlit("FIXME");
        reveal_strlit(")");
    }
    match rule {
        Rule::Console => {
            if includes(line, &patterns.console) {
                Some(column_in(line, &patterns.console))
            } else {
                None
            }
        },
        Rule::Var => {
            let (lo, _hi) = trim_bounds(line);
            proof {
                let p = patterns.var_keyword@;
                let rest = line@.subrange(lo as int, line@.len() as int);
                if lo + p.len() <= line@.len() {
                    assert(rest.subrange(0, p.len() as int) == line@.subrange(
                        lo as int,
                        lo + p.len(),
                    ));
                }
            }
            if occurs_at_index(line, &patterns.var_keyword, lo) {
                Some(column_in(line, &patterns.var_name))
            } else {
                None
            }
        },
        Rule::LooseEquality => {
            if includes(line, &patterns.loose) && !includes(line, &patterns.strict) {
                Some(column_in(line, &patterns.loose))
            } else {
                None
            }
        },
        Rule::Semicolon => {
            let (lo, hi) = trim_bounds(line);
            proof {
                let t = trim(line@);
                assert(")"@.len() == 1 && ")"@[0] == ')');
                if hi > lo {
                    let end = t.subrange(t.len() - 1, t.len() as int);
                    assert(end =~= ")"@ <==> line@[hi - 1] == ')');
                }
            }
            if hi > lo && line[hi - 1] == ')' {
                assert(line@.take(line@.len() as int) == line@);
                Some(byte_offset(line, line.len()))
            } else {
                None
            }
        },
        Rule::Todo => {
            if includes(line, &patterns.todo) {
                Some(column_in(line, &patterns.todo))
            } else if includes(line, &patterns.fixme) {
                Some(column_in(line, &patterns.fixme))
            } else {
                None
            }
        },
    }
}

/// The finding of `rule` in line `number` of `file_path`, at `column`.
pub fn report(file_path: &str, number: usize, column: usize, rule: Rule) -> (r: DiagnosticError)
    ensures
        r@ == finding(file_path@, number as nat, column as nat, rule),
{
    let mut id = file_path.to_owned();
    id.append("-");
    push_decimal(&mut id, number as u64);
    id.append("-");
    let (tag, severity, message, code) = match rule {
        Rule::Console => ("console", "warning", "Uso de console.log() detectado", "no-console"),
        Rule::Var => ("var", "warning", "Uso de 'var' está desaconsejado", "no-var"),
        Rule::LooseEquality => ("eqeq", "warning", "Usa '===' en lugar de '=='", "eqeqeq"),
        Rule::Semicolon => ("semi", "info", "Falta punto y coma", "semi"),
        Rule::Todo => ("todo", "info", "Comentario TODO pendiente", "no-warning-comments"),
    };
    id.append(tag);
    let suggestion = match rule {
        Rule::Console => Some("Considera usar un logger apropiado".to_owned()),
        Rule::Var => Some("Usa 'const' o 'let' en su lugar".to_owned()),
        Rule::LooseEquality => Some("Usa '===' para comparación estricta".to_owned()),
        Rule::Semicolon => None,
        Rule::Todo => None,
    };
    let fixable = match rule {
        Rule::Todo => false,
        _ => true,
    };
    DiagnosticError {
        id,
        severity: severity.to_owned(),
        message: message.to_owned(),
        file: file_path.to_owned(),
        line: number,
        column,
        code: Some(code.to_owned()),
        suggestion,
        fixable: Some(fixable),
        source: Some("aeditor".to_owned()),
    }
}

/// The findings of an editing session. No two of them are the same report.
pub struct DiagnosticsManager {
    errors: Vec<DiagnosticError>,
}

impl View for DiagnosticsManager {
    type V = Seq<DiagnosticErrorView>;

    closed spec fn view(&self) -> Seq<DiagnosticErrorView> {
        views(self.errors@)
    }
}

impl DiagnosticsManager {
    #[verifier::type_invariant]
    spec fn no_duplicates(self) -> bool {
        distinct_reports(views(self.errors@))
    }

    /// A manager without findings.
    pub fn new() -> (r: Self)
        ensures
            r@ == Seq::<DiagnosticErrorView>::empty(),
    {
        DiagnosticsManager { errors: Vec::new() }
    }

    /// Adds `error` at the end of the list, unless the list already holds the
    /// same report.
    pub fn add_error(&mut self, error: DiagnosticError)
        ensures
            final(self)@ == if reported(old(self)@, error@) {
                old(self)@
            } else {
                old(self)@.push(error@)
            },
    {
        proof {
            use_type_invariant(&*self);
        }
        let mut i: usize = 0;
        while i < self.errors.len()
            invariant
                i <= self.errors.len(),
                forall|j: int| 0 <= j < i ==> !same_report(#[trigger] views(self.errors@)[j], error@),
            decreases self.errors.len() - i,
        {
            let e = &self.errors[i];
            if e.file == error.file && e.line == error.line && e.column == error.column
                && e.message == error.message {
                assert(same_report(views(self.errors@)[i as int], error@));
                return ;
            }
            i += 1;
        }
        let mut errors: Vec<DiagnosticError> = Vec::new();
        core::mem::swap(&mut self.errors, &mut errors);
        let ghost before = errors@;
        errors.push(error);
        assert(views(errors@) == views(before).push(error@));
        core::mem::swap(&mut self.errors, &mut errors);
    }

    /// Removes the findings in `file_path` and keeps the others in their order.
    pub fn clear_file_errors(&mut self, file_path: &str)
        ensures
            final(self)@ == outside_file(old(self)@, file_path@),
    {
        proof {
            use_type_invariant(&*self);
        }
        let mut errors: Vec<DiagnosticError> = Vec::new();
        core::mem::swap(&mut self.errors, &mut errors);
        let ghost all = errors@;
        let mut kept: Vec<DiagnosticError> = Vec::new();
        for error in it: errors
            invariant
                it.seq() == all,
                views(kept@) == outside_file(views(all).take(it.index() as int), file_path@),
        {
            assert(views(all).take(it.index() + 1).drop_last() == views(all).take(
                it.index() as int,
            ));
            if !same_text(error.file.as_str(), file_path) {
                kept.push(error);
            }
        }
        proof {
            assert(views(all).take(all.len() as int) == views(all));
            lemma_outside_file(views(all), file_path@);
        }
        self.errors = kept;
    }

    /// The findings, in the order in which they were added.
    pub fn get_errors(&self) -> (r: &Vec<DiagnosticError>)
        ensures
            views(r@) == self@,
            distinct_reports(self@),
    {
        proof {
            use_type_invariant(self);
        }
        &self.errors
    }

    /// Removes every finding.
    pub fn clear(&mut self)
        ensures
            final(self)@ == Seq::<DiagnosticErrorView>::empty(),
    {
        self.errors = Vec::new();
    }

    /// Replaces the findings in `file_path` by those of the analysis of
    /// `content`: the findings in other files stay, in their order, and the
    /// new findings follow them, line by line.
    pub fn analyze_file(&mut self, file_path: &str, content: &str)
        ensures
            final(self)@ == outside_file(old(self)@, file_path@) + findings(
                file_path@,
                lines(content@),
            ),
    {
        self.clear_file_errors(file_path);
        let ghost file = file_path@;
        let ghost base = self@;
        let ghost all = lines(content@);
        proof {
            lemma_outside_file(old(self)@, file);
        }
        let text = chars_of(content);
        let rows = split_lines(&text);
        let patterns = Patterns::new();
        let mut n: usize = 0;
        while n < rows.len()
            invariant
                n <= rows.len(),
                views_of(rows@) == all,
                file == file_path@,
                patterns.complete(),
                forall|k: int| 0 <= k < rows@.len() ==> utf8_len(#[trigger] rows@[k]@) <= usize::MAX,
                forall|i: int| 0 <= i < base.len() ==> (#[trigger] base[i]).file != file,
                self@ == base + findings(file, all.take(n as int)),
            decreases rows.len() - n,
        {
            let ghost found = findings(file, all.take(n as int));
            let ghost line = all[n as int];
            let number: usize = n + 1;
            let mut k: usize = 0;
            while k < RULE_COUNT
                invariant
                    k <= RULE_COUNT,
                    n < rows.len() == all.len(),
                    number == n + 1,
                    file == file_path@,
                    patterns.complete(),
                    line == rows@[n as int]@,
                    utf8_len(line) <= usize::MAX,
                    found == findings(file, all.take(n as int)),
                    forall|i: int| 0 <= i < base.len() ==> (#[trigger] base[i]).file != file,
                    self@ == base + (found + line_findings_upto(file, number as nat, line, k as int)),
                decreases RULE_COUNT - k,
            {
                let rule = rule_of(k);
                let ghost here = line_findings_upto(file, number as nat, line, k as int);
                match rule_column_in(rule, &rows[n], &patterns) {
                    Some(column) => {
                        let error = report(file_path, number, column, rule);
                        proof {
                            lemma_findings(file, all.take(n as int));
                            lemma_line_findings_upto(file, number as nat, line, k as int);
                            let now = base + (found + here);
                            assert forall|i: int| 0 <= i < now.len() implies !same_report(
                                #[trigger] now[i],
                                error@,
                            ) by {
                                if i >= base.len() + found.len() {
                                    let f = here[i - base.len() - found.len()];
                                    let j = choose|j: int|
                                        0 <= j < k && f.message == rule_at(j).message();
                                    lemma_messages_differ(j, k as int);
                                }
                            }
                        }
                        self.add_error(error);
                    },
                    None => {},
                }
                k += 1;
            }
            proof {
                assert(all.take(n + 1).drop_last() == all.take(n as int));
            }
            n += 1;
        }
        assert(all.take(n as int) == all);
    }
}

} // verus!
