//! Diagnostics ledger: severity-tagged issue records, kept in the order in
//! which they were found.
use vstd::prelude::*;
use crate::text::{chars_of, dec, push_all, push_decimal, string_of};

verus! {

/// Severity level of a diagnostic message.
#[derive(Debug, Clone, Copy, PartialEq, Eq, Structural)]
pub enum Severity {
    /// Issue detected but formatting continued.
    Warning,
    /// Non-critical information, usually about an automatic repair.
    Info,
}

/// Type of diagnostic issue.
#[derive(Debug, Clone, Copy, PartialEq, Eq, Structural)]
pub enum DiagnosticKind {
    /// Table with structural issues (missing pipes, uneven columns).
    MalformedTable,
    /// Code block without a closing fence.
    UnclosedCodeBlock,
    /// Other markdown issues.
    Other,
}

/// A diagnostic message about a formatting issue.
#[derive(Debug, Clone)]
pub struct Diagnostic {
    /// Severity level.
    pub severity: Severity,
    /// Type of issue.
    pub kind: DiagnosticKind,
    /// Line number where the issue was found (1-indexed).
    pub line: usize,
    /// Human-readable message.
    pub message: String,
    /// Optional snippet of the problematic line.
    pub snippet: Option<String>,
}

/// The mathematical value of a [`Diagnostic`].
pub ghost struct DiagnosticView {
    pub severity: Severity,
    pub kind: DiagnosticKind,
    pub line: nat,
    pub message: Seq<char>,
    pub snippet: Option<Seq<char>>,
}

impl View for Diagnostic {
    type V = DiagnosticView;

    open spec fn view(&self) -> DiagnosticView {
        DiagnosticView {
            severity: self.severity,
            kind: self.kind,
            line: self.line as nat,
            message: self.message@,
            snippet: match self.snippet {
                Some(s) => Some(s@),
                None => None,
            },
        }
    }
}

/// `⚠️` or `ℹ️`.
pub open spec fn severity_icon(s: Severity) -> Seq<char> {
    match s {
        Severity::Warning => seq!['\u{26a0}', '\u{fe0f}'],
        Severity::Info => seq!['\u{2139}', '\u{fe0f}'],
    }
}

/// The one- or two-line text of a diagnostic: icon, line number, message,
/// then the snippet on a line of its own.
pub open spec fn render_spec(d: DiagnosticView) -> Seq<char> {
    let head = severity_icon(d.severity) + seq![' ', 'L', 'i', 'n', 'e', ' '] + dec(d.line)
        + seq![':', ' '] + d.message;
    match d.snippet {
        Some(s) => head + seq!['\n', ' ', ' ', '\u{2502}', ' '] + s,
        None => head,
    }
}

impl Diagnostic {
    /// Create a new diagnostic without a snippet.
    pub fn new(severity: Severity, kind: DiagnosticKind, line: usize, message: &str) -> (r: Self)
        ensures
            r@ == (DiagnosticView {
                severity,
                kind,
                line: line as nat,
                message: message@,
                snippet: None,
            }),
    {
        Diagnostic { severity, kind, line, message: message.to_string(), snippet: None }
    }

    /// Add a code snippet to the diagnostic.
    pub fn with_snippet(self, snippet: &str) -> (r: Self)
        ensures
            r@ == (DiagnosticView { snippet: Some(snippet@), ..self@ }),
    {
        Diagnostic { snippet: Some(snippet.to_string()), ..self }
    }

    /// The diagnostic as text, as it is shown to a user.
    pub fn render(&self) -> (r: String)
        ensures
            r@ == render_spec(self@),
    {
        let mut v: Vec<char> = Vec::new();
        match self.severity {
            Severity::Warning => {
                v.push('\u{26a0}');
            },
            Severity::Info => {
                v.push('\u{2139}');
            },
        }
        v.push('\u{fe0f}');
        v.push(' ');
        v.push('L');
        v.push('i');
        v.push('n');
        v.push('e');
        v.push(' ');
        push_decimal(&mut v, self.line);
        v.push(':');
        v.push(' ');
        let m = chars_of(self.message.as_str());
        push_all(&mut v, &m);
        match &self.snippet {
            Some(s) => {
                v.push('\n');
                v.push(' ');
                v.push(' ');
                v.push('\u{2502}');
                v.push(' ');
                let sc = chars_of(s.as_str());
                push_all(&mut v, &sc);
            },
            None => {},
        }
        assert(v@ =~= render_spec(self@));
        string_of(&v)
    }
}

/// Diagnostics of the given severity, in their order.
pub open spec fn of_severity(ds: Seq<DiagnosticView>, s: Severity) -> Seq<DiagnosticView>
    decreases ds.len(),
{
    if ds.len() == 0 {
        seq![]
    } else if ds.last().severity == s {
        of_severity(ds.drop_last(), s).push(ds.last())
    } else {
        of_severity(ds.drop_last(), s)
    }
}

/// The text that reports a collection: nothing when it is empty, else a
/// header line after a blank line, one entry per diagnostic, and a blank line.
pub open spec fn report_spec(ds: Seq<DiagnosticView>) -> Seq<char> {
    if ds.len() == 0 {
        seq![]
    } else {
        seq!['\n'] + dec(ds.len()) + seq![' ', 'i', 's', 's', 'u', 'e', 's', ' ', 'f', 'o', 'u',
            'n', 'd', ':', '\n'] + report_entries(ds) + seq!['\n']
    }
}

/// Each diagnostic rendered and followed by a newline.
pub open spec fn report_entries(ds: Seq<DiagnosticView>) -> Seq<char>
    decreases ds.len(),
{
    if ds.len() == 0 {
        seq![]
    } else {
        report_entries(ds.drop_last()) + render_spec(ds.last()) + seq!['\n']
    }
}

/// Line `n` of a derived text taken back to its source line through `map`,
/// which gives the source line of each line of the derived text.
pub open spec fn source_line(map: Seq<nat>, n: nat) -> nat {
    if 1 <= n <= map.len() {
        map[n - 1]
    } else {
        n
    }
}

/// Diagnostics with their lines taken back through `map`.
pub open spec fn relocated(ds: Seq<DiagnosticView>, map: Seq<nat>) -> Seq<DiagnosticView> {
    ds.map_values(|d: DiagnosticView| DiagnosticView { line: source_line(map, d.line), ..d })
}

/// Collection of diagnostics, in discovery order.
#[derive(Debug, Clone)]
pub struct Diagnostics {
    messages: Vec<Diagnostic>,
}

impl View for Diagnostics {
    type V = Seq<DiagnosticView>;

    closed spec fn view(&self) -> Seq<DiagnosticView> {
        self.messages@.map_values(|d: Diagnostic| d@)
    }
}

impl Default for Diagnostics {
    fn default() -> (r: Self)
        ensures
            r@ == Seq::<DiagnosticView>::empty(),
    {
        Diagnostics::new()
    }
}

impl Diagnostics {
    /// Create a new empty collection.
    pub fn new() -> (r: Self)
        ensures
            r@ == Seq::<DiagnosticView>::empty(),
    {
        let r = Diagnostics { messages: Vec::new() };
        assert(r@ =~= Seq::<DiagnosticView>::empty());
        r
    }

    /// Add a diagnostic at the end.
    pub fn add(&mut self, diagnostic: Diagnostic)
        ensures
            final(self)@ == old(self)@.push(diagnostic@),
    {
        self.messages.push(diagnostic);
        assert(self@ =~= old(self)@.push(diagnostic@));
    }

    /// Add a warning.
    pub fn warn(&mut self, kind: DiagnosticKind, line: usize, message: &str)
        ensures
            final(self)@ == old(self)@.push(
                DiagnosticView {
                    severity: Severity::Warning,
                    kind,
                    line: line as nat,
                    message: message@,
                    snippet: None,
                },
            ),
    {
        self.add(Diagnostic::new(Severity::Warning, kind, line, message));
    }

    /// Add an info message.
    pub fn info(&mut self, kind: DiagnosticKind, line: usize, message: &str)
        ensures
            final(self)@ == old(self)@.push(
                DiagnosticView {
                    severity: Severity::Info,
                    kind,
                    line: line as nat,
                    message: message@,
                    snippet: None,
                },
            ),
    {
        self.add(Diagnostic::new(Severity::Info, kind, line, message));
    }

    /// Whether there are no diagnostics.
    pub fn is_empty(&self) -> (r: bool)
        ensures
            r == (self@.len() == 0),
    {
        self.messages.len() == 0
    }

    /// Number of diagnostics.
    pub fn len(&self) -> (r: usize)
        ensures
            r == self@.len(),
    {
        self.messages.len()
    }

    /// All diagnostics, in discovery order.
    pub fn messages(&self) -> (r: &[Diagnostic])
        ensures
            r@.map_values(|d: Diagnostic| d@) == self@,
    {
        self.messages.as_slice()
    }

    /// Diagnostics of the given severity, in discovery order.
    pub fn by_severity(&self, severity: Severity) -> (r: Vec<&Diagnostic>)
        ensures
            r@.map_values(|d: &Diagnostic| d@) == of_severity(self@, severity),
    {
        let mut r: Vec<&Diagnostic> = Vec::new();
        let mut i: usize = 0;
        while i < self.messages.len()
            invariant
                i <= self.messages.len(),
                r@.map_values(|d: &Diagnostic| d@) == of_severity(self@.take(i as int), severity),
            decreases self.messages.len() - i,
        {
            let d = &self.messages[i];
            let ghost before = r@;
            assert(self@.take(i as int + 1).drop_last() =~= self@.take(i as int));
            if d.severity == severity {
                r.push(d);
                assert(r@.map_values(|d: &Diagnostic| d@) =~= before.map_values(
                    |d: &Diagnostic| d@,
                ).push(d@));
            }
            i += 1;
        }
        assert(self@.take(i as int) =~= self@);
        r
    }

    /// These diagnostics with each line number `n` replaced by `map[n - 1]`,
    /// where `map` gives the source line of each line of the text they were
    /// found in.
    pub fn relocate(&self, map: &Vec<usize>) -> (r: Diagnostics)
        ensures
            r@ == relocated(self@, map@.map_values(|x: usize| x as nat)),
    {
        let ghost m = map@.map_values(|x: usize| x as nat);
        let mut v: Vec<Diagnostic> = Vec::new();
        let mut i: usize = 0;
        while i < self.messages.len()
            invariant
                i <= self.messages.len(),
                m == map@.map_values(|x: usize| x as nat),
                v@.map_values(|d: Diagnostic| d@) == relocated(self@.take(i as int), m),
            decreases self.messages.len() - i,
        {
            let d = &self.messages[i];
            let line = if 1 <= d.line && d.line <= map.len() {
                map[d.line - 1]
            } else {
                d.line
            };
            let snippet = match &d.snippet {
                Some(s) => Some(s.clone()),
                None => None,
            };
            let e = Diagnostic {
                severity: d.severity,
                kind: d.kind,
                line,
                message: d.message.clone(),
                snippet,
            };
            let ghost prev = v@.map_values(|d: Diagnostic| d@);
            v.push(e);
            assert(v@.map_values(|d: Diagnostic| d@) =~= prev.push(e@));
            assert(self@.take(i as int + 1) =~= self@.take(i as int).push(self@[i as int]));
            assert(relocated(self@.take(i as int + 1), m) =~= relocated(self@.take(i as int), m).push(
                DiagnosticView { line: source_line(m, self@[i as int].line), ..self@[i as int] },
            ));
            i += 1;
        }
        assert(self@.take(i as int) =~= self@);
        let r = Diagnostics { messages: v };
        r
    }

    /// The text that reports these diagnostics to a user.
    pub fn report(&self) -> (r: String)
        ensures
            r@ == report_spec(self@),
    {
        if self.messages.len() == 0 {
            return String::new();
        }
        let mut v: Vec<char> = Vec::new();
        v.push('\n');
        push_decimal(&mut v, self.messages.len());
        let hdr = chars_of(" issues found:\n");
        proof {
            reveal_strlit(" issues found:\n");
        }
        push_all(&mut v, &hdr);
        let mut i: usize = 0;
        let ghost start = v@;
        assert(self@.take(0) =~= Seq::<DiagnosticView>::empty());
        while i < self.messages.len()
            invariant
                i <= self.messages.len(),
                v@ == start + report_entries(self@.take(i as int)),
            decreases self.messages.len() - i,
        {
            assert(self@.take(i as int + 1).drop_last() =~= self@.take(i as int));
            let t = chars_of(self.messages[i].render().as_str());
            push_all(&mut v, &t);
            v.push('\n');
            i += 1;
            assert(v@ =~= start + report_entries(self@.take(i as int)));
        }
        v.push('\n');
        assert(self@.take(i as int) =~= self@);
        assert(v@ =~= report_spec(self@));
        string_of(&v)
    }
}

} // verus!
