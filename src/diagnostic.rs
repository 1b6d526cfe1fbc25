use vstd::prelude::*;
use crate::exception::{
    leading_blanks, CommandLineException, ExceptionLevel, ExceptionType, InternalException,
    LexerException, ParserException, StageExceptionView,
};
use crate::position::{Position, Range, RangeView};
use crate::text::{chars_of, string_of};

verus! {

/// A diagnostic ready to be shown: its category, where it points, and what
/// it says.
pub struct Diagnostic {
    pub prefix: String,
    pub filename: String,
    pub context: String,
    /// The source line the span starts on.
    pub line_text: String,
    pub range: Range,
    /// Whether the span is a real location in the source.
    pub located: bool,
    pub title: String,
    pub message: String,
}

pub struct DiagnosticView {
    pub prefix: Seq<char>,
    pub filename: Seq<char>,
    pub context: Seq<char>,
    pub line_text: Seq<char>,
    pub range: RangeView,
    pub located: bool,
    pub title: Seq<char>,
    pub message: Seq<char>,
}

impl View for Diagnostic {
    type V = DiagnosticView;

    open spec fn view(&self) -> DiagnosticView {
        DiagnosticView {
            prefix: self.prefix@,
            filename: self.filename@,
            context: self.context@,
            line_text: self.line_text@,
            range: self.range@,
            located: self.located,
            title: self.title@,
            message: self.message@,
        }
    }
}

/// Line `k` of `s` (0-based, lines end at `\n`), read from index `i` on,
/// where line `ln` runs, after `acc` of it was read.
pub open spec fn line_from(s: Seq<char>, i: nat, ln: nat, k: nat, acc: Seq<char>) -> Seq<char>
    decreases s.len() - i,
{
    if i >= s.len() {
        acc
    } else if s[i as int] == '\n' {
        if ln == k {
            acc
        } else {
            line_from(s, i + 1, ln + 1, k, acc)
        }
    } else {
        line_from(s, i + 1, ln, k, if ln == k {
            acc.push(s[i as int])
        } else {
            acc
        })
    }
}

/// Line `k` of `s`; empty past the last line.
pub open spec fn line_of(s: Seq<char>, k: nat) -> Seq<char> {
    line_from(s, 0, 0, k, Seq::empty())
}

/// Line `k` of `s`.
pub fn nth_line(s: &String, k: usize) -> (r: String)
    ensures
        r@ == line_of(s@, k as nat),
{
    let chars = chars_of(s.as_str());
    let mut acc: Vec<char> = Vec::new();
    let mut i: usize = 0;
    let mut ln: usize = 0;
    while i < chars.len()
        invariant
            chars@ == s@,
            i <= chars.len(),
            ln <= i,
            line_of(s@, k as nat) == line_from(s@, i as nat, ln as nat, k as nat, acc@),
        decreases chars.len() - i,
    {
        if chars[i] == '\n' {
            if ln == k {
                return string_of(&acc);
            }
            ln = ln + 1;
        } else if ln == k {
            acc.push(chars[i]);
        }
        i = i + 1;
    }
    string_of(&acc)
}

pub open spec fn level_name(level: ExceptionLevel) -> Seq<char> {
    match level {
        ExceptionLevel::Warning => "Warning"@,
        ExceptionLevel::Error => "Exception"@,
        ExceptionLevel::Critical => "CriticalException"@,
    }
}

pub open spec fn repeated(c: char, n: nat) -> Seq<char>
    decreases n,
{
    if n == 0 {
        Seq::empty()
    } else {
        repeated(c, (n - 1) as nat).push(c)
    }
}

pub open spec fn digit_char(d: nat) -> char {
    if d == 0 {
        '0'
    } else if d == 1 {
        '1'
    } else if d == 2 {
        '2'
    } else if d == 3 {
        '3'
    } else if d == 4 {
        '4'
    } else if d == 5 {
        '5'
    } else if d == 6 {
        '6'
    } else if d == 7 {
        '7'
    } else if d == 8 {
        '8'
    } else {
        '9'
    }
}

/// The decimal digits of `n`.
pub open spec fn decimal_text(n: nat) -> Seq<char>
    decreases n,
{
    if n < 10 {
        seq![digit_char(n)]
    } else {
        decimal_text(n / 10).push(digit_char(n % 10))
    }
}

/// A banner line: ` ═ text ═══ `, its rule one longer than what `text`
/// lacks of `widest` characters.
pub open spec fn banner(text: Seq<char>, widest: nat) -> Seq<char> {
    " ═ "@ + text + " "@ + repeated('═', (widest - text.len() + 1) as nat) + " "@
}

/// How far the columns of the span's line are from character positions:
/// the first line counts from 0, a later line from 1, because its line feed
/// takes column 0.
pub open spec fn column_shift(d: DiagnosticView) -> nat {
    if d.range.min.line == 0 {
        0
    } else {
        1
    }
}

/// The column of the last underlined character: the span's last column, or
/// the end of the quoted line where the span goes on to later lines.
pub open spec fn end_column(d: DiagnosticView) -> nat {
    if d.range.max.line == d.range.min.line {
        d.range.max.column
    } else if leading_blanks(d.line_text) + quoted(d).len() >= column_shift(d) {
        (leading_blanks(d.line_text) + quoted(d).len() - column_shift(d)) as nat
    } else {
        0
    }
}

/// Where the underline starts under the quoted line: beneath the
/// span's first character; a span that starts in the removed blanks starts
/// it at once.
pub open spec fn underline_offset(d: DiagnosticView) -> nat {
    let lead = leading_blanks(d.line_text);
    if d.range.min.column >= lead + column_shift(d) {
        (d.range.min.column - lead - column_shift(d)) as nat
    } else {
        0
    }
}

pub open spec fn underline_length(d: DiagnosticView) -> nat {
    if end_column(d) >= d.range.min.column {
        (end_column(d) - d.range.min.column + 1) as nat
    } else {
        1
    }
}

/// The quoted line as it stands, less the spaces and tabs that open it.
pub open spec fn quoted(d: DiagnosticView) -> Seq<char> {
    let t = d.line_text;
    let lead = leading_blanks(d.line_text);
    if lead <= t.len() {
        t.subrange(lead as int, t.len() as int)
    } else {
        Seq::empty()
    }
}

/// The lines that show `d` at `level`: a banner with the category, then,
/// where `d` has a location, the file and context, the line and column, the
/// quoted source line and an underline beneath the span; last a banner with
/// the title and message.
pub open spec fn layout(d: DiagnosticView, level: ExceptionLevel) -> Seq<Seq<char>> {
    let prefix = d.prefix + level_name(level);
    let suffix = d.title + level_name(level) + ": "@ + d.message;
    let widest = if prefix.len() > suffix.len() {
        prefix.len()
    } else {
        suffix.len()
    };
    let body = if d.located {
        seq![
            "  File `"@ + d.filename + "`, In "@ + d.context + ","@,
            "  Line "@ + decimal_text(d.range.min.line + 1) + ", Column "@ + decimal_text(
                d.range.min.column,
            ),
            "    "@ + quoted(d),
            "    "@ + repeated(' ', underline_offset(d)) + repeated('▔', underline_length(d)),
        ]
    } else {
        Seq::empty()
    };
    seq![banner(prefix, widest)] + body + seq![banner(suffix, widest)]
}

pub(crate) fn push_str(v: &mut Vec<char>, s: &str)
    ensures
        final(v)@ == old(v)@ + s@,
{
    let cs = chars_of(s);
    let mut i: usize = 0;
    while i < cs.len()
        invariant
            i <= cs.len(),
            cs@ == s@,
            v@ == old(v)@ + s@.subrange(0, i as int),
        decreases cs.len() - i,
    {
        v.push(cs[i]);
        i = i + 1;
        assert(v@ =~= old(v)@ + s@.subrange(0, i as int));
    }
    assert(s@.subrange(0, i as int) =~= s@);
}

fn push_repeated(v: &mut Vec<char>, c: char, n: u128)
    ensures
        final(v)@ == old(v)@ + repeated(c, n as nat),
{
    let mut i: u128 = 0;
    assert(old(v)@ + repeated(c, 0) =~= old(v)@);
    while i < n
        invariant
            i <= n,
            v@ == old(v)@ + repeated(c, i as nat),
        decreases n - i,
    {
        v.push(c);
        i = i + 1;
        assert(v@ =~= old(v)@ + repeated(c, i as nat));
    }
}

fn digit(d: u128) -> (r: char)
    requires
        d < 10,
    ensures
        r == digit_char(d as nat),
{
    match d {
        0 => '0',
        1 => '1',
        2 => '2',
        3 => '3',
        4 => '4',
        5 => '5',
        6 => '6',
        7 => '7',
        8 => '8',
        _ => '9',
    }
}

pub(crate) fn push_decimal(v: &mut Vec<char>, n: u128)
    ensures
        final(v)@ == old(v)@ + decimal_text(n as nat),
    decreases n,
{
    if n < 10 {
        v.push(digit(n));
        assert(v@ =~= old(v)@ + decimal_text(n as nat));
    } else {
        push_decimal(v, n / 10);
        v.push(digit(n % 10));
        assert(v@ =~= old(v)@ + decimal_text(n as nat));
    }
}

fn push_banner(lines: &mut Vec<String>, text: &Vec<char>, widest: usize)
    requires
        text.len() <= widest,
    ensures
        final(lines)@.map_values(|s: String| s@) == old(lines)@.map_values(|s: String| s@).push(
            banner(text@, widest as nat),
        ),
{
    let mut b: Vec<char> = Vec::new();
    push_str(&mut b, " ═ ");
    let mut i: usize = 0;
    while i < text.len()
        invariant
            i <= text.len(),
            b@ == " ═ "@ + text@.subrange(0, i as int),
        decreases text.len() - i,
    {
        b.push(text[i]);
        i = i + 1;
        assert(b@ =~= " ═ "@ + text@.subrange(0, i as int));
    }
    assert(text@.subrange(0, text.len() as int) =~= text@);
    push_str(&mut b, " ");
    push_repeated(&mut b, '═', (widest - text.len()) as u128 + 1);
    push_str(&mut b, " ");
    let line = string_of(&b);
    lines.push(line);
    assert(lines@.map_values(|s: String| s@) =~= old(lines)@.map_values(|s: String| s@).push(
        banner(text@, widest as nat),
    ));
}

impl Diagnostic {
    /// The underline row, given the quoted line's leading blanks and its
    /// length once they are removed.
    fn underline(&self, lead: usize, qlen: usize) -> (r: Vec<char>)
        requires
            lead == leading_blanks(self.line_text@),
            qlen == quoted(self@).len(),
        ensures
            r@ == "    "@ + repeated(' ', underline_offset(self@)) + repeated('▔', underline_length(self@)),
    {
        let min_col = self.range.min.column as u128;
        let lead_w = lead as u128;
        let shift: u128 = if self.range.min.line == 0 {
            0
        } else {
            1
        };
        let end_col: u128 = if self.range.max.line == self.range.min.line {
            self.range.max.column as u128
        } else if lead_w + qlen as u128 >= shift {
            lead_w + qlen as u128 - shift
        } else {
            0
        };
        let offset: u128 = if min_col >= lead_w + shift {
            min_col - lead_w - shift
        } else {
            0
        };
        let length: u128 = if end_col >= min_col {
            end_col - min_col + 1
        } else {
            1
        };
        assert(offset == underline_offset(self@));
        assert(length == underline_length(self@));
        let mut l4: Vec<char> = Vec::new();
        push_str(&mut l4, "    ");
        push_repeated(&mut l4, ' ', offset);
        push_repeated(&mut l4, '▔', length);
        l4
    }

    /// The lines that show this diagnostic at `level`.
    pub fn render(&self, level: ExceptionLevel) -> (r: Vec<String>)
        ensures
            r@.map_values(|s: String| s@) == layout(self@, level),
    {
        let name = match level {
            ExceptionLevel::Warning => "Warning",
            ExceptionLevel::Error => "Exception",
            ExceptionLevel::Critical => "CriticalException",
        };
        let mut prefix = chars_of(self.prefix.as_str());
        push_str(&mut prefix, name);
        let mut suffix = chars_of(self.title.as_str());
        push_str(&mut suffix, name);
        push_str(&mut suffix, ": ");
        push_str(&mut suffix, self.message.as_str());
        assert(prefix@ == self.prefix@ + level_name(level));
        assert(suffix@ =~= self.title@ + level_name(level) + ": "@ + self.message@);
        let widest = if prefix.len() > suffix.len() {
            prefix.len()
        } else {
            suffix.len()
        };
        let mut lines: Vec<String> = Vec::new();
        assert(lines@.map_values(|s: String| s@) =~= Seq::<Seq<char>>::empty());
        push_banner(&mut lines, &prefix, widest);
        let ghost d = self@;
        if self.located {
            let mut l1: Vec<char> = Vec::new();
            push_str(&mut l1, "  File `");
            push_str(&mut l1, self.filename.as_str());
            push_str(&mut l1, "`, In ");
            push_str(&mut l1, self.context.as_str());
            push_str(&mut l1, ",");
            let mut l2: Vec<char> = Vec::new();
            push_str(&mut l2, "  Line ");
            push_decimal(&mut l2, self.range.min.line as u128 + 1);
            push_str(&mut l2, ", Column ");
            push_decimal(&mut l2, self.range.min.column as u128);
            let text = chars_of(self.line_text.as_str());
            let lead = crate::exception::get_leading_erase_count(self.line_text.clone());
            let e = text.len();
            let mut l3: Vec<char> = Vec::new();
            push_str(&mut l3, "    ");
            let mut qlen: usize = 0;
            if lead <= e {
                let mut i = lead;
                let ghost base = l3@;
                while i < e
                    invariant
                        lead <= i <= e,
                        e <= text.len(),
                        l3@ == base + text@.subrange(lead as int, i as int),
                    decreases e - i,
                {
                    l3.push(text[i]);
                    i = i + 1;
                    assert(l3@ =~= base + text@.subrange(lead as int, i as int));
                }
                qlen = e - lead;
            } else {
                assert(l3@ =~= "    "@ + Seq::<char>::empty());
            }
            assert(qlen == quoted(d).len());
            let l4 = self.underline(lead, qlen);
            assert(l1@ =~= "  File `"@ + d.filename + "`, In "@ + d.context + ","@);
            assert(l2@ =~= "  Line "@ + decimal_text(d.range.min.line + 1) + ", Column "@
                + decimal_text(d.range.min.column));
            assert(l3@ =~= "    "@ + quoted(d));
            let ghost before = lines@.map_values(|s: String| s@);
            let s1 = string_of(&l1);
            let s2 = string_of(&l2);
            let s3 = string_of(&l3);
            let s4 = string_of(&l4);
            lines.push(s1);
            lines.push(s2);
            lines.push(s3);
            lines.push(s4);
            assert(lines@.map_values(|s: String| s@) =~= before + seq![s1@, s2@, s3@, s4@]);
        }
        push_banner(&mut lines, &suffix, widest);
        assert(lines@.map_values(|s: String| s@) =~= layout(self@, level));
        lines
    }
}

/// The diagnostic of a stage's exception: it quotes the line its span
/// starts on, in the file its span names.
pub open spec fn stage_diagnostic<K: ExceptionType>(prefix: Seq<char>, e: StageExceptionView<K>) -> DiagnosticView {
    DiagnosticView {
        prefix,
        filename: e.range.min.filename,
        context: "<Void>"@,
        line_text: line_of(e.script, e.range.min.line),
        range: e.range,
        located: true,
        title: e.kind.name(),
        message: e.message,
    }
}

impl LexerException {
    pub fn to_diagnostic(&self) -> (r: Diagnostic)
        ensures
            r@ == stage_diagnostic("Lexer"@, self@),
    {
        Diagnostic {
            prefix: String::from_str("Lexer"),
            filename: self.range.min.filename.clone(),
            context: String::from_str("<Void>"),
            line_text: nth_line(&self.script, self.range.min.line),
            range: self.range.clone(),
            located: true,
            title: self.exception_type.get_name(),
            message: self.message.clone(),
        }
    }
}

impl ParserException {
    pub fn to_diagnostic(&self) -> (r: Diagnostic)
        ensures
            r@ == stage_diagnostic("Parser"@, self@),
    {
        Diagnostic {
            prefix: String::from_str("Parser"),
            filename: self.range.min.filename.clone(),
            context: String::from_str("<Void>"),
            line_text: nth_line(&self.script, self.range.min.line),
            range: self.range.clone(),
            located: true,
            title: self.exception_type.get_name(),
            message: self.message.clone(),
        }
    }
}

impl InternalException {
    /// A diagnostic with no location, titled `Internal`.
    pub fn to_diagnostic(&self) -> (r: Diagnostic)
        ensures
            r.prefix@ == "Internal"@,
            r.filename@ == "<Void>"@,
            r.context@ == "<Void>"@,
            r.line_text@ == Seq::<char>::empty(),
            !r.located,
            r.title@ == "Internal"@,
            r.message@ == self.message@,
    {
        Diagnostic {
            prefix: String::from_str("Internal"),
            filename: String::from_str("<Void>"),
            context: String::from_str("<Void>"),
            line_text: String::new(),
            range: Range::new_void(),
            located: false,
            title: String::from_str("Internal"),
            message: self.message.clone(),
        }
    }
}

/// The arguments joined by single spaces.
pub open spec fn joined(args: Seq<Seq<char>>) -> Seq<char>
    decreases args.len(),
{
    if args.len() == 0 {
        Seq::empty()
    } else if args.len() == 1 {
        args[0]
    } else {
        joined(args.drop_last()) + " "@ + args.last()
    }
}

/// The column, counted from 0, at which argument `k` starts in the joined
/// arguments: the lengths of the arguments before it, and their spaces.
pub open spec fn argument_column(args: Seq<Seq<char>>, k: nat) -> nat {
    if k == 0 {
        0
    } else {
        joined(args.subrange(0, k as int)).len() + 1
    }
}

impl CommandLineException {
    /// A diagnostic that quotes the arguments joined by spaces and marks the
    /// one at fault.
    pub fn to_diagnostic(&self) -> (r: Diagnostic)
        requires
            self.index < self.arguments.len(),
            joined(self.arguments@.map_values(|a: String| a@)).len() + 2 < usize::MAX,
        ensures
            ({
                let args = self.arguments@.map_values(|a: String| a@);
                let col = argument_column(args, self.index as nat);
                let last = if args[self.index as int].len() > 0 {
                    col + args[self.index as int].len() - 1
                } else {
                    col as int
                };
                &&& r.prefix@ == "CommandLine"@
                &&& r.filename@ == "<Void>"@
                &&& r.context@ == "Command Line"@
                &&& r.line_text@ == joined(args)
                &&& r.located
                &&& r.range.min.line == 0 && r.range.max.line == 0
                &&& r.range.min.column == col
                &&& r.range.max.column == last
                &&& r.title@ == self.exception_type.name()
                &&& r.message@ == self.message@
            }),
    {
        let ghost args = self.arguments@.map_values(|a: String| a@);
        let mut text: Vec<char> = Vec::new();
        let mut column: usize = 0;
        let mut i: usize = 0;
        assert(args.subrange(0, 0) =~= Seq::<Seq<char>>::empty());
        while i < self.arguments.len()
            invariant
                args == self.arguments@.map_values(|a: String| a@),
                i <= self.arguments.len(),
                self.index < self.arguments.len(),
                joined(args).len() + 2 < usize::MAX,
                text@ == joined(args.subrange(0, i as int)),
                i > self.index ==> column == argument_column(args, self.index as nat),
            decreases self.arguments.len() - i,
        {
            proof {
                lemma_joined_prefix(args, (i + 1) as nat);
                let p = args.subrange(0, i + 1);
                assert(p.drop_last() =~= args.subrange(0, i as int));
                assert(p.last() == args[i as int]);
                if i > 0 {
                    assert(joined(p) == joined(p.drop_last()) + " "@ + p.last());
                } else {
                    assert(joined(p) == p[0]);
                }
            }
            if i > 0 {
                push_str(&mut text, " ");
            }
            assert(text@.len() + 1 < usize::MAX);
            proof {
                reveal_strlit(" ");
            }
            if i == self.index {
                column = text.len();
                assert(column == argument_column(args, self.index as nat));
            }
            push_str(&mut text, self.arguments[i].as_str());
            assert(text@ =~= joined(args.subrange(0, i + 1)));
            i = i + 1;
        }
        assert(args.subrange(0, i as int) =~= args);
        let length = chars_of(self.arguments[self.index].as_str()).len();
        proof {
            let k = self.index as int;
            lemma_joined_prefix(args, (k + 1) as nat);
            let p = args.subrange(0, k + 1);
            assert(p.drop_last() =~= args.subrange(0, k));
            assert(p.last() == args[k]);
            if k > 0 {
                assert(joined(p) == joined(p.drop_last()) + " "@ + p.last());
            } else {
                assert(joined(p) == p[0]);
            }
            assert(column + length <= joined(args).len() + 2);
        }
        let last = if length > 0 {
            column + length - 1
        } else {
            column
        };
        let line = string_of(&text);
        Diagnostic {
            prefix: String::from_str("CommandLine"),
            filename: String::from_str("<Void>"),
            context: String::from_str("Command Line"),
            line_text: line.clone(),
            range: Range::new(
                Position::new(column, 0, column, String::from_str("<Void>"), line.clone()),
                Position::new(last, 0, last, String::from_str("<Void>"), line),
            ),
            located: true,
            title: self.exception_type.get_name(),
            message: self.message.clone(),
        }
    }
}

/// A prefix of the arguments joins to no more than all of them.
proof fn lemma_joined_prefix(args: Seq<Seq<char>>, k: nat)
    requires
        k <= args.len(),
    ensures
        joined(args.subrange(0, k as int)).len() <= joined(args).len(),
    decreases args.len() - k,
{
    if k < args.len() {
        lemma_joined_prefix(args, k + 1);
        let p = args.subrange(0, k as int + 1);
        assert(p.drop_last() =~= args.subrange(0, k as int));
        if k > 0 {
            assert(joined(p) == joined(p.drop_last()) + " "@ + p.last());
        }
    } else {
        assert(args.subrange(0, k as int) =~= args);
    }
}

} // verus!
