//! The command lines of the shell: programs with their arguments, joined by
//! pipes, by `||` and `&&`, and sent to a file by `>`.
//!
//! A command line is read from the left. Reading never fails: what cannot
//! be read is left over and ignored.

use crate::args::Args;
use crate::error::{Error, Result};
use crate::text::{chars_of, push_str, string_of};
use vstd::prelude::*;

verus! {

/// The program that a command names: one of the commands of the shell, or
/// another program by its name.
#[derive(Clone, Debug, PartialEq)]
pub enum Program {
    Cd,
    NewFS,
    Mount,
    BlockMap,
    AllocBlock,
    FreeBlock,
    INodeMap,
    AllocINode,
    FreeINode,
    Unmount,
    Exit,
    Other(String),
}

/// A program as plain values.
pub enum ProgramView {
    Cd,
    NewFS,
    Mount,
    BlockMap,
    AllocBlock,
    FreeBlock,
    INodeMap,
    AllocINode,
    FreeINode,
    Unmount,
    Exit,
    Other(Seq<char>),
}

impl View for Program {
    type V = ProgramView;

    open spec fn view(&self) -> ProgramView {
        match self {
            Program::Cd => ProgramView::Cd,
            Program::NewFS => ProgramView::NewFS,
            Program::Mount => ProgramView::Mount,
            Program::BlockMap => ProgramView::BlockMap,
            Program::AllocBlock => ProgramView::AllocBlock,
            Program::FreeBlock => ProgramView::FreeBlock,
            Program::INodeMap => ProgramView::INodeMap,
            Program::AllocINode => ProgramView::AllocINode,
            Program::FreeINode => ProgramView::FreeINode,
            Program::Unmount => ProgramView::Unmount,
            Program::Exit => ProgramView::Exit,
            Program::Other(name) => ProgramView::Other(name@),
        }
    }
}

impl ProgramView {
    /// The name by which a command line calls the program.
    pub open spec fn name(self) -> Seq<char> {
        match self {
            ProgramView::Cd => "cd"@,
            ProgramView::NewFS => "newfs"@,
            ProgramView::Mount => "mount"@,
            ProgramView::BlockMap => "blockmap"@,
            ProgramView::AllocBlock => "alloc_block"@,
            ProgramView::FreeBlock => "free_block"@,
            ProgramView::INodeMap => "inode_map"@,
            ProgramView::AllocINode => "alloc_inode"@,
            ProgramView::FreeINode => "free_inode"@,
            ProgramView::Unmount => "unmount"@,
            ProgramView::Exit => "exit"@,
            ProgramView::Other(name) => name,
        }
    }
}

impl Program {
    /// The name by which a command line calls the program.
    pub fn name(&self) -> (r: String)
        ensures
            r@ == self@.name(),
    {
        match self {
            Program::Cd => "cd".to_owned(),
            Program::NewFS => "newfs".to_owned(),
            Program::Mount => "mount".to_owned(),
            Program::BlockMap => "blockmap".to_owned(),
            Program::AllocBlock => "alloc_block".to_owned(),
            Program::FreeBlock => "free_block".to_owned(),
            Program::INodeMap => "inode_map".to_owned(),
            Program::AllocINode => "alloc_inode".to_owned(),
            Program::FreeINode => "free_inode".to_owned(),
            Program::Unmount => "unmount".to_owned(),
            Program::Exit => "exit".to_owned(),
            Program::Other(name) => name.clone(),
        }
    }
}

/// A program with its arguments.
#[derive(Clone, Debug, PartialEq)]
pub struct Process {
    pub name: Program,
    pub args: Args,
}

/// A program with its arguments, as plain values.
pub struct ProcessView {
    pub name: ProgramView,
    pub args: Seq<Seq<char>>,
}

impl View for Process {
    type V = ProcessView;

    open spec fn view(&self) -> ProcessView {
        ProcessView { name: self.name@, args: self.args.texts() }
    }
}

impl ProcessView {
    /// The process as text: the name, a blank, and the arguments with a
    /// blank between each two.
    pub open spec fn text(self) -> Seq<char> {
        self.name.name() + seq![' '] + Args::joined(self.args)
    }
}

impl Process {
    /// The process as text.
    pub fn render(&self) -> (r: String)
        ensures
            r@ == self@.text(),
    {
        let mut out: Vec<char> = Vec::new();
        push_str(&mut out, self.name.name().as_str());
        out.push(' ');
        push_str(&mut out, self.args.render().as_str());
        string_of(&out)
    }
}

/// What joins two commands.
#[derive(Copy, Clone, Debug, PartialEq, Eq, Structural)]
pub enum Operator {
    Pipe,
    Or,
    And,
}

impl Operator {
    /// The operator as it is written.
    pub open spec fn text(self) -> Seq<char> {
        match self {
            Operator::Pipe => "|"@,
            Operator::Or => "||"@,
            Operator::And => "&&"@,
        }
    }

    /// The operator as it is written.
    pub fn render(&self) -> (r: String)
        ensures
            r@ == self.text(),
    {
        match self {
            Operator::Pipe => "|".to_owned(),
            Operator::Or => "||".to_owned(),
            Operator::And => "&&".to_owned(),
        }
    }
}

/// Which of two joined commands is run.
#[derive(Copy, Clone, Debug, PartialEq, Eq, Structural)]
pub enum Side {
    Left,
    Right,
}

impl Operator {
    /// Which command an operator hands on once the command on its left has
    /// run: `||` hands on the left command where it succeeded and else the
    /// right one, `&&` the right command where the left one succeeded and
    /// else the left one. A pipe hands on the right command, fed by the
    /// left one.
    pub fn hands_on(&self, left_succeeded: bool) -> (r: Side)
        ensures
            r == match *self {
                Operator::Pipe => Side::Right,
                Operator::Or => if left_succeeded {
                    Side::Left
                } else {
                    Side::Right
                },
                Operator::And => if left_succeeded {
                    Side::Right
                } else {
                    Side::Left
                },
            },
    {
        match self {
            Operator::Pipe => Side::Right,
            Operator::Or => if left_succeeded {
                Side::Left
            } else {
                Side::Right
            },
            Operator::And => if left_succeeded {
                Side::Right
            } else {
                Side::Left
            },
        }
    }
}

/// An argument of a command in its three forms.
#[derive(Clone, Debug, PartialEq)]
pub enum Arg {
    Short(String),
    Long(String),
    Name(String),
}

impl Arg {
    /// The argument as it is written: one dash before a short one, two
    /// before a long one, none before a name.
    pub open spec fn text(&self) -> Seq<char> {
        match self {
            Arg::Short(c) => "-"@ + c@,
            Arg::Long(s) => "--"@ + s@,
            Arg::Name(s) => s@,
        }
    }

    /// The argument as it is written.
    pub fn render(&self) -> (r: String)
        ensures
            r@ == self.text(),
    {
        let mut out: Vec<char> = Vec::new();
        match self {
            Arg::Short(c) => {
                push_str(&mut out, "-");
                push_str(&mut out, c.as_str());
            },
            Arg::Long(s) => {
                push_str(&mut out, "--");
                push_str(&mut out, s.as_str());
            },
            Arg::Name(s) => {
                push_str(&mut out, s.as_str());
            },
        }
        string_of(&out)
    }
}

/// A command line.
#[derive(Debug, PartialEq)]
pub enum Expr {
    Base(Process),
    Sequence { left: Process, op: Operator, right: Box<Expr> },
    Redirect { expr: Box<Expr>, file: String },
}

/// A command line as plain values.
pub enum ExprView {
    Base(ProcessView),
    Sequence { left: ProcessView, op: Operator, right: Box<ExprView> },
    Redirect { expr: Box<ExprView>, file: Seq<char> },
}

impl Expr {
    /// The command line as plain values.
    pub open spec fn plain(&self) -> ExprView
        decreases self,
    {
        match self {
            Expr::Base(process) => ExprView::Base(process@),
            Expr::Sequence { left, op, right } => ExprView::Sequence {
                left: left@,
                op: *op,
                right: Box::new(right.plain()),
            },
            Expr::Redirect { expr, file } => ExprView::Redirect {
                expr: Box::new(expr.plain()),
                file: file@,
            },
        }
    }
}

impl View for Expr {
    type V = ExprView;

    open spec fn view(&self) -> ExprView {
        self.plain()
    }
}

impl ExprView {
    /// The command line as text.
    pub open spec fn text(self) -> Seq<char>
        decreases self,
    {
        match self {
            ExprView::Base(process) => process.text(),
            ExprView::Sequence { left, op, right } => left.text() + seq![' '] + op.text() + seq![
                ' ',
            ] + right.text(),
            ExprView::Redirect { expr, file } => expr.text() + " > "@ + file,
        }
    }
}

impl Expr {
    /// The command line as text.
    pub fn render(&self) -> (r: String)
        ensures
            r@ == self@.text(),
        decreases self,
    {
        let mut out: Vec<char> = Vec::new();
        match self {
            Expr::Base(process) => {
                push_str(&mut out, process.render().as_str());
            },
            Expr::Sequence { left, op, right } => {
                push_str(&mut out, left.render().as_str());
                out.push(' ');
                push_str(&mut out, op.render().as_str());
                out.push(' ');
                push_str(&mut out, right.render().as_str());
            },
            Expr::Redirect { expr, file } => {
                push_str(&mut out, expr.render().as_str());
                push_str(&mut out, " > ");
                push_str(&mut out, file.as_str());
            },
        }
        string_of(&out)
    }
}

/// Whether `c` ends a word: a blank, an operator character, a backslash, a
/// tab, a line break or a quotation mark.
pub open spec fn is_disallowed(c: char) -> bool {
    c == ' ' || c == '|' || c == '&' || c == '>' || c == '\\' || c == '\t' || c == '\n' || c
        == '\r' || c == '"'
}

/// Whether `c` can stand in an argument behind a backslash.
pub open spec fn is_escapable(c: char) -> bool {
    c == ' ' || c == '|' || c == '>' || c == '\\' || c == '\t' || c == '\n' || c == '\r' || c
        == '"'
}

/// Whether `c` is a blank or a tab.
pub open spec fn is_blank(c: char) -> bool {
    c == ' ' || c == '\t'
}

/// Whether `c` is a blank, a tab or a line break.
pub open spec fn is_white(c: char) -> bool {
    c == ' ' || c == '\t' || c == '\r' || c == '\n'
}

/// The first position from `i` on that holds no blank.
pub open spec fn skip_blanks(s: Seq<char>, i: int) -> int
    decreases s.len() - i,
{
    if 0 <= i < s.len() && is_blank(s[i]) {
        skip_blanks(s, i + 1)
    } else {
        i
    }
}

/// The first position from `i` on that ends a word.
pub open spec fn word_end(s: Seq<char>, i: int) -> int
    decreases s.len() - i,
{
    if 0 <= i < s.len() && !is_disallowed(s[i]) {
        word_end(s, i + 1)
    } else {
        i
    }
}

/// A piece of text that was read, and the position behind it.
pub struct Piece {
    pub text: Seq<char>,
    pub next: int,
}

/// The argument that runs from `i` on: characters that do not end a word
/// stand for themselves, a backslash makes the character behind it stand
/// for itself, and the run ends before any other character that ends a
/// word. A backslash at the end, or in front of a character that cannot be
/// escaped, makes the argument unreadable.
pub open spec fn escaped_run(s: Seq<char>, i: int) -> Option<Piece>
    decreases s.len() - i,
{
    if i < 0 || i >= s.len() {
        Some(Piece { text: Seq::empty(), next: i })
    } else if !is_disallowed(s[i]) {
        match escaped_run(s, i + 1) {
            None => None,
            Some(rest) => Some(Piece { text: seq![s[i]] + rest.text, next: rest.next }),
        }
    } else if s[i] == '\\' {
        if i + 1 < s.len() && is_escapable(s[i + 1]) {
            match escaped_run(s, i + 2) {
                None => None,
                Some(rest) => Some(Piece { text: seq![s[i + 1]] + rest.text, next: rest.next }),
            }
        } else {
            None
        }
    } else {
        Some(Piece { text: Seq::empty(), next: i })
    }
}

/// The argument at `i`. There is none where a character stands at `i` that
/// ends a word and is no backslash.
pub open spec fn escaped(s: Seq<char>, i: int) -> Option<Piece> {
    if 0 <= i < s.len() && is_disallowed(s[i]) && s[i] != '\\' {
        None
    } else {
        escaped_run(s, i)
    }
}

/// Arguments that were read, and the position behind them.
pub struct Words {
    pub list: Seq<Seq<char>>,
    pub next: int,
}

/// The arguments that follow an argument that ended at `j`: each is set
/// off by blanks and must not be empty.
pub open spec fn more_words(s: Seq<char>, j: int) -> Words
    decreases s.len() - j,
{
    let k = skip_blanks(s, j);
    if k == j {
        Words { list: Seq::empty(), next: j }
    } else {
        match escaped(s, k) {
            None => Words { list: Seq::empty(), next: j },
            Some(piece) => {
                if j < piece.next <= s.len() && piece.next != k {
                    let rest = more_words(s, piece.next);
                    Words { list: seq![piece.text] + rest.list, next: rest.next }
                } else {
                    Words { list: Seq::empty(), next: j }
                }
            },
        }
    }
}

/// The arguments from `i` on: none where the first one is unreadable or
/// empty.
pub open spec fn words(s: Seq<char>, i: int) -> Words {
    match escaped(s, i) {
        None => Words { list: Seq::empty(), next: i },
        Some(piece) => {
            if piece.next == i {
                Words { list: Seq::empty(), next: i }
            } else {
                let rest = more_words(s, piece.next);
                Words { list: seq![piece.text] + rest.list, next: rest.next }
            }
        },
    }
}

/// Whether `word` stands in `s` at `i`.
pub open spec fn has_prefix(s: Seq<char>, i: int, word: Seq<char>) -> bool {
    0 <= i && i + word.len() <= s.len() && s.subrange(i, i + word.len()) == word
}

/// A program that was read, and the position behind its name.
pub struct Named {
    pub program: ProgramView,
    pub next: int,
}

/// The program at `i`: the first command of the shell whose name stands
/// there, else the program whose name is the word there.
pub open spec fn program_at(s: Seq<char>, i: int) -> Named {
    if has_prefix(s, i, "cd"@) {
        Named { program: ProgramView::Cd, next: i + "cd"@.len() }
    } else if has_prefix(s, i, "newfs"@) {
        Named { program: ProgramView::NewFS, next: i + "newfs"@.len() }
    } else if has_prefix(s, i, "mount"@) {
        Named { program: ProgramView::Mount, next: i + "mount"@.len() }
    } else if has_prefix(s, i, "blockmap"@) {
        Named { program: ProgramView::BlockMap, next: i + "blockmap"@.len() }
    } else if has_prefix(s, i, "alloc_block"@) {
        Named { program: ProgramView::AllocBlock, next: i + "alloc_block"@.len() }
    } else if has_prefix(s, i, "free_block"@) {
        Named { program: ProgramView::FreeBlock, next: i + "free_block"@.len() }
    } else if has_prefix(s, i, "inode_map"@) {
        Named { program: ProgramView::INodeMap, next: i + "inode_map"@.len() }
    } else if has_prefix(s, i, "alloc_inode"@) {
        Named { program: ProgramView::AllocINode, next: i + "alloc_inode"@.len() }
    } else if has_prefix(s, i, "free_inode"@) {
        Named { program: ProgramView::FreeINode, next: i + "free_inode"@.len() }
    } else if has_prefix(s, i, "unmount"@) {
        Named { program: ProgramView::Unmount, next: i + "unmount"@.len() }
    } else if has_prefix(s, i, "exit"@) {
        Named { program: ProgramView::Exit, next: i + "exit"@.len() }
    } else {
        Named { program: ProgramView::Other(s.subrange(i, word_end(s, i))), next: word_end(s, i) }
    }
}

/// A process that was read, and the position behind it.
pub struct Started {
    pub process: ProcessView,
    pub next: int,
}

/// The process at `i`: a program, blanks, and arguments.
pub open spec fn process_at(s: Seq<char>, i: int) -> Started {
    let named = program_at(s, i);
    let found = words(s, skip_blanks(s, named.next));
    Started { process: ProcessView { name: named.program, args: found.list }, next: found.next }
}

/// An operator that was read, and the position behind it.
pub struct Joined {
    pub op: Operator,
    pub next: int,
}

/// The operator at `i`, if one stands there: `||`, `&&` or `|`.
pub open spec fn operator_at(s: Seq<char>, i: int) -> Option<Joined> {
    if has_prefix(s, i, "||"@) {
        Some(Joined { op: Operator::Or, next: i + "||"@.len() })
    } else if has_prefix(s, i, "&&"@) {
        Some(Joined { op: Operator::And, next: i + "&&"@.len() })
    } else if 0 <= i < s.len() && s[i] == '|' {
        Some(Joined { op: Operator::Pipe, next: i + 1 })
    } else {
        None
    }
}

/// A command line that was read, and the position behind it.
pub struct Read {
    pub expr: ExprView,
    pub next: int,
}

/// The commands at `i`: a process, and behind an operator the commands
/// that follow it.
pub open spec fn expr_at(s: Seq<char>, i: int) -> Read
    decreases s.len() - i,
{
    let started = process_at(s, i);
    match operator_at(s, skip_blanks(s, started.next)) {
        None => Read { expr: ExprView::Base(started.process), next: started.next },
        Some(joined) => {
            let k = skip_blanks(s, joined.next);
            if i < k <= s.len() {
                let right = expr_at(s, k);
                Read {
                    expr: ExprView::Sequence {
                        left: started.process,
                        op: joined.op,
                        right: Box::new(right.expr),
                    },
                    next: right.next,
                }
            } else {
                Read { expr: ExprView::Base(started.process), next: started.next }
            }
        },
    }
}

/// The command line that `s` holds: commands, and behind a `>` the file
/// that their output goes to. What follows is ignored.
pub open spec fn total(s: Seq<char>) -> ExprView {
    let read = expr_at(s, 0);
    let j = skip_blanks(s, read.next);
    if 0 <= j < s.len() && s[j] == '>' {
        match escaped(s, skip_blanks(s, j + 1)) {
            Some(piece) => ExprView::Redirect { expr: Box::new(read.expr), file: piece.text },
            None => read.expr,
        }
    } else {
        read.expr
    }
}

/// What was read so far in front of what is still to be read.
pub open spec fn lifted(front: Seq<char>, rest: Option<Piece>) -> Option<Piece> {
    match rest {
        None => None,
        Some(piece) => Some(Piece { text: front + piece.text, next: piece.next }),
    }
}

fn disallowed(c: char) -> (r: bool)
    ensures
        r == is_disallowed(c),
{
    c == ' ' || c == '|' || c == '&' || c == '>' || c == '\\' || c == '\t' || c == '\n' || c
        == '\r' || c == '"'
}

fn escapable(c: char) -> (r: bool)
    ensures
        r == is_escapable(c),
{
    c == ' ' || c == '|' || c == '>' || c == '\\' || c == '\t' || c == '\n' || c == '\r' || c
        == '"'
}

fn skip_blanks_from(s: &Vec<char>, i: usize) -> (r: usize)
    requires
        i <= s.len(),
    ensures
        r == skip_blanks(s@, i as int),
        i <= r <= s.len(),
{
    let mut j = i;
    while j < s.len() && (s[j] == ' ' || s[j] == '\t')
        invariant
            i <= j <= s.len(),
            skip_blanks(s@, i as int) == skip_blanks(s@, j as int),
        decreases s.len() - j,
    {
        j = j + 1;
    }
    j
}

fn word_end_from(s: &Vec<char>, i: usize) -> (r: usize)
    requires
        i <= s.len(),
    ensures
        r == word_end(s@, i as int),
        i <= r <= s.len(),
{
    let mut j = i;
    while j < s.len() && !disallowed(s[j])
        invariant
            i <= j <= s.len(),
            word_end(s@, i as int) == word_end(s@, j as int),
        decreases s.len() - j,
    {
        j = j + 1;
    }
    j
}

/// The characters of `s` from `from` up to `to`, as a string.
fn text_between(s: &Vec<char>, from: usize, to: usize) -> (r: String)
    requires
        from <= to <= s.len(),
    ensures
        r@ == s@.subrange(from as int, to as int),
{
    let mut out: Vec<char> = Vec::new();
    let mut j = from;
    while j < to
        invariant
            from <= j <= to <= s.len(),
            out@ == s@.subrange(from as int, j as int),
        decreases to - j,
    {
        out.push(s[j]);
        j = j + 1;
    }
    string_of(&out)
}

/// Reads the argument at `i`.
fn read_escaped(s: &Vec<char>, i: usize) -> (r: Option<(String, usize)>)
    requires
        i <= s.len(),
    ensures
        r is Some <==> escaped(s@, i as int) is Some,
        r matches Some(found) ==> found.0@ == escaped(s@, i as int)->0.text && found.1
            == escaped(s@, i as int)->0.next && i <= found.1 <= s.len(),
{
    if i < s.len() && disallowed(s[i]) && s[i] != '\\' {
        return None;
    }
    let mut acc: Vec<char> = Vec::new();
    let mut j = i;
    assert(lifted(acc@, escaped_run(s@, j as int)) =~= escaped_run(s@, i as int)) by {
        if escaped_run(s@, j as int) is Some {
            assert(acc@ + escaped_run(s@, j as int)->0.text =~= escaped_run(s@, j as int)->0.text);
        }
    }
    loop
        invariant
            i <= j <= s.len(),
            escaped(s@, i as int) == escaped_run(s@, i as int),
            escaped_run(s@, i as int) == lifted(acc@, escaped_run(s@, j as int)),
        decreases s.len() - j,
    {
        if j >= s.len() {
            return Some((string_of(&acc), j));
        }
        let c: char = s[j];
        let ghost before = acc@;
        if !disallowed(c) {
            acc.push(c);
            proof {
                let rest = escaped_run(s@, j + 1);
                if rest is Some {
                    assert(before + (seq![c] + rest->0.text) =~= acc@ + rest->0.text);
                }
            }
            j = j + 1;
        } else if c == '\\' {
            if j + 1 < s.len() && escapable(s[j + 1]) {
                acc.push(s[j + 1]);
                proof {
                    let rest = escaped_run(s@, j + 2);
                    if rest is Some {
                        assert(before + (seq![s@[j + 1]] + rest->0.text) =~= acc@ + rest->0.text);
                    }
                }
                j = j + 2;
            } else {
                return None;
            }
        } else {
            assert(escaped_run(s@, j as int) == Some(
                Piece { text: Seq::<char>::empty(), next: j as int },
            ));
            return Some((string_of(&acc), j));
        }
    }
}

/// Reads the arguments from `i` on.
fn read_words(s: &Vec<char>, i: usize) -> (r: (Args, usize))
    requires
        i <= s.len(),
    ensures
        r.0.texts() == words(s@, i as int).list,
        r.1 == words(s@, i as int).next,
        i <= r.1 <= s.len(),
{
    let mut list: Vec<String> = Vec::new();
    let first = read_escaped(s, i);
    let mut j: usize = match first {
        None => {
            return (Args { vec: list }, i);
        },
        Some((text, next)) => {
            if next == i {
                return (Args { vec: list }, i);
            }
            list.push(text);
            next
        },
    };
    proof {
        assert((Args { vec: list }).texts() =~= seq![escaped(s@, i as int)->0.text]);
    }
    loop
        invariant
            i <= j <= s.len(),
            words(s@, i as int).list == (Args { vec: list }).texts() + more_words(
                s@,
                j as int,
            ).list,
            words(s@, i as int).next == more_words(s@, j as int).next,
        decreases s.len() - j,
    {
        let ghost before = (Args { vec: list }).texts();
        let k = skip_blanks_from(s, j);
        if k == j {
            return (Args { vec: list }, j);
        }
        match read_escaped(s, k) {
            None => {
                return (Args { vec: list }, j);
            },
            Some((text, next)) => {
                if next == k {
                    return (Args { vec: list }, j);
                }
                list.push(text);
                proof {
                    let rest = more_words(s@, next as int);
                    assert(before + (seq![text@] + rest.list) =~= before.push(text@) + rest.list);
                }
                j = next;
            },
        }
    }
}

/// Whether `word` stands in `s` at `i`, and the position behind it.
fn starts_with(s: &Vec<char>, i: usize, word: &str) -> (r: Option<usize>)
    requires
        i <= s.len(),
    ensures
        r is Some <==> has_prefix(s@, i as int, word@),
        r is Some ==> r->0 == i + word@.len() && r->0 <= s.len(),
{
    let w = chars_of(word);
    if w.len() > s.len() - i {
        return None;
    }
    let mut j: usize = 0;
    while j < w.len()
        invariant
            j <= w.len() <= s.len() - i,
            w@ == word@,
            s@.subrange(i as int, i + j) == w@.take(j as int),
        decreases w.len() - j,
    {
        if s[i + j] != w[j] {
            return None;
        }
        assert(s@.subrange(i as int, i + j + 1) =~= s@.subrange(i as int, i + j).push(
            s@[i + j],
        ));
        j = j + 1;
    }
    assert(w@.take(w.len() as int) =~= w@);
    Some(i + w.len())
}

/// Reads the program at `i`.
fn read_program(s: &Vec<char>, i: usize) -> (r: (Program, usize))
    requires
        i <= s.len(),
    ensures
        r.0@ == program_at(s@, i as int).program,
        r.1 == program_at(s@, i as int).next,
        i <= r.1 <= s.len(),
{
    if let Some(next) = starts_with(s, i, "cd") {
        (Program::Cd, next)
    } else if let Some(next) = starts_with(s, i, "newfs") {
        (Program::NewFS, next)
    } else if let Some(next) = starts_with(s, i, "mount") {
        (Program::Mount, next)
    } else if let Some(next) = starts_with(s, i, "blockmap") {
        (Program::BlockMap, next)
    } else if let Some(next) = starts_with(s, i, "alloc_block") {
        (Program::AllocBlock, next)
    } else if let Some(next) = starts_with(s, i, "free_block") {
        (Program::FreeBlock, next)
    } else if let Some(next) = starts_with(s, i, "inode_map") {
        (Program::INodeMap, next)
    } else if let Some(next) = starts_with(s, i, "alloc_inode") {
        (Program::AllocINode, next)
    } else if let Some(next) = starts_with(s, i, "free_inode") {
        (Program::FreeINode, next)
    } else if let Some(next) = starts_with(s, i, "unmount") {
        (Program::Unmount, next)
    } else if let Some(next) = starts_with(s, i, "exit") {
        (Program::Exit, next)
    } else {
        let end = word_end_from(s, i);
        (Program::Other(text_between(s, i, end)), end)
    }
}

/// Reads the process at `i`.
fn read_process(s: &Vec<char>, i: usize) -> (r: (Process, usize))
    requires
        i <= s.len(),
    ensures
        r.0@ == process_at(s@, i as int).process,
        r.1 == process_at(s@, i as int).next,
        i <= r.1 <= s.len(),
{
    let (name, next) = read_program(s, i);
    let from = skip_blanks_from(s, next);
    let (args, end) = read_words(s, from);
    (Process { name, args }, end)
}

/// Reads the operator at `i`, if one stands there.
fn read_operator(s: &Vec<char>, i: usize) -> (r: Option<(Operator, usize)>)
    requires
        i <= s.len(),
    ensures
        r is Some <==> operator_at(s@, i as int) is Some,
        r matches Some(found) ==> found.0 == operator_at(s@, i as int)->0.op && found.1
            == operator_at(s@, i as int)->0.next && i < found.1 <= s.len(),
{
    if let Some(next) = starts_with(s, i, "||") {
        proof {
            reveal_strlit("||");
        }
        Some((Operator::Or, next))
    } else if let Some(next) = starts_with(s, i, "&&") {
        proof {
            reveal_strlit("&&");
        }
        Some((Operator::And, next))
    } else if i < s.len() && s[i] == '|' {
        Some((Operator::Pipe, i + 1))
    } else {
        None
    }
}

/// Reads the commands at `i`.
fn read_expr(s: &Vec<char>, i: usize) -> (r: (Expr, usize))
    requires
        i <= s.len(),
    ensures
        r.0@ == expr_at(s@, i as int).expr,
        r.1 == expr_at(s@, i as int).next,
        i <= r.1 <= s.len(),
    decreases s.len() - i,
{
    let (left, next) = read_process(s, i);
    let at = skip_blanks_from(s, next);
    match read_operator(s, at) {
        None => (Expr::Base(left), next),
        Some((op, behind)) => {
            let from = skip_blanks_from(s, behind);
            let (right, end) = read_expr(s, from);
            (Expr::Sequence { left, op, right: Box::new(right) }, end)
        },
    }
}

/// Reads one argument from the front of `s`: characters up to the first
/// that ends a word, with a backslash in front of each such character that
/// belongs to the argument.
pub fn esc(s: &str) -> (r: Result<String>)
    ensures
        r is Ok <==> escaped(s@, 0) is Some,
        r is Ok ==> r->Ok_0@ == escaped(s@, 0)->0.text,
        r is Err ==> r->Err_0 is Parse,
{
    let chars = chars_of(s);
    match read_escaped(&chars, 0) {
        Some((text, _)) => Ok(text),
        None => Err(Error::Parse),
    }
}

/// Reads a command line. Every text is one: what cannot be read is left
/// over and ignored.
pub fn parse(s: &str) -> (r: Result<Expr>)
    ensures
        r is Ok,
        r->Ok_0@ == total(s@),
{
    let chars = chars_of(s);
    let (expr, next) = read_expr(&chars, 0);
    let at = skip_blanks_from(&chars, next);
    if at < chars.len() && chars[at] == '>' {
        let from = skip_blanks_from(&chars, at + 1);
        match read_escaped(&chars, from) {
            Some((file, _)) => Ok(Expr::Redirect { expr: Box::new(expr), file }),
            None => Ok(expr),
        }
    } else {
        Ok(expr)
    }
}

} // verus!
