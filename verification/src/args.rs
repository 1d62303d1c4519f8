//! The arguments of a shell command: what a command expects, what it was
//! given, and how the two are matched.

use crate::text::{all_digits, chars_of, digits_value, parse_digits, push_str, string_of};
use vstd::prelude::*;

verus! {

/// What kind of value an argument is.
#[derive(Clone, Copy, Debug, PartialEq, Eq, Structural)]
pub enum Kind {
    Nat,
    String,
}

/// The value of an argument.
#[derive(Clone, Debug, PartialEq)]
pub enum Type {
    Nat(u64),
    String(String),
}

/// The value of an argument as plain values.
pub enum TypeView {
    Nat(u64),
    String(Seq<char>),
}

impl View for Type {
    type V = TypeView;

    open spec fn view(&self) -> TypeView {
        match self {
            Type::Nat(n) => TypeView::Nat(*n),
            Type::String(s) => TypeView::String(s@),
        }
    }
}

/// Why arguments could not be read.
#[derive(Clone, Debug, PartialEq)]
pub enum ArgsError {
    /// An argument that has to be a number is none; `failed` is its text.
    Nat { failed: String },
    /// The command expects more arguments than it was given.
    MissingArguments,
}

/// Why arguments could not be read, as plain values.
pub enum ArgsErrorView {
    Nat(Seq<char>),
    MissingArguments,
}

impl View for ArgsError {
    type V = ArgsErrorView;

    open spec fn view(&self) -> ArgsErrorView {
        match self {
            ArgsError::Nat { failed } => ArgsErrorView::Nat(failed@),
            ArgsError::MissingArguments => ArgsErrorView::MissingArguments,
        }
    }
}

/// The digits of a number text: the text without a leading `+`.
pub open spec fn nat_digits(s: Seq<char>) -> Seq<char> {
    if s.len() > 0 && s[0] == '+' {
        s.subrange(1, s.len() as int)
    } else {
        s
    }
}

/// Whether `s` is the text of a number of 64 bits: decimal digits, at least
/// one, with or without a `+` in front.
pub open spec fn is_nat_text(s: Seq<char>) -> bool {
    &&& nat_digits(s).len() > 0
    &&& all_digits(nat_digits(s))
    &&& digits_value(nat_digits(s)) <= u64::MAX
}

/// An argument of kind `kind` read from the text `s`.
pub open spec fn read_as(kind: Kind, s: Seq<char>) -> core::result::Result<
    TypeView,
    ArgsErrorView,
> {
    match kind {
        Kind::Nat => if is_nat_text(s) {
            Ok(TypeView::Nat(digits_value(nat_digits(s)) as u64))
        } else {
            Err(ArgsErrorView::Nat(s))
        },
        Kind::String => Ok(TypeView::String(s)),
    }
}

/// Whether `r` is what `expected` says.
pub open spec fn read_agrees(
    r: core::result::Result<Type, ArgsError>,
    expected: core::result::Result<TypeView, ArgsErrorView>,
) -> bool {
    match expected {
        Ok(value) => r is Ok && r->Ok_0@ == value,
        Err(error) => r is Err && r->Err_0@ == error,
    }
}

impl Kind {
    /// Reads the text `s` as an argument of this kind.
    pub fn parse(&self, s: String) -> (r: core::result::Result<Type, ArgsError>)
        ensures
            read_agrees(r, read_as(*self, s@)),
    {
        match self {
            Kind::Nat => {
                let chars = chars_of(s.as_str());
                let from: usize = if chars.len() > 0 && chars[0] == '+' {
                    1
                } else {
                    0
                };
                proof {
                    assert(chars@.subrange(from as int, chars@.len() as int) =~= nat_digits(s@));
                }
                match parse_digits(&chars, from, chars.len()) {
                    Some(n) => Ok(Type::Nat(n)),
                    None => Err(ArgsError::Nat { failed: s }),
                }
            },
            Kind::String => Ok(Type::String(s)),
        }
    }
}

impl Type {
    /// The number that the argument is.
    pub fn number(&self) -> (r: u64)
        requires
            self is Nat,
        ensures
            self@ == TypeView::Nat(r),
    {
        match self {
            Type::Nat(n) => *n,
            Type::String(_) => vstd::pervasive::unreached(),
        }
    }

    /// The text that the argument is.
    pub fn string(&self) -> (r: String)
        requires
            self is String,
        ensures
            self@ == TypeView::String(r@),
    {
        match self {
            Type::String(s) => s.clone(),
            Type::Nat(_) => vstd::pervasive::unreached(),
        }
    }
}

/// What a command expects in one place: an argument that has to be there,
/// or one that may be left out.
#[derive(Clone, Copy, Debug, PartialEq, Eq, Structural)]
pub enum Argument {
    Required(Kind),
    Optional(Kind),
}

impl Argument {
    /// A number that has to be there.
    pub fn number() -> (r: Argument)
        ensures
            r == Argument::Required(Kind::Nat),
    {
        Argument::Required(Kind::Nat)
    }

    /// A text that has to be there.
    pub fn string() -> (r: Argument)
        ensures
            r == Argument::Required(Kind::String),
    {
        Argument::Required(Kind::String)
    }
}

impl ArgsError {
    /// The text of the error for the command `prog`.
    pub open spec fn rendered(error: ArgsErrorView, prog: Seq<char>) -> Seq<char> {
        match error {
            ArgsErrorView::Nat(failed) => "ERROR: "@ + failed
                + " needs to be a nonnegative integer"@,
            ArgsErrorView::MissingArguments => "ERROR: "@ + prog + " needs more arguments"@,
        }
    }

    /// The text of the error for the command `prog`.
    pub fn render(&self, prog: &str) -> (r: String)
        ensures
            r@ == ArgsError::rendered(self@, prog@),
    {
        let mut out: Vec<char> = Vec::new();
        push_str(&mut out, "ERROR: ");
        match self {
            ArgsError::Nat { failed } => {
                push_str(&mut out, failed.as_str());
                push_str(&mut out, " needs to be a nonnegative integer");
            },
            ArgsError::MissingArguments => {
                push_str(&mut out, prog);
                push_str(&mut out, " needs more arguments");
            },
        }
        string_of(&out)
    }
}

/// An argument that may have been left out.
#[derive(Clone, Debug, PartialEq)]
pub struct Optional {
    pub option: Option<Type>,
}

impl Optional {
    /// The number that the argument is, if it is there.
    pub fn number(self) -> (r: Option<u64>)
        requires
            self.option matches Some(t) ==> t is Nat,
        ensures
            r is Some <==> self.option is Some,
            r is Some ==> self.option->0@ == TypeView::Nat(r->0),
    {
        match self.option {
            Some(t) => Some(t.number()),
            None => None,
        }
    }
}

/// An argument as it was read.
#[derive(Clone, Debug, PartialEq)]
pub enum ParsedArgument {
    Required(Type),
    Optional(Optional),
}

/// An argument as it was read, as plain values.
pub enum ParsedView {
    Required(TypeView),
    Optional(Option<TypeView>),
}

impl View for ParsedArgument {
    type V = ParsedView;

    open spec fn view(&self) -> ParsedView {
        match self {
            ParsedArgument::Required(t) => ParsedView::Required(t@),
            ParsedArgument::Optional(o) => ParsedView::Optional(
                match o.option {
                    Some(t) => Some(t@),
                    None => None,
                },
            ),
        }
    }
}

/// The arguments of a command as they were read.
#[derive(Clone, Debug, PartialEq)]
pub struct Parsed {
    pub types: Vec<ParsedArgument>,
}

impl View for Parsed {
    type V = Seq<ParsedView>;

    open spec fn view(&self) -> Seq<ParsedView> {
        Seq::new(self.types@.len(), |i: int| self.types@[i]@)
    }
}

impl Parsed {
    /// The argument in place `i`, which has to be there.
    pub fn at(&self, i: usize) -> (r: Type)
        requires
            i < self.types@.len(),
            self.types@[i as int] is Required,
        ensures
            self@[i as int] == ParsedView::Required(r@),
    {
        match &self.types[i] {
            ParsedArgument::Required(t) => {
                match t {
                    Type::Nat(n) => Type::Nat(*n),
                    Type::String(s) => Type::String(s.clone()),
                }
            },
            ParsedArgument::Optional(_) => vstd::pervasive::unreached(),
        }
    }

    /// The argument in place `i`, which may have been left out.
    pub fn optional(&self, i: usize) -> (r: Optional)
        requires
            i < self.types@.len(),
            self.types@[i as int] is Optional,
        ensures
            self@[i as int] == (ParsedArgument::Optional(r))@,
    {
        match &self.types[i] {
            ParsedArgument::Optional(o) => {
                match &o.option {
                    Some(Type::Nat(n)) => Optional { option: Some(Type::Nat(*n)) },
                    Some(Type::String(s)) => Optional { option: Some(Type::String(s.clone())) },
                    None => Optional { option: None },
                }
            },
            ParsedArgument::Required(_) => vstd::pervasive::unreached(),
        }
    }
}

/// What a command expects, place by place.
pub struct Parser {
    pub kinds: Vec<Argument>,
}

impl Parser {
    pub fn new(kinds: Vec<Argument>) -> (r: Parser)
        ensures
            r.kinds == kinds,
    {
        Parser { kinds }
    }
}

/// How far reading has come: the next text to read, and the arguments read.
pub struct Progress {
    pub next: int,
    pub read: Seq<ParsedView>,
}

/// Reading one more place: a required argument takes the next text, and
/// fails where there is none or it is of the wrong kind; an optional
/// argument takes the next text where there is one of the right kind, and
/// else is left out without taking any.
pub open spec fn read_place(texts: Seq<Seq<char>>, place: Argument, before: Progress)
    -> core::result::Result<Progress, ArgsErrorView> {
    match place {
        Argument::Required(kind) => {
            if texts.len() <= before.next {
                Err(ArgsErrorView::MissingArguments)
            } else {
                match read_as(kind, texts[before.next]) {
                    Err(error) => Err(error),
                    Ok(value) => Ok(
                        Progress {
                            next: before.next + 1,
                            read: before.read.push(ParsedView::Required(value)),
                        },
                    ),
                }
            }
        },
        Argument::Optional(kind) => {
            if texts.len() <= before.next {
                Ok(Progress { next: before.next, read: before.read.push(ParsedView::Optional(None)) })
            } else {
                match read_as(kind, texts[before.next]) {
                    Ok(value) => Ok(
                        Progress {
                            next: before.next + 1,
                            read: before.read.push(ParsedView::Optional(Some(value))),
                        },
                    ),
                    Err(_) => Ok(
                        Progress {
                            next: before.next,
                            read: before.read.push(ParsedView::Optional(None)),
                        },
                    ),
                }
            }
        },
    }
}

/// Reading the first `n` places, one after the other, up to the first
/// failure.
pub open spec fn read_places(texts: Seq<Seq<char>>, places: Seq<Argument>, n: nat)
    -> core::result::Result<Progress, ArgsErrorView>
    decreases n,
{
    if n == 0 {
        Ok(Progress { next: 0, read: Seq::empty() })
    } else {
        match read_places(texts, places, (n - 1) as nat) {
            Err(error) => Err(error),
            Ok(before) => read_place(texts, places[n - 1], before),
        }
    }
}

/// A failure stays: once reading has failed at a place, reading further
/// gives the same failure.
pub proof fn lemma_failure_stays(texts: Seq<Seq<char>>, places: Seq<Argument>, n: nat, m: nat)
    requires
        n <= m,
        read_places(texts, places, n) is Err,
    ensures
        read_places(texts, places, m) == read_places(texts, places, n),
    decreases m,
{
    if n < m {
        lemma_failure_stays(texts, places, n, (m - 1) as nat);
    }
}

/// The arguments that a command was given.
#[derive(Clone, Debug, PartialEq)]
pub struct Args {
    pub vec: Vec<String>,
}

impl Args {
    /// The texts of the arguments.
    pub open spec fn texts(&self) -> Seq<Seq<char>> {
        Seq::new(self.vec@.len(), |i: int| self.vec@[i]@)
    }

    pub fn new(args: Vec<String>) -> (r: Args)
        ensures
            r.vec == args,
    {
        Args { vec: args }
    }

    /// No arguments.
    pub fn empty() -> (r: Args)
        ensures
            r.vec@.len() == 0,
    {
        Args { vec: Vec::new() }
    }

    /// Matches the arguments with what `parser` expects, place by place.
    /// Arguments that are left over are ignored.
    pub fn parse(&self, parser: Parser) -> (r: core::result::Result<Parsed, ArgsError>)
        ensures
            match read_places(self.texts(), parser.kinds@, parser.kinds@.len()) {
                Ok(progress) => r is Ok && r->Ok_0@ == progress.read,
                Err(error) => r is Err && r->Err_0@ == error,
            },
    {
        let mut types: Vec<ParsedArgument> = Vec::new();
        let len = self.vec.len();
        let mut i: usize = 0;
        let mut k: usize = 0;
        let ghost texts = self.texts();
        let ghost places = parser.kinds@;
        assert((Parsed { types })@ =~= Seq::<ParsedView>::empty());
        while k < parser.kinds.len()
            invariant
                k <= parser.kinds.len(),
                len == self.vec@.len(),
                texts == self.texts(),
                places == parser.kinds@,
                i <= k,
                i <= len,
                read_places(texts, places, k as nat) == Ok::<Progress, ArgsErrorView>(
                    Progress { next: i as int, read: (Parsed { types })@ },
                ),
            decreases parser.kinds.len() - k,
        {
            let ghost before = (Parsed { types })@;
            match parser.kinds[k] {
                Argument::Required(kind) => {
                    if len <= i {
                        proof {
                            lemma_failure_stays(texts, places, (k + 1) as nat, places.len());
                        }
                        return Err(ArgsError::MissingArguments);
                    }
                    let arg = self.vec[i].clone();
                    match kind.parse(arg) {
                        Err(error) => {
                            proof {
                                lemma_failure_stays(texts, places, (k + 1) as nat, places.len());
                            }
                            return Err(error);
                        },
                        Ok(t) => {
                            i = i + 1;
                            types.push(ParsedArgument::Required(t));
                            assert((Parsed { types })@ =~= before.push(ParsedView::Required(t@)));
                        },
                    }
                },
                Argument::Optional(kind) => {
                    if len <= i {
                        let none = Optional { option: None };
                        types.push(ParsedArgument::Optional(none));
                        assert((Parsed { types })@ =~= before.push(ParsedView::Optional(None)));
                    } else {
                        let arg = self.vec[i].clone();
                        match kind.parse(arg) {
                            Ok(t) => {
                                i = i + 1;
                                types.push(ParsedArgument::Optional(Optional { option: Some(t) }));
                                assert((Parsed { types })@ =~= before.push(
                                    ParsedView::Optional(Some(t@)),
                                ));
                            },
                            Err(_) => {
                                types.push(ParsedArgument::Optional(Optional { option: None }));
                                assert((Parsed { types })@ =~= before.push(
                                    ParsedView::Optional(None),
                                ));
                            },
                        }
                    }
                },
            }
            k = k + 1;
        }
        Ok(Parsed { types })
    }

    /// The arguments with a blank between each two.
    pub open spec fn joined(texts: Seq<Seq<char>>) -> Seq<char>
        decreases texts.len(),
    {
        if texts.len() == 0 {
            Seq::empty()
        } else if texts.len() == 1 {
            texts[0]
        } else {
            Args::joined(texts.drop_last()) + seq![' '] + texts.last()
        }
    }

    /// The arguments as one text, with a blank between each two.
    pub fn render(&self) -> (r: String)
        ensures
            r@ == Args::joined(self.texts()),
    {
        let mut out: Vec<char> = Vec::new();
        let mut i: usize = 0;
        while i < self.vec.len()
            invariant
                i <= self.vec.len(),
                out@ == Args::joined(self.texts().take(i as int)),
            decreases self.vec.len() - i,
        {
            if i > 0 {
                out.push(' ');
            }
            push_str(&mut out, self.vec[i].as_str());
            proof {
                let next = self.texts().take(i + 1);
                assert(next.drop_last() =~= self.texts().take(i as int));
            }
            i = i + 1;
        }
        assert(self.texts().take(self.vec.len() as int) =~= self.texts());
        string_of(&out)
    }
}

} // verus!
