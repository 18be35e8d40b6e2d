//! The plain command line of a single copy: `if=`, `of=`, `bs=` and `count=`.
//!
//! Keys and values are read in lower case. An argument without `=`, or with
//! a key that is none of the four, says nothing and is passed over. The input
//! must be on disk: whoever calls [`Argument::parse`] looks for the paths that
//! [`Argument::inputs`] names and hands in what it found.

use crate::text::{
    lower_spec, parse_u64, parse_unsigned, same, split_once, split_once_spec, texts,
    to_ascii_lowercase,
};
use vstd::prelude::*;

verus! {

/// What one argument says.
#[derive(Debug, Clone, PartialEq, Eq)]
pub enum Argument {
    InputFile(String),
    OutputFile(String),
    BlockSize(usize),
    BlockCount(usize),
}

pub enum ArgumentView {
    InputFile(Seq<char>),
    OutputFile(Seq<char>),
    BlockSize(usize),
    BlockCount(usize),
}

impl View for Argument {
    type V = ArgumentView;

    open spec fn view(&self) -> ArgumentView {
        match *self {
            Argument::InputFile(path) => ArgumentView::InputFile(path@),
            Argument::OutputFile(path) => ArgumentView::OutputFile(path@),
            Argument::BlockSize(n) => ArgumentView::BlockSize(n),
            Argument::BlockCount(n) => ArgumentView::BlockCount(n),
        }
    }
}

/// What a command line says.
#[derive(Debug, Clone, PartialEq, Eq)]
pub struct Argies {
    pub input_file: Option<String>,
    pub output_files: Vec<String>,
    pub block_size: usize,
    pub block_count: usize,
}

pub struct ArgiesView {
    pub input_file: Option<Seq<char>>,
    pub output_files: Seq<Seq<char>>,
    pub block_size: usize,
    pub block_count: usize,
}

impl ArgiesView {
    /// What an empty command line says: blocks of 1024 bytes, all of them.
    pub open spec fn fresh() -> ArgiesView {
        ArgiesView {
            input_file: None,
            output_files: Seq::empty(),
            block_size: 1024,
            block_count: 0,
        }
    }

    /// What the command line says with one argument more. A later input or
    /// number stands in place of an earlier one; outputs add up.
    pub open spec fn with(self, a: ArgumentView) -> ArgiesView {
        match a {
            ArgumentView::InputFile(path) => ArgiesView { input_file: Some(path), ..self },
            ArgumentView::OutputFile(path) => ArgiesView {
                output_files: self.output_files.push(path),
                ..self
            },
            ArgumentView::BlockSize(n) => ArgiesView { block_size: n, ..self },
            ArgumentView::BlockCount(n) => ArgiesView { block_count: n, ..self },
        }
    }
}

impl View for Argies {
    type V = ArgiesView;

    open spec fn view(&self) -> ArgiesView {
        ArgiesView {
            input_file: match self.input_file {
                Some(path) => Some(path@),
                None => None,
            },
            output_files: texts(self.output_files@),
            block_size: self.block_size,
            block_count: self.block_count,
        }
    }
}

impl Default for Argies {
    fn default() -> (r: Self)
        ensures
            r@ == ArgiesView::fresh(),
    {
        let r = Self { input_file: None, output_files: Vec::new(), block_size: 1024, block_count: 0 };
        assert(texts(r.output_files@) =~= Seq::empty());
        r
    }
}

impl Argies {
    /// Takes in what one argument says.
    pub fn apply(&mut self, a: Argument)
        ensures
            final(self)@ == old(self)@.with(a@),
    {
        match a {
            Argument::InputFile(path) => {
                self.input_file = Some(path);
            },
            Argument::OutputFile(path) => {
                self.output_files.push(path);
                assert(texts(self.output_files@) =~= texts(old(self).output_files@).push(path@));
            },
            Argument::BlockSize(n) => {
                self.block_size = n;
            },
            Argument::BlockCount(n) => {
                self.block_count = n;
            },
        }
    }
}

/// What is wrong with a command line.
#[derive(Clone, Copy, Debug, PartialEq, Eq, Structural)]
pub enum ArgumentErrorKind {
    /// The input file is not on disk.
    InputMissing,
    /// The value of `bs` is not a number of the machine's word size.
    InvalidBlockSize,
    /// The value of `count` is not a number of the machine's word size.
    InvalidBlockCount,
    /// No argument names an input.
    NoInput,
}

/// The argument that was refused: its position in the list and the reason.
/// That no input was named has the list's length as position.
#[derive(Clone, Copy, Debug, PartialEq, Eq, Structural)]
pub struct ArgumentError {
    pub index: usize,
    pub kind: ArgumentErrorKind,
}

/// What the argument `arg` says, if anything.
pub open spec fn read_spec(arg: Seq<char>) -> Result<Option<ArgumentView>, ArgumentErrorKind> {
    match split_once_spec(arg, '=') {
        None => Ok(None),
        Some((lhs, rhs)) => {
            let key = lower_spec(lhs);
            let value = lower_spec(rhs);
            if key == "if"@ {
                Ok(Some(ArgumentView::InputFile(value)))
            } else if key == "of"@ {
                Ok(Some(ArgumentView::OutputFile(value)))
            } else if key == "bs"@ {
                match parse_unsigned(value, usize::MAX as nat) {
                    Some(n) => Ok(Some(ArgumentView::BlockSize(n as usize))),
                    None => Err(ArgumentErrorKind::InvalidBlockSize),
                }
            } else if key == "count"@ {
                match parse_unsigned(value, usize::MAX as nat) {
                    Some(n) => Ok(Some(ArgumentView::BlockCount(n as usize))),
                    None => Err(ArgumentErrorKind::InvalidBlockCount),
                }
            } else {
                Ok(None)
            }
        },
    }
}

/// The inputs that the arguments from position `at` on name, in order, up to
/// the first argument that cannot be read.
pub open spec fn inputs_from(args: Seq<Seq<char>>, at: int) -> Seq<Seq<char>>
    decreases args.len() - at,
{
    if at < 0 || at >= args.len() {
        Seq::empty()
    } else {
        match read_spec(args[at]) {
            Err(_) => Seq::empty(),
            Ok(Some(ArgumentView::InputFile(path))) => seq![path] + inputs_from(args, at + 1),
            Ok(_) => inputs_from(args, at + 1),
        }
    }
}

/// Whether the input that is named as number `seen`, counted from 0, was
/// found on disk. One that nothing was said of was not.
pub open spec fn found(exists: Seq<bool>, seen: int) -> bool {
    0 <= seen < exists.len() && exists[seen]
}

/// What the arguments from position `at` on make of `st`, where `seen`
/// inputs were named before; or the first argument that is refused.
pub open spec fn parse_from(
    st: ArgiesView,
    seen: int,
    args: Seq<Seq<char>>,
    exists: Seq<bool>,
    at: int,
) -> Result<ArgiesView, ArgumentError>
    decreases args.len() - at,
{
    if at < 0 || at >= args.len() {
        if st.input_file is None {
            Err(ArgumentError { index: args.len() as usize, kind: ArgumentErrorKind::NoInput })
        } else {
            Ok(st)
        }
    } else {
        match read_spec(args[at]) {
            Err(kind) => Err(ArgumentError { index: at as usize, kind }),
            Ok(None) => parse_from(st, seen, args, exists, at + 1),
            Ok(Some(ArgumentView::InputFile(path))) => if found(exists, seen) {
                parse_from(st.with(ArgumentView::InputFile(path)), seen + 1, args, exists, at + 1)
            } else {
                Err(ArgumentError { index: at as usize, kind: ArgumentErrorKind::InputMissing })
            },
            Ok(Some(a)) => parse_from(st.with(a), seen, args, exists, at + 1),
        }
    }
}

/// What a command line says, where `exists` tells of each input that it
/// names, in order, whether it is on disk.
pub open spec fn parse_spec(args: Seq<Seq<char>>, exists: Seq<bool>) -> Result<
    ArgiesView,
    ArgumentError,
> {
    parse_from(ArgiesView::fresh(), 0, args, exists, 0)
}

/// Reads `s` as a decimal number of the machine's word size.
fn parse_usize(s: &str) -> (r: Option<usize>)
    ensures
        match r {
            Some(v) => parse_unsigned(s@, usize::MAX as nat) == Some(v as nat),
            None => parse_unsigned(s@, usize::MAX as nat) is None,
        },
{
    match parse_u64(s) {
        Some(v) => {
            if v <= usize::MAX as u64 {
                Some(v as usize)
            } else {
                None
            }
        },
        None => None,
    }
}

impl Argument {
    /// Reads one argument: what it says, `None` where it says nothing, or
    /// why its number cannot be read.
    pub fn read(arg: &str) -> (r: Result<Option<Argument>, ArgumentErrorKind>)
        ensures
            match r {
                Ok(Some(a)) => read_spec(arg@) == Ok::<Option<ArgumentView>, ArgumentErrorKind>(
                    Some(a@),
                ),
                Ok(None) => read_spec(arg@) == Ok::<Option<ArgumentView>, ArgumentErrorKind>(None),
                Err(e) => read_spec(arg@) == Err::<Option<ArgumentView>, ArgumentErrorKind>(e),
            },
    {
        let (lhs, rhs) = match split_once(arg, '=') {
            Some(parts) => parts,
            None => {
                return Ok(None);
            },
        };
        let key = to_ascii_lowercase(lhs);
        let value = to_ascii_lowercase(rhs);
        if same(key.as_str(), "if") {
            Ok(Some(Argument::InputFile(value)))
        } else if same(key.as_str(), "of") {
            Ok(Some(Argument::OutputFile(value)))
        } else if same(key.as_str(), "bs") {
            match parse_usize(value.as_str()) {
                Some(n) => Ok(Some(Argument::BlockSize(n))),
                None => Err(ArgumentErrorKind::InvalidBlockSize),
            }
        } else if same(key.as_str(), "count") {
            match parse_usize(value.as_str()) {
                Some(n) => Ok(Some(Argument::BlockCount(n))),
                None => Err(ArgumentErrorKind::InvalidBlockCount),
            }
        } else {
            Ok(None)
        }
    }

    /// The inputs that a command line names, in order, up to the first
    /// argument that cannot be read: the paths to look for on disk.
    pub fn inputs(args: &Vec<String>) -> (r: Vec<String>)
        ensures
            texts(r@) == inputs_from(texts(args@), 0),
    {
        let ghost all = texts(args@);
        let mut paths: Vec<String> = Vec::new();
        let mut i: usize = 0;
        assert(texts(paths@) =~= Seq::empty());
        while i < args.len()
            invariant
                i <= args.len(),
                all == texts(args@),
                inputs_from(all, 0) == texts(paths@) + inputs_from(all, i as int),
            decreases args.len() - i,
        {
            assert(all[i as int] == args[i as int]@);
            let ghost before = texts(paths@);
            match Argument::read(args[i].as_str()) {
                Err(_) => {
                    assert(inputs_from(all, i as int) =~= Seq::empty());
                    assert(before + Seq::<Seq<char>>::empty() =~= before);
                    return paths;
                },
                Ok(Some(Argument::InputFile(path))) => {
                    paths.push(path);
                    assert(texts(paths@) =~= before.push(path@));
                    assert(before + (seq![path@] + inputs_from(all, i + 1)) =~= before.push(path@)
                        + inputs_from(all, i + 1));
                },
                Ok(_) => {},
            }
            i += 1;
        }
        assert(texts(paths@) + Seq::<Seq<char>>::empty() =~= texts(paths@));
        paths
    }

    /// Reads a command line. `exists` tells of each input that the command
    /// line names, in the order of [`Argument::inputs`], whether it is on
    /// disk; an input that `exists` does not reach counts as not found.
    pub fn parse(args: &Vec<String>, exists: &Vec<bool>) -> (r: Result<Argies, ArgumentError>)
        ensures
            match r {
                Ok(a) => parse_spec(texts(args@), exists@) == Ok::<ArgiesView, ArgumentError>(a@),
                Err(e) => parse_spec(texts(args@), exists@) == Err::<ArgiesView, ArgumentError>(e),
            },
    {
        let ghost all = texts(args@);
        let mut parsed = Argies::default();
        let mut seen: usize = 0;
        let mut i: usize = 0;
        while i < args.len()
            invariant
                i <= args.len(),
                seen <= i,
                all == texts(args@),
                parse_spec(all, exists@) == parse_from(
                    parsed@,
                    seen as int,
                    all,
                    exists@,
                    i as int,
                ),
            decreases args.len() - i,
        {
            assert(all[i as int] == args[i as int]@);
            match Argument::read(args[i].as_str()) {
                Err(kind) => {
                    return Err(ArgumentError { index: i, kind });
                },
                Ok(None) => {},
                Ok(Some(a)) => {
                    let names_input = match &a {
                        Argument::InputFile(_) => true,
                        _ => false,
                    };
                    if names_input {
                        if !(seen < exists.len() && exists[seen]) {
                            return Err(
                                ArgumentError { index: i, kind: ArgumentErrorKind::InputMissing },
                            );
                        }
                        seen += 1;
                    }
                    parsed.apply(a);
                },
            }
            i += 1;
        }
        if parsed.input_file.is_none() {
            return Err(ArgumentError { index: i, kind: ArgumentErrorKind::NoInput });
        }
        Ok(parsed)
    }
}

} // verus!
