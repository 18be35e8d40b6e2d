//! Operations and the command line that describes them.
//!
//! A command line is a list of `key=value` arguments. The token `--` ends one
//! operation and starts the next:
//!
//! ```text
//! if=boot.img of=/dev/sda1 of=/dev/sdb1 -- if=stdout.log os=localhost:9000 redir=1
//! ```

use crate::text::{
    parse_u64, parse_unsigned, same, split_once, split_once_spec, texts, trim, trim_spec,
};
use vstd::prelude::*;

verus! {

/// Where the blocks of an operation go.
#[derive(Clone, Debug, PartialEq, Eq)]
pub enum Output {
    File(String),
    Socket(String, u16),
    Http { method: String, url: String },
}

pub enum OutputView {
    File(Seq<char>),
    Socket(Seq<char>, u16),
    Http { method: Seq<char>, url: Seq<char> },
}

impl View for Output {
    type V = OutputView;

    open spec fn view(&self) -> OutputView {
        match *self {
            Output::File(path) => OutputView::File(path@),
            Output::Socket(host, port) => OutputView::Socket(host@, port),
            Output::Http { method, url } => OutputView::Http { method: method@, url: url@ },
        }
    }
}

/// The views of a list of outputs, in order.
pub open spec fn output_views(outputs: Seq<Output>) -> Seq<OutputView> {
    Seq::new(outputs.len(), |i: int| outputs[i]@)
}

/// One unit of work: an input, the outputs that receive its blocks, and how
/// the input is cut into blocks.
#[derive(Clone, Debug, PartialEq, Eq)]
pub struct Operation {
    /// Path to the input file
    pub input_file: String,
    /// The outputs
    pub outputs: Vec<Output>,
    /// Bytes per block (1024 unless set)
    pub block_size: u64,
    /// Number of blocks to copy; 0 copies the whole input
    pub count: u64,
    /// True if the input is still being written to, such as a log
    pub is_redirected: bool,
}

pub struct OperationView {
    pub input_file: Seq<char>,
    pub outputs: Seq<OutputView>,
    pub block_size: u64,
    pub count: u64,
    pub is_redirected: bool,
}

impl OperationView {
    /// What an operation must satisfy to be run: an output to write to and a
    /// block that can hold something. (That the outputs can be counted in a
    /// machine word holds of every operation in memory.)
    pub open spec fn valid(self) -> bool {
        0 < self.outputs.len() <= usize::MAX && self.block_size > 0
    }
}

impl View for Operation {
    type V = OperationView;

    open spec fn view(&self) -> OperationView {
        OperationView {
            input_file: self.input_file@,
            outputs: output_views(self.outputs@),
            block_size: self.block_size,
            count: self.count,
            is_redirected: self.is_redirected,
        }
    }
}

impl Operation {
    /// Whether the operation can be run.
    pub fn is_valid(&self) -> (r: bool)
        ensures
            r == self@.valid(),
    {
        self.outputs.len() > 0 && self.block_size > 0
    }
}

/// Why a builder does not describe an operation.
#[derive(Clone, Copy, Debug, PartialEq, Eq, Structural)]
pub enum BuildError {
    MissingInput,
    NoOutputs,
    InvalidBlockSize,
}

impl BuildError {
    /// The error in words.
    pub fn message(&self) -> (r: &'static str)
        ensures
            r@ == match *self {
                BuildError::MissingInput => "Operation is missing input file"@,
                BuildError::NoOutputs => "Operation must have at least one output"@,
                BuildError::InvalidBlockSize => "Operation must have a block size above zero"@,
            },
    {
        match self {
            BuildError::MissingInput => "Operation is missing input file",
            BuildError::NoOutputs => "Operation must have at least one output",
            BuildError::InvalidBlockSize => "Operation must have a block size above zero",
        }
    }
}

/// Collects the fields of an operation one by one; `build` checks them.
#[derive(Clone, Debug, PartialEq, Eq)]
pub struct OperationBuilder {
    pub input_file: Option<String>,
    pub outputs: Vec<Output>,
    pub is_redirected: bool,
    pub block_size: u64,
    pub count: u64,
}

pub struct BuilderView {
    pub input_file: Option<Seq<char>>,
    pub outputs: Seq<OutputView>,
    pub is_redirected: bool,
    pub block_size: u64,
    pub count: u64,
}

impl BuilderView {
    /// The builder that nothing was given to yet.
    pub open spec fn fresh() -> BuilderView {
        BuilderView {
            input_file: None,
            outputs: Seq::empty(),
            is_redirected: false,
            block_size: 1024,
            count: 0,
        }
    }

    pub open spec fn with_input(self, path: Seq<char>) -> BuilderView {
        BuilderView { input_file: Some(path), ..self }
    }

    pub open spec fn with_output(self, output: OutputView) -> BuilderView {
        BuilderView { outputs: self.outputs.push(output), ..self }
    }

    pub open spec fn with_block_size(self, bs: u64) -> BuilderView {
        BuilderView { block_size: bs, ..self }
    }

    pub open spec fn with_count(self, c: u64) -> BuilderView {
        BuilderView { count: c, ..self }
    }

    pub open spec fn toggled(self) -> BuilderView {
        BuilderView { is_redirected: !self.is_redirected, ..self }
    }

    /// The operation that the builder describes, or what it lacks. The input
    /// is looked at first, then the outputs, then the block size.
    pub open spec fn build(self) -> Result<OperationView, BuildError> {
        if self.input_file is None {
            Err(BuildError::MissingInput)
        } else if self.outputs.len() == 0 {
            Err(BuildError::NoOutputs)
        } else if self.block_size == 0 {
            Err(BuildError::InvalidBlockSize)
        } else {
            Ok(
                OperationView {
                    input_file: self.input_file->0,
                    outputs: self.outputs,
                    block_size: self.block_size,
                    count: self.count,
                    is_redirected: self.is_redirected,
                },
            )
        }
    }
}

impl View for OperationBuilder {
    type V = BuilderView;

    open spec fn view(&self) -> BuilderView {
        BuilderView {
            input_file: match self.input_file {
                Some(path) => Some(path@),
                None => None,
            },
            outputs: output_views(self.outputs@),
            is_redirected: self.is_redirected,
            block_size: self.block_size,
            count: self.count,
        }
    }
}

impl Default for OperationBuilder {
    fn default() -> (r: Self)
        ensures
            r@ == BuilderView::fresh(),
    {
        let r = Self {
            input_file: None,
            outputs: Vec::new(),
            is_redirected: false,
            block_size: 1024,
            count: 0,
        };
        assert(output_views(r.outputs@) =~= Seq::empty());
        r
    }
}

impl OperationBuilder {
    /// Sets the input, in place of any given before.
    pub fn input_file(&mut self, path: String)
        ensures
            final(self)@ == old(self)@.with_input(path@),
    {
        self.input_file = Some(path);
    }

    /// Adds a file to the outputs.
    pub fn output_file(&mut self, path: String)
        ensures
            final(self)@ == old(self)@.with_output(OutputView::File(path@)),
    {
        self.push_output(Output::File(path));
    }

    /// Adds a socket to the outputs.
    pub fn output_socket(&mut self, hostname: &str, port: u16)
        ensures
            final(self)@ == old(self)@.with_output(OutputView::Socket(hostname@, port)),
    {
        self.push_output(Output::Socket(hostname.to_owned(), port));
    }

    /// Adds an HTTP endpoint to the outputs.
    pub fn output_http(&mut self, method: &str, url: &str)
        ensures
            final(self)@ == old(self)@.with_output(
                OutputView::Http { method: method@, url: url@ },
            ),
    {
        self.push_output(Output::Http { method: method.to_owned(), url: url.to_owned() });
    }

    /// Sets the bytes per block.
    pub fn block_size(&mut self, bs: u64)
        ensures
            final(self)@ == old(self)@.with_block_size(bs),
    {
        self.block_size = bs;
    }

    /// Sets the number of blocks to copy.
    pub fn count(&mut self, c: u64)
        ensures
            final(self)@ == old(self)@.with_count(c),
    {
        self.count = c;
    }

    /// Switches the mark of an input that is still being written to.
    pub fn is_redirected(&mut self)
        ensures
            final(self)@ == old(self)@.toggled(),
    {
        self.is_redirected = !self.is_redirected;
    }

    /// The operation, if the builder has an input, an output and a block
    /// size above zero.
    pub fn build(self) -> (r: Result<Operation, BuildError>)
        ensures
            match r {
                Ok(op) => self@.build() == Ok::<OperationView, BuildError>(op@) && op@.valid(),
                Err(e) => self@.build() == Err::<OperationView, BuildError>(e),
            },
    {
        let input_file = match self.input_file {
            Some(path) => path,
            None => {
                return Err(BuildError::MissingInput);
            },
        };
        if self.outputs.len() == 0 {
            return Err(BuildError::NoOutputs);
        }
        if self.block_size == 0 {
            return Err(BuildError::InvalidBlockSize);
        }
        Ok(
            Operation {
                input_file,
                outputs: self.outputs,
                block_size: self.block_size,
                is_redirected: self.is_redirected,
                count: self.count,
            },
        )
    }

    fn push_output(&mut self, output: Output)
        ensures
            final(self)@ == old(self)@.with_output(output@),
    {
        self.outputs.push(output);
        assert(output_views(self.outputs@) =~= output_views(old(self).outputs@).push(output@));
    }
}

/// What is wrong with an argument.
#[derive(Clone, Copy, Debug, PartialEq, Eq, Structural)]
pub enum ParseErrorKind {
    /// The argument is not of the form `key=value`.
    ExpectedKeyValue,
    /// The value of `os` is not of the form `hostname:port`.
    ExpectedHostPort,
    /// The port of `os` is not a number of 16 bits.
    InvalidPort,
    /// The value of `ohttp` is not of the form `METHOD;URL`.
    ExpectedMethodUrl,
    /// The value of `bs` is not a number of 64 bits.
    InvalidBlockSize,
    /// The value of `count` is not a number of 64 bits.
    InvalidCount,
    /// The key is none of those that an operation has.
    UnexpectedKey,
    /// The operation that ends here cannot be built.
    Build(BuildError),
}

/// An argument that was refused: its position in the list and the reason.
/// An operation that ends with the list has the list's length as position.
#[derive(Clone, Copy, Debug, PartialEq, Eq, Structural)]
pub struct ParseError {
    pub index: usize,
    pub kind: ParseErrorKind,
}

/// The operations of a command line, in the order in which they were given.
#[derive(Clone, Debug, PartialEq, Eq)]
pub struct Arguments {
    pub operations: Vec<Operation>,
}

/// The views of a list of operations, in order.
pub open spec fn operation_views(operations: Seq<Operation>) -> Seq<OperationView> {
    Seq::new(operations.len(), |i: int| operations[i]@)
}

impl View for Arguments {
    type V = Seq<OperationView>;

    open spec fn view(&self) -> Seq<OperationView> {
        operation_views(self.operations@)
    }
}

impl Default for Arguments {
    fn default() -> (r: Self)
        ensures
            r@ == Seq::<OperationView>::empty(),
    {
        let r = Self { operations: Vec::new() };
        assert(operation_views(r.operations@) =~= Seq::empty());
        r
    }
}

/// What the arguments read so far amount to: the operations that were closed
/// and the one that is being described.
pub struct ParseState {
    pub operations: Seq<OperationView>,
    pub builder: BuilderView,
}

/// The builder after `key=value`.
pub open spec fn assign(b: BuilderView, key: Seq<char>, value: Seq<char>) -> Result<
    BuilderView,
    ParseErrorKind,
> {
    if key == "if"@ {
        Ok(b.with_input(value))
    } else if key == "of"@ {
        Ok(b.with_output(OutputView::File(value)))
    } else if key == "os"@ {
        match split_once_spec(value, ':') {
            None => Err(ParseErrorKind::ExpectedHostPort),
            Some((host, port)) => match parse_unsigned(port, u16::MAX as nat) {
                None => Err(ParseErrorKind::InvalidPort),
                Some(p) => Ok(
                    b.with_output(
                        OutputView::Socket(
                            if host.len() == 0 {
                                "localhost"@
                            } else {
                                host
                            },
                            p as u16,
                        ),
                    ),
                ),
            },
        }
    } else if key == "ohttp"@ {
        match split_once_spec(value, ';') {
            None => Err(ParseErrorKind::ExpectedMethodUrl),
            Some((method, url)) => Ok(b.with_output(OutputView::Http { method, url })),
        }
    } else if key == "bs"@ {
        match parse_unsigned(value, u64::MAX as nat) {
            None => Err(ParseErrorKind::InvalidBlockSize),
            Some(bs) => Ok(b.with_block_size(bs as u64)),
        }
    } else if key == "count"@ || key == "c"@ {
        match parse_unsigned(value, u64::MAX as nat) {
            None => Err(ParseErrorKind::InvalidCount),
            Some(c) => Ok(b.with_count(c as u64)),
        }
    } else if key == "redir"@ {
        Ok(b.toggled())
    } else {
        Err(ParseErrorKind::UnexpectedKey)
    }
}

/// The state after one more argument: `--` closes the operation that is being
/// described, anything else is a `key=value` for it, with white space round
/// the key and round the value dropped.
pub open spec fn accept(st: ParseState, arg: Seq<char>) -> Result<ParseState, ParseErrorKind> {
    if arg == "--"@ {
        match st.builder.build() {
            Ok(op) => Ok(
                ParseState { operations: st.operations.push(op), builder: BuilderView::fresh() },
            ),
            Err(e) => Err(ParseErrorKind::Build(e)),
        }
    } else {
        match split_once_spec(arg, '=') {
            None => Err(ParseErrorKind::ExpectedKeyValue),
            Some((key, value)) => match assign(st.builder, trim_spec(key), trim_spec(value)) {
                Ok(b) => Ok(ParseState { operations: st.operations, builder: b }),
                Err(e) => Err(e),
            },
        }
    }
}

/// The operations at the end of the list. What is being described then is
/// one more operation if it has an input, and is dropped if it has none.
pub open spec fn finish(st: ParseState, at: int) -> Result<Seq<OperationView>, ParseError> {
    if st.builder.input_file is Some {
        match st.builder.build() {
            Ok(op) => Ok(st.operations.push(op)),
            Err(e) => Err(ParseError { index: at as usize, kind: ParseErrorKind::Build(e) }),
        }
    } else {
        Ok(st.operations)
    }
}

/// The operations that the arguments from position `at` on lead to, from the
/// state `st`; or the first argument that is refused.
pub open spec fn parse_from(st: ParseState, args: Seq<Seq<char>>, at: int) -> Result<
    Seq<OperationView>,
    ParseError,
>
    decreases args.len() - at,
{
    if at < 0 || at >= args.len() {
        finish(st, args.len() as int)
    } else {
        match accept(st, args[at]) {
            Ok(next) => parse_from(next, args, at + 1),
            Err(kind) => Err(ParseError { index: at as usize, kind }),
        }
    }
}

/// The operations that a command line describes.
pub open spec fn parse_spec(args: Seq<Seq<char>>) -> Result<Seq<OperationView>, ParseError> {
    parse_from(ParseState { operations: Seq::empty(), builder: BuilderView::fresh() }, args, 0)
}

/// Gives the builder the value of one key.
fn assign_to(op: &mut OperationBuilder, key: &str, value: &str) -> (r: Result<(), ParseErrorKind>)
    ensures
        match r {
            Ok(()) => assign(old(op)@, key@, value@) == Ok::<BuilderView, ParseErrorKind>(
                final(op)@,
            ),
            Err(e) => assign(old(op)@, key@, value@) == Err::<BuilderView, ParseErrorKind>(e)
                && final(op)@ == old(op)@,
        },
{
    if same(key, "if") {
        op.input_file(value.to_owned());
        Ok(())
    } else if same(key, "of") {
        op.output_file(value.to_owned());
        Ok(())
    } else if same(key, "os") {
        match split_once(value, ':') {
            None => Err(ParseErrorKind::ExpectedHostPort),
            Some((host, port_str)) => {
                let port: u16 = match parse_u64(port_str) {
                    Some(p) => {
                        if p > 0xffff {
                            return Err(ParseErrorKind::InvalidPort);
                        }
                        p as u16
                    },
                    None => {
                        return Err(ParseErrorKind::InvalidPort);
                    },
                };
                if host.unicode_len() == 0 {
                    op.output_socket("localhost", port);
                } else {
                    op.output_socket(host, port);
                }
                Ok(())
            },
        }
    } else if same(key, "ohttp") {
        match split_once(value, ';') {
            None => Err(ParseErrorKind::ExpectedMethodUrl),
            Some((method, url)) => {
                op.output_http(method, url);
                Ok(())
            },
        }
    } else if same(key, "bs") {
        match parse_u64(value) {
            None => Err(ParseErrorKind::InvalidBlockSize),
            Some(bs) => {
                op.block_size(bs);
                Ok(())
            },
        }
    } else if same(key, "count") || same(key, "c") {
        match parse_u64(value) {
            None => Err(ParseErrorKind::InvalidCount),
            Some(c) => {
                op.count(c);
                Ok(())
            },
        }
    } else if same(key, "redir") {
        op.is_redirected();
        Ok(())
    } else {
        Err(ParseErrorKind::UnexpectedKey)
    }
}

impl Arguments {
    /// Reads a command line: the operations that it describes, in order, or
    /// the first argument that is refused.
    pub fn parse(args: &Vec<String>) -> (r: Result<Self, ParseError>)
        ensures
            match r {
                Ok(a) => parse_spec(texts(args@)) == Ok::<Seq<OperationView>, ParseError>(a@)
                    && forall|i: int| 0 <= i < a@.len() ==> (#[trigger] a@[i]).valid(),
                Err(e) => parse_spec(texts(args@)) == Err::<Seq<OperationView>, ParseError>(e),
            },
    {
        let ghost all = texts(args@);
        let mut parsed = Arguments::default();
        let mut op = OperationBuilder::default();
        let mut i: usize = 0;
        while i < args.len()
            invariant
                i <= args.len(),
                all == texts(args@),
                parse_spec(all) == parse_from(
                    ParseState { operations: parsed@, builder: op@ },
                    all,
                    i as int,
                ),
                forall|k: int| 0 <= k < parsed@.len() ==> (#[trigger] parsed@[k]).valid(),
            decreases args.len() - i,
        {
            let arg: &str = args[i].as_str();
            assert(all[i as int] == arg@);
            if same(arg, "--") {
                match op.build() {
                    Ok(this) => {
                        parsed.push_operation(this);
                    },
                    Err(e) => {
                        return Err(ParseError { index: i, kind: ParseErrorKind::Build(e) });
                    },
                }
                op = OperationBuilder::default();
            } else {
                match split_once(arg, '=') {
                    None => {
                        return Err(ParseError { index: i, kind: ParseErrorKind::ExpectedKeyValue });
                    },
                    Some((lhs, rhs)) => {
                        match assign_to(&mut op, trim(lhs), trim(rhs)) {
                            Ok(()) => {},
                            Err(kind) => {
                                return Err(ParseError { index: i, kind });
                            },
                        }
                    },
                }
            }
            i += 1;
        }
        if op.input_file.is_some() {
            match op.build() {
                Ok(this) => {
                    parsed.push_operation(this);
                },
                Err(e) => {
                    return Err(ParseError { index: i, kind: ParseErrorKind::Build(e) });
                },
            }
        }
        Ok(parsed)
    }

    fn push_operation(&mut self, op: Operation)
        ensures
            final(self)@ == old(self)@.push(op@),
    {
        self.operations.push(op);
        assert(operation_views(self.operations@) =~= operation_views(old(self).operations@).push(
            op@,
        ));
    }
}

} // verus!
