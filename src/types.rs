use serde_json::Value;
use vstd::prelude::*;
use vstd::string::StringExecFns;

verus! {

/// One step of a path, as a model.
pub enum Step {
    Key(Seq<char>),
    Index(nat),
}

/// One step of a path: an object member name or an array position.
#[derive(Debug, Clone)]
pub enum PathToken {
    Key(String),
    Index(usize),
}

impl View for PathToken {
    type V = Step;

    open spec fn view(&self) -> Step {
        match self {
            PathToken::Key(k) => Step::Key(k@),
            PathToken::Index(i) => Step::Index(*i as nat),
        }
    }
}

/// The model of a token sequence.
pub open spec fn steps_of(tokens: Seq<PathToken>) -> Seq<Step> {
    tokens.map_values(|t: PathToken| t@)
}

/// The character that delimits path segments.
#[derive(Debug, Clone, Copy, PartialEq, Eq, Structural)]
pub enum Separator {
    Dot,
    Slash,
    Custom(char),
}

/// The character a separator stands for.
pub open spec fn sep_char(s: Separator) -> char {
    match s {
        Separator::Dot => '.',
        Separator::Slash => '/',
        Separator::Custom(c) => c,
    }
}

impl Separator {
    pub fn as_char(&self) -> (r: char)
        ensures
            r == sep_char(*self),
    {
        match self {
            Separator::Dot => '.',
            Separator::Slash => '/',
            Separator::Custom(c) => *c,
        }
    }
}

/// What a query does to a document.
///
/// `Insert` writes the value at the path, creating containers and overwriting
/// whatever is in the way. `Merge` deep-merges a skeleton document holding the
/// value at the path. `Add`, `Remove`, `Replace` and `Test` are the RFC 6902
/// operations. `Auto` tries `Replace`, then `Add`, then `Insert`.
#[derive(Debug, Clone, Copy, PartialEq, Eq, Structural)]
pub enum Operation {
    Insert,
    Merge,
    Add,
    Remove,
    Replace,
    Test,
    Auto,
}

/// The operation that a prefix character selects, if any.
pub open spec fn op_of_char(c: char) -> Option<Operation> {
    if c == '>' {
        Some(Operation::Insert)
    } else if c == '~' {
        Some(Operation::Merge)
    } else if c == '+' {
        Some(Operation::Add)
    } else if c == '-' {
        Some(Operation::Remove)
    } else if c == '=' {
        Some(Operation::Replace)
    } else if c == '?' {
        Some(Operation::Test)
    } else {
        None
    }
}

/// The prefix character of an operation; `Auto` has none.
pub open spec fn char_of_op(op: Operation) -> Option<char> {
    match op {
        Operation::Insert => Some('>'),
        Operation::Merge => Some('~'),
        Operation::Add => Some('+'),
        Operation::Remove => Some('-'),
        Operation::Replace => Some('='),
        Operation::Test => Some('?'),
        Operation::Auto => None,
    }
}

/// The lower-case name of an operation.
pub open spec fn op_name(op: Operation) -> Seq<char> {
    match op {
        Operation::Insert => "insert"@,
        Operation::Merge => "merge"@,
        Operation::Add => "add"@,
        Operation::Remove => "remove"@,
        Operation::Replace => "replace"@,
        Operation::Test => "test"@,
        Operation::Auto => "auto"@,
    }
}

impl Operation {
    /// The six prefix characters, in the order `> ~ + - = ?`.
    pub fn operators() -> (r: Vec<char>)
        ensures
            r@ == seq!['>', '~', '+', '-', '=', '?'],
    {
        vec!['>', '~', '+', '-', '=', '?']
    }

    pub fn from_operator(op: char) -> (r: Option<Operation>)
        ensures
            r == op_of_char(op),
    {
        if op == '>' {
            Some(Operation::Insert)
        } else if op == '~' {
            Some(Operation::Merge)
        } else if op == '+' {
            Some(Operation::Add)
        } else if op == '-' {
            Some(Operation::Remove)
        } else if op == '=' {
            Some(Operation::Replace)
        } else if op == '?' {
            Some(Operation::Test)
        } else {
            None
        }
    }

    pub fn to_operator(&self) -> (r: Option<char>)
        ensures
            r == char_of_op(*self),
    {
        match self {
            Operation::Insert => Some('>'),
            Operation::Merge => Some('~'),
            Operation::Add => Some('+'),
            Operation::Remove => Some('-'),
            Operation::Replace => Some('='),
            Operation::Test => Some('?'),
            Operation::Auto => None,
        }
    }

    /// The lower-case name, as RFC 6902 writes the operation.
    pub fn to_string(&self) -> (r: String)
        ensures
            r@ == op_name(*self),
    {
        match self {
            Operation::Insert => String::from_str("insert"),
            Operation::Merge => String::from_str("merge"),
            Operation::Add => String::from_str("add"),
            Operation::Remove => String::from_str("remove"),
            Operation::Replace => String::from_str("replace"),
            Operation::Test => String::from_str("test"),
            Operation::Auto => String::from_str("auto"),
        }
    }
}

/// A parsed query: where, what and how.
#[derive(Debug, Clone)]
pub struct Jqesque {
    /// The path, outermost step first.
    pub tokens: Vec<PathToken>,
    /// The value to write; absent for `Remove`.
    pub value: Option<Value>,
    pub operation: Operation,
}

/// Why a query could not be parsed or applied.
#[derive(Debug)]
pub enum JqesqueError {
    /// The text does not follow the grammar.
    ParseError(String),
    /// The operation needs a value and the query has none.
    MissingValueError(Operation),
    /// The RFC 6902 patch could not be applied.
    PatchError(String),
    /// `Test` found another value at the path.
    TestFailedError { expected: Value, actual: Value },
    /// `Test` found nothing at the path.
    InvalidPathError(String),
}

} // verus!
