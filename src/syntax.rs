use vstd::prelude::*;
use vstd::string::StrSliceExecFns;

verus! {

/// Largest index an instruction may carry: the largest constant one address load can hold.
pub const MAX_INDEX: u16 = 32767;

/// A named region of the virtual machine's memory.
#[derive(Clone, Copy, Debug, PartialEq, Eq, Structural)]
pub enum Segment {
    Constant,
    Local,
    Argument,
    This,
    That,
    Pointer,
    Temp,
    Static,
}

/// One parsed virtual-machine instruction.
#[derive(Clone, Copy, Debug, PartialEq, Eq, Structural)]
pub enum Command {
    Push { segment: Segment, index: u16 },
    Pop { segment: Segment, index: u16 },
    Add,
    Sub,
    Neg,
    Eq,
    Gt,
    Lt,
    And,
    Or,
    Not,
}

/// Why a translation was abandoned.
#[derive(Clone, Copy, Debug, PartialEq, Eq, Structural)]
pub enum ErrorKind {
    SourceUnreadable,
    UnknownOpcode,
    ArityMismatch,
    InvalidIndex,
    UnknownSegment,
    LabelOverflow,
}

pub open spec fn is_digit(c: char) -> bool {
    '0' <= c && c <= '9'
}

pub open spec fn digit_value(c: char) -> int {
    (c as int) - ('0' as int)
}

pub open spec fn is_numeral(s: Seq<char>) -> bool {
    s.len() > 0 && forall|i: int| 0 <= i < s.len() ==> is_digit(#[trigger] s[i])
}

/// Value of a string of decimal digits.
pub open spec fn numeral_value(s: Seq<char>) -> int
    decreases s.len(),
{
    if s.len() == 0 {
        0
    } else {
        numeral_value(s.drop_last()) * 10 + digit_value(s.last())
    }
}

/// The index that a token denotes, if it is a decimal numeral no larger than `MAX_INDEX`.
pub open spec fn index_of(s: Seq<char>) -> Option<u16> {
    if is_numeral(s) && 0 <= numeral_value(s) <= MAX_INDEX {
        Some(numeral_value(s) as u16)
    } else {
        None
    }
}

pub open spec fn segment_of(t: Seq<char>) -> Option<Segment> {
    if t == "constant"@ {
        Some(Segment::Constant)
    } else if t == "local"@ {
        Some(Segment::Local)
    } else if t == "argument"@ {
        Some(Segment::Argument)
    } else if t == "this"@ {
        Some(Segment::This)
    } else if t == "that"@ {
        Some(Segment::That)
    } else if t == "pointer"@ {
        Some(Segment::Pointer)
    } else if t == "temp"@ {
        Some(Segment::Temp)
    } else if t == "static"@ {
        Some(Segment::Static)
    } else {
        None
    }
}

/// The instruction named by an opcode that takes no arguments.
pub open spec fn operation_of(t: Seq<char>) -> Option<Command> {
    if t == "add"@ {
        Some(Command::Add)
    } else if t == "sub"@ {
        Some(Command::Sub)
    } else if t == "neg"@ {
        Some(Command::Neg)
    } else if t == "eq"@ {
        Some(Command::Eq)
    } else if t == "gt"@ {
        Some(Command::Gt)
    } else if t == "lt"@ {
        Some(Command::Lt)
    } else if t == "and"@ {
        Some(Command::And)
    } else if t == "or"@ {
        Some(Command::Or)
    } else if t == "not"@ {
        Some(Command::Not)
    } else {
        None
    }
}

/// The instruction that a nonempty token list denotes, or why it denotes none.
/// The opcode is checked first, then the number of arguments, the segment and the index.
pub open spec fn command_of(toks: Seq<Seq<char>>) -> Result<Command, ErrorKind>
    recommends
        toks.len() > 0,
{
    let op = toks[0];
    if op == "push"@ || op == "pop"@ {
        if toks.len() != 3 {
            Err(ErrorKind::ArityMismatch)
        } else {
            match segment_of(toks[1]) {
                None => Err(ErrorKind::UnknownSegment),
                Some(segment) => if op == "pop"@ && segment == Segment::Constant {
                    Err(ErrorKind::UnknownSegment)
                } else {
                    match index_of(toks[2]) {
                        None => Err(ErrorKind::InvalidIndex),
                        Some(index) => if op == "push"@ {
                            Ok(Command::Push { segment, index })
                        } else {
                            Ok(Command::Pop { segment, index })
                        },
                    }
                },
            }
        }
    } else {
        match operation_of(op) {
            None => Err(ErrorKind::UnknownOpcode),
            Some(c) => if toks.len() != 1 {
                Err(ErrorKind::ArityMismatch)
            } else {
                Ok(c)
            },
        }
    }
}

/// A successfully parsed instruction is well formed.
pub proof fn lemma_parsed_valid(toks: Seq<Seq<char>>)
    requires
        toks.len() > 0,
        command_of(toks) is Ok,
    ensures
        crate::emit::valid_command(command_of(toks)->Ok_0),
{
}

/// Whether a token spells out the given word.
fn token_is(t: &Vec<char>, word: &str) -> (r: bool)
    ensures
        r == (t@ == word@),
{
    let n = word.unicode_len();
    if t.len() != n {
        return false;
    }
    let mut i: usize = 0;
    while i < n
        invariant
            n == word@.len(),
            n == t@.len(),
            i <= n,
            forall|j: int| 0 <= j < i ==> t@[j] == word@[j],
        decreases n - i,
    {
        if t[i] != word.get_char(i) {
            return false;
        }
        i = i + 1;
    }
    assert(t@ =~= word@);
    true
}

pub fn parse_segment(t: &Vec<char>) -> (r: Option<Segment>)
    ensures
        r == segment_of(t@),
{
    if token_is(t, "constant") {
        Some(Segment::Constant)
    } else if token_is(t, "local") {
        Some(Segment::Local)
    } else if token_is(t, "argument") {
        Some(Segment::Argument)
    } else if token_is(t, "this") {
        Some(Segment::This)
    } else if token_is(t, "that") {
        Some(Segment::That)
    } else if token_is(t, "pointer") {
        Some(Segment::Pointer)
    } else if token_is(t, "temp") {
        Some(Segment::Temp)
    } else if token_is(t, "static") {
        Some(Segment::Static)
    } else {
        None
    }
}

fn parse_operation(t: &Vec<char>) -> (r: Option<Command>)
    ensures
        r == operation_of(t@),
{
    if token_is(t, "add") {
        Some(Command::Add)
    } else if token_is(t, "sub") {
        Some(Command::Sub)
    } else if token_is(t, "neg") {
        Some(Command::Neg)
    } else if token_is(t, "eq") {
        Some(Command::Eq)
    } else if token_is(t, "gt") {
        Some(Command::Gt)
    } else if token_is(t, "lt") {
        Some(Command::Lt)
    } else if token_is(t, "and") {
        Some(Command::And)
    } else if token_is(t, "or") {
        Some(Command::Or)
    } else if token_is(t, "not") {
        Some(Command::Not)
    } else {
        None
    }
}

/// Reads a token as an index.
pub fn parse_index(t: &Vec<char>) -> (r: Option<u16>)
    ensures
        r == index_of(t@),
{
    let n = t.len();
    if n == 0 {
        return None;
    }
    let mut value: u32 = 0;
    let mut too_big = false;
    let mut i: usize = 0;
    while i < n
        invariant
            n == t@.len(),
            i <= n,
            forall|j: int| 0 <= j < i ==> is_digit(#[trigger] t@[j]),
            numeral_value(t@.take(i as int)) >= 0,
            !too_big ==> value == numeral_value(t@.take(i as int)) && value <= MAX_INDEX,
            too_big ==> numeral_value(t@.take(i as int)) > MAX_INDEX,
        decreases n - i,
    {
        let c = t[i];
        if c < '0' || c > '9' {
            assert(!is_digit(t@[i as int]));
            return None;
        }
        let d: u32 = (c as u32) - ('0' as u32);
        assert(t@.take(i + 1).drop_last() =~= t@.take(i as int));
        proof {
            let p = numeral_value(t@.take(i as int));
            assert(numeral_value(t@.take(i + 1)) == p * 10 + d);
            if too_big {
                assert(p * 10 + d > MAX_INDEX) by (nonlinear_arith)
                    requires p > MAX_INDEX, d >= 0;
            }
        }
        if !too_big {
            value = value * 10 + d;
            if value > MAX_INDEX as u32 {
                too_big = true;
            }
        }
        i = i + 1;
    }
    assert(t@.take(n as int) =~= t@);
    if too_big {
        None
    } else {
        Some(value as u16)
    }
}

/// Turns the tokens of a nonempty line into an instruction.
pub fn parse_command(toks: &Vec<Vec<char>>) -> (r: Result<Command, ErrorKind>)
    requires
        toks@.len() > 0,
    ensures
        r == command_of(toks@.map_values(|t: Vec<char>| t@)),
{
    let ghost ts = toks@.map_values(|t: Vec<char>| t@);
    assert(ts[0] == toks@[0]@);
    let is_push = token_is(&toks[0], "push");
    let is_pop = token_is(&toks[0], "pop");
    if is_push || is_pop {
        if toks.len() != 3 {
            return Err(ErrorKind::ArityMismatch);
        }
        assert(ts[1] == toks@[1]@ && ts[2] == toks@[2]@);
        match parse_segment(&toks[1]) {
            None => Err(ErrorKind::UnknownSegment),
            Some(segment) => {
                if is_pop && segment == Segment::Constant {
                    return Err(ErrorKind::UnknownSegment);
                }
                match parse_index(&toks[2]) {
                    None => Err(ErrorKind::InvalidIndex),
                    Some(index) => if is_push {
                        Ok(Command::Push { segment, index })
                    } else {
                        Ok(Command::Pop { segment, index })
                    },
                }
            },
        }
    } else {
        match parse_operation(&toks[0]) {
            None => Err(ErrorKind::UnknownOpcode),
            Some(c) => if toks.len() != 1 {
                Err(ErrorKind::ArityMismatch)
            } else {
                Ok(c)
            },
        }
    }
}

} // verus!
