use vstd::prelude::*;
use vstd::string::StringExecFns;

verus! {

/// An address that an `@` instruction loads.
#[derive(Clone, Copy, Debug, PartialEq, Eq, Structural)]
pub enum Symbol {
    /// The stack pointer register.
    Sp,
    /// Register holding the base of the `local` segment.
    Lcl,
    /// Register holding the base of the `argument` segment.
    Arg,
    /// Register holding the base of the `this` segment.
    This,
    /// Register holding the base of the `that` segment.
    That,
    /// The general register `R<n>`.
    Register(u16),
    /// The storage cell of `static <n>`.
    Static(u16),
    /// A literal number.
    Constant(u16),
    /// A jump target minted by the translator.
    Label(u64),
}

/// Registers that a computation stores into.
#[derive(Clone, Copy, Debug, PartialEq, Eq, Structural)]
pub enum Dest {
    A,
    D,
    M,
    AM,
}

/// The computations the translator emits.
#[derive(Clone, Copy, Debug, PartialEq, Eq, Structural)]
pub enum Comp {
    Zero,
    MinusOne,
    D,
    A,
    M,
    MPlusOne,
    MMinusOne,
    AMinusOne,
    DPlusA,
    DPlusM,
    MMinusD,
    DAndM,
    DOrM,
    NegM,
    NotM,
}

/// Jump conditions, tested on the computed value.
#[derive(Clone, Copy, Debug, PartialEq, Eq, Structural)]
pub enum Cond {
    Jeq,
    Jlt,
    Jgt,
    Jmp,
}

/// One assembly instruction.
#[derive(Clone, Copy, Debug, PartialEq, Eq, Structural)]
pub enum Instr {
    /// `@symbol`
    At(Symbol),
    /// `dest=comp`
    Assign(Dest, Comp),
    /// `comp;jump`
    Jump(Comp, Cond),
    /// `(label)`
    Label(u64),
}

/// One output line: an instruction or a comment carrying text of type `T`.
#[derive(Debug)]
pub enum Line<T> {
    Code(Instr),
    Comment(T),
}

impl Line<String> {
    pub open spec fn view(&self) -> Line<Seq<char>> {
        match self {
            Line::Code(i) => Line::Code(*i),
            Line::Comment(t) => Line::Comment(t@),
        }
    }
}

/// The view of a list of output lines.
pub open spec fn lines_view(v: Seq<Line<String>>) -> Seq<Line<Seq<char>>> {
    v.map_values(|l: Line<String>| l.view())
}

pub open spec fn digit_char(d: int) -> char {
    seq!['0', '1', '2', '3', '4', '5', '6', '7', '8', '9'][d]
}

/// Decimal notation of a natural number, without leading zeros.
pub open spec fn decimal(n: nat) -> Seq<char>
    decreases n,
{
    if n < 10 {
        seq![digit_char(n as int)]
    } else {
        decimal(n / 10) + seq![digit_char((n % 10) as int)]
    }
}

pub open spec fn label_name(n: nat) -> Seq<char> {
    "CMP."@ + decimal(n)
}

pub open spec fn symbol_text(s: Symbol) -> Seq<char> {
    match s {
        Symbol::Sp => "SP"@,
        Symbol::Lcl => "LCL"@,
        Symbol::Arg => "ARG"@,
        Symbol::This => "THIS"@,
        Symbol::That => "THAT"@,
        Symbol::Register(n) => "R"@ + decimal(n as nat),
        Symbol::Static(n) => "S"@ + decimal(n as nat),
        Symbol::Constant(n) => decimal(n as nat),
        Symbol::Label(n) => label_name(n as nat),
    }
}

pub open spec fn dest_text(d: Dest) -> Seq<char> {
    match d {
        Dest::A => "A"@,
        Dest::D => "D"@,
        Dest::M => "M"@,
        Dest::AM => "AM"@,
    }
}

pub open spec fn comp_text(c: Comp) -> Seq<char> {
    match c {
        Comp::Zero => "0"@,
        Comp::MinusOne => "-1"@,
        Comp::D => "D"@,
        Comp::A => "A"@,
        Comp::M => "M"@,
        Comp::MPlusOne => "M+1"@,
        Comp::MMinusOne => "M-1"@,
        Comp::AMinusOne => "A-1"@,
        Comp::DPlusA => "D+A"@,
        Comp::DPlusM => "D+M"@,
        Comp::MMinusD => "M-D"@,
        Comp::DAndM => "D&M"@,
        Comp::DOrM => "D|M"@,
        Comp::NegM => "-M"@,
        Comp::NotM => "!M"@,
    }
}

pub open spec fn cond_text(c: Cond) -> Seq<char> {
    match c {
        Cond::Jeq => "JEQ"@,
        Cond::Jlt => "JLT"@,
        Cond::Jgt => "JGT"@,
        Cond::Jmp => "JMP"@,
    }
}

/// The text of one output line.
pub open spec fn line_text(l: Line<Seq<char>>) -> Seq<char> {
    match l {
        Line::Comment(t) => "// "@ + t,
        Line::Code(Instr::At(s)) => "@"@ + symbol_text(s),
        Line::Code(Instr::Assign(d, c)) => dest_text(d) + "="@ + comp_text(c),
        Line::Code(Instr::Jump(c, j)) => comp_text(c) + ";"@ + cond_text(j),
        Line::Code(Instr::Label(n)) => "("@ + label_name(n as nat) + ")"@,
    }
}

fn digit_str(d: u64) -> (r: &'static str)
    requires
        d < 10,
    ensures
        r@ == seq![digit_char(d as int)],
{
    proof {
        reveal_strlit("0");
        reveal_strlit("1");
        reveal_strlit("2");
        reveal_strlit("3");
        reveal_strlit("4");
        reveal_strlit("5");
        reveal_strlit("6");
        reveal_strlit("7");
        reveal_strlit("8");
        reveal_strlit("9");
    }
    match d {
        0 => "0",
        1 => "1",
        2 => "2",
        3 => "3",
        4 => "4",
        5 => "5",
        6 => "6",
        7 => "7",
        8 => "8",
        _ => "9",
    }
}

/// Appends the decimal notation of `n`.
fn append_decimal(s: &mut String, n: u64)
    ensures
        final(s)@ == old(s)@ + decimal(n as nat),
    decreases n,
{
    if n < 10 {
        s.append(digit_str(n));
    } else {
        append_decimal(s, n / 10);
        s.append(digit_str(n % 10));
        assert(final(s)@ =~= old(s)@ + decimal(n as nat));
    }
}

fn append_symbol(s: &mut String, sym: Symbol)
    ensures
        final(s)@ == old(s)@ + symbol_text(sym),
{
    match sym {
        Symbol::Sp => s.append("SP"),
        Symbol::Lcl => s.append("LCL"),
        Symbol::Arg => s.append("ARG"),
        Symbol::This => s.append("THIS"),
        Symbol::That => s.append("THAT"),
        Symbol::Register(n) => {
            s.append("R");
            append_decimal(s, n as u64);
            assert(final(s)@ =~= old(s)@ + symbol_text(sym));
        },
        Symbol::Static(n) => {
            s.append("S");
            append_decimal(s, n as u64);
            assert(final(s)@ =~= old(s)@ + symbol_text(sym));
        },
        Symbol::Constant(n) => append_decimal(s, n as u64),
        Symbol::Label(n) => {
            s.append("CMP.");
            append_decimal(s, n);
            assert(final(s)@ =~= old(s)@ + symbol_text(sym));
        },
    }
}

fn dest_str(d: Dest) -> (r: &'static str)
    ensures
        r@ == dest_text(d),
{
    match d {
        Dest::A => "A",
        Dest::D => "D",
        Dest::M => "M",
        Dest::AM => "AM",
    }
}

fn comp_str(c: Comp) -> (r: &'static str)
    ensures
        r@ == comp_text(c),
{
    match c {
        Comp::Zero => "0",
        Comp::MinusOne => "-1",
        Comp::D => "D",
        Comp::A => "A",
        Comp::M => "M",
        Comp::MPlusOne => "M+1",
        Comp::MMinusOne => "M-1",
        Comp::AMinusOne => "A-1",
        Comp::DPlusA => "D+A",
        Comp::DPlusM => "D+M",
        Comp::MMinusD => "M-D",
        Comp::DAndM => "D&M",
        Comp::DOrM => "D|M",
        Comp::NegM => "-M",
        Comp::NotM => "!M",
    }
}

fn cond_str(c: Cond) -> (r: &'static str)
    ensures
        r@ == cond_text(c),
{
    match c {
        Cond::Jeq => "JEQ",
        Cond::Jlt => "JLT",
        Cond::Jgt => "JGT",
        Cond::Jmp => "JMP",
    }
}

/// The text of one output line.
pub fn render(l: &Line<String>) -> (r: String)
    ensures
        r@ == line_text(l.view()),
{
    let mut s = String::new();
    match l {
        Line::Comment(t) => {
            s.append("// ");
            s.append(t.as_str());
        },
        Line::Code(Instr::At(sym)) => {
            s.append("@");
            append_symbol(&mut s, *sym);
        },
        Line::Code(Instr::Assign(d, c)) => {
            s.append(dest_str(*d));
            s.append("=");
            s.append(comp_str(*c));
        },
        Line::Code(Instr::Jump(c, j)) => {
            s.append(comp_str(*c));
            s.append(";");
            s.append(cond_str(*j));
        },
        Line::Code(Instr::Label(n)) => {
            s.append("(");
            append_symbol(&mut s, Symbol::Label(*n));
            s.append(")");
        },
    }
    assert(s@ =~= line_text(l.view()));
    s
}

} // verus!
