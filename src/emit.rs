use vstd::prelude::*;
use crate::hack::{Comp, Cond, Dest, Instr, Line, Symbol, line_text, lines_view, render};
use crate::syntax::{Command, ErrorKind, Segment};

verus! {

/// Pushes the D register: store it at the stack pointer, then advance the pointer.
pub open spec fn push_d_code() -> Seq<Instr> {
    seq![
        Instr::At(Symbol::Sp),
        Instr::Assign(Dest::M, Comp::MPlusOne),
        Instr::Assign(Dest::A, Comp::MMinusOne),
        Instr::Assign(Dest::M, Comp::D),
    ]
}

/// Pops into the D register: retreat the stack pointer, then read the cell it points to.
pub open spec fn pop_d_code() -> Seq<Instr> {
    seq![
        Instr::At(Symbol::Sp),
        Instr::Assign(Dest::AM, Comp::MMinusOne),
        Instr::Assign(Dest::D, Comp::M),
    ]
}

/// The register holding the base address of a relocatable segment.
pub open spec fn base_register(seg: Segment) -> Option<Symbol> {
    match seg {
        Segment::Local => Some(Symbol::Lcl),
        Segment::Argument => Some(Symbol::Arg),
        Segment::This => Some(Symbol::This),
        Segment::That => Some(Symbol::That),
        _ => None,
    }
}

/// The fixed cell of `pointer`, `temp` and `static` entries.
pub open spec fn fixed_cell(seg: Segment, index: u16) -> Option<Symbol> {
    match seg {
        Segment::Pointer => Some(Symbol::Register((3 + index) as u16)),
        Segment::Temp => Some(Symbol::Register((5 + index) as u16)),
        Segment::Static => Some(Symbol::Static(index)),
        _ => None,
    }
}

/// Register that holds a pop's target address while the value is fetched.
pub open spec fn scratch() -> Symbol {
    Symbol::Register(13)
}

pub open spec fn push_code(seg: Segment, index: u16) -> Seq<Instr> {
    if seg == Segment::Constant {
        seq![Instr::At(Symbol::Constant(index)), Instr::Assign(Dest::D, Comp::A)] + push_d_code()
    } else if base_register(seg) is Some {
        seq![
            Instr::At(base_register(seg)->0),
            Instr::Assign(Dest::D, Comp::M),
            Instr::At(Symbol::Constant(index)),
            Instr::Assign(Dest::A, Comp::DPlusA),
            Instr::Assign(Dest::D, Comp::M),
        ] + push_d_code()
    } else {
        seq![Instr::At(fixed_cell(seg, index)->0), Instr::Assign(Dest::D, Comp::M)]
            + push_d_code()
    }
}

/// The code of a pop; the target address of a relocatable segment is computed
/// and saved in the scratch register before the value is fetched.
pub open spec fn pop_code(seg: Segment, index: u16) -> Seq<Instr>
    recommends
        seg != Segment::Constant,
{
    if base_register(seg) is Some {
        seq![
            Instr::At(base_register(seg)->0),
            Instr::Assign(Dest::D, Comp::M),
            Instr::At(Symbol::Constant(index)),
            Instr::Assign(Dest::D, Comp::DPlusA),
            Instr::At(scratch()),
            Instr::Assign(Dest::M, Comp::D),
        ] + pop_d_code() + seq![
            Instr::At(scratch()),
            Instr::Assign(Dest::A, Comp::M),
            Instr::Assign(Dest::M, Comp::D),
        ]
    } else {
        pop_d_code() + seq![Instr::At(fixed_cell(seg, index)->0), Instr::Assign(Dest::M, Comp::D)]
    }
}

/// Replaces the two topmost entries by `comp` applied to them (D holds the top one).
pub open spec fn binary_code(comp: Comp) -> Seq<Instr> {
    seq![
        Instr::At(Symbol::Sp),
        Instr::Assign(Dest::AM, Comp::MMinusOne),
        Instr::Assign(Dest::D, Comp::M),
        Instr::Assign(Dest::A, Comp::AMinusOne),
        Instr::Assign(Dest::M, comp),
    ]
}

/// Replaces the topmost entry by `comp` applied to it.
pub open spec fn unary_code(comp: Comp) -> Seq<Instr> {
    seq![
        Instr::At(Symbol::Sp),
        Instr::Assign(Dest::A, Comp::MMinusOne),
        Instr::Assign(Dest::M, comp),
    ]
}

/// Replaces the two topmost entries by true (-1) when `left - right` meets `cond`,
/// else by false (0), branching to the labels `label` and `label + 1`.
pub open spec fn compare_code(cond: Cond, label: u64) -> Seq<Instr> {
    seq![
        Instr::At(Symbol::Sp),
        Instr::Assign(Dest::AM, Comp::MMinusOne),
        Instr::Assign(Dest::D, Comp::M),
        Instr::Assign(Dest::A, Comp::AMinusOne),
        Instr::Assign(Dest::D, Comp::MMinusD),
        Instr::At(Symbol::Label(label)),
        Instr::Jump(Comp::D, cond),
        Instr::At(Symbol::Sp),
        Instr::Assign(Dest::A, Comp::MMinusOne),
        Instr::Assign(Dest::M, Comp::Zero),
        Instr::At(Symbol::Label((label + 1) as u64)),
        Instr::Jump(Comp::Zero, Cond::Jmp),
        Instr::Label(label),
        Instr::At(Symbol::Sp),
        Instr::Assign(Dest::A, Comp::MMinusOne),
        Instr::Assign(Dest::M, Comp::MinusOne),
        Instr::Label((label + 1) as u64),
    ]
}

/// Number of labels an instruction's translation mints.
pub open spec fn labels_needed(c: Command) -> nat {
    match c {
        Command::Eq | Command::Lt | Command::Gt => 2,
        _ => 0,
    }
}

/// The translation of one instruction, minting labels from `label` on.
pub open spec fn code_of(c: Command, label: u64) -> Seq<Instr> {
    match c {
        Command::Push { segment, index } => push_code(segment, index),
        Command::Pop { segment, index } => pop_code(segment, index),
        Command::Add => binary_code(Comp::DPlusM),
        Command::Sub => binary_code(Comp::MMinusD),
        Command::And => binary_code(Comp::DAndM),
        Command::Or => binary_code(Comp::DOrM),
        Command::Neg => unary_code(Comp::NegM),
        Command::Not => unary_code(Comp::NotM),
        Command::Eq => compare_code(Cond::Jeq, label),
        Command::Lt => compare_code(Cond::Jlt, label),
        Command::Gt => compare_code(Cond::Jgt, label),
    }
}

/// Instructions as output lines.
pub open spec fn as_lines(s: Seq<Instr>) -> Seq<Line<Seq<char>>> {
    s.map_values(|i: Instr| Line::Code(i))
}

/// Whether the label counter, at `next`, can serve the instruction.
pub open spec fn labels_available(c: Command, next: u64) -> bool {
    next + labels_needed(c) <= u64::MAX
}

/// The label a line declares, if it declares one.
pub open spec fn declared_label(l: Line<Seq<char>>) -> Option<u64> {
    match l {
        Line::Code(Instr::Label(a)) => Some(a),
        _ => None,
    }
}

/// Every label declared in `o` lies in `lo .. hi`.
pub open spec fn labels_within(o: Seq<Line<Seq<char>>>, lo: int, hi: int) -> bool {
    forall|k: int|
        0 <= k < o.len() && declared_label(#[trigger] o[k]) is Some ==> lo <= declared_label(o[k])->0 < hi
}

/// No label is declared twice in `o`.
pub open spec fn labels_unique(o: Seq<Line<Seq<char>>>) -> bool {
    forall|i: int, j: int|
        0 <= i < j < o.len() && declared_label(#[trigger] o[i]) is Some
            && declared_label(#[trigger] o[j]) is Some ==> declared_label(o[i]) != declared_label(o[j])
}

/// The labels declared by the code of `c` are `label .. label + labels_needed(c)`, each once.
pub proof fn lemma_code_labels(c: Command, label: u64)
    requires
        label + labels_needed(c) <= u64::MAX,
    ensures
        labels_within(as_lines(code_of(c, label)), label as int, label + labels_needed(c)),
        labels_unique(as_lines(code_of(c, label))),
{
    let o = as_lines(code_of(c, label));
    assert forall|k: int| 0 <= k < o.len() && declared_label(#[trigger] o[k]) is Some implies label
        <= declared_label(o[k])->0 < label + labels_needed(c) by {
        assert(o[k] == Line::<Seq<char>>::Code(code_of(c, label)[k]));
    }
    assert forall|i: int, j: int|
        0 <= i < j < o.len() && declared_label(#[trigger] o[i]) is Some
            && declared_label(#[trigger] o[j]) is Some implies declared_label(o[i]) != declared_label(
        o[j],
    ) by {
        assert(o[i] == Line::<Seq<char>>::Code(code_of(c, label)[i]));
        assert(o[j] == Line::<Seq<char>>::Code(code_of(c, label)[j]));
    }
}

/// Appending lines whose labels lie above all earlier ones keeps labels unique.
pub proof fn lemma_append_labels(o: Seq<Line<Seq<char>>>, code: Seq<Line<Seq<char>>>, lo: int, hi: int)
    requires
        labels_within(o, 0, lo),
        labels_unique(o),
        labels_within(code, lo, hi),
        labels_unique(code),
        lo <= hi,
    ensures
        labels_within(o + code, 0, hi),
        labels_unique(o + code),
{
    let o2 = o + code;
    assert forall|k: int| 0 <= k < o2.len() && declared_label(#[trigger] o2[k]) is Some implies 0
        <= declared_label(o2[k])->0 < hi by {
        if k < o.len() {
            assert(o2[k] == o[k]);
        } else {
            assert(o2[k] == code[k - o.len()]);
        }
    }
    assert forall|i: int, j: int|
        0 <= i < j < o2.len() && declared_label(#[trigger] o2[i]) is Some
            && declared_label(#[trigger] o2[j]) is Some implies declared_label(o2[i])
        != declared_label(o2[j]) by {
        if j < o.len() {
            assert(o2[i] == o[i] && o2[j] == o[j]);
        } else if i < o.len() {
            assert(o2[i] == o[i] && o2[j] == code[j - o.len()]);
        } else {
            assert(o2[i] == code[i - o.len()] && o2[j] == code[j - o.len()]);
        }
    }
}

/// What `write_command` refuses: a pop into `constant`, or a comparison when
/// the label counter has no two labels left.
pub open spec fn command_error(c: Command, next: u64) -> Option<ErrorKind> {
    match c {
        Command::Pop { segment: Segment::Constant, index } => Some(ErrorKind::UnknownSegment),
        _ => if !labels_available(c, next) {
            Some(ErrorKind::LabelOverflow)
        } else {
            None
        },
    }
}

/// Accumulates the translated program and hands out fresh labels.
pub struct CodeWriter {
    lines: Vec<Line<String>>,
    next_label: u64,
}

impl CodeWriter {
    /// The lines written so far.
    pub closed spec fn written(&self) -> Seq<Line<Seq<char>>> {
        lines_view(self.lines@)
    }

    /// The next label to hand out; all labels below it have been used.
    pub closed spec fn label_counter(&self) -> u64 {
        self.next_label
    }

    /// Every label written so far lies below the counter, and none is declared twice.
    pub open spec fn labels_fresh(&self) -> bool {
        labels_within(self.written(), 0, self.label_counter() as int) && labels_unique(
            self.written(),
        )
    }

    pub fn new() -> (r: Self)
        ensures
            r.written() == Seq::<Line<Seq<char>>>::empty(),
            r.label_counter() == 0,
            r.labels_fresh(),
    {
        let r = CodeWriter { lines: Vec::new(), next_label: 0 };
        assert(r.written() =~= Seq::<Line<Seq<char>>>::empty());
        r
    }

    /// A fresh label: the counter's value, which then advances. Fails, changing
    /// nothing, when the counter has reached its largest value.
    pub fn get_next_label(&mut self) -> (r: Result<u64, ErrorKind>)
        ensures
            old(self).label_counter() == u64::MAX ==> r == Err::<u64, ErrorKind>(
                ErrorKind::LabelOverflow,
            ) && *final(self) == *old(self),
            old(self).label_counter() < u64::MAX ==> r == Ok::<u64, ErrorKind>(
                old(self).label_counter(),
            ) && final(self).label_counter() == old(self).label_counter() + 1
                && final(self).written() == old(self).written(),
    {
        if self.next_label == u64::MAX {
            return Err(ErrorKind::LabelOverflow);
        }
        let r = self.next_label;
        self.next_label = self.next_label + 1;
        Ok(r)
    }

    /// The next label that will be handed out.
    pub fn label_counter_value(&self) -> (r: u64)
        ensures
            r == self.label_counter(),
    {
        self.next_label
    }

    fn write(&mut self, i: Instr)
        ensures
            final(self).written() == old(self).written().push(Line::Code(i)),
            final(self).label_counter() == old(self).label_counter(),
    {
        self.lines.push(Line::Code(i));
        assert(final(self).written() =~= old(self).written().push(Line::Code(i)));
    }

    fn write_all(&mut self, code: &[Instr])
        ensures
            final(self).written() == old(self).written() + as_lines(code@),
            final(self).label_counter() == old(self).label_counter(),
    {
        let mut k: usize = 0;
        while k < code.len()
            invariant
                k <= code@.len(),
                self.written() == old(self).written() + as_lines(code@.take(k as int)),
                self.label_counter() == old(self).label_counter(),
            decreases code@.len() - k,
        {
            self.write(code[k]);
            k = k + 1;
            assert(as_lines(code@.take(k as int)) =~= as_lines(code@.take(k - 1)).push(
                Line::Code(code@[k - 1]),
            ));
            assert(self.written() =~= old(self).written() + as_lines(code@.take(k as int)));
        }
        assert(code@.take(k as int) =~= code@);
    }

    /// Writes the original instruction as a comment line.
    pub fn write_comment(&mut self, text: String)
        ensures
            final(self).written() == old(self).written().push(Line::Comment(text@)),
            final(self).label_counter() == old(self).label_counter(),
    {
        let ghost t = text@;
        self.lines.push(Line::Comment(text));
        assert(final(self).written() =~= old(self).written().push(Line::Comment(t)));
    }

    /// Writes `push segment index`.
    pub fn write_push(&mut self, segment: Segment, index: u16)
        requires
            index <= crate::syntax::MAX_INDEX,
        ensures
            final(self).written() == old(self).written() + as_lines(push_code(segment, index)),
            final(self).label_counter() == old(self).label_counter(),
    {
        match segment {
            Segment::Constant => self.write_all(
                &[
                    Instr::At(Symbol::Constant(index)),
                    Instr::Assign(Dest::D, Comp::A),
                    Instr::At(Symbol::Sp),
                    Instr::Assign(Dest::M, Comp::MPlusOne),
                    Instr::Assign(Dest::A, Comp::MMinusOne),
                    Instr::Assign(Dest::M, Comp::D),
                ],
            ),
            Segment::Local | Segment::Argument | Segment::This | Segment::That => {
                let base = match segment {
                    Segment::Local => Symbol::Lcl,
                    Segment::Argument => Symbol::Arg,
                    Segment::This => Symbol::This,
                    _ => Symbol::That,
                };
                self.write_all(
                    &[
                        Instr::At(base),
                        Instr::Assign(Dest::D, Comp::M),
                        Instr::At(Symbol::Constant(index)),
                        Instr::Assign(Dest::A, Comp::DPlusA),
                        Instr::Assign(Dest::D, Comp::M),
                        Instr::At(Symbol::Sp),
                        Instr::Assign(Dest::M, Comp::MPlusOne),
                        Instr::Assign(Dest::A, Comp::MMinusOne),
                        Instr::Assign(Dest::M, Comp::D),
                    ],
                );
            },
            _ => {
                let cell = fixed_register(segment, index);
                self.write_all(
                    &[
                        Instr::At(cell),
                        Instr::Assign(Dest::D, Comp::M),
                        Instr::At(Symbol::Sp),
                        Instr::Assign(Dest::M, Comp::MPlusOne),
                        Instr::Assign(Dest::A, Comp::MMinusOne),
                        Instr::Assign(Dest::M, Comp::D),
                    ],
                );
            },
        }
        assert(old(self).written() + as_lines(push_code(segment, index)) =~= final(self).written());
    }

    /// Writes `pop segment index`; `constant` cannot be popped into, and
    /// fails with `UnknownSegment`, writing nothing.
    pub fn write_pop(&mut self, segment: Segment, index: u16) -> (r: Result<(), ErrorKind>)
        requires
            index <= crate::syntax::MAX_INDEX,
        ensures
            segment == Segment::Constant ==> r == Err::<(), ErrorKind>(ErrorKind::UnknownSegment)
                && *final(self) == *old(self),
            segment != Segment::Constant ==> r is Ok && final(self).written() == old(self).written()
                + as_lines(pop_code(segment, index)) && final(self).label_counter()
                == old(self).label_counter(),
    {
        match segment {
            Segment::Constant => {
                return Err(ErrorKind::UnknownSegment);
            },
            Segment::Local | Segment::Argument | Segment::This | Segment::That => {
                let base = match segment {
                    Segment::Local => Symbol::Lcl,
                    Segment::Argument => Symbol::Arg,
                    Segment::This => Symbol::This,
                    _ => Symbol::That,
                };
                self.write_all(
                    &[
                        Instr::At(base),
                        Instr::Assign(Dest::D, Comp::M),
                        Instr::At(Symbol::Constant(index)),
                        Instr::Assign(Dest::D, Comp::DPlusA),
                        Instr::At(Symbol::Register(13)),
                        Instr::Assign(Dest::M, Comp::D),
                        Instr::At(Symbol::Sp),
                        Instr::Assign(Dest::AM, Comp::MMinusOne),
                        Instr::Assign(Dest::D, Comp::M),
                        Instr::At(Symbol::Register(13)),
                        Instr::Assign(Dest::A, Comp::M),
                        Instr::Assign(Dest::M, Comp::D),
                    ],
                );
            },
            _ => {
                let cell = fixed_register(segment, index);
                self.write_all(
                    &[
                        Instr::At(Symbol::Sp),
                        Instr::Assign(Dest::AM, Comp::MMinusOne),
                        Instr::Assign(Dest::D, Comp::M),
                        Instr::At(cell),
                        Instr::Assign(Dest::M, Comp::D),
                    ],
                );
            },
        }
        assert(old(self).written() + as_lines(pop_code(segment, index)) =~= final(self).written());
        Ok(())
    }

    fn write_binary(&mut self, comp: Comp)
        ensures
            final(self).written() == old(self).written() + as_lines(binary_code(comp)),
            final(self).label_counter() == old(self).label_counter(),
    {
        self.write_all(
            &[
                Instr::At(Symbol::Sp),
                Instr::Assign(Dest::AM, Comp::MMinusOne),
                Instr::Assign(Dest::D, Comp::M),
                Instr::Assign(Dest::A, Comp::AMinusOne),
                Instr::Assign(Dest::M, comp),
            ],
        );
        assert(old(self).written() + as_lines(binary_code(comp)) =~= final(self).written());
    }

    fn write_unary(&mut self, comp: Comp)
        ensures
            final(self).written() == old(self).written() + as_lines(unary_code(comp)),
            final(self).label_counter() == old(self).label_counter(),
    {
        self.write_all(
            &[
                Instr::At(Symbol::Sp),
                Instr::Assign(Dest::A, Comp::MMinusOne),
                Instr::Assign(Dest::M, comp),
            ],
        );
        assert(old(self).written() + as_lines(unary_code(comp)) =~= final(self).written());
    }

    /// Writes a comparison, minting its two labels; fails with `LabelOverflow`,
    /// writing nothing, when the counter has no two labels left.
    fn write_compare(&mut self, cond: Cond) -> (r: Result<(), ErrorKind>)
        requires
            cond != Cond::Jmp,
        ensures
            old(self).label_counter() + 2 > u64::MAX ==> r == Err::<(), ErrorKind>(
                ErrorKind::LabelOverflow,
            ) && *final(self) == *old(self),
            old(self).label_counter() + 2 <= u64::MAX ==> r is Ok && final(self).written()
                == old(self).written() + as_lines(compare_code(cond, old(self).label_counter()))
                && final(self).label_counter() == old(self).label_counter() + 2,
            old(self).labels_fresh() ==> final(self).labels_fresh(),
    {
        if self.next_label > u64::MAX - 2 {
            return Err(ErrorKind::LabelOverflow);
        }
        let is_true = match self.get_next_label() {
            Ok(l) => l,
            Err(e) => return Err(e),
        };
        let end = match self.get_next_label() {
            Ok(l) => l,
            Err(e) => return Err(e),
        };
        self.write_all(
            &[
                Instr::At(Symbol::Sp),
                Instr::Assign(Dest::AM, Comp::MMinusOne),
                Instr::Assign(Dest::D, Comp::M),
                Instr::Assign(Dest::A, Comp::AMinusOne),
                Instr::Assign(Dest::D, Comp::MMinusD),
                Instr::At(Symbol::Label(is_true)),
                Instr::Jump(Comp::D, cond),
                Instr::At(Symbol::Sp),
                Instr::Assign(Dest::A, Comp::MMinusOne),
                Instr::Assign(Dest::M, Comp::Zero),
                Instr::At(Symbol::Label(end)),
                Instr::Jump(Comp::Zero, Cond::Jmp),
                Instr::Label(is_true),
                Instr::At(Symbol::Sp),
                Instr::Assign(Dest::A, Comp::MMinusOne),
                Instr::Assign(Dest::M, Comp::MinusOne),
                Instr::Label(end),
            ],
        );
        assert(old(self).written() + as_lines(compare_code(cond, old(self).label_counter()))
            =~= final(self).written());
        proof {
            let cmd = if cond == Cond::Jeq {
                Command::Eq
            } else if cond == Cond::Jlt {
                Command::Lt
            } else {
                Command::Gt
            };
            if old(self).labels_fresh() {
                assert(code_of(cmd, is_true) == compare_code(cond, is_true));
                lemma_code_labels(cmd, is_true);
                lemma_append_labels(
                    old(self).written(),
                    as_lines(compare_code(cond, is_true)),
                    is_true as int,
                    is_true + 2,
                );
            }
        }
        Ok(())
    }

    pub fn write_add(&mut self)
        ensures
            final(self).written() == old(self).written() + as_lines(code_of(Command::Add, 0)),
            final(self).label_counter() == old(self).label_counter(),
    {
        self.write_binary(Comp::DPlusM);
    }

    pub fn write_sub(&mut self)
        ensures
            final(self).written() == old(self).written() + as_lines(code_of(Command::Sub, 0)),
            final(self).label_counter() == old(self).label_counter(),
    {
        self.write_binary(Comp::MMinusD);
    }

    pub fn write_and(&mut self)
        ensures
            final(self).written() == old(self).written() + as_lines(code_of(Command::And, 0)),
            final(self).label_counter() == old(self).label_counter(),
    {
        self.write_binary(Comp::DAndM);
    }

    pub fn write_or(&mut self)
        ensures
            final(self).written() == old(self).written() + as_lines(code_of(Command::Or, 0)),
            final(self).label_counter() == old(self).label_counter(),
    {
        self.write_binary(Comp::DOrM);
    }

    pub fn write_neg(&mut self)
        ensures
            final(self).written() == old(self).written() + as_lines(code_of(Command::Neg, 0)),
            final(self).label_counter() == old(self).label_counter(),
    {
        self.write_unary(Comp::NegM);
    }

    pub fn write_not(&mut self)
        ensures
            final(self).written() == old(self).written() + as_lines(code_of(Command::Not, 0)),
            final(self).label_counter() == old(self).label_counter(),
    {
        self.write_unary(Comp::NotM);
    }

    pub fn write_eq(&mut self) -> (r: Result<(), ErrorKind>)
        ensures
            old(self).label_counter() + 2 > u64::MAX ==> r == Err::<(), ErrorKind>(
                ErrorKind::LabelOverflow,
            ) && *final(self) == *old(self),
            old(self).label_counter() + 2 <= u64::MAX ==> r is Ok && final(self).written()
                == old(self).written() + as_lines(code_of(Command::Eq, old(self).label_counter()))
                && final(self).label_counter() == old(self).label_counter() + 2,
            old(self).labels_fresh() ==> final(self).labels_fresh(),
    {
        self.write_compare(Cond::Jeq)
    }

    /// Less-than; `left - right` is tested for sign, so a difference that
    /// overflows the word width gives the wrong answer.
    pub fn write_lt(&mut self) -> (r: Result<(), ErrorKind>)
        ensures
            old(self).label_counter() + 2 > u64::MAX ==> r == Err::<(), ErrorKind>(
                ErrorKind::LabelOverflow,
            ) && *final(self) == *old(self),
            old(self).label_counter() + 2 <= u64::MAX ==> r is Ok && final(self).written()
                == old(self).written() + as_lines(code_of(Command::Lt, old(self).label_counter()))
                && final(self).label_counter() == old(self).label_counter() + 2,
            old(self).labels_fresh() ==> final(self).labels_fresh(),
    {
        self.write_compare(Cond::Jlt)
    }

    /// Greater-than; `left - right` is tested for sign, so a difference that
    /// overflows the word width gives the wrong answer.
    pub fn write_gt(&mut self) -> (r: Result<(), ErrorKind>)
        ensures
            old(self).label_counter() + 2 > u64::MAX ==> r == Err::<(), ErrorKind>(
                ErrorKind::LabelOverflow,
            ) && *final(self) == *old(self),
            old(self).label_counter() + 2 <= u64::MAX ==> r is Ok && final(self).written()
                == old(self).written() + as_lines(code_of(Command::Gt, old(self).label_counter()))
                && final(self).label_counter() == old(self).label_counter() + 2,
            old(self).labels_fresh() ==> final(self).labels_fresh(),
    {
        self.write_compare(Cond::Jgt)
    }

    /// Writes the translation of one instruction; fails, writing nothing, on a
    /// pop into `constant` or when the label counter cannot supply the labels it needs.
    pub fn write_command(&mut self, c: Command) -> (r: Result<(), ErrorKind>)
        requires
            valid_command(c),
        ensures
            match command_error(c, old(self).label_counter()) {
                Some(e) => r == Err::<(), ErrorKind>(e) && *final(self) == *old(self),
                None => r is Ok && final(self).written() == old(self).written() + as_lines(
                    code_of(c, old(self).label_counter()),
                ) && final(self).label_counter() == old(self).label_counter() + labels_needed(c),
            },
            old(self).labels_fresh() ==> final(self).labels_fresh(),
    {
        let ghost before = *self;
        match c {
            Command::Push { segment, index } => self.write_push(segment, index),
            Command::Pop { segment, index } => {
                return self.write_pop(segment, index);
            },
            Command::Add => self.write_add(),
            Command::Sub => self.write_sub(),
            Command::And => self.write_and(),
            Command::Or => self.write_or(),
            Command::Neg => self.write_neg(),
            Command::Not => self.write_not(),
            Command::Eq => {
                return self.write_eq();
            },
            Command::Lt => {
                return self.write_lt();
            },
            Command::Gt => {
                return self.write_gt();
            },
        }
        proof {
            if before.labels_fresh() {
                lemma_code_labels(c, before.label_counter());
                lemma_append_labels(
                    before.written(),
                    as_lines(code_of(c, before.label_counter())),
                    before.label_counter() as int,
                    before.label_counter() as int,
                );
            }
        }
        Ok(())
    }

    /// The text of every line written so far, in order.
    pub fn text(&self) -> (r: Vec<String>)
        ensures
            r@.map_values(|s: String| s@) == self.written().map_values(
                |l: Line<Seq<char>>| line_text(l),
            ),
    {
        let mut out: Vec<String> = Vec::new();
        let mut k: usize = 0;
        while k < self.lines.len()
            invariant
                k <= self.lines@.len(),
                out@.map_values(|s: String| s@) == self.written().take(k as int).map_values(
                    |l: Line<Seq<char>>| line_text(l),
                ),
            decreases self.lines@.len() - k,
        {
            let ghost before = out@;
            let s = render(&self.lines[k]);
            out.push(s);
            assert(self.written()[k as int] == self.lines@[k as int].view());
            assert(out@.map_values(|s: String| s@) =~= before.map_values(|s: String| s@).push(s@));
            assert(self.written().take(k + 1).map_values(|l: Line<Seq<char>>| line_text(l))
                =~= self.written().take(k as int).map_values(|l: Line<Seq<char>>| line_text(l)).push(
                line_text(self.written()[k as int]),
            ));
            k = k + 1;
        }
        assert(self.written().take(k as int) =~= self.written());
        out
    }
}

/// An instruction whose index is in range.
pub open spec fn valid_command(c: Command) -> bool {
    match c {
        Command::Push { segment, index } => index <= crate::syntax::MAX_INDEX,
        Command::Pop { segment, index } => index <= crate::syntax::MAX_INDEX,
        _ => true,
    }
}

/// The fixed cell of a `pointer`, `temp` or `static` entry.
fn fixed_register(segment: Segment, index: u16) -> (r: Symbol)
    requires
        index <= crate::syntax::MAX_INDEX,
        fixed_cell(segment, index) is Some,
    ensures
        r == fixed_cell(segment, index)->0,
{
    match segment {
        Segment::Pointer => Symbol::Register(3 + index),
        Segment::Temp => Symbol::Register(5 + index),
        _ => Symbol::Static(index),
    }
}

} // verus!
