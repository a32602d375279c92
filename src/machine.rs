use vstd::prelude::*;
use crate::emit::{as_lines, base_register, code_of, compare_code, fixed_cell, labels_needed, pop_d_code, push_d_code};
use crate::hack::{Comp, Cond, Dest, Instr, Line, Symbol};
use crate::syntax::{Command, Segment};

verus! {

/// Number of distinct values of a machine word.
pub open spec fn word_range() -> int {
    65536
}

/// A word-sized value: the result reduced into `0 .. 65536`.
pub open spec fn wrap(x: int) -> int {
    x % word_range()
}

/// Registers and memory of the target machine; memory cells never written read as 0.
/// `target` is the label whose code address was last loaded into A.
pub struct Machine {
    pub a: int,
    pub d: int,
    pub ram: Map<int, int>,
    pub target: u64,
}

pub open spec fn read(ram: Map<int, int>, addr: int) -> int {
    if ram.contains_key(addr) {
        ram[addr]
    } else {
        0
    }
}

/// The address an `@` instruction loads. This model places `static <n>` at `16 + n`;
/// an assembler allocates such variables from 16 on in order of first use instead.
pub open spec fn address_of(s: Symbol) -> int {
    match s {
        Symbol::Sp => 0,
        Symbol::Lcl => 1,
        Symbol::Arg => 2,
        Symbol::This => 3,
        Symbol::That => 4,
        Symbol::Register(n) => n as int,
        Symbol::Static(n) => 16 + n,
        Symbol::Constant(n) => n as int,
        Symbol::Label(n) => 0,
    }
}

/// The arithmetic unit: the value of `c` given the A and D registers and the addressed cell.
pub open spec fn alu(c: Comp, a: int, d: int, mv: int) -> int {
    wrap(
        match c {
            Comp::Zero => 0,
            Comp::MinusOne => -1,
            Comp::D => d,
            Comp::A => a,
            Comp::M => mv,
            Comp::MPlusOne => mv + 1,
            Comp::MMinusOne => mv - 1,
            Comp::AMinusOne => a - 1,
            Comp::DPlusA => d + a,
            Comp::DPlusM => d + mv,
            Comp::MMinusD => mv - d,
            Comp::DAndM => ((d as u16) & (mv as u16)) as int,
            Comp::DOrM => ((d as u16) | (mv as u16)) as int,
            Comp::NegM => -mv,
            Comp::NotM => 65535 - mv,
        },
    )
}

pub open spec fn compute(m: Machine, c: Comp) -> int {
    alu(c, m.a, m.d, read(m.ram, m.a))
}

/// Effect of one line other than a jump; comments and label declarations do nothing.
pub open spec fn step(m: Machine, l: Line<Seq<char>>) -> Machine {
    match l {
        Line::Code(Instr::At(s)) => Machine {
            a: address_of(s),
            target: match s {
                Symbol::Label(n) => n,
                _ => m.target,
            },
            ..m
        },
        Line::Code(Instr::Assign(dest, c)) => {
            let v = compute(m, c);
            let ram = if dest == Dest::M || dest == Dest::AM {
                m.ram.insert(m.a, v)
            } else {
                m.ram
            };
            Machine {
                a: if dest == Dest::A || dest == Dest::AM {
                    v
                } else {
                    m.a
                },
                d: if dest == Dest::D {
                    v
                } else {
                    m.d
                },
                ram,
                target: m.target,
            }
        },
        _ => m,
    }
}

/// A computed word read as a signed number.
pub open spec fn signed(v: int) -> int {
    if v >= 32768 {
        v - word_range()
    } else {
        v
    }
}

pub open spec fn jump_taken(cond: Cond, v: int) -> bool {
    match cond {
        Cond::Jeq => v == 0,
        Cond::Jlt => signed(v) < 0,
        Cond::Jgt => signed(v) > 0,
        Cond::Jmp => true,
    }
}

/// Position of the first declaration of label `n` in `p`.
pub open spec fn find_label(p: Seq<Line<Seq<char>>>, n: u64) -> Option<int>
    decreases p.len(),
{
    if p.len() == 0 {
        None
    } else if p[0] == Line::<Seq<char>>::Code(Instr::Label(n)) {
        Some(0)
    } else {
        match find_label(p.drop_first(), n) {
            Some(k) => Some(k + 1),
            None => None,
        }
    }
}

/// Runs lines in order. A taken jump continues at the declaration of its
/// label further on; a jump to a label not declared further on ends the run.
pub open spec fn run(m: Machine, p: Seq<Line<Seq<char>>>) -> Machine
    decreases p.len(),
{
    if p.len() == 0 {
        m
    } else {
        match p[0] {
            Line::Code(Instr::Jump(c, cond)) => if jump_taken(cond, compute(m, c)) {
                match find_label(p, m.target) {
                    Some(k) => if 0 < k < p.len() {
                        run(m, p.skip(k))
                    } else {
                        m
                    },
                    None => m,
                }
            } else {
                run(m, p.drop_first())
            },
            _ => run(step(m, p[0]), p.drop_first()),
        }
    }
}

/// The code has no jumps, so it runs from the first line to the last.
pub open spec fn straight(p: Seq<Line<Seq<char>>>) -> bool {
    forall|k: int| 0 <= k < p.len() ==> !(#[trigger] p[k] matches Line::Code(Instr::Jump(_, _)))
}

/// The lines that are not comments.
pub open spec fn without_comments(p: Seq<Line<Seq<char>>>) -> Seq<Line<Seq<char>>> {
    p.filter(is_code())
}

/// Holds of every line but comments.
pub open spec fn is_code() -> spec_fn(Line<Seq<char>>) -> bool {
    |l: Line<Seq<char>>| !(l matches Line::Comment(_))
}

pub open spec fn stack_pointer(m: Machine) -> int {
    read(m.ram, 0)
}

/// The stack pointer lies where pushes and pops cannot reach the registers or `static` cells.
pub open spec fn stack_in_range(sp: int) -> bool {
    256 <= sp < 32767
}

pub open spec fn in_memory(ram: Map<int, int>) -> bool {
    forall|x: int| ram.contains_key(x) ==> 0 <= #[trigger] ram[x] < word_range()
}

proof fn lemma_run_concat(m: Machine, p: Seq<Line<Seq<char>>>, q: Seq<Line<Seq<char>>>)
    requires
        straight(p),
    ensures
        run(m, p + q) == run(run(m, p), q),
    decreases p.len(),
{
    if p.len() > 0 {
        assert((p + q).drop_first() =~= p.drop_first() + q);
        assert((p + q)[0] == p[0]);
        assert(straight(p.drop_first())) by {
            assert forall|k: int| 0 <= k < p.drop_first().len() implies !(
            #[trigger] p.drop_first()[k] matches Line::Code(Instr::Jump(_, _))) by {
                assert(p.drop_first()[k] == p[k + 1]);
            }
        }
        lemma_run_concat(step(m, p[0]), p.drop_first(), q);
    } else {
        assert(p + q =~= q);
    }
}

proof fn lemma_without_comments_prepend(p: Seq<Line<Seq<char>>>)
    requires
        p.len() > 0,
    ensures
        p[0] matches Line::Comment(_) ==> without_comments(p) == without_comments(p.drop_first()),
        !(p[0] matches Line::Comment(_)) ==> without_comments(p) == seq![p[0]] + without_comments(
            p.drop_first(),
        ),
{
    let rest = p.drop_first();
    assert(p =~= seq![p[0]] + rest);
    rest.lemma_filter_prepend(p[0], is_code());
    assert(Seq::<Line<Seq<char>>>::empty() + without_comments(rest) =~= without_comments(rest));
}

/// Removing comments keeps every label, and what follows a label.
proof fn lemma_find_label_without_comments(p: Seq<Line<Seq<char>>>, n: u64)
    ensures
        find_label(p, n) is Some <==> find_label(without_comments(p), n) is Some,
        find_label(p, n) is Some ==> without_comments(p).skip(
            find_label(without_comments(p), n)->0,
        ) == without_comments(p.skip(find_label(p, n)->0)),
    decreases p.len(),
{
    if p.len() == 0 {
        assert(without_comments(p) =~= p);
    } else {
        let rest = p.drop_first();
        let w = without_comments(p);
        lemma_without_comments_prepend(p);
        lemma_find_label_without_comments(rest, n);
        lemma_find_label_bound(rest, n);
        lemma_find_label_bound(without_comments(rest), n);
        if p[0] matches Line::Comment(_) {
            if find_label(p, n) is Some {
                let k = find_label(p, n)->0;
                assert(p.skip(k) =~= rest.skip(k - 1));
            }
        } else {
            assert(w[0] == p[0]);
            assert(w.drop_first() =~= without_comments(rest));
            if p[0] == Line::<Seq<char>>::Code(Instr::Label(n)) {
                assert(w.skip(0) =~= w);
                assert(p.skip(0) =~= p);
            } else if find_label(p, n) is Some {
                let k = find_label(p, n)->0;
                let k2 = find_label(without_comments(rest), n)->0;
                assert(p.skip(k) =~= rest.skip(k - 1));
                assert(w.skip(k2 + 1) =~= without_comments(rest).skip(k2));
            }
        }
    }
}

proof fn lemma_find_label_bound(p: Seq<Line<Seq<char>>>, n: u64)
    ensures
        find_label(p, n) is Some ==> 0 <= find_label(p, n)->0 < p.len() && p[find_label(p, n)->0]
            == Line::<Seq<char>>::Code(Instr::Label(n)),
    decreases p.len(),
{
    if p.len() > 0 {
        lemma_find_label_bound(p.drop_first(), n);
    }
}

/// Comments carry no meaning: a program computes the same with its comments removed.
pub proof fn law_comments_inert(m: Machine, p: Seq<Line<Seq<char>>>)
    ensures
        run(m, without_comments(p)) == run(m, p),
    decreases p.len(),
{
    if p.len() == 0 {
        assert(without_comments(p) =~= p);
    } else {
        let rest = p.drop_first();
        let w = without_comments(p);
        lemma_without_comments_prepend(p);
        if p[0] matches Line::Comment(_) {
            law_comments_inert(m, rest);
        } else {
            assert(w[0] == p[0]);
            assert(w.drop_first() =~= without_comments(rest));
            match p[0] {
                Line::Code(Instr::Jump(c, cond)) => {
                    if jump_taken(cond, compute(m, c)) {
                        lemma_find_label_without_comments(p, m.target);
                        lemma_find_label_bound(p, m.target);
                        lemma_find_label_bound(w, m.target);
                        if find_label(p, m.target) is Some {
                            let k = find_label(p, m.target)->0;
                            let k2 = find_label(w, m.target)->0;
                            assert(k > 0 && k2 > 0);
                            law_comments_inert(m, p.skip(k));
                        }
                    } else {
                        law_comments_inert(m, rest);
                    }
                },
                _ => {
                    law_comments_inert(step(m, p[0]), rest);
                },
            }
        }
    }
}

/// The machine after the code of `c`, run from `m`.
pub open spec fn after(m: Machine, c: Command) -> Machine {
    run(m, as_lines(code_of(c, 0)))
}

proof fn lemma_push_d(m: Machine)
    requires
        stack_in_range(stack_pointer(m)),
        0 <= m.d < word_range(),
    ensures
        run(m, as_lines(push_d_code())).ram == m.ram.insert(0, stack_pointer(m) + 1).insert(
            stack_pointer(m),
            m.d,
        ),
{
    let sp = stack_pointer(m);
    let p = as_lines(push_d_code());
    let m1 = step(m, p[0]);
    let m2 = step(m1, p[1]);
    let m3 = step(m2, p[2]);
    let m4 = step(m3, p[3]);
    assert(m1.a == 0);
    assert(m2.ram == m.ram.insert(0, sp + 1) && m2.a == 0);
    assert(read(m2.ram, 0) == sp + 1);
    assert(m3.a == sp && m3.ram == m2.ram);
    assert(m4.ram == m2.ram.insert(sp, m.d));
    reveal_with_fuel(run, 5);
    assert(p.drop_first().drop_first().drop_first().drop_first() =~= Seq::<Line<Seq<char>>>::empty());
    assert(run(m, p) == m4);
}


/// The value that `push segment index` puts on the stack.
pub open spec fn push_value(ram: Map<int, int>, seg: Segment, index: u16) -> int {
    match base_register(seg) {
        Some(b) => read(ram, wrap(read(ram, address_of(b)) + index)),
        None => if seg == Segment::Constant {
            index as int
        } else {
            read(ram, address_of(fixed_cell(seg, index)->0))
        },
    }
}

/// The cell that `pop segment index` writes.
pub open spec fn pop_target(ram: Map<int, int>, seg: Segment, index: u16) -> int {
    match base_register(seg) {
        Some(b) => wrap(read(ram, address_of(b)) + index),
        None => address_of(fixed_cell(seg, index)->0),
    }
}

/// Memory after a push.
pub open spec fn push_effect(ram: Map<int, int>, seg: Segment, index: u16) -> Map<int, int> {
    let sp = read(ram, 0);
    ram.insert(0, sp + 1).insert(sp, push_value(ram, seg, index))
}

/// Memory after a pop; a relocatable segment leaves its target address in the scratch register.
pub open spec fn pop_effect(ram: Map<int, int>, seg: Segment, index: u16) -> Map<int, int> {
    let sp = read(ram, 0);
    let t = pop_target(ram, seg, index);
    let v = read(ram, sp - 1);
    if base_register(seg) is Some {
        ram.insert(13, t).insert(0, sp - 1).insert(t, v)
    } else {
        ram.insert(0, sp - 1).insert(t, v)
    }
}

proof fn lemma_read_in_memory(ram: Map<int, int>, x: int)
    requires
        in_memory(ram),
    ensures
        0 <= read(ram, x) < word_range(),
{
}

proof fn lemma_push_constant(m: Machine, index: u16)
    requires
        in_memory(m.ram),
        stack_in_range(stack_pointer(m)),
        index <= crate::syntax::MAX_INDEX,
    ensures
        after(m, Command::Push { segment: Segment::Constant, index }).ram == push_effect(
            m.ram,
            Segment::Constant,
            index,
        ),
{
    let code = code_of(Command::Push { segment: Segment::Constant, index }, 0);
    let tail = as_lines(push_d_code());
    let head = as_lines(seq![Instr::At(Symbol::Constant(index)), Instr::Assign(Dest::D, Comp::A)]);
    assert(as_lines(code) =~= head + tail);
    lemma_run_concat(m, head, tail);
    reveal_with_fuel(run, 3);
    assert(head.drop_first().drop_first() =~= Seq::<Line<Seq<char>>>::empty());
    let m2 = run(m, head);
    assert(m2.d == index && m2.ram == m.ram);
    lemma_push_d(m2);
}

#[verifier::rlimit(40)]
proof fn lemma_push_based(m: Machine, seg: Segment, index: u16)
    requires
        in_memory(m.ram),
        stack_in_range(stack_pointer(m)),
        index <= crate::syntax::MAX_INDEX,
        base_register(seg) is Some,
    ensures
        after(m, Command::Push { segment: seg, index }).ram == push_effect(m.ram, seg, index),
{
    let code = code_of(Command::Push { segment: seg, index }, 0);
    let tail = as_lines(push_d_code());
    let b = base_register(seg)->0;
    let head = as_lines(
        seq![
            Instr::At(b),
            Instr::Assign(Dest::D, Comp::M),
            Instr::At(Symbol::Constant(index)),
            Instr::Assign(Dest::A, Comp::DPlusA),
            Instr::Assign(Dest::D, Comp::M),
        ],
    );
    assert(as_lines(code) =~= head + tail);
    lemma_run_concat(m, head, tail);
    lemma_read_in_memory(m.ram, address_of(b));
    lemma_read_in_memory(m.ram, wrap(read(m.ram, address_of(b)) + index));
    let m1 = step(m, head[0]);
    let m2 = step(m1, head[1]);
    let m3 = step(m2, head[2]);
    let m4 = step(m3, head[3]);
    let m5 = step(m4, head[4]);
    assert(m5.d == push_value(m.ram, seg, index) && m5.ram == m.ram);
    reveal_with_fuel(run, 6);
    assert(head.drop_first().drop_first().drop_first().drop_first().drop_first()
        =~= Seq::<Line<Seq<char>>>::empty());
    assert(run(m, head) == m5);
    lemma_push_d(m5);
}

proof fn lemma_push_fixed(m: Machine, seg: Segment, index: u16)
    requires
        in_memory(m.ram),
        stack_in_range(stack_pointer(m)),
        index <= crate::syntax::MAX_INDEX,
        fixed_cell(seg, index) is Some,
    ensures
        after(m, Command::Push { segment: seg, index }).ram == push_effect(m.ram, seg, index),
{
    let code = code_of(Command::Push { segment: seg, index }, 0);
    let tail = as_lines(push_d_code());
    let c = fixed_cell(seg, index)->0;
    let head = as_lines(seq![Instr::At(c), Instr::Assign(Dest::D, Comp::M)]);
    assert(as_lines(code) =~= head + tail);
    lemma_run_concat(m, head, tail);
    reveal_with_fuel(run, 3);
    assert(head.drop_first().drop_first() =~= Seq::<Line<Seq<char>>>::empty());
    let m2 = run(m, head);
    lemma_read_in_memory(m.ram, address_of(c));
    assert(m2.d == push_value(m.ram, seg, index) && m2.ram == m.ram);
    lemma_push_d(m2);
}

proof fn lemma_push(m: Machine, seg: Segment, index: u16)
    requires
        in_memory(m.ram),
        stack_in_range(stack_pointer(m)),
        index <= crate::syntax::MAX_INDEX,
    ensures
        after(m, Command::Push { segment: seg, index }).ram == push_effect(m.ram, seg, index),
{
    if seg == Segment::Constant {
        lemma_push_constant(m, index);
    } else if base_register(seg) is Some {
        lemma_push_based(m, seg, index);
    } else {
        lemma_push_fixed(m, seg, index);
    }
}

proof fn lemma_pop_d(m: Machine)
    requires
        in_memory(m.ram),
        stack_in_range(stack_pointer(m) - 1),
    ensures
        run(m, as_lines(pop_d_code())).ram == m.ram.insert(0, stack_pointer(m) - 1),
        run(m, as_lines(pop_d_code())).d == read(m.ram, stack_pointer(m) - 1),
{
    let sp = stack_pointer(m);
    let p = as_lines(pop_d_code());
    reveal_with_fuel(run, 4);
    assert(p.drop_first().drop_first().drop_first() =~= Seq::<Line<Seq<char>>>::empty());
    lemma_read_in_memory(m.ram, sp - 1);
}

proof fn lemma_pop(m: Machine, seg: Segment, index: u16)
    requires
        in_memory(m.ram),
        stack_in_range(stack_pointer(m) - 1),
        seg != Segment::Constant,
        index <= crate::syntax::MAX_INDEX,
    ensures
        after(m, Command::Pop { segment: seg, index }).ram == pop_effect(m.ram, seg, index),
{
    let sp = stack_pointer(m);
    let code = code_of(Command::Pop { segment: seg, index }, 0);
    let mid = as_lines(pop_d_code());
    let t = pop_target(m.ram, seg, index);
    if base_register(seg) is Some {
        let b = base_register(seg)->0;
        let head = as_lines(
            seq![
                Instr::At(b),
                Instr::Assign(Dest::D, Comp::M),
                Instr::At(Symbol::Constant(index)),
                Instr::Assign(Dest::D, Comp::DPlusA),
                Instr::At(Symbol::Register(13)),
                Instr::Assign(Dest::M, Comp::D),
            ],
        );
        let tail = as_lines(
            seq![
                Instr::At(Symbol::Register(13)),
                Instr::Assign(Dest::A, Comp::M),
                Instr::Assign(Dest::M, Comp::D),
            ],
        );
        assert(as_lines(code) =~= head + mid + tail);
        lemma_run_concat(m, head + mid, tail);
        lemma_run_concat(m, head, mid);
        reveal_with_fuel(run, 7);
        assert(head.drop_first().drop_first().drop_first().drop_first().drop_first().drop_first()
            =~= Seq::<Line<Seq<char>>>::empty());
        assert(tail.drop_first().drop_first().drop_first() =~= Seq::<Line<Seq<char>>>::empty());
        lemma_read_in_memory(m.ram, address_of(b));
        let m1 = run(m, head);
        assert(m1.ram == m.ram.insert(13, t));
        assert(stack_pointer(m1) == sp);
        lemma_pop_d(m1);
        let m2 = run(m1, mid);
        assert(read(m1.ram, sp - 1) == read(m.ram, sp - 1));
        assert(read(m2.ram, 13) == t);
    } else {
        let c = fixed_cell(seg, index)->0;
        let tail = as_lines(seq![Instr::At(c), Instr::Assign(Dest::M, Comp::D)]);
        assert(as_lines(code) =~= mid + tail);
        lemma_run_concat(m, mid, tail);
        reveal_with_fuel(run, 3);
        assert(tail.drop_first().drop_first() =~= Seq::<Line<Seq<char>>>::empty());
        lemma_pop_d(m);
    }
}


/// The computation an operation without arguments applies to the top of the stack.
pub open spec fn operation_comp(c: Command) -> Option<Comp> {
    match c {
        Command::Add => Some(Comp::DPlusM),
        Command::Sub => Some(Comp::MMinusD),
        Command::And => Some(Comp::DAndM),
        Command::Or => Some(Comp::DOrM),
        Command::Neg => Some(Comp::NegM),
        Command::Not => Some(Comp::NotM),
        _ => None,
    }
}

pub open spec fn is_binary(c: Command) -> bool {
    c == Command::Add || c == Command::Sub || c == Command::And || c == Command::Or
}

pub open spec fn is_unary(c: Command) -> bool {
    c == Command::Neg || c == Command::Not
}

/// The jump condition of a comparison.
pub open spec fn comparison_cond(c: Command) -> Option<Cond> {
    match c {
        Command::Eq => Some(Cond::Jeq),
        Command::Lt => Some(Cond::Jlt),
        Command::Gt => Some(Cond::Jgt),
        _ => None,
    }
}

/// An instruction without arguments: arithmetic, logical or a comparison.
pub open spec fn is_operation(c: Command) -> bool {
    is_binary(c) || is_unary(c) || comparison_cond(c) is Some
}

/// How far an instruction without arguments moves the stack pointer.
pub open spec fn height_change(c: Command) -> int {
    if is_binary(c) || comparison_cond(c) is Some {
        -1
    } else {
        0
    }
}

/// Memory after an arithmetic or logical operation: the operand(s) on top
/// replaced by the result, with the second operand (if any) taken from the top.
pub open spec fn operation_effect(ram: Map<int, int>, c: Command) -> Map<int, int> {
    let sp = read(ram, 0);
    let comp = operation_comp(c)->0;
    if is_binary(c) {
        ram.insert(0, sp - 1).insert(sp - 2, alu(comp, sp - 2, read(ram, sp - 1), read(ram, sp - 2)))
    } else {
        ram.insert(sp - 1, alu(comp, sp - 1, 0, read(ram, sp - 1)))
    }
}

proof fn lemma_operation(m: Machine, c: Command)
    requires
        in_memory(m.ram),
        is_binary(c) || is_unary(c),
        stack_in_range(stack_pointer(m) + height_change(c) - 1),
        stack_in_range(stack_pointer(m)),
    ensures
        after(m, c).ram == operation_effect(m.ram, c),
{
    let sp = stack_pointer(m);
    let p = as_lines(code_of(c, 0));
    if is_binary(c) {
        reveal_with_fuel(run, 6);
        assert(p.drop_first().drop_first().drop_first().drop_first().drop_first()
            =~= Seq::<Line<Seq<char>>>::empty());
        lemma_read_in_memory(m.ram, sp - 1);
        lemma_read_in_memory(m.ram, sp - 2);
    } else {
        reveal_with_fuel(run, 4);
        assert(p.drop_first().drop_first().drop_first() =~= Seq::<Line<Seq<char>>>::empty());
        lemma_read_in_memory(m.ram, sp - 1);
    }
}

/// `push constant 7`, `push constant 8`, `add` leaves 15 on the stack,
/// with the stack pointer one above where it started.
pub proof fn law_seven_plus_eight(m: Machine)
    requires
        in_memory(m.ram),
        stack_in_range(stack_pointer(m)),
        stack_in_range(stack_pointer(m) + 2),
    ensures
        ({
            let r = run(
                m,
                as_lines(code_of(Command::Push { segment: Segment::Constant, index: 7 }, 0))
                    + as_lines(code_of(Command::Push { segment: Segment::Constant, index: 8 }, 0))
                    + as_lines(code_of(Command::Add, 0)),
            );
            stack_pointer(r) == stack_pointer(m) + 1 && read(r.ram, stack_pointer(m)) == 15
        }),
{
    let sp = stack_pointer(m);
    let p1 = as_lines(code_of(Command::Push { segment: Segment::Constant, index: 7 }, 0));
    let p2 = as_lines(code_of(Command::Push { segment: Segment::Constant, index: 8 }, 0));
    let p3 = as_lines(code_of(Command::Add, 0));
    lemma_run_concat(m, p1 + p2, p3);
    lemma_run_concat(m, p1, p2);
    lemma_push(m, Segment::Constant, 7);
    let m1 = run(m, p1);
    assert(stack_pointer(m1) == sp + 1 && read(m1.ram, sp) == 7);
    lemma_push(m1, Segment::Constant, 8);
    let m2 = run(m1, p2);
    assert(stack_pointer(m2) == sp + 2 && read(m2.ram, sp) == 7 && read(m2.ram, sp + 1) == 8);
    lemma_operation(m2, Command::Add);
    assert(alu(Comp::DPlusM, sp, 8, 7) == 15);
}

/// `push constant 17`, `pop local 0`, `push local 0` leaves 17 on top of the
/// stack, when the `local` base lies outside the registers.
pub proof fn law_local_round_trip(m: Machine)
    requires
        in_memory(m.ram),
        stack_in_range(stack_pointer(m)),
        read(m.ram, 1) >= 16,
    ensures
        ({
            let r = run(
                m,
                as_lines(code_of(Command::Push { segment: Segment::Constant, index: 17 }, 0))
                    + as_lines(code_of(Command::Pop { segment: Segment::Local, index: 0 }, 0))
                    + as_lines(code_of(Command::Push { segment: Segment::Local, index: 0 }, 0)),
            );
            stack_pointer(r) == stack_pointer(m) + 1 && read(r.ram, stack_pointer(m)) == 17
        }),
{
    let sp = stack_pointer(m);
    let lcl = read(m.ram, 1);
    let p1 = as_lines(code_of(Command::Push { segment: Segment::Constant, index: 17 }, 0));
    let p2 = as_lines(code_of(Command::Pop { segment: Segment::Local, index: 0 }, 0));
    let p3 = as_lines(code_of(Command::Push { segment: Segment::Local, index: 0 }, 0));
    lemma_run_concat(m, p1 + p2, p3);
    lemma_run_concat(m, p1, p2);
    lemma_read_in_memory(m.ram, 1);
    lemma_push(m, Segment::Constant, 17);
    let m1 = run(m, p1);
    assert(stack_pointer(m1) == sp + 1 && read(m1.ram, sp) == 17 && read(m1.ram, 1) == lcl);
    lemma_pop(m1, Segment::Local, 0);
    let m2 = run(m1, p2);
    assert(wrap(lcl + 0) == lcl);
    assert(stack_pointer(m2) == sp && read(m2.ram, lcl) == 17 && read(m2.ram, 1) == lcl);
    lemma_push(m2, Segment::Local, 0);
}

/// `pop temp 0`, `pop pointer 0` and `push static 0` reach three different cells:
/// the two popped values stay where they were put, and the push brings back
/// what the `static` cell held before.
pub proof fn law_distinct_cells(m: Machine)
    requires
        in_memory(m.ram),
        stack_in_range(stack_pointer(m)),
        stack_in_range(stack_pointer(m) - 2),
    ensures
        ({
            let sp = stack_pointer(m);
            let r = run(
                m,
                as_lines(code_of(Command::Pop { segment: Segment::Temp, index: 0 }, 0))
                    + as_lines(code_of(Command::Pop { segment: Segment::Pointer, index: 0 }, 0))
                    + as_lines(code_of(Command::Push { segment: Segment::Static, index: 0 }, 0)),
            );
            &&& read(r.ram, 5) == read(m.ram, sp - 1)
            &&& read(r.ram, 3) == read(m.ram, sp - 2)
            &&& read(r.ram, 16) == read(m.ram, 16)
            &&& stack_pointer(r) == sp - 1
            &&& read(r.ram, sp - 2) == read(m.ram, 16)
        }),
{
    let sp = stack_pointer(m);
    let p1 = as_lines(code_of(Command::Pop { segment: Segment::Temp, index: 0 }, 0));
    let p2 = as_lines(code_of(Command::Pop { segment: Segment::Pointer, index: 0 }, 0));
    let p3 = as_lines(code_of(Command::Push { segment: Segment::Static, index: 0 }, 0));
    lemma_run_concat(m, p1 + p2, p3);
    lemma_run_concat(m, p1, p2);
    lemma_pop(m, Segment::Temp, 0);
    let m1 = run(m, p1);
    lemma_read_in_memory(m.ram, sp - 1);
    assert(stack_pointer(m1) == sp - 1);
    lemma_pop(m1, Segment::Pointer, 0);
    let m2 = run(m1, p2);
    assert(stack_pointer(m2) == sp - 2);
    lemma_push(m2, Segment::Static, 0);
}


proof fn lemma_advance(m: Machine, p: Seq<Line<Seq<char>>>, i: int)
    requires
        0 <= i < p.len(),
        !(p[i] matches Line::Code(Instr::Jump(_, _))),
    ensures
        run(m, p.skip(i)) == run(step(m, p[i]), p.skip(i + 1)),
{
    assert(p.skip(i)[0] == p[i]);
    assert(p.skip(i).drop_first() =~= p.skip(i + 1));
}

proof fn lemma_find_label(p: Seq<Line<Seq<char>>>, i: int, n: u64, k: int)
    requires
        0 <= i,
        0 <= k,
        i + k < p.len(),
        p[i + k] == Line::<Seq<char>>::Code(Instr::Label(n)),
        forall|j: int| i <= j < i + k ==> p[j] != Line::<Seq<char>>::Code(Instr::Label(n)),
    ensures
        find_label(p.skip(i), n) == Some(k),
    decreases k,
{
    assert(p.skip(i)[0] == p[i]);
    if k > 0 {
        lemma_find_label(p, i + 1, n, k - 1);
        assert(p.skip(i).drop_first() =~= p.skip(i + 1));
    }
}

/// The machine after the code of a comparison, run from `m`.
pub open spec fn compare_after(m: Machine, cond: Cond, label: u64) -> Machine {
    let sp = stack_pointer(m);
    let v = wrap(read(m.ram, sp - 2) - read(m.ram, sp - 1));
    let t = jump_taken(cond, v);
    Machine {
        a: if t {
            sp - 2
        } else {
            0
        },
        d: v,
        ram: m.ram.insert(0, sp - 1).insert(
            sp - 2,
            if t {
                65535
            } else {
                0
            },
        ),
        target: if t {
            label
        } else {
            (label + 1) as u64
        },
    }
}

/// The machine after the five lines of a comparison that compute `left - right` into D.
pub open spec fn difference_loaded(m: Machine) -> Machine {
    let sp = stack_pointer(m);
    Machine {
        a: sp - 2,
        d: wrap(read(m.ram, sp - 2) - read(m.ram, sp - 1)),
        ram: m.ram.insert(0, sp - 1),
        target: m.target,
    }
}

proof fn lemma_compare_head(m: Machine, cond: Cond, label: u64, p: Seq<Line<Seq<char>>>)
    requires
        in_memory(m.ram),
        stack_in_range(stack_pointer(m)),
        stack_in_range(stack_pointer(m) - 2),
        p.len() >= 17,
        p.take(17) == as_lines(compare_code(cond, label)),
    ensures
        run(m, p) == run(difference_loaded(m), p.skip(5)),
{
    let sp = stack_pointer(m);
    let code = compare_code(cond, label);
    assert(p.skip(0) =~= p);
    assert(p[0] == p.take(17)[0]);
    assert(p[1] == p.take(17)[1]);
    assert(p[2] == p.take(17)[2]);
    assert(p[3] == p.take(17)[3]);
    assert(p[4] == p.take(17)[4]);
    lemma_read_in_memory(m.ram, sp - 1);
    lemma_read_in_memory(m.ram, sp - 2);
    lemma_advance(m, p, 0);
    let m1 = step(m, p[0]);
    lemma_advance(m1, p, 1);
    let m2 = step(m1, p[1]);
    assert(m2.a == sp - 1 && m2.ram == m.ram.insert(0, sp - 1));
    lemma_advance(m2, p, 2);
    let m3 = step(m2, p[2]);
    assert(m3.d == read(m.ram, sp - 1));
    lemma_advance(m3, p, 3);
    let m4 = step(m3, p[3]);
    lemma_advance(m4, p, 4);
    let m5 = step(m4, p[4]);
    assert(m5 == difference_loaded(m));
}

#[verifier::rlimit(40)]
proof fn lemma_compare_true(m: Machine, cond: Cond, label: u64, p: Seq<Line<Seq<char>>>)
    requires
        stack_in_range(stack_pointer(m)),
        stack_in_range(stack_pointer(m) - 2),
        label < u64::MAX,
        p.len() >= 17,
        p.take(17) == as_lines(compare_code(cond, label)),
        jump_taken(cond, difference_loaded(m).d),
    ensures
        run(difference_loaded(m), p.skip(5)) == run(compare_after(m, cond, label), p.skip(17)),
{
    let sp = stack_pointer(m);
    let m5 = difference_loaded(m);
    assert(p[5] == p.take(17)[5]);
    assert(p[6] == p.take(17)[6]);
    assert(p[7] == p.take(17)[7]);
    assert(p[8] == p.take(17)[8]);
    assert(p[9] == p.take(17)[9]);
    assert(p[10] == p.take(17)[10]);
    assert(p[11] == p.take(17)[11]);
    assert(p[12] == p.take(17)[12]);
    assert(p[13] == p.take(17)[13]);
    assert(p[14] == p.take(17)[14]);
    assert(p[15] == p.take(17)[15]);
    assert(p[16] == p.take(17)[16]);
    lemma_advance(m5, p, 5);
    let m6 = step(m5, p[5]);
    assert(m6.target == label);
    assert(compute(m6, Comp::D) == m5.d);
    assert(p.skip(6)[0] == p[6]);
    lemma_find_label(p, 6, label, 6);
    assert(p.skip(6).skip(6) =~= p.skip(12));
    assert(run(m6, p.skip(6)) == run(m6, p.skip(12)));
    lemma_advance(m6, p, 12);
    lemma_advance(m6, p, 13);
    let n1 = step(m6, p[13]);
    lemma_advance(n1, p, 14);
    let n2 = step(n1, p[14]);
    lemma_advance(n2, p, 15);
    let n3 = step(n2, p[15]);
    lemma_advance(n3, p, 16);
    assert(n3 == compare_after(m, cond, label));
}

#[verifier::rlimit(40)]
proof fn lemma_compare_false(m: Machine, cond: Cond, label: u64, p: Seq<Line<Seq<char>>>)
    requires
        stack_in_range(stack_pointer(m)),
        stack_in_range(stack_pointer(m) - 2),
        label < u64::MAX,
        p.len() >= 17,
        p.take(17) == as_lines(compare_code(cond, label)),
        !jump_taken(cond, difference_loaded(m).d),
    ensures
        run(difference_loaded(m), p.skip(5)) == run(compare_after(m, cond, label), p.skip(17)),
{
    let sp = stack_pointer(m);
    let m5 = difference_loaded(m);
    assert(p[5] == p.take(17)[5]);
    assert(p[6] == p.take(17)[6]);
    assert(p[7] == p.take(17)[7]);
    assert(p[8] == p.take(17)[8]);
    assert(p[9] == p.take(17)[9]);
    assert(p[10] == p.take(17)[10]);
    assert(p[11] == p.take(17)[11]);
    assert(p[12] == p.take(17)[12]);
    assert(p[13] == p.take(17)[13]);
    assert(p[14] == p.take(17)[14]);
    assert(p[15] == p.take(17)[15]);
    assert(p[16] == p.take(17)[16]);
    lemma_advance(m5, p, 5);
    let m6 = step(m5, p[5]);
    assert(compute(m6, Comp::D) == m5.d);
    assert(p.skip(6)[0] == p[6]);
    assert(p.skip(6).drop_first() =~= p.skip(7));
    lemma_advance(m6, p, 7);
    let n1 = step(m6, p[7]);
    lemma_advance(n1, p, 8);
    let n2 = step(n1, p[8]);
    lemma_advance(n2, p, 9);
    let n3 = step(n2, p[9]);
    lemma_advance(n3, p, 10);
    let n4 = step(n3, p[10]);
    assert(n4.target == label + 1);
    assert(p.skip(11)[0] == p[11]);
    lemma_find_label(p, 11, (label + 1) as u64, 5);
    assert(p.skip(11).skip(5) =~= p.skip(16));
    lemma_advance(n4, p, 16);
    assert(n4 == compare_after(m, cond, label));
}

proof fn lemma_compare(m: Machine, cond: Cond, label: u64, q: Seq<Line<Seq<char>>>)
    requires
        in_memory(m.ram),
        stack_in_range(stack_pointer(m)),
        stack_in_range(stack_pointer(m) - 2),
        label < u64::MAX,
    ensures
        run(m, as_lines(compare_code(cond, label)) + q) == run(compare_after(m, cond, label), q),
{
    let p = as_lines(compare_code(cond, label)) + q;
    assert(p.take(17) =~= as_lines(compare_code(cond, label)));
    assert(p.skip(17) =~= q);
    lemma_compare_head(m, cond, label, p);
    if jump_taken(cond, difference_loaded(m).d) {
        lemma_compare_true(m, cond, label, p);
    } else {
        lemma_compare_false(m, cond, label, p);
    }
}


/// The machine after the code of an instruction without arguments whose labels start at `label`.
pub open spec fn operation_after(m: Machine, c: Command, label: u64) -> Machine {
    match comparison_cond(c) {
        Some(cond) => compare_after(m, cond, label),
        None => after(m, c),
    }
}

proof fn lemma_operation_then(m: Machine, c: Command, label: u64, q: Seq<Line<Seq<char>>>)
    requires
        in_memory(m.ram),
        is_operation(c),
        stack_in_range(stack_pointer(m)),
        stack_in_range(stack_pointer(m) + height_change(c) - 1),
        label < u64::MAX,
    ensures
        run(m, as_lines(code_of(c, label)) + q) == run(operation_after(m, c, label), q),
        stack_pointer(operation_after(m, c, label)) == stack_pointer(m) + height_change(c),
        in_memory(operation_after(m, c, label).ram),
{
    let sp = stack_pointer(m);
    match comparison_cond(c) {
        Some(cond) => {
            lemma_compare(m, cond, label, q);
        },
        None => {
            let code = as_lines(code_of(c, label));
            assert(code_of(c, label) == code_of(c, 0));
            assert(straight(code)) by {
                assert forall|k: int| 0 <= k < code.len() implies !(
                #[trigger] code[k] matches Line::Code(Instr::Jump(_, _))) by {
                    assert(code[k] == Line::<Seq<char>>::Code(code_of(c, label)[k]));
                }
            }
            lemma_run_concat(m, code, q);
            lemma_operation(m, c);
            lemma_read_in_memory(m.ram, sp - 1);
            lemma_read_in_memory(m.ram, sp - 2);
        },
    }
}

/// The code of two instructions without arguments (arithmetic, logical or
/// comparisons), run one after the other, moves the stack pointer by the sum of
/// their own moves: one down for each binary operation or comparison, none for
/// a unary one.
pub proof fn law_stack_height(m: Machine, c1: Command, c2: Command, label: u64)
    requires
        in_memory(m.ram),
        is_operation(c1),
        is_operation(c2),
        stack_in_range(stack_pointer(m)),
        stack_in_range(stack_pointer(m) + height_change(c1) - 1),
        stack_in_range(stack_pointer(m) + height_change(c1) + height_change(c2) - 1),
        label + 4 <= u64::MAX,
    ensures
        stack_pointer(
            run(
                m,
                as_lines(code_of(c1, label)) + as_lines(
                    code_of(c2, (label + labels_needed(c1)) as u64),
                ),
            ),
        ) == stack_pointer(m) + height_change(c1) + height_change(c2),
{
    let l2 = (label + labels_needed(c1)) as u64;
    let code2 = as_lines(code_of(c2, l2));
    lemma_operation_then(m, c1, label, code2);
    let m1 = operation_after(m, c1, label);
    assert(code2 + Seq::<Line<Seq<char>>>::empty() =~= code2);
    lemma_operation_then(m1, c2, l2, Seq::<Line<Seq<char>>>::empty());
}

} // verus!
