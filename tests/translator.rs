use std::collections::HashMap;

use vm_translator::{
    chars_of, normalize, parse_index, parse_segment, render, strip, tokenize, translate_file,
    CodeWriter, Command, ErrorKind, Instr, Line, Parser, Segment, Symbol,
};

fn lines(src: &[&str]) -> Vec<String> {
    src.iter().map(|s| s.to_string()).collect()
}

fn translate(src: &[&str]) -> Vec<String> {
    translate_file(&lines(src)).expect("translation succeeds")
}

fn error_of(src: &[&str]) -> (ErrorKind, usize, String) {
    match translate_file(&lines(src)) {
        Ok(_) => panic!("translation should fail"),
        Err(e) => (e.kind, e.line_number, e.text),
    }
}

/// Runs assembly text on a model of the 16-bit machine; returns the memory.
fn simulate(program: &[String], init: &[(i32, i32)]) -> HashMap<i32, i32> {
    let mut code: Vec<String> = Vec::new();
    let mut labels: HashMap<String, i32> = HashMap::new();
    for l in program {
        if l.starts_with("//") {
            continue;
        }
        if l.starts_with('(') {
            labels.insert(l[1..l.len() - 1].to_string(), code.len() as i32);
        } else {
            code.push(l.clone());
        }
    }
    let mut statics: HashMap<String, i32> = HashMap::new();
    let mut ram: HashMap<i32, i32> = init.iter().cloned().collect();
    let (mut a, mut d, mut pc) = (0i32, 0i32, 0i32);
    let wrap = |x: i32| ((x as i64).rem_euclid(65536)) as i32;
    let signed = |x: i32| if x >= 32768 { x - 65536 } else { x };
    let mut steps = 0;
    while (pc as usize) < code.len() {
        steps += 1;
        assert!(steps < 100000);
        let ins = code[pc as usize].clone();
        pc += 1;
        if let Some(sym) = ins.strip_prefix('@') {
            a = match sym {
                "SP" => 0,
                "LCL" => 1,
                "ARG" => 2,
                "THIS" => 3,
                "THAT" => 4,
                _ if sym.starts_with('R') && sym[1..].parse::<i32>().is_ok() => sym[1..].parse().unwrap(),
                _ if sym.parse::<i32>().is_ok() => sym.parse().unwrap(),
                _ if labels.contains_key(sym) => labels[sym],
                _ => {
                    let n = statics.len() as i32;
                    *statics.entry(sym.to_string()).or_insert(16 + n)
                }
            };
            continue;
        }
        let (dest, rest) = match ins.find('=') {
            Some(i) => (&ins[..i], &ins[i + 1..]),
            None => ("", &ins[..]),
        };
        let (comp, jump) = match rest.find(';') {
            Some(i) => (&rest[..i], &rest[i + 1..]),
            None => (rest, ""),
        };
        let m = *ram.get(&a).unwrap_or(&0);
        let v = wrap(match comp {
            "0" => 0,
            "-1" => -1,
            "D" => d,
            "A" => a,
            "M" => m,
            "M+1" => m + 1,
            "M-1" => m - 1,
            "A-1" => a - 1,
            "D+A" => d + a,
            "D+M" => d + m,
            "M-D" => m - d,
            "D&M" => d & m,
            "D|M" => d | m,
            "-M" => -m,
            "!M" => !m,
            other => panic!("unexpected computation {}", other),
        });
        let old_a = a;
        if dest.contains('M') {
            ram.insert(old_a, v);
        }
        if dest.contains('A') {
            a = v;
        }
        if dest.contains('D') {
            d = v;
        }
        let s = signed(v);
        let taken = match jump {
            "" => false,
            "JEQ" => s == 0,
            "JLT" => s < 0,
            "JGT" => s > 0,
            "JMP" => true,
            other => panic!("unexpected jump {}", other),
        };
        if taken {
            pc = old_a;
        }
    }
    ram
}

fn stack(ram: &HashMap<i32, i32>, base: i32) -> Vec<i32> {
    (base..ram[&0]).map(|i| *ram.get(&i).unwrap_or(&0)).collect()
}

const BASE: [(i32, i32); 5] = [(0, 256), (1, 300), (2, 400), (3, 3000), (4, 3010)];

#[test]
fn strips_comments_and_blanks() {
    assert_eq!(strip("  push constant 7   // a comment").as_str(), "push constant 7");
    assert_eq!(strip("// only a comment").as_str(), "");
    assert_eq!(strip("\t add \r").as_str(), "add");
    assert_eq!(strip("").as_str(), "");
    let n = normalize(&chars_of(" pop local 2//x "));
    assert_eq!(n.iter().collect::<String>(), "pop local 2");
}

#[test]
fn splits_on_blank_runs() {
    let t = tokenize(&chars_of("push \t constant   17"));
    let words: Vec<String> = t.iter().map(|w| w.iter().collect()).collect();
    assert_eq!(words, vec!["push", "constant", "17"]);
    assert!(tokenize(&chars_of("   ")).is_empty());
}

#[test]
fn reads_segments_and_indices() {
    assert_eq!(parse_segment(&chars_of("local")), Some(Segment::Local));
    assert_eq!(parse_segment(&chars_of("static")), Some(Segment::Static));
    assert_eq!(parse_segment(&chars_of("nosegment")), None);
    assert_eq!(parse_index(&chars_of("0")), Some(0));
    assert_eq!(parse_index(&chars_of("32767")), Some(32767));
    assert_eq!(parse_index(&chars_of("32768")), None);
    assert_eq!(parse_index(&chars_of("99999999999999999999")), None);
    assert_eq!(parse_index(&chars_of("abc")), None);
    assert_eq!(parse_index(&chars_of("-1")), None);
    assert_eq!(parse_index(&chars_of("")), None);
}

#[test]
fn renders_lines() {
    assert_eq!(render(&Line::Code(Instr::At(Symbol::Register(13)))).as_str(), "@R13");
    assert_eq!(render(&Line::Code(Instr::At(Symbol::Constant(1234)))).as_str(), "@1234");
    assert_eq!(render(&Line::Code(Instr::Label(42))).as_str(), "(CMP.42)");
    assert_eq!(render(&Line::Comment("add".to_string())).as_str(), "// add");
}

#[test]
fn exact_text_of_push_constant_and_add() {
    let out = translate(&["push constant 7", "push constant 8", "add"]);
    let expected = vec![
        "// push constant 7", "@7", "D=A", "@SP", "M=M+1", "A=M-1", "M=D",
        "// push constant 8", "@8", "D=A", "@SP", "M=M+1", "A=M-1", "M=D",
        "// add", "@SP", "AM=M-1", "D=M", "A=A-1", "M=D+M",
    ];
    assert_eq!(out, expected);
}

#[test]
fn seven_plus_eight_leaves_fifteen() {
    let out = translate(&["push constant 7", "push constant 8", "add"]);
    let ram = simulate(&out, &BASE);
    assert_eq!(ram[&0], 257);
    assert_eq!(stack(&ram, 256), vec![15]);
}

#[test]
fn push_pop_local_round_trip() {
    let out = translate(&["push constant 17", "pop local 0", "push local 0"]);
    let ram = simulate(&out, &BASE);
    assert_eq!(ram[&300], 17);
    assert_eq!(stack(&ram, 256), vec![17]);
}

#[test]
fn temp_pointer_static_cells_are_distinct() {
    let out = translate(&[
        "push constant 11", "push constant 22", "push constant 33",
        "pop temp 0", "pop pointer 0", "pop static 0",
        "push temp 0", "push pointer 0", "push static 0",
    ]);
    let ram = simulate(&out, &BASE);
    assert_eq!(stack(&ram, 256), vec![33, 22, 11]);
}

#[test]
fn stack_height_of_operations_adds_up() {
    let pushes = ["push constant 9", "push constant 4", "push constant 2", "push constant 1", "push constant 5"];
    let cases: Vec<(Vec<&str>, i32)> = vec![
        (vec!["add", "sub"], -2),
        (vec!["and", "or"], -2),
        (vec!["neg", "not"], 0),
        (vec!["eq", "lt"], -2),
        (vec!["gt", "neg"], -1),
    ];
    for (ops, delta) in cases {
        let mut src: Vec<&str> = pushes.to_vec();
        src.extend(ops.iter());
        let ram = simulate(&translate(&src), &BASE);
        assert_eq!(ram[&0], 256 + 5 + delta);
    }
}

#[test]
fn arithmetic_and_comparison_values() {
    let ram = simulate(&translate(&["push constant 9", "push constant 4", "sub", "neg"]), &BASE);
    assert_eq!(stack(&ram, 256), vec![65536 - 5]);
    let ram = simulate(&translate(&["push constant 12", "push constant 10", "and", "push constant 1", "or", "not"]), &BASE);
    assert_eq!(stack(&ram, 256), vec![65535 - 9]);
    let ram = simulate(
        &translate(&[
            "push constant 3", "push constant 3", "eq",
            "push constant 3", "push constant 4", "eq",
            "push constant 3", "push constant 4", "lt",
            "push constant 4", "push constant 3", "lt",
            "push constant 4", "push constant 3", "gt",
            "push constant 3", "push constant 4", "gt",
        ]),
        &BASE,
    );
    assert_eq!(stack(&ram, 256), vec![65535, 0, 65535, 0, 65535, 0]);
}

#[test]
fn comparison_labels_are_all_distinct() {
    let out = translate(&["eq", "lt", "gt", "eq"]);
    let labels: Vec<&String> = out.iter().filter(|l| l.starts_with('(')).collect();
    assert_eq!(labels.len(), 8);
    for i in 0..labels.len() {
        for j in 0..i {
            assert_ne!(labels[i], labels[j]);
        }
    }
    assert_eq!(labels[0].as_str(), "(CMP.0)");
    assert_eq!(labels[7].as_str(), "(CMP.7)");
}

#[test]
fn comments_do_not_change_the_result() {
    let src = ["push constant 5", "push constant 6", "lt", "push constant 2", "push local 0", "add"];
    let with = translate(&src);
    let without: Vec<String> = with.iter().filter(|l| !l.starts_with("//")).cloned().collect();
    assert!(without.len() < with.len());
    let a = simulate(&with, &BASE);
    let b = simulate(&without, &BASE);
    assert_eq!(a[&0], b[&0]);
    assert_eq!(stack(&a, 256), stack(&b, 256));
}

#[test]
fn unknown_opcode_aborts() {
    let (kind, line, text) = error_of(&["push constant 1", "pu sh constant"]);
    assert_eq!(kind, ErrorKind::UnknownOpcode);
    assert_eq!(line, 2);
    assert_eq!(text.as_str(), "pu sh constant");
}

#[test]
fn unknown_segment_aborts() {
    assert_eq!(error_of(&["push nosegment 3"]).0, ErrorKind::UnknownSegment);
    assert_eq!(error_of(&["pop constant 3"]).0, ErrorKind::UnknownSegment);
}

#[test]
fn invalid_index_aborts() {
    assert_eq!(error_of(&["push local abc"]).0, ErrorKind::InvalidIndex);
    assert_eq!(error_of(&["push local 40000"]).0, ErrorKind::InvalidIndex);
}

#[test]
fn wrong_argument_count_aborts() {
    assert_eq!(error_of(&["push constant"]).0, ErrorKind::ArityMismatch);
    assert_eq!(error_of(&["add 1"]).0, ErrorKind::ArityMismatch);
    assert_eq!(error_of(&["pop local 1 2"]).0, ErrorKind::ArityMismatch);
}

#[test]
fn blank_and_comment_lines_are_skipped() {
    let out = translate(&["", "   ", "// note", "neg  // flip"]);
    assert_eq!(out, vec!["// neg", "@SP", "A=M-1", "M=-M"]);
    assert!(translate(&[]).is_empty());
}

#[test]
fn segment_addressing_text() {
    let out = translate(&["pop local 2", "push argument 1", "push pointer 1", "pop temp 7", "push static 3"]);
    let expected = vec![
        "// pop local 2", "@LCL", "D=M", "@2", "D=D+A", "@R13", "M=D", "@SP", "AM=M-1", "D=M", "@R13", "A=M", "M=D",
        "// push argument 1", "@ARG", "D=M", "@1", "A=D+A", "D=M", "@SP", "M=M+1", "A=M-1", "M=D",
        "// push pointer 1", "@R4", "D=M", "@SP", "M=M+1", "A=M-1", "M=D",
        "// pop temp 7", "@SP", "AM=M-1", "D=M", "@R12", "M=D",
        "// push static 3", "@S3", "D=M", "@SP", "M=M+1", "A=M-1", "M=D",
    ];
    assert_eq!(out, expected);
}

#[test]
fn writer_and_parser_directly() {
    let mut p = Parser::new(CodeWriter::new());
    assert!(p.parse_line("eq").is_ok());
    assert_eq!(p.writer().label_counter_value(), 2);
    assert_eq!(p.parse_line("bogus"), Err(ErrorKind::UnknownOpcode));
    assert_eq!(p.writer().text().len(), 18);
    let mut w = CodeWriter::new();
    assert_eq!(w.write_command(Command::Push { segment: Segment::Constant, index: 3 }), Ok(()));
    assert_eq!(w.write_gt(), Ok(()));
    assert_eq!(w.label_counter_value(), 2);
    let t = w.text();
    assert_eq!(t[0].as_str(), "@3");
    assert_eq!(t[11].as_str(), "@CMP.0");
    assert_eq!(t[12].as_str(), "D;JGT");
}

#[test]
fn parser_reports_line_of_first_error() {
    let mut p = Parser::new(CodeWriter::new());
    let src = lines(&["push constant 1", "", "push local abc", "pu sh constant"]);
    match p.parse_file(&src) {
        Ok(()) => panic!("parse should fail"),
        Err(e) => {
            assert_eq!(e.kind, ErrorKind::InvalidIndex);
            assert_eq!(e.line_number, 3);
            assert_eq!(e.text.as_str(), "push local abc");
        }
    }
    let mut q = Parser::new(CodeWriter::new());
    assert!(q.parse_file(&lines(&["push constant 2 // two", "not"])).is_ok());
    let text = q.writer().text();
    assert_eq!(text[0].as_str(), "// push constant 2");
    assert_eq!(text.len(), 11);
}

#[test]
fn unicode_blanks_count_as_whitespace() {
    assert_eq!(strip("add\u{A0}").as_str(), "add");
    assert_eq!(strip("\u{3000}neg\u{2003} // x").as_str(), "neg");
    let a = translate(&["push\u{A0}constant 7"]);
    let b = translate(&["push constant 7"]);
    assert_eq!(a.len(), b.len());
    assert_eq!(a[1..], b[1..]);
}

#[test]
fn error_carries_the_instruction_text() {
    let (kind, line, text) = error_of(&["  push local abc   // bad index"]);
    assert_eq!(kind, ErrorKind::InvalidIndex);
    assert_eq!(line, 1);
    assert_eq!(text.as_str(), "push local abc");
}

#[test]
fn writer_refuses_pop_into_constant() {
    let mut w = CodeWriter::new();
    assert_eq!(w.write_pop(Segment::Constant, 0), Err(ErrorKind::UnknownSegment));
    assert!(w.text().is_empty());
    assert_eq!(
        w.write_command(Command::Pop { segment: Segment::Constant, index: 1 }),
        Err(ErrorKind::UnknownSegment)
    );
    assert_eq!(w.write_pop(Segment::Temp, 2), Ok(()));
    assert_eq!(w.text()[3].as_str(), "@R7");
}

#[test]
fn labels_are_minted_in_order() {
    let mut w = CodeWriter::new();
    assert_eq!(w.get_next_label(), Ok(0));
    assert_eq!(w.get_next_label(), Ok(1));
    assert_eq!(w.write_eq(), Ok(()));
    assert_eq!(w.label_counter_value(), 4);
    let t = w.text();
    assert_eq!(t[12].as_str(), "(CMP.2)");
    assert_eq!(t[16].as_str(), "(CMP.3)");
}
