use vstd::prelude::*;
use crate::emit::{
    CodeWriter, as_lines, code_of, declared_label, labels_available, labels_needed, labels_unique,
    labels_within,
};
use crate::hack::{Instr, Line, line_text};
use crate::syntax::{Command, ErrorKind, command_of, parse_command};
use crate::text::{chars_of, normalized, strip, tokenize, tokens};

verus! {

/// A failed translation: what went wrong, on which line (counted from 1), and the
/// instruction on it (the line without its comment and surrounding blanks).
#[derive(Debug)]
pub struct TranslateError {
    pub kind: ErrorKind,
    pub line_number: usize,
    pub text: String,
}

/// What one raw line adds, given the next free label: nothing for a blank line,
/// else its comment and its code together with the next free label afterwards.
pub open spec fn line_step(line: Seq<char>, next: u64) -> Result<
    Option<(Seq<Line<Seq<char>>>, u64)>,
    ErrorKind,
> {
    let n = normalized(line);
    let toks = tokens(n);
    if toks.len() == 0 {
        Ok(None)
    } else {
        match command_of(toks) {
            Err(e) => Err(e),
            Ok(c) => if !labels_available(c, next) {
                Err(ErrorKind::LabelOverflow)
            } else {
                Ok(
                    Some(
                        (
                            seq![Line::Comment(n)] + as_lines(code_of(c, next)),
                            (next + labels_needed(c)) as u64,
                        ),
                    ),
                )
            },
        }
    }
}

/// The output and the next free label after translating `src` onto `out`,
/// or the first error with its line number (counted from 1).
pub open spec fn run_lines(src: Seq<Seq<char>>, out: Seq<Line<Seq<char>>>, next: u64) -> Result<
    (Seq<Line<Seq<char>>>, u64),
    (ErrorKind, int),
>
    decreases src.len(),
{
    if src.len() == 0 {
        Ok((out, next))
    } else {
        match run_lines(src.drop_last(), out, next) {
            Err(e) => Err(e),
            Ok((o, l)) => match line_step(src.last(), l) {
                Err(k) => Err((k, src.len() as int)),
                Ok(None) => Ok((o, l)),
                Ok(Some((code, l2))) => Ok((o + code, l2)),
            },
        }
    }
}

/// The output lines of a whole program, or its first error with its line number.
pub open spec fn translation(src: Seq<Seq<char>>) -> Result<Seq<Line<Seq<char>>>, (ErrorKind, int)> {
    match run_lines(src, seq![], 0) {
        Ok((o, _)) => Ok(o),
        Err(e) => Err(e),
    }
}

pub open spec fn texts(v: Seq<String>) -> Seq<Seq<char>> {
    v.map_values(|s: String| s@)
}

/// Reads instructions line by line and hands each to its writer.
pub struct Parser {
    writer: CodeWriter,
}

impl Parser {
    pub closed spec fn writer_state(&self) -> CodeWriter {
        self.writer
    }

    pub fn new(writer: CodeWriter) -> (r: Self)
        ensures
            r.writer_state() == writer,
    {
        Parser { writer }
    }

    pub fn writer(&self) -> (r: &CodeWriter)
        ensures
            *r == self.writer_state(),
    {
        &self.writer
    }

    /// Translates one raw line; on failure nothing is written.
    pub fn parse_line(&mut self, line: &str) -> (r: Result<(), ErrorKind>)
        ensures
            match line_step(line@, old(self).writer_state().label_counter()) {
                Err(e) => r == Err::<(), ErrorKind>(e) && *final(self) == *old(self),
                Ok(None) => r is Ok && *final(self) == *old(self),
                Ok(Some((code, l))) => r is Ok && final(self).writer_state().written()
                    == old(self).writer_state().written() + code
                    && final(self).writer_state().label_counter() == l,
            },
    {
        let text = strip(line);
        let cs = chars_of(text.as_str());
        let toks = tokenize(&cs);
        if toks.len() == 0 {
            return Ok(());
        }
        let c = match parse_command(&toks) {
            Err(e) => return Err(e),
            Ok(c) => c,
        };
        proof {
            crate::syntax::lemma_parsed_valid(toks@.map_values(|t: Vec<char>| t@));
        }
        if c == Command::Eq || c == Command::Lt || c == Command::Gt {
            if self.writer.label_counter_value() > u64::MAX - 2 {
                return Err(ErrorKind::LabelOverflow);
            }
        }
        let ghost mid = self.writer.written();
        self.writer.write_comment(text);
        let res = self.writer.write_command(c);
        assert(res is Ok);
        assert(self.writer.written() =~= old(self).writer_state().written() + (seq![
            Line::Comment(normalized(line@)),
        ] + as_lines(code_of(c, old(self).writer_state().label_counter()))));
        Ok(())
    }

    /// Translates every line in order, stopping at the first error.
    pub fn parse_file(&mut self, lines: &Vec<String>) -> (r: Result<(), TranslateError>)
        ensures
            match run_lines(
                texts(lines@),
                old(self).writer_state().written(),
                old(self).writer_state().label_counter(),
            ) {
                Ok((o, l)) => r is Ok && final(self).writer_state().written() == o
                    && final(self).writer_state().label_counter() == l,
                Err((k, n)) => r matches Err(e) && e.kind == k && e.line_number == n
                    && e.text@ == normalized(lines@[n - 1]@),
            },
    {
        let ghost src = texts(lines@);
        let mut i: usize = 0;
        while i < lines.len()
            invariant
                i <= lines@.len(),
                src == texts(lines@),
                run_lines(
                    src.take(i as int),
                    old(self).writer_state().written(),
                    old(self).writer_state().label_counter(),
                ) == Ok::<(Seq<Line<Seq<char>>>, u64), (ErrorKind, int)>(
                    (self.writer_state().written(), self.writer_state().label_counter()),
                ),
            decreases lines@.len() - i,
        {
            assert(src.take(i + 1).drop_last() =~= src.take(i as int));
            assert(src.take(i + 1).last() == lines@[i as int]@);
            match self.parse_line(lines[i].as_str()) {
                Err(kind) => {
                    proof {
                        lemma_run_lines_stops(
                            src,
                            i as int + 1,
                            old(self).writer_state().written(),
                            old(self).writer_state().label_counter(),
                        );
                    }
                    return Err(
                        TranslateError {
                            kind,
                            line_number: i + 1,
                            text: strip(lines[i].as_str()),
                        },
                    );
                },
                Ok(()) => {},
            }
            i = i + 1;
        }
        assert(src.take(i as int) =~= src);
        Ok(())
    }
}

/// Once `run_lines` fails on a prefix, it fails with the same error on every longer one.
proof fn lemma_run_lines_stops(src: Seq<Seq<char>>, k: int, out: Seq<Line<Seq<char>>>, next: u64)
    requires
        0 < k <= src.len(),
        run_lines(src.take(k), out, next) is Err,
    ensures
        run_lines(src, out, next) == run_lines(src.take(k), out, next),
    decreases src.len() - k,
{
    if k < src.len() {
        assert(src.take(k + 1).drop_last() =~= src.take(k));
        lemma_run_lines_stops(src, k + 1, out, next);
    } else {
        assert(src.take(k) =~= src);
    }
}

/// Translates a whole program, given as its lines, into the text of its assembly lines.
pub fn translate_file(lines: &Vec<String>) -> (r: Result<Vec<String>, TranslateError>)
    ensures
        match translation(texts(lines@)) {
            Ok(o) => r matches Ok(v) && texts(v@) == o.map_values(
                |l: Line<Seq<char>>| line_text(l),
            ),
            Err((k, n)) => r matches Err(e) && e.kind == k && e.line_number == n && e.text@
                == normalized(lines@[n - 1]@),
        },
{
    let writer = CodeWriter::new();
    let mut parser = Parser::new(writer);
    match parser.parse_file(lines) {
        Err(e) => Err(e),
        Ok(()) => Ok(parser.writer().text()),
    }
}


proof fn lemma_code_labels(c: Command, l: u64, n: Seq<char>)
    requires
        l + labels_needed(c) <= u64::MAX,
    ensures
        labels_within(
            seq![Line::Comment(n)] + as_lines(code_of(c, l)),
            l as int,
            l + labels_needed(c),
        ),
        labels_unique(seq![Line::Comment(n)] + as_lines(code_of(c, l))),
{
    let o = seq![Line::Comment(n)] + as_lines(code_of(c, l));
    assert forall|k: int|
        0 <= k < o.len() && declared_label(#[trigger] o[k]) is Some implies l <= declared_label(o[k])->0 < l
        + labels_needed(c) by {
        assert(o[k] == if k == 0 { Line::Comment(n) } else { Line::<Seq<char>>::Code(code_of(c, l)[k - 1]) });
    }
    assert forall|i: int, j: int|
        0 <= i < j < o.len() && declared_label(#[trigger] o[i]) is Some
            && declared_label(#[trigger] o[j]) is Some implies declared_label(o[i]) != declared_label(o[j]) by {
        assert(o[i] == if i == 0 { Line::Comment(n) } else { Line::<Seq<char>>::Code(code_of(c, l)[i - 1]) });
        assert(o[j] == Line::<Seq<char>>::Code(code_of(c, l)[j - 1]));
    }
}

proof fn lemma_run_lines_labels(src: Seq<Seq<char>>)
    requires
        run_lines(src, seq![], 0) is Ok,
    ensures
        labels_unique(run_lines(src, seq![], 0)->Ok_0.0),
        labels_within(run_lines(src, seq![], 0)->Ok_0.0, 0, run_lines(src, seq![], 0)->Ok_0.1 as int),
    decreases src.len(),
{
    if src.len() > 0 {
        lemma_run_lines_labels(src.drop_last());
        let (o, l) = run_lines(src.drop_last(), seq![], 0)->Ok_0;
        match line_step(src.last(), l) {
            Ok(Some((code, l2))) => {
                let n = normalized(src.last());
                let c = command_of(tokens(n))->Ok_0;
                lemma_code_labels(c, l, n);
                let o2 = o + code;
                assert forall|k: int|
                    0 <= k < o2.len() && declared_label(#[trigger] o2[k]) is Some implies 0
                    <= declared_label(o2[k])->0 < l2 by {
                    if k < o.len() {
                        assert(o2[k] == o[k]);
                    } else {
                        assert(o2[k] == code[k - o.len()]);
                    }
                }
                assert forall|i: int, j: int|
                    0 <= i < j < o2.len() && declared_label(#[trigger] o2[i]) is Some
            && declared_label(#[trigger] o2[j]) is Some implies declared_label(o2[i]) != declared_label(o2[j]) by {
                    if j < o.len() {
                        assert(o2[i] == o[i] && o2[j] == o[j]);
                    } else if i < o.len() {
                        assert(o2[i] == o[i] && o2[j] == code[j - o.len()]);
                    } else {
                        assert(o2[i] == code[i - o.len()] && o2[j] == code[j - o.len()]);
                    }
                }
            },
            _ => {},
        }
    }
}

/// A translated program never declares the same label twice: each comparison
/// mints two labels that no other instruction of the program uses.
pub proof fn law_labels_unique(src: Seq<Seq<char>>)
    requires
        translation(src) is Ok,
    ensures
        labels_unique(translation(src)->Ok_0),
{
    lemma_run_lines_labels(src);
}

} // verus!
