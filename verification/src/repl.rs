//! The decisions of the Miden read-eval-print loop.
//!
//! The loop keeps the instructions entered so far. Each round it builds the
//! program from them and runs it (outside this library); a program that fails
//! to run loses its last instruction. Then it reads a line: a command
//! (`program`, `help`, `undo`, `stack` or `res`) or an instruction to add.
use vstd::prelude::*;
use crate::parser::{find_char, lemma_find_char};
use crate::text::{seq_join, string_views, join, string_from, copy_string, append_u64, str_eq};
use crate::u256::nat_to_dec;

verus! {

/// What running the program gave: the final stack, or the error's text.
pub enum RunOutcome {
    Stack(Vec<u64>),
    Failed(String),
}

/// What the loop does with a line read.
pub enum ReplAction {
    /// Shows the program of this round.
    ShowProgram(String),
    /// Shows the list of commands.
    ShowHelp(String),
    /// Removed this instruction.
    Undid(String),
    /// Shows what the last run gave.
    ShowStack(String),
    /// The line was added as an instruction.
    Added,
}

/// The loop's state.
pub struct ReplState {
    /// The instructions entered so far.
    pub lines: Vec<String>,
    /// What the last run gave, as shown by `stack`.
    pub result: String,
    /// The program built at the start of this round.
    pub program: String,
}

/// The fields of `s` separated by `c`.
pub open spec fn split_on(s: Seq<char>, c: char) -> Seq<Seq<char>>
    decreases s.len(),
{
    let i = find_char(s, 0, c);
    if i >= s.len() {
        seq![s]
    } else {
        proof {
            lemma_find_char(s, 0, c);
        }
        seq![s.take(i)] + split_on(s.skip(i + 1), c)
    }
}

/// The instruction that pushes the comma-separated values of `stack`, the
/// last value first, so that the first ends on top.
pub open spec fn stack_push_line(stack: Seq<char>) -> Seq<char> {
    let fields = split_on(stack, ',');
    seq_join(fields.reverse().map_values(|f: Seq<char>| "push."@ + f), " "@)
}

/// The program of a round: `begin`, each instruction indented by four
/// spaces on a line of its own, `end`.
pub open spec fn program_text(lines: Seq<Seq<char>>) -> Seq<char> {
    "begin\n"@ + seq_join(lines.map_values(|l: Seq<char>| "    "@ + l), "\n"@) + "\nend"@
}

/// The text run in a round: the user's procedures, the library procedures,
/// then the program.
pub open spec fn run_text(functions: Seq<char>, procs: Seq<char>, lines: Seq<Seq<char>>) -> Seq<char> {
    functions + "\n"@ + procs + "\n"@ + program_text(lines)
}

/// The stack as shown: a line break, then the values separated by spaces.
pub open spec fn stack_text(stack: Seq<u64>) -> Seq<char> {
    "\n"@ + seq_join(stack.map_values(|v: u64| nat_to_dec(v as nat)), " "@)
}

/// The words that are commands rather than instructions.
pub open spec fn is_command(line: Seq<char>) -> bool {
    line == "program"@ || line == "help"@ || line == "undo"@ || line == "stack"@ || line == "res"@
}

/// The instructions after a line is read: `undo` removes the last one, an
/// instruction is added, the other commands change nothing.
pub open spec fn lines_after_input(lines: Seq<Seq<char>>, line: Seq<char>) -> Seq<Seq<char>> {
    if line == "undo"@ {
        lines.drop_last()
    } else if is_command(line) {
        lines
    } else {
        lines.push(line)
    }
}

/// The instructions after a run: a failed run loses the last instruction.
pub open spec fn lines_after_run(lines: Seq<Seq<char>>, failed: bool) -> Seq<Seq<char>> {
    if lines.len() > 0 && failed {
        lines.drop_last()
    } else {
        lines
    }
}

/// The list of commands.
pub open spec fn help_text() -> Seq<char> {
    "Available commands:\n\nstack: display the stack\nundo: remove the last instruction\nprogram: display the program"@
}

pub open spec fn lines_view(ls: Seq<String>) -> Seq<Seq<char>> {
    ls.map_values(|l: String| l@)
}

/// The fields of `s` separated by `sep`.
pub(crate) fn split_fields(s: &str, sep: char) -> (r: Vec<String>)
    ensures
        string_views(r@) == split_on(s@, sep),
{
    let cs = crate::text::str_chars(s);
    let ghost whole = s@;
    let mut out: Vec<String> = Vec::new();
    let mut start: usize = 0;
    let mut i: usize = 0;
    proof {
        assert(whole.skip(0) =~= whole);
        assert(string_views(out@) + split_on(whole.skip(0), sep) =~= split_on(whole, sep));
    }
    while i < cs.len()
        invariant
            cs@ == whole,
            start <= i <= cs.len(),
            forall|k: int| start <= k < i ==> whole[k] != sep,
            string_views(out@) + split_on(whole.skip(start as int), sep) == split_on(whole, sep),
        decreases cs.len() - i,
    {
        if cs[i] == sep {
            let ghost rest = whole.skip(start as int);
            proof {
                lemma_find_char_first(rest, sep, (i - start) as int);
                assert(rest.take(i - start) =~= whole.subrange(start as int, i as int));
                assert(rest.skip(i - start + 1) =~= whole.skip(i + 1));
            }
            let mut piece: Vec<char> = Vec::new();
            let mut k = start;
            while k < i
                invariant
                    start <= k <= i < cs.len(),
                    cs@ == whole,
                    piece@ =~= whole.subrange(start as int, k as int),
                decreases i - k,
            {
                piece.push(cs[k]);
                k = k + 1;
            }
            let ghost out0 = string_views(out@);
            let p = crate::text::chars_to_string(piece.as_slice());
            out.push(p);
            proof {
                assert(string_views(out@) =~= out0.push(whole.subrange(start as int, i as int)));
                assert(string_views(out@) + split_on(whole.skip(i + 1), sep) =~= out0 + split_on(rest, sep));
            }
            start = i + 1;
        }
        i = i + 1;
    }
    let ghost rest = whole.skip(start as int);
    proof {
        lemma_find_char_first(rest, sep, rest.len() as int);
        assert(rest =~= whole.subrange(start as int, cs.len() as int));
    }
    let mut piece: Vec<char> = Vec::new();
    let mut k = start;
    while k < cs.len()
        invariant
            start <= k <= cs.len(),
            cs@ == whole,
            piece@ =~= whole.subrange(start as int, k as int),
        decreases cs.len() - k,
    {
        piece.push(cs[k]);
        k = k + 1;
    }
    let ghost out0 = string_views(out@);
    let p = crate::text::chars_to_string(piece.as_slice());
    out.push(p);
    proof {
        assert(string_views(out@) =~= out0.push(rest));
        assert(split_on(rest, sep) == seq![rest]);
        assert(string_views(out@) =~= out0 + split_on(rest, sep));
    }
    out
}

/// `find_char` stops at the first `c`.
proof fn lemma_find_char_first(s: Seq<char>, c: char, i: int)
    requires
        0 <= i <= s.len(),
        forall|k: int| 0 <= k < i ==> s[k] != c,
        i < s.len() ==> s[i] == c,
    ensures
        find_char(s, 0, c) == i,
{
    lemma_find_char_from(s, c, 0, i);
}

proof fn lemma_find_char_from(s: Seq<char>, c: char, j: int, i: int)
    requires
        0 <= j <= i <= s.len(),
        forall|k: int| j <= k < i ==> s[k] != c,
        i < s.len() ==> s[i] == c,
    ensures
        find_char(s, j, c) == i,
    decreases i - j,
{
    if j < i {
        lemma_find_char_from(s, c, j + 1, i);
    }
}

impl ReplState {
    /// A loop with no instructions, or with one that pushes the values of
    /// `stack` (separated by commas) when given.
    pub fn new(stack: Option<&str>) -> (r: ReplState)
        ensures
            lines_view(r.lines@) == match stack {
                Some(st) => seq![stack_push_line(st@)],
                None => Seq::<Seq<char>>::empty(),
            },
            r.result@ == Seq::<char>::empty(),
    {
        let mut lines: Vec<String> = Vec::new();
        match stack {
            Some(st) => {
                let fields = split_fields(st, ',');
                let ghost fv = string_views(fields@);
                let mut pushes: Vec<String> = Vec::new();
                let mut i = fields.len();
                while i > 0
                    invariant
                        i <= fields.len(),
                        fv == string_views(fields@),
                        pushes.len() == fields.len() - i,
                        forall|j: int| 0 <= j < pushes.len() ==> #[trigger] pushes@[j]@ == "push."@ + fv.reverse()[j],
                    decreases i,
                {
                    let mut p = string_from("push.");
                    p.append(fields[i - 1].as_str());
                    pushes.push(p);
                    i = i - 1;
                }
                proof {
                    assert(string_views(pushes@) =~= fv.reverse().map_values(|f: Seq<char>| "push."@ + f));
                }
                lines.push(join(&pushes, " "));
                proof {
                    assert(lines_view(lines@) =~= seq![stack_push_line(st@)]);
                }
            },
            None => {
                proof {
                    assert(lines_view(lines@) =~= Seq::<Seq<char>>::empty());
                }
            },
        }
        ReplState { lines, result: String::new(), program: String::new() }
    }

    /// Starts a round: builds the program from the instructions, clears the
    /// last result, and returns the text to run: `functions`, the library
    /// procedures `procs`, then the program.
    pub fn start_round(&mut self, functions: &str, procs: &str) -> (r: String)
        ensures
            final(self).lines@ == old(self).lines@,
            final(self).program@ == program_text(lines_view(old(self).lines@)),
            final(self).result@ == Seq::<char>::empty(),
            r@ == run_text(functions@, procs@, lines_view(old(self).lines@)),
    {
        let mut indented: Vec<String> = Vec::new();
        let ghost lv = lines_view(self.lines@);
        let mut i: usize = 0;
        while i < self.lines.len()
            invariant
                i <= self.lines.len(),
                lv == lines_view(self.lines@),
                indented.len() == i,
                forall|j: int| 0 <= j < i ==> #[trigger] indented@[j]@ == "    "@ + lv[j],
            decreases self.lines.len() - i,
        {
            let mut l = string_from("    ");
            l.append(self.lines[i].as_str());
            indented.push(l);
            i = i + 1;
        }
        proof {
            assert(string_views(indented@) =~= lv.map_values(|l: Seq<char>| "    "@ + l));
        }
        let body = join(&indented, "\n");
        let mut program = string_from("begin\n");
        program.append(body.as_str());
        program.append("\nend");
        let mut run = string_from(functions);
        run.append("\n");
        run.append(procs);
        run.append("\n");
        run.append(program.as_str());
        self.program = program;
        self.result = String::new();
        run
    }

    /// Records what running the program gave (when there are instructions):
    /// the stack to show, or the error, which removes the last instruction.
    /// Returns the text to show at once, for an error.
    pub fn record_run(&mut self, outcome: RunOutcome) -> (shown: Option<String>)
        ensures
            lines_view(final(self).lines@) == lines_after_run(lines_view(old(self).lines@), outcome is Failed),
            final(self).program == old(self).program,
            old(self).lines.len() == 0 ==> final(self).result == old(self).result && shown is None,
            old(self).lines.len() > 0 ==> match outcome {
                RunOutcome::Stack(st) => final(self).result@ == stack_text(st@) && shown is None,
                RunOutcome::Failed(msg) => final(self).result@ == "Error running program: "@ + msg@ && (shown
                    matches Some(t) && t@ == final(self).result@),
            },
    {
        if self.lines.len() == 0 {
            return None;
        }
        match outcome {
            RunOutcome::Stack(st) => {
                let mut texts: Vec<String> = Vec::new();
                let mut i: usize = 0;
                while i < st.len()
                    invariant
                        i <= st.len(),
                        texts.len() == i,
                        forall|j: int| 0 <= j < i ==> #[trigger] texts@[j]@ == nat_to_dec(st@[j] as nat),
                    decreases st.len() - i,
                {
                    texts.push(crate::text::u64_to_string(st[i]));
                    i = i + 1;
                }
                proof {
                    assert(string_views(texts@) =~= st@.map_values(|v: u64| nat_to_dec(v as nat)));
                }
                let joined = join(&texts, " ");
                let mut r = string_from("\n");
                r.append(joined.as_str());
                self.result = r;
                None
            },
            RunOutcome::Failed(msg) => {
                let mut r = string_from("Error running program: ");
                r.append(msg.as_str());
                let shown = copy_string(&r);
                self.result = r;
                let ghost l0 = self.lines@;
                self.lines.pop();
                proof {
                    assert(lines_view(self.lines@) =~= lines_view(l0).drop_last());
                }
                Some(shown)
            },
        }
    }

    /// Handles a line read: a command, or an instruction to add. `undo`
    /// needs an instruction to remove.
    pub fn handle_input(&mut self, line: &str) -> (action: ReplAction)
        requires
            line@ == "undo"@ ==> old(self).lines.len() > 0,
        ensures
            lines_view(final(self).lines@) == lines_after_input(lines_view(old(self).lines@), line@),
            final(self).result == old(self).result,
            final(self).program == old(self).program,
            line@ == "program"@ ==> (action matches ReplAction::ShowProgram(p) && p@ == old(self).program@),
            line@ == "help"@ ==> (action matches ReplAction::ShowHelp(h) && h@ == help_text()),
            line@ == "undo"@ ==> (action matches ReplAction::Undid(l) && l@ == lines_view(old(self).lines@).last()),
            (line@ == "stack"@ || line@ == "res"@) ==> (action matches ReplAction::ShowStack(s) && s@
                == old(self).result@),
            !is_command(line@) ==> action is Added,
    {
        proof {
            reveal_strlit("program");
            reveal_strlit("help");
            reveal_strlit("undo");
            reveal_strlit("stack");
            reveal_strlit("res");
        }
        let is_program = str_eq(line, "program");
        let is_help = str_eq(line, "help");
        let is_undo = str_eq(line, "undo");
        let is_stack = str_eq(line, "stack") || str_eq(line, "res");
        proof {
            assert("program"@[0] != "help"@[0]);
            assert("program"@[0] != "undo"@[0]);
            assert("help"@ != "undo"@);
            assert("stack"@ != "undo"@);
            assert("res"@ != "undo"@);
            assert("stack"@ != "program"@ && "stack"@ != "help"@);
            assert("res"@ != "program"@ && "res"@ != "help"@);
        }
        if is_program {
            ReplAction::ShowProgram(copy_string(&self.program))
        } else if is_help {
            ReplAction::ShowHelp(
                string_from(
                    "Available commands:\n\nstack: display the stack\nundo: remove the last instruction\nprogram: display the program",
                ),
            )
        } else if is_undo {
            let ghost l0 = self.lines@;
            let last = self.lines.pop().unwrap();
            proof {
                assert(lines_view(self.lines@) =~= lines_view(l0).drop_last());
                assert(lines_view(l0).last() == last@);
            }
            ReplAction::Undid(last)
        } else if is_stack {
            ReplAction::ShowStack(copy_string(&self.result))
        } else {
            let ghost l0 = self.lines@;
            self.lines.push(string_from(line));
            proof {
                assert(lines_view(self.lines@) =~= lines_view(l0).push(line@));
            }
            ReplAction::Added
        }
    }
}

/// An instruction that fails to run is not kept: adding it and then
/// recording a failed run leaves the instructions as they were.
pub proof fn law_failed_instruction_not_kept(lines: Seq<Seq<char>>, line: Seq<char>)
    requires
        !is_command(line),
    ensures
        lines_after_run(lines_after_input(lines, line), true) == lines,
{
    assert(lines.push(line).drop_last() =~= lines);
}

/// `undo` removes the instruction just added.
pub proof fn law_undo_removes_last(lines: Seq<Seq<char>>, line: Seq<char>)
    requires
        !is_command(line),
    ensures
        lines_after_input(lines_after_input(lines, line), "undo"@) == lines,
{
    assert(lines.push(line).drop_last() =~= lines);
}

/// A run that succeeds keeps every instruction.
pub proof fn law_successful_run_keeps_instructions(lines: Seq<Seq<char>>)
    ensures
        lines_after_run(lines, false) == lines,
{
}

} // verus!
