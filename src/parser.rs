//! The line parser: a line of input becomes the stages of a pipeline.
//!
//! The meaning of a line is given by [`parse_spec`]: trim it, split it at
//! unquoted `|`, split each stage into words, and read the words.
use vstd::prelude::*;
use crate::text::{is_ws, is_whitespace_char, chars_of, string_of};

verus! {

/// One stage of a pipeline, as the parser produces it.
#[derive(Debug, Clone)]
pub struct Command {
    pub program: String,
    pub args: Vec<String>,
    pub input_redirect: Option<String>,
    pub output_redirect: Option<String>,
    pub append: bool,
    pub background: bool,
}

/// The mathematical value of a [`Command`].
pub struct CommandModel {
    pub program: Seq<char>,
    pub args: Seq<Seq<char>>,
    pub input_redirect: Option<Seq<char>>,
    pub output_redirect: Option<Seq<char>>,
    pub append: bool,
    pub background: bool,
}

pub open spec fn opt_text(o: Option<String>) -> Option<Seq<char>> {
    match o {
        Some(s) => Some(s@),
        None => None,
    }
}

impl View for Command {
    type V = CommandModel;

    open spec fn view(&self) -> CommandModel {
        CommandModel {
            program: self.program@,
            args: self.args.deep_view(),
            input_redirect: opt_text(self.input_redirect),
            output_redirect: opt_text(self.output_redirect),
            append: self.append,
            background: self.background,
        }
    }
}

pub open spec fn commands_view(v: Seq<Command>) -> Seq<CommandModel> {
    v.map_values(|c: Command| c@)
}

pub open spec fn seqs_of(v: Seq<Vec<char>>) -> Seq<Seq<char>> {
    v.map_values(|x: Vec<char>| x@)
}

// ---------------------------------------------------------------- trimming

pub open spec fn trim_start(s: Seq<char>) -> Seq<char>
    decreases s.len(),
{
    if s.len() > 0 && is_ws(s[0]) {
        trim_start(s.drop_first())
    } else {
        s
    }
}

pub open spec fn trim_end(s: Seq<char>) -> Seq<char>
    decreases s.len(),
{
    if s.len() > 0 && is_ws(s.last()) {
        trim_end(s.drop_last())
    } else {
        s
    }
}

/// `s` without leading and trailing white space.
pub open spec fn trim(s: Seq<char>) -> Seq<char> {
    trim_end(trim_start(s))
}

// ------------------------------------------------------------ pipe splitting

pub open spec fn is_quote(c: char) -> bool {
    c == '"' || c == '\''
}

/// The open quote after reading `c`: a quote opens a span that only the same
/// quote character closes.
pub open spec fn quote_after(q: Option<char>, c: char) -> Option<char> {
    match q {
        None => if is_quote(c) { Some(c) } else { None },
        Some(o) => if c == o { None } else { q },
    }
}

pub struct SplitState {
    pub segs: Seq<Seq<char>>,
    pub cur: Seq<char>,
    pub quote: Option<char>,
}

pub open spec fn split_step(st: SplitState, c: char) -> SplitState {
    if st.quote is None && c == '|' {
        SplitState { segs: st.segs.push(st.cur), cur: Seq::empty(), quote: None }
    } else {
        SplitState { segs: st.segs, cur: st.cur.push(c), quote: quote_after(st.quote, c) }
    }
}

pub open spec fn split_from(s: Seq<char>, i: int, st: SplitState) -> SplitState
    decreases s.len() - i,
{
    if 0 <= i < s.len() {
        split_from(s, i + 1, split_step(st, s[i]))
    } else {
        st
    }
}

/// The pieces of `s` between the `|` characters that stand outside quotes.
pub open spec fn pipe_segments(s: Seq<char>) -> Seq<Seq<char>> {
    let st = split_from(s, 0, SplitState { segs: Seq::empty(), cur: Seq::empty(), quote: None });
    st.segs.push(st.cur)
}

// -------------------------------------------------------------- tokenizing

pub struct TokState {
    pub parts: Seq<Seq<char>>,
    pub cur: Seq<char>,
    pub quote: Option<char>,
}

pub open spec fn tok_step(st: TokState, c: char) -> TokState {
    match st.quote {
        None => if is_quote(c) {
            TokState { parts: st.parts, cur: st.cur, quote: Some(c) }
        } else if is_ws(c) {
            if st.cur.len() > 0 {
                TokState { parts: st.parts.push(st.cur), cur: Seq::empty(), quote: None }
            } else {
                st
            }
        } else {
            TokState { parts: st.parts, cur: st.cur.push(c), quote: None }
        },
        Some(q) => if c == q {
            TokState { parts: st.parts, cur: st.cur, quote: None }
        } else {
            TokState { parts: st.parts, cur: st.cur.push(c), quote: st.quote }
        },
    }
}

pub open spec fn tok_from(s: Seq<char>, i: int, st: TokState) -> TokState
    decreases s.len() - i,
{
    if 0 <= i < s.len() {
        tok_from(s, i + 1, tok_step(st, s[i]))
    } else {
        st
    }
}

/// The words of `s`: split at spaces outside quotes, quote characters removed;
/// an unterminated quote runs to the end.
pub open spec fn tokens(s: Seq<char>) -> Seq<Seq<char>> {
    let st = tok_from(s, 0, TokState { parts: Seq::empty(), cur: Seq::empty(), quote: None });
    if st.cur.len() > 0 {
        st.parts.push(st.cur)
    } else {
        st.parts
    }
}

// ---------------------------------------------------------- interpretation

pub open spec fn blank_model() -> CommandModel {
    CommandModel {
        program: Seq::empty(),
        args: Seq::empty(),
        input_redirect: None,
        output_redirect: None,
        append: false,
        background: false,
    }
}

/// Reads the words of one stage from position `i` on, into `acc`.
pub open spec fn interp_from(toks: Seq<Seq<char>>, i: int, acc: CommandModel) -> Result<
    CommandModel,
    Seq<char>,
>
    decreases toks.len() - i,
{
    if i < 0 || i >= toks.len() {
        Ok(acc)
    } else if toks[i] == seq!['<'] {
        if i + 1 < toks.len() {
            interp_from(toks, i + 2, CommandModel { input_redirect: Some(toks[i + 1]), ..acc })
        } else {
            Err("Missing input file after '<'"@)
        }
    } else if toks[i] == seq!['>'] {
        if i + 1 < toks.len() {
            interp_from(
                toks,
                i + 2,
                CommandModel { output_redirect: Some(toks[i + 1]), append: false, ..acc },
            )
        } else {
            Err("Missing output file after '>'"@)
        }
    } else if toks[i] == seq!['>', '>'] {
        if i + 1 < toks.len() {
            interp_from(
                toks,
                i + 2,
                CommandModel { output_redirect: Some(toks[i + 1]), append: true, ..acc },
            )
        } else {
            Err("Missing output file after '>>'"@)
        }
    } else if toks[i] == seq!['&'] {
        interp_from(toks, i + 1, CommandModel { background: true, ..acc })
    } else if acc.program.len() == 0 {
        interp_from(toks, i + 1, CommandModel { program: toks[i], ..acc })
    } else {
        interp_from(toks, i + 1, CommandModel { args: acc.args.push(toks[i]), ..acc })
    }
}

/// The command that the words of one stage make; `background` stands only
/// on the last stage of the line.
pub open spec fn stage_command(toks: Seq<Seq<char>>, is_last: bool) -> Result<
    CommandModel,
    Seq<char>,
> {
    match interp_from(toks, 0, blank_model()) {
        Err(e) => Err(e),
        Ok(m) => if m.program.len() == 0 {
            Err("No command specified"@)
        } else {
            Ok(CommandModel { background: m.background && is_last, ..m })
        },
    }
}

/// Builds the commands of the stages `segs[k..]`, after those in `acc`;
/// a stage without words is skipped.
pub open spec fn build_from(segs: Seq<Seq<char>>, k: int, acc: Seq<CommandModel>) -> Result<
    Seq<CommandModel>,
    Seq<char>,
>
    decreases segs.len() - k,
{
    if 0 <= k < segs.len() {
        let toks = tokens(segs[k]);
        if toks.len() == 0 {
            build_from(segs, k + 1, acc)
        } else {
            match stage_command(toks, k == segs.len() - 1) {
                Err(e) => Err(e),
                Ok(c) => build_from(segs, k + 1, acc.push(c)),
            }
        }
    } else {
        Ok(acc)
    }
}

/// The trimmed stages of a line.
pub open spec fn stages(line: Seq<char>) -> Seq<Seq<char>> {
    pipe_segments(trim(line)).map_values(|s: Seq<char>| trim(s))
}

pub open spec fn has_empty_stage(line: Seq<char>) -> bool {
    exists|k: int| 0 <= k < stages(line).len() && #[trigger] stages(line)[k].len() == 0
}

/// What parsing `line` gives: the commands of its stages, or the message of
/// the first error.
pub open spec fn parse_spec(line: Seq<char>) -> Result<Seq<CommandModel>, Seq<char>> {
    if trim(line).len() == 0 {
        Err("Empty command"@)
    } else if has_empty_stage(line) {
        Err("Missing command after pipe"@)
    } else {
        match build_from(stages(line), 0, Seq::empty()) {
            Err(e) => Err(e),
            Ok(cs) => if cs.len() == 0 {
                Err("No commands to execute"@)
            } else {
                Ok(cs)
            },
        }
    }
}

pub open spec fn parse_result_matches(r: Result<Vec<Command>, String>, line: Seq<char>) -> bool {
    match r {
        Ok(v) => parse_spec(line) == Ok::<Seq<CommandModel>, Seq<char>>(commands_view(v@)),
        Err(e) => parse_spec(line) == Err::<Seq<CommandModel>, Seq<char>>(e@),
    }
}

// -------------------------------------------------------------------- laws

/// A line with an unquoted `|` and an empty stage beside one is rejected
/// with a missing-command error: a dangling pipe is never dropped.
pub proof fn lemma_dangling_pipe_rejected(line: Seq<char>)
    requires
        stages(line).len() > 1,
        has_empty_stage(line),
    ensures
        parse_spec(line) == Err::<Seq<CommandModel>, Seq<char>>("Missing command after pipe"@),
{
    if trim(line).len() == 0 {
        let init = SplitState { segs: Seq::empty(), cur: Seq::empty(), quote: None };
        assert(split_from(trim(line), 0, init) == init);
        assert(pipe_segments(trim(line)).len() == 1);
    }
}

/// The operator words of a stage.
pub open spec fn is_operator(w: Seq<char>) -> bool {
    w == seq!['<'] || w == seq!['>'] || w == seq!['>', '>'] || w == seq!['&']
}

/// Reading a run of ordinary words changes only the program and arguments,
/// and sets the program if the run is not empty.
proof fn lemma_word_run(toks: Seq<Seq<char>>, i: int, j: int, acc: CommandModel) -> (out:
    CommandModel)
    requires
        0 <= i <= j <= toks.len(),
        forall|k: int| i <= k < j ==> !is_operator(#[trigger] toks[k]) && toks[k].len() > 0,
    ensures
        interp_from(toks, i, acc) == interp_from(toks, j, out),
        out.input_redirect == acc.input_redirect,
        out.output_redirect == acc.output_redirect,
        out.append == acc.append,
        out.background == acc.background,
        (acc.program.len() > 0 || i < j) ==> out.program.len() > 0,
    decreases j - i,
{
    if i == j {
        acc
    } else {
        assert(!is_operator(toks[i]));
        let next = if acc.program.len() == 0 {
            CommandModel { program: toks[i], ..acc }
        } else {
            CommandModel { args: acc.args.push(toks[i]), ..acc }
        };
        assert(interp_from(toks, i, acc) == interp_from(toks, i + 1, next));
        lemma_word_run(toks, i + 1, j, next)
    }
}

/// `>>` always asks for appending and `>` always for truncating: in a stage
/// whose only operator is one output redirection, the command gets that file
/// in that mode.
pub proof fn lemma_redirect_mode(toks: Seq<Seq<char>>, j: int, is_last: bool)
    requires
        0 <= j,
        j + 1 < toks.len(),
        toks[j] == seq!['>'] || toks[j] == seq!['>', '>'],
        forall|k: int|
            0 <= k < toks.len() && k != j && k != j + 1 ==> !is_operator(#[trigger] toks[k])
                && toks[k].len() > 0,
        j > 0 || j + 2 < toks.len(),
    ensures
        stage_command(toks, is_last) matches Ok(m) && m.output_redirect == Some(toks[j + 1])
            && m.append == (toks[j] == seq!['>', '>']),
{
    let a1 = lemma_word_run(toks, 0, j, blank_model());
    assert(toks[j] != seq!['<']) by {
        assert(toks[j][0] != '<');
    }
    let appending = toks[j] == seq!['>', '>'];
    if appending {
        assert(toks[j] != seq!['>']) by {
            assert(toks[j].len() != 1);
        }
    }
    let a2 = CommandModel { output_redirect: Some(toks[j + 1]), append: appending, ..a1 };
    assert(interp_from(toks, j, a1) == interp_from(toks, j + 2, a2));
    let a3 = lemma_word_run(toks, j + 2, toks.len() as int, a2);
    assert(interp_from(toks, toks.len() as int, a3) == Ok::<CommandModel, Seq<char>>(a3));
}

/// Position of the last output redirection (`>` or `>>`) that reading the
/// words from `i` on takes as an operator, if any; operands are skipped as
/// the reader skips them.
pub open spec fn last_output_op(toks: Seq<Seq<char>>, i: int) -> Option<int>
    decreases toks.len() - i,
{
    if i < 0 || i >= toks.len() {
        None
    } else if toks[i] == seq!['<'] {
        if i + 1 < toks.len() {
            last_output_op(toks, i + 2)
        } else {
            None
        }
    } else if (toks[i] == seq!['>'] || toks[i] == seq!['>', '>']) && i + 1 < toks.len() {
        match last_output_op(toks, i + 2) {
            Some(k) => Some(k),
            None => Some(i),
        }
    } else {
        last_output_op(toks, i + 1)
    }
}

proof fn lemma_last_output_wins_from(toks: Seq<Seq<char>>, i: int, acc: CommandModel)
    requires
        0 <= i,
        interp_from(toks, i, acc) is Ok,
    ensures
        ({
            let m = interp_from(toks, i, acc)->Ok_0;
            match last_output_op(toks, i) {
                None => m.output_redirect == acc.output_redirect && m.append == acc.append,
                Some(j) => i <= j && j + 1 < toks.len() && m.output_redirect == Some(toks[j + 1])
                    && m.append == (toks[j] == seq!['>', '>']),
            }
        }),
    decreases toks.len() - i,
{
    if i < toks.len() {
        if toks[i] == seq!['<'] {
            lemma_last_output_wins_from(
                toks,
                i + 2,
                CommandModel { input_redirect: Some(toks[i + 1]), ..acc },
            );
        } else if toks[i] == seq!['>'] {
            lemma_last_output_wins_from(
                toks,
                i + 2,
                CommandModel { output_redirect: Some(toks[i + 1]), append: false, ..acc },
            );
        } else if toks[i] == seq!['>', '>'] {
            lemma_last_output_wins_from(
                toks,
                i + 2,
                CommandModel { output_redirect: Some(toks[i + 1]), append: true, ..acc },
            );
        } else if toks[i] == seq!['&'] {
            lemma_last_output_wins_from(toks, i + 1, CommandModel { background: true, ..acc });
        } else if acc.program.len() == 0 {
            lemma_last_output_wins_from(toks, i + 1, CommandModel { program: toks[i], ..acc });
        } else {
            lemma_last_output_wins_from(toks, i + 1, CommandModel { args: acc.args.push(toks[i]), ..acc });
        }
    }
}

/// `>>` always asks for appending and `>` always for truncating, a later
/// redirection overriding an earlier one: in every stage that reads
/// successfully, the output file and mode are those of the last output
/// operator read, and with none there is no output file.
pub proof fn lemma_last_output_redirect_wins(toks: Seq<Seq<char>>, is_last: bool)
    requires
        stage_command(toks, is_last) is Ok,
    ensures
        ({
            let m = stage_command(toks, is_last)->Ok_0;
            match last_output_op(toks, 0) {
                None => m.output_redirect is None && !m.append,
                Some(j) => 0 <= j && j + 1 < toks.len() && m.output_redirect == Some(toks[j + 1])
                    && (toks[j] == seq!['>', '>'] ==> m.append) && (toks[j] == seq!['>'] ==> !m.append),
            }
        }),
{
    lemma_last_output_wins_from(toks, 0, blank_model());
    if last_output_op(toks, 0) is Some {
        let j = last_output_op(toks, 0)->Some_0;
        if toks[j] == seq!['>'] {
            assert(toks[j] != seq!['>', '>']) by {
                assert(toks[j].len() != 2);
            }
        }
    }
}

/// `c` has the output file and mode of the last output operator read in
/// `toks`, and none when none is read.
pub open spec fn output_from_last_op(c: CommandModel, toks: Seq<Seq<char>>) -> bool {
    match last_output_op(toks, 0) {
        None => c.output_redirect is None && !c.append,
        Some(o) => c.output_redirect == Some(toks[o + 1]) && c.append == (toks[o] == seq!['>', '>']),
    }
}

/// `c` is what the words of stage `j` of `segs` read to.
pub open spec fn from_stage(segs: Seq<Seq<char>>, j: int, c: CommandModel) -> bool {
    &&& 0 <= j < segs.len()
    &&& stage_command(tokens(segs[j]), j == segs.len() - 1) == Ok::<CommandModel, Seq<char>>(c)
}

/// `c` is what the words of some stage of `segs` read to.
pub open spec fn from_some_stage(segs: Seq<Seq<char>>, c: CommandModel) -> bool {
    exists|j: int| from_stage(segs, j, c)
}

proof fn lemma_build_from_stages(segs: Seq<Seq<char>>, k: int, acc: Seq<CommandModel>)
    requires
        0 <= k,
        build_from(segs, k, acc) is Ok,
        forall|i: int| 0 <= i < acc.len() ==> from_some_stage(segs, #[trigger] acc[i]),
    ensures
        ({
            let cs = build_from(segs, k, acc)->Ok_0;
            forall|i: int| 0 <= i < cs.len() ==> from_some_stage(segs, #[trigger] cs[i])
        }),
    decreases segs.len() - k,
{
    if k < segs.len() {
        let toks = tokens(segs[k]);
        if toks.len() == 0 {
            lemma_build_from_stages(segs, k + 1, acc);
        } else {
            let c = stage_command(toks, k == segs.len() - 1)->Ok_0;
            let acc2 = acc.push(c);
            assert forall|i: int| 0 <= i < acc2.len() implies from_some_stage(segs, #[trigger] acc2[i]) by {
                if i < acc.len() {
                    assert(acc2[i] == acc[i]);
                } else {
                    assert(from_stage(segs, k, acc2[i]));
                }
            }
            lemma_build_from_stages(segs, k + 1, acc2);
        }
    }
}

/// `c` is what some stage of `segs` reads to, with the output file and mode
/// of the last output operator read there.
pub open spec fn redirect_from_stage(segs: Seq<Seq<char>>, c: CommandModel) -> bool {
    exists|j: int| from_stage(segs, j, c) && output_from_last_op(c, tokens(segs[j]))
}

/// Over whole lines: every command of a parsed line takes its output file
/// and mode from the last output operator read in its stage: `>>` appends,
/// `>` truncates, and a later one overrides an earlier one.
pub proof fn lemma_line_output_redirects(line: Seq<char>)
    requires
        parse_spec(line) is Ok,
    ensures
        ({
            let cs = parse_spec(line)->Ok_0;
            forall|i: int| 0 <= i < cs.len() ==> redirect_from_stage(stages(line), #[trigger] cs[i])
        }),
{
    let segs = stages(line);
    lemma_build_from_stages(segs, 0, Seq::empty());
    let cs = parse_spec(line)->Ok_0;
    assert(cs == build_from(segs, 0, Seq::empty())->Ok_0);
    assert forall|i: int| 0 <= i < cs.len() implies redirect_from_stage(segs, #[trigger] cs[i]) by {
        assert(from_some_stage(segs, cs[i]));
        let j = choose|j: int| from_stage(segs, j, cs[i]);
        let toks = tokens(segs[j]);
        lemma_last_output_redirect_wins(toks, j == segs.len() - 1);
        if last_output_op(toks, 0) is Some {
            let o = last_output_op(toks, 0)->Some_0;
            if toks[o] != seq!['>', '>'] {
                assert(toks[o] == seq!['>']) by {
                    lemma_last_output_op_is_output(toks, 0);
                }
            }
        }
        assert(output_from_last_op(cs[i], toks));
        assert(from_stage(segs, j, cs[i]));
    }
}

proof fn lemma_last_output_op_is_output(toks: Seq<Seq<char>>, i: int)
    requires
        last_output_op(toks, i) is Some,
    ensures
        ({
            let o = last_output_op(toks, i)->Some_0;
            0 <= o < toks.len() && (toks[o] == seq!['>'] || toks[o] == seq!['>', '>'])
        }),
    decreases toks.len() - i,
{
    if 0 <= i < toks.len() {
        if toks[i] == seq!['<'] {
            lemma_last_output_op_is_output(toks, i + 2);
        } else if (toks[i] == seq!['>'] || toks[i] == seq!['>', '>']) && i + 1 < toks.len() {
            if last_output_op(toks, i + 2) is Some {
                lemma_last_output_op_is_output(toks, i + 2);
            }
        } else {
            lemma_last_output_op_is_output(toks, i + 1);
        }
    }
}

/// Reading characters that neither split nor open or close a quote adds them
/// to the current word.
proof fn lemma_literal_run(s: Seq<char>, i: int, j: int, st: TokState)
    requires
        0 <= i <= j <= s.len(),
        forall|k: int|
            i <= k < j ==> match st.quote {
                None => !is_ws(#[trigger] s[k]) && !is_quote(s[k]),
                Some(q) => s[k] != q,
            },
    ensures
        tok_from(s, i, st) == tok_from(
            s,
            j,
            TokState { parts: st.parts, cur: st.cur + s.subrange(i, j), quote: st.quote },
        ),
    decreases j - i,
{
    if i == j {
        assert(st.cur + s.subrange(i, j) =~= st.cur);
    } else {
        let next = TokState { parts: st.parts, cur: st.cur.push(s[i]), quote: st.quote };
        assert(tok_step(st, s[i]) == next);
        lemma_literal_run(s, i + 1, j, next);
        assert(next.cur + s.subrange(i + 1, j) =~= st.cur + s.subrange(i, j));
    }
}

/// A quoted span keeps its white space as one word: a word followed by a
/// space and a span in either quote gives exactly two words, the second
/// being the span's contents.
pub proof fn lemma_quoted_span_is_one_word(p: Seq<char>, q: char, w: Seq<char>)
    requires
        p.len() > 0,
        forall|k: int| 0 <= k < p.len() ==> !is_ws(#[trigger] p[k]) && !is_quote(p[k]),
        is_quote(q),
        w.len() > 0,
        forall|k: int| 0 <= k < w.len() ==> #[trigger] w[k] != q,
    ensures
        tokens(p + seq![' ', q] + w + seq![q]) == seq![p, w],
{
    let s = p + seq![' ', q] + w + seq![q];
    let lp = p.len() as int;
    let lw = w.len() as int;
    let init = TokState { parts: Seq::empty(), cur: Seq::empty(), quote: None };
    assert forall|k: int| 0 <= k < lp implies !is_ws(#[trigger] s[k]) && !is_quote(s[k]) by {
        assert(s[k] == p[k]);
    }
    lemma_literal_run(s, 0, lp, init);
    assert(Seq::<char>::empty() + s.subrange(0, lp) =~= p);
    let st1 = TokState { parts: Seq::empty(), cur: p, quote: None };
    assert(s[lp] == ' ');
    let st2 = TokState { parts: seq![p], cur: Seq::empty(), quote: None };
    assert(tok_step(st1, s[lp]) == st2) by {
        assert(Seq::<Seq<char>>::empty().push(p) =~= seq![p]);
    }
    assert(s[lp + 1] == q);
    let st3 = TokState { parts: seq![p], cur: Seq::empty(), quote: Some(q) };
    assert(tok_step(st2, s[lp + 1]) == st3);
    assert forall|k: int| lp + 2 <= k < lp + 2 + lw implies #[trigger] s[k] != q by {
        assert(s[k] == w[k - lp - 2]);
    }
    lemma_literal_run(s, lp + 2, lp + 2 + lw, st3);
    assert(Seq::<char>::empty() + s.subrange(lp + 2, lp + 2 + lw) =~= w);
    let st4 = TokState { parts: seq![p], cur: w, quote: Some(q) };
    assert(s[lp + 2 + lw] == q);
    let st5 = TokState { parts: seq![p], cur: w, quote: None };
    assert(tok_step(st4, s[lp + 2 + lw]) == st5);
    assert(s.len() == lp + 3 + lw);
    assert(tok_from(s, 0, init) == tok_from(s, lp, st1));
    assert(tok_from(s, lp, st1) == tok_from(s, lp + 1, st2));
    assert(tok_from(s, lp + 1, st2) == tok_from(s, lp + 2, st3));
    assert(tok_from(s, lp + 2, st3) == tok_from(s, lp + 2 + lw, st4));
    assert(tok_from(s, lp + 2 + lw, st4) == tok_from(s, lp + 3 + lw, st5));
    assert(tok_from(s, lp + 3 + lw, st5) == st5);
    assert(seq![p].push(w) =~= seq![p, w]);
}

/// Words joined by single spaces.
pub open spec fn join_words(ws: Seq<Seq<char>>) -> Seq<char>
    decreases ws.len(),
{
    if ws.len() == 0 {
        Seq::empty()
    } else if ws.len() == 1 {
        ws[0]
    } else {
        join_words(ws.drop_last()) + seq![' '] + ws.last()
    }
}

/// Characters that carry no meaning for the parser.
pub open spec fn word_char(c: char) -> bool {
    !is_ws(c) && !is_quote(c) && c != '|'
}

/// A word that parses as itself: not empty, made of [`word_char`]s, no operator.
pub open spec fn is_plain_word(w: Seq<char>) -> bool {
    &&& w.len() > 0
    &&& forall|k: int| 0 <= k < w.len() ==> word_char(#[trigger] w[k])
    &&& !is_operator(w)
}

/// Words that the tokenizer reads as they are.
pub open spec fn literal_words(ws: Seq<Seq<char>>) -> bool {
    forall|i: int|
        0 <= i < ws.len() ==> #[trigger] ws[i].len() > 0 && forall|k: int|
            0 <= k < ws[i].len() ==> word_char(#[trigger] ws[i][k])
}

proof fn lemma_tok_shift(a: Seq<char>, b: Seq<char>, k: int, st: TokState)
    requires
        0 <= k <= b.len(),
    ensures
        tok_from(a + b, a.len() + k, st) == tok_from(b, k, st),
    decreases b.len() - k,
{
    if k < b.len() {
        assert((a + b)[a.len() + k] == b[k]);
        lemma_tok_shift(a, b, k + 1, tok_step(st, b[k]));
    }
}

proof fn lemma_tok_concat(a: Seq<char>, b: Seq<char>, i: int, st: TokState)
    requires
        0 <= i <= a.len(),
    ensures
        tok_from(a + b, i, st) == tok_from(b, 0, tok_from(a, i, st)),
    decreases a.len() - i,
{
    if i == a.len() {
        lemma_tok_shift(a, b, 0, st);
    } else {
        assert((a + b)[i] == a[i]);
        lemma_tok_concat(a, b, i + 1, tok_step(st, a[i]));
    }
}

proof fn lemma_join_chars(ws: Seq<Seq<char>>)
    requires
        literal_words(ws),
    ensures
        forall|k: int| 0 <= k < join_words(ws).len() ==> #[trigger] join_words(ws)[k] == ' ' || word_char(join_words(ws)[k]),
        ws.len() > 0 ==> join_words(ws).len() > 0 && join_words(ws)[0] == ws[0][0]
            && join_words(ws).last() == ws.last().last(),
    decreases ws.len(),
{
    if ws.len() > 1 {
        let front = ws.drop_last();
        assert(literal_words(front)) by {
            assert forall|i: int| 0 <= i < front.len() implies #[trigger] front[i].len() > 0 && forall|k: int|
                0 <= k < front[i].len() ==> word_char(#[trigger] front[i][k]) by {
                assert(front[i] == ws[i]);
            }
        }
        lemma_join_chars(front);
        let j = join_words(front);
        let l = ws.last();
        assert(l.len() > 0 && forall|k: int| 0 <= k < l.len() ==> word_char(#[trigger] l[k])) by {
            assert(ws[ws.len() - 1] == l);
        }
        assert forall|k: int| 0 <= k < join_words(ws).len() implies #[trigger] join_words(ws)[k] == ' ' || word_char(join_words(ws)[k]) by {
            if k < j.len() {
                assert(join_words(ws)[k] == j[k]);
            } else if k == j.len() {
            } else {
                assert(join_words(ws)[k] == l[k - j.len() - 1]);
            }
        }
        assert(front[0] == ws[0]);
    }
}

proof fn lemma_tokens_of_join(ws: Seq<Seq<char>>)
    requires
        ws.len() > 0,
        literal_words(ws),
    ensures
        tok_from(join_words(ws), 0, TokState { parts: Seq::empty(), cur: Seq::empty(), quote: None })
            == (TokState { parts: ws.drop_last(), cur: ws.last(), quote: None }),
    decreases ws.len(),
{
    let init = TokState { parts: Seq::empty(), cur: Seq::empty(), quote: None };
    let l = ws.last();
    assert(l.len() > 0 && forall|k: int| 0 <= k < l.len() ==> word_char(#[trigger] l[k])) by {
        assert(ws[ws.len() - 1] == l);
    }
    if ws.len() == 1 {
        lemma_literal_run(ws[0], 0, ws[0].len() as int, init);
        assert(Seq::<char>::empty() + ws[0].subrange(0, ws[0].len() as int) =~= ws[0]);
        assert(ws.drop_last() =~= Seq::<Seq<char>>::empty());
    } else {
        let front = ws.drop_last();
        assert(literal_words(front)) by {
            assert forall|i: int| 0 <= i < front.len() implies #[trigger] front[i].len() > 0 && forall|k: int|
                0 <= k < front[i].len() ==> word_char(#[trigger] front[i][k]) by {
                assert(front[i] == ws[i]);
            }
        }
        lemma_tokens_of_join(front);
        let j = join_words(front);
        let st1 = TokState { parts: front.drop_last(), cur: front.last(), quote: None };
        assert(front.last().len() > 0) by {
            assert(front[front.len() - 1] == front.last());
        }
        lemma_tok_concat(j, seq![' '], 0, init);
        let st2 = TokState { parts: front, cur: Seq::empty(), quote: None };
        assert(tok_step(st1, ' ') == st2) by {
            assert(front.drop_last().push(front.last()) =~= front);
        }
        assert(tok_from(seq![' '], 0, st1) == tok_from(seq![' '], 1, st2));
        lemma_tok_concat(j + seq![' '], l, 0, init);
        lemma_literal_run(l, 0, l.len() as int, st2);
        assert(Seq::<char>::empty() + l.subrange(0, l.len() as int) =~= l);
    }
}

proof fn lemma_split_run(s: Seq<char>, i: int, st: SplitState)
    requires
        0 <= i <= s.len(),
        st.quote is None,
        forall|k: int| i <= k < s.len() ==> #[trigger] s[k] != '|' && !is_quote(s[k]),
    ensures
        split_from(s, i, st) == (SplitState { segs: st.segs, cur: st.cur + s.subrange(i, s.len() as int), quote: None }),
    decreases s.len() - i,
{
    if i == s.len() {
        assert(st.cur + s.subrange(i, s.len() as int) =~= st.cur);
    } else {
        let next = SplitState { segs: st.segs, cur: st.cur.push(s[i]), quote: None };
        assert(split_step(st, s[i]) == next);
        lemma_split_run(s, i + 1, next);
        assert(next.cur + s.subrange(i + 1, s.len() as int) =~= st.cur + s.subrange(i, s.len() as int));
    }
}

/// A line `program arg1 arg2 < in > out` made of plain words parses to
/// exactly one command, with those arguments and files and `append` off.
pub proof fn lemma_simple_command_line(
    prog: Seq<char>,
    a1: Seq<char>,
    a2: Seq<char>,
    inp: Seq<char>,
    out: Seq<char>,
)
    requires
        is_plain_word(prog),
        is_plain_word(a1),
        is_plain_word(a2),
        is_plain_word(inp),
        is_plain_word(out),
    ensures
        parse_spec(join_words(seq![prog, a1, a2, seq!['<'], inp, seq!['>'], out])) == Ok::<
            Seq<CommandModel>,
            Seq<char>,
        >(
            seq![
                CommandModel {
                    program: prog,
                    args: seq![a1, a2],
                    input_redirect: Some(inp),
                    output_redirect: Some(out),
                    append: false,
                    background: false,
                },
            ],
        ),
{
    let ws = seq![prog, a1, a2, seq!['<'], inp, seq!['>'], out];
    let line = join_words(ws);
    assert(literal_words(ws)) by {
        assert forall|i: int| 0 <= i < ws.len() implies #[trigger] ws[i].len() > 0 && forall|k: int|
            0 <= k < ws[i].len() ==> word_char(#[trigger] ws[i][k]) by {
            if i == 3 || i == 5 {
                assert forall|k: int| 0 <= k < ws[i].len() implies word_char(#[trigger] ws[i][k]) by {
                    assert(k == 0);
                }
            }
        }
    }
    lemma_join_chars(ws);
    assert(ws[0][0] == prog[0]);
    assert(ws.last().last() == out[out.len() - 1]);
    // the line is already trimmed
    assert(trim_start(line) == line);
    assert(trim_end(line) == line);
    assert(trim(line) == line);
    // no unquoted pipe
    let init = SplitState { segs: Seq::empty(), cur: Seq::empty(), quote: None };
    lemma_split_run(line, 0, init);
    assert(Seq::<char>::empty() + line.subrange(0, line.len() as int) =~= line);
    assert(pipe_segments(line) =~= seq![line]);
    assert(stages(line) =~= seq![line]);
    assert(!has_empty_stage(line));
    // its words
    lemma_tokens_of_join(ws);
    assert(ws.drop_last().push(ws.last()) =~= ws);
    assert(tokens(line) == ws);
    // their reading
    let m0 = blank_model();
    let m1 = CommandModel { program: prog, ..m0 };
    let m2 = CommandModel { args: seq![a1], ..m1 };
    let m3 = CommandModel { args: seq![a1, a2], ..m1 };
    let m4 = CommandModel { input_redirect: Some(inp), ..m3 };
    let m5 = CommandModel { output_redirect: Some(out), append: false, ..m4 };
    assert(!is_operator(ws[0]) && !is_operator(ws[1]) && !is_operator(ws[2]));
    assert(interp_from(ws, 0, m0) == interp_from(ws, 1, m1));
    assert(Seq::<Seq<char>>::empty().push(a1) =~= seq![a1]);
    assert(interp_from(ws, 1, m1) == interp_from(ws, 2, m2));
    assert(seq![a1].push(a2) =~= seq![a1, a2]);
    assert(interp_from(ws, 2, m2) == interp_from(ws, 3, m3));
    assert(interp_from(ws, 3, m3) == interp_from(ws, 5, m4));
    assert(seq!['>'] != seq!['<']) by {
        assert(seq!['>'][0] != seq!['<'][0]);
    }
    assert(interp_from(ws, 5, m4) == interp_from(ws, 7, m5));
    assert(interp_from(ws, 7, m5) == Ok::<CommandModel, Seq<char>>(m5));
    assert(stage_command(ws, true) == Ok::<CommandModel, Seq<char>>(m5));
    assert(build_from(seq![line], 1, seq![m5]) == Ok::<Seq<CommandModel>, Seq<char>>(seq![m5]));
    assert(Seq::<CommandModel>::empty().push(m5) =~= seq![m5]);
    assert(build_from(seq![line], 0, Seq::empty()) == build_from(seq![line], 1, seq![m5]));
}

/// Reading characters that neither split nor open or close a quote adds them
/// to the current piece.
proof fn lemma_split_literal(s: Seq<char>, i: int, j: int, st: SplitState)
    requires
        0 <= i <= j <= s.len(),
        forall|k: int|
            i <= k < j ==> match st.quote {
                None => #[trigger] s[k] != '|' && !is_quote(s[k]),
                Some(q) => s[k] != q,
            },
    ensures
        split_from(s, i, st) == split_from(
            s,
            j,
            SplitState { segs: st.segs, cur: st.cur + s.subrange(i, j), quote: st.quote },
        ),
    decreases j - i,
{
    if i == j {
        assert(st.cur + s.subrange(i, j) =~= st.cur);
    } else {
        let next = SplitState { segs: st.segs, cur: st.cur.push(s[i]), quote: st.quote };
        assert(split_step(st, s[i]) == next);
        lemma_split_literal(s, i + 1, j, next);
        assert(next.cur + s.subrange(i + 1, j) =~= st.cur + s.subrange(i, j));
    }
}

/// A line `program "span"` (or with single quotes) parses to one command
/// whose one argument is the span, white space and all.
pub proof fn lemma_quoted_argument_line(p: Seq<char>, q: char, w: Seq<char>)
    requires
        is_plain_word(p),
        is_quote(q),
        w.len() > 0,
        forall|k: int| 0 <= k < w.len() ==> #[trigger] w[k] != q,
        !is_operator(w),
    ensures
        parse_spec(p + seq![' ', q] + w + seq![q]) == Ok::<Seq<CommandModel>, Seq<char>>(
            seq![
                CommandModel {
                    program: p,
                    args: seq![w],
                    input_redirect: None,
                    output_redirect: None,
                    append: false,
                    background: false,
                },
            ],
        ),
{
    let line = p + seq![' ', q] + w + seq![q];
    let lp = p.len() as int;
    let lw = w.len() as int;
    assert(line.len() == lp + 3 + lw);
    assert(line[0] == p[0]);
    assert(word_char(p[0]));
    assert(line.last() == q);
    assert(trim_start(line) == line);
    assert(trim_end(line) == line);
    assert(trim(line) == line);
    // one piece: the only `|` can stand inside the quotes
    let init = SplitState { segs: Seq::empty(), cur: Seq::empty(), quote: None };
    assert forall|k: int| 0 <= k < lp + 1 implies #[trigger] line[k] != '|' && !is_quote(line[k]) by {
        if k < lp {
            assert(line[k] == p[k]);
            assert(word_char(p[k]));
        }
    }
    lemma_split_literal(line, 0, lp + 1, init);
    let s1 = SplitState { segs: Seq::empty(), cur: line.subrange(0, lp + 1), quote: None };
    assert(Seq::<char>::empty() + line.subrange(0, lp + 1) =~= s1.cur);
    let s2 = SplitState { segs: Seq::empty(), cur: line.subrange(0, lp + 2), quote: Some(q) };
    assert(line[lp + 1] == q);
    assert(s1.cur.push(q) =~= s2.cur);
    assert(split_step(s1, line[lp + 1]) == s2);
    assert forall|k: int| lp + 2 <= k < lp + 2 + lw implies #[trigger] line[k] != q by {
        assert(line[k] == w[k - lp - 2]);
    }
    lemma_split_literal(line, lp + 2, lp + 2 + lw, s2);
    let s3 = SplitState { segs: Seq::empty(), cur: line.subrange(0, lp + 2 + lw), quote: Some(q) };
    assert(s2.cur + line.subrange(lp + 2, lp + 2 + lw) =~= s3.cur);
    let s4 = SplitState { segs: Seq::empty(), cur: line, quote: None };
    assert(s3.cur.push(q) =~= line);
    assert(split_step(s3, line[lp + 2 + lw]) == s4);
    assert(split_from(line, 0, init) == split_from(line, lp + 1, s1));
    assert(split_from(line, lp + 1, s1) == split_from(line, lp + 2, s2));
    assert(split_from(line, lp + 2, s2) == split_from(line, lp + 2 + lw, s3));
    assert(split_from(line, lp + 2 + lw, s3) == split_from(line, lp + 3 + lw, s4));
    assert(split_from(line, lp + 3 + lw, s4) == s4);
    assert(pipe_segments(line) =~= seq![line]);
    assert(stages(line) =~= seq![line]);
    assert(!has_empty_stage(line));
    // two words
    assert forall|k: int| 0 <= k < p.len() implies !is_ws(#[trigger] p[k]) && !is_quote(p[k]) by {
        assert(word_char(p[k]));
    }
    lemma_quoted_span_is_one_word(p, q, w);
    let ws = seq![p, w];
    assert(tokens(line) == ws);
    let m0 = blank_model();
    let m1 = CommandModel { program: p, ..m0 };
    let m2 = CommandModel { args: seq![w], ..m1 };
    assert(!is_operator(ws[0]) && !is_operator(ws[1]));
    assert(interp_from(ws, 0, m0) == interp_from(ws, 1, m1));
    assert(Seq::<Seq<char>>::empty().push(w) =~= seq![w]);
    assert(interp_from(ws, 1, m1) == interp_from(ws, 2, m2));
    assert(interp_from(ws, 2, m2) == Ok::<CommandModel, Seq<char>>(m2));
    assert(stage_command(ws, true) == Ok::<CommandModel, Seq<char>>(m2));
    assert(build_from(seq![line], 1, seq![m2]) == Ok::<Seq<CommandModel>, Seq<char>>(seq![m2]));
    assert(Seq::<CommandModel>::empty().push(m2) =~= seq![m2]);
    assert(build_from(seq![line], 0, Seq::empty()) == build_from(seq![line], 1, seq![m2]));
}

// ------------------------------------------------------------ executable

/// Bounds of `cs[a..b]` with white space cut from both ends.
fn trim_bounds(cs: &Vec<char>, a: usize, b: usize) -> (r: (usize, usize))
    requires
        a <= b <= cs@.len(),
    ensures
        a <= r.0 <= r.1 <= b,
        cs@.subrange(r.0 as int, r.1 as int) == trim(cs@.subrange(a as int, b as int)),
{
    let mut i = a;
    while i < b && is_whitespace_char(cs[i])
        invariant
            a <= i <= b <= cs@.len(),
            trim_start(cs@.subrange(a as int, b as int)) == trim_start(
                cs@.subrange(i as int, b as int),
            ),
        decreases b - i,
    {
        assert(cs@.subrange(i as int, b as int).drop_first() =~= cs@.subrange(
            i + 1,
            b as int,
        ));
        i += 1;
    }
    let mut j = b;
    while j > i && is_whitespace_char(cs[j - 1])
        invariant
            a <= i <= j <= b <= cs@.len(),
            trim_end(cs@.subrange(i as int, b as int)) == trim_end(
                cs@.subrange(i as int, j as int),
            ),
        decreases j - i,
    {
        assert(cs@.subrange(i as int, j as int).drop_last() =~= cs@.subrange(
            i as int,
            j - 1,
        ));
        j -= 1;
    }
    (i, j)
}

/// Bounds of `cs` with white space cut from both ends.
pub fn trim_range(cs: &Vec<char>) -> (r: (usize, usize))
    ensures
        r.0 <= r.1 <= cs@.len(),
        cs@.subrange(r.0 as int, r.1 as int) == trim(cs@),
{
    let r = trim_bounds(cs, 0, cs.len());
    assert(cs@.subrange(0, cs@.len() as int) =~= cs@);
    r
}

/// Bounds of the pieces of `t` between unquoted `|` characters.
fn pipe_bounds(t: &Vec<char>) -> (r: Vec<(usize, usize)>)
    ensures
        r@.len() == pipe_segments(t@).len(),
        forall|k: int|
            #![trigger r@[k]]
            0 <= k < r@.len() ==> r@[k].0 <= r@[k].1 <= t@.len() && t@.subrange(
                r@[k].0 as int,
                r@[k].1 as int,
            ) == pipe_segments(t@)[k],
{
    let ghost init = SplitState { segs: Seq::empty(), cur: Seq::empty(), quote: None };
    let ghost mut segs: Seq<Seq<char>> = Seq::empty();
    let mut r: Vec<(usize, usize)> = Vec::new();
    let mut start: usize = 0;
    let mut quote: Option<char> = None;
    let mut i: usize = 0;
    assert(t@.subrange(0, 0) =~= Seq::<char>::empty());
    while i < t.len()
        invariant
            start <= i <= t@.len(),
            r@.len() == segs.len(),
            forall|k: int|
                #![trigger r@[k]]
                0 <= k < r@.len() ==> r@[k].0 <= r@[k].1 <= t@.len() && t@.subrange(
                    r@[k].0 as int,
                    r@[k].1 as int,
                ) == segs[k],
            split_from(t@, 0, init) == split_from(
                t@,
                i as int,
                SplitState { segs, cur: t@.subrange(start as int, i as int), quote },
            ),
        decreases t@.len() - i,
    {
        let c = t[i];
        let ghost st = SplitState { segs, cur: t@.subrange(start as int, i as int), quote };
        if quote.is_none() && c == '|' {
            let ghost old_r = r@;
            let ghost old_segs = segs;
            r.push((start, i));
            proof {
                segs = segs.push(t@.subrange(start as int, i as int));
                assert forall|k: int| #![trigger r@[k]] 0 <= k < r@.len() implies r@[k].0 <= r@[k].1 <= t@.len()
                    && t@.subrange(r@[k].0 as int, r@[k].1 as int) == segs[k] by {
                    if k < old_r.len() {
                        assert(r@[k] == old_r[k]);
                        assert(segs[k] == old_segs[k]);
                    }
                }
            }
            start = i + 1;
            assert(t@.subrange(start as int, i + 1) =~= Seq::<char>::empty());
        } else {
            match quote {
                None => {
                    if c == '"' || c == '\'' {
                        quote = Some(c);
                    }
                },
                Some(o) => {
                    if c == o {
                        quote = None;
                    }
                },
            }
            assert(t@.subrange(start as int, i + 1) =~= t@.subrange(start as int, i as int).push(
                c,
            ));
        }
        assert(split_step(st, c) == SplitState {
            segs,
            cur: t@.subrange(start as int, i + 1),
            quote,
        });
        i += 1;
    }
    let ghost old_r = r@;
    let ghost old_segs = segs;
    r.push((start, t.len()));
    proof {
        segs = segs.push(t@.subrange(start as int, t@.len() as int));
        assert(segs == pipe_segments(t@));
        assert forall|k: int| #![trigger r@[k]] 0 <= k < r@.len() implies r@[k].0 <= r@[k].1 <= t@.len()
            && t@.subrange(r@[k].0 as int, r@[k].1 as int) == pipe_segments(t@)[k] by {
            if k < old_r.len() {
                assert(r@[k] == old_r[k]);
                assert(segs[k] == old_segs[k]);
            }
        }
    }
    r
}

/// The words of `t[a..b]`.
fn tokenize(t: &Vec<char>, a: usize, b: usize) -> (r: Vec<Vec<char>>)
    requires
        a <= b <= t@.len(),
    ensures
        seqs_of(r@) == tokens(t@.subrange(a as int, b as int)),
{
    let ghost s = t@.subrange(a as int, b as int);
    let ghost init = TokState { parts: Seq::empty(), cur: Seq::empty(), quote: None };
    let mut parts: Vec<Vec<char>> = Vec::new();
    let mut cur: Vec<char> = Vec::new();
    let mut quote: Option<char> = None;
    let mut i = a;
    assert(seqs_of(parts@) =~= Seq::<Seq<char>>::empty());
    while i < b
        invariant
            a <= i <= b <= t@.len(),
            s == t@.subrange(a as int, b as int),
            tok_from(s, 0, init) == tok_from(
                s,
                i - a,
                TokState { parts: seqs_of(parts@), cur: cur@, quote },
            ),
        decreases b - i,
    {
        let c = t[i];
        assert(s[i - a] == c);
        let ghost st = TokState { parts: seqs_of(parts@), cur: cur@, quote };
        match quote {
            None => {
                if c == '"' || c == '\'' {
                    quote = Some(c);
                } else if is_whitespace_char(c) {
                    if cur.len() > 0 {
                        let ghost before = parts@;
                        parts.push(cur);
                        cur = Vec::new();
                        assert(seqs_of(parts@) =~= seqs_of(before).push(st.cur));
                    }
                } else {
                    cur.push(c);
                }
            },
            Some(q) => {
                if c == q {
                    quote = None;
                } else {
                    cur.push(c);
                }
            },
        }
        assert(tok_step(st, c) == TokState { parts: seqs_of(parts@), cur: cur@, quote });
        i += 1;
    }
    if cur.len() > 0 {
        let ghost before = parts@;
        let ghost last = cur@;
        parts.push(cur);
        assert(seqs_of(parts@) =~= seqs_of(before).push(last));
    }
    parts
}

fn is_word(w: &Vec<char>, c: char) -> (r: bool)
    ensures
        r == (w@ == seq![c]),
{
    if w.len() == 1 && w[0] == c {
        assert(w@ =~= seq![c]);
        true
    } else {
        false
    }
}

fn is_append_word(w: &Vec<char>) -> (r: bool)
    ensures
        r == (w@ == seq!['>', '>']),
{
    if w.len() == 2 && w[0] == '>' && w[1] == '>' {
        assert(w@ =~= seq!['>', '>']);
        true
    } else {
        false
    }
}

fn text_of(w: &Vec<char>) -> (r: String)
    ensures
        r@ == w@,
{
    let r = string_of(w, 0, w.len());
    assert(w@.subrange(0, w@.len() as int) =~= w@);
    r
}

/// The command that the words `toks` of one stage make.
fn stage_command_of(toks: &Vec<Vec<char>>, is_last: bool) -> (r: Result<Command, String>)
    ensures
        match r {
            Ok(c) => stage_command(seqs_of(toks@), is_last) == Ok::<CommandModel, Seq<char>>(c@),
            Err(e) => stage_command(seqs_of(toks@), is_last) == Err::<CommandModel, Seq<char>>(
                e@,
            ),
        },
{
    let ghost ts = seqs_of(toks@);
    let mut acc = Command {
        program: String::new(),
        args: Vec::new(),
        input_redirect: None,
        output_redirect: None,
        append: false,
        background: false,
    };
    assert(acc@.args =~= Seq::<Seq<char>>::empty());
    assert(acc@ == blank_model());
    let mut i: usize = 0;
    while i < toks.len()
        invariant
            i <= toks@.len(),
            ts == seqs_of(toks@),
            interp_from(ts, 0, blank_model()) == interp_from(ts, i as int, acc@),
        decreases toks@.len() - i,
    {
        let w = &toks[i];
        assert(ts[i as int] == w@);
        if is_word(w, '<') {
            if i + 1 < toks.len() {
                assert(ts[i + 1] == toks@[i + 1]@);
                acc.input_redirect = Some(text_of(&toks[i + 1]));
                i += 2;
            } else {
                return Err("Missing input file after '<'".to_owned());
            }
        } else if is_word(w, '>') {
            if i + 1 < toks.len() {
                assert(ts[i + 1] == toks@[i + 1]@);
                acc.output_redirect = Some(text_of(&toks[i + 1]));
                acc.append = false;
                i += 2;
            } else {
                return Err("Missing output file after '>'".to_owned());
            }
        } else if is_append_word(w) {
            if i + 1 < toks.len() {
                assert(ts[i + 1] == toks@[i + 1]@);
                acc.output_redirect = Some(text_of(&toks[i + 1]));
                acc.append = true;
                i += 2;
            } else {
                return Err("Missing output file after '>>'".to_owned());
            }
        } else if is_word(w, '&') {
            acc.background = true;
            i += 1;
        } else if acc.program.as_str().is_empty() {
            acc.program = text_of(w);
            i += 1;
        } else {
            let ghost before = acc@.args;
            acc.args.push(text_of(w));
            assert(acc@.args =~= before.push(w@));
            i += 1;
        }
    }
    if acc.program.as_str().is_empty() {
        return Err("No command specified".to_owned());
    }
    acc.background = acc.background && is_last;
    Ok(acc)
}

/// Parses one input line into the stages of a pipeline.
///
/// The line is split at `|` characters outside quotes; each stage is split
/// into words at spaces outside quotes. `<`, `>` and `>>` take the next word
/// as a file, `&` marks the line for the background (honoured on the last
/// stage only), the first other word is the program and the rest are its
/// arguments. A stage without words is skipped.
pub fn parse_command(input: &str) -> (r: Result<Vec<Command>, String>)
    ensures
        parse_result_matches(r, input@),
{
    let cs = chars_of(input);
    let (ts, te) = trim_bounds(&cs, 0, cs.len());
    assert(cs@.subrange(0, cs@.len() as int) =~= cs@);
    if ts == te {
        return Err("Empty command".to_owned());
    }
    let line = input.substring_char(ts, te);
    let t = chars_of(line);
    assert(t@.len() > 0);
    let bounds = pipe_bounds(&t);
    let ghost segs = stages(input@);
    assert(segs.len() == bounds@.len());
    let mut tb: Vec<(usize, usize)> = Vec::new();
    let mut k: usize = 0;
    while k < bounds.len()
        invariant
            k <= bounds@.len(),
            t@ == trim(input@),
            t@.len() > 0,
            segs == stages(input@),
            segs.len() == bounds@.len(),
            forall|j: int|
                #![trigger bounds@[j]]
                0 <= j < bounds@.len() ==> bounds@[j].0 <= bounds@[j].1 <= t@.len()
                    && t@.subrange(bounds@[j].0 as int, bounds@[j].1 as int)
                    == pipe_segments(t@)[j],
            tb@.len() == k,
            forall|j: int|
                #![trigger tb@[j]]
                0 <= j < k ==> tb@[j].0 <= tb@[j].1 <= t@.len() && t@.subrange(
                    tb@[j].0 as int,
                    tb@[j].1 as int,
                ) == segs[j] && segs[j].len() > 0,
        decreases bounds@.len() - k,
    {
        let (a, b) = bounds[k];
        let (p, q) = trim_bounds(&t, a, b);
        assert(segs[k as int] == trim(pipe_segments(t@)[k as int]));
        if p == q {
            assert(segs[k as int].len() == 0);
            assert(has_empty_stage(input@));
            return Err("Missing command after pipe".to_owned());
        }
        tb.push((p, q));
        k += 1;
    }
    assert forall|j: int| 0 <= j < segs.len() implies #[trigger] segs[j].len() > 0 by {
        assert(tb@[j].0 <= tb@[j].1);
    }
    assert(!has_empty_stage(input@));
    let mut cmds: Vec<Command> = Vec::new();
    let last = tb.len() - 1;
    k = 0;
    assert(commands_view(cmds@) =~= Seq::<CommandModel>::empty());
    while k < tb.len()
        invariant
            k <= tb@.len(),
            t@ == trim(input@),
            t@.len() > 0,
            !has_empty_stage(input@),
            segs == stages(input@),
            last + 1 == tb@.len(),
            segs.len() == tb@.len(),
            forall|j: int|
                #![trigger tb@[j]]
                0 <= j < tb@.len() ==> tb@[j].0 <= tb@[j].1 <= t@.len() && t@.subrange(
                    tb@[j].0 as int,
                    tb@[j].1 as int,
                ) == segs[j] && segs[j].len() > 0,
            build_from(segs, 0, Seq::empty()) == build_from(segs, k as int, commands_view(cmds@)),
        decreases tb@.len() - k,
    {
        let (p, q) = tb[k];
        let toks = tokenize(&t, p, q);
        if toks.len() > 0 {
            match stage_command_of(&toks, k == last) {
                Err(e) => {
                    return Err(e);
                },
                Ok(c) => {
                    let ghost before = cmds@;
                    cmds.push(c);
                    assert(commands_view(cmds@) =~= commands_view(before).push(c@));
                },
            }
        }
        k += 1;
    }
    if cmds.len() == 0 {
        return Err("No commands to execute".to_owned());
    }
    Ok(cmds)
}

} // verus!
