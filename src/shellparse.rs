//! Tokenizer for shell-like command lines: quoting, escaping and leading
//! `VAR=value` assignments.

use vstd::prelude::*;

use crate::text::{find_char, first_index_of, is_white_space};

verus! {

// ---------------------------------------------------------------------------
// Model
// ---------------------------------------------------------------------------

/// A parsed command as plain sequences of characters.
pub struct CommandView {
    pub command: Seq<char>,
    pub args: Seq<Seq<char>>,
    pub variables: Seq<(Seq<char>, Seq<char>)>,
}

/// Splits a token on its first `=` into a variable name and its value.
pub open spec fn split_variable(token: Seq<char>) -> Option<(Seq<char>, Seq<char>)> {
    match first_index_of(token, '=') {
        Some(i) => Some((token.take(i), token.skip(i + 1))),
        None => None,
    }
}

/// Writes a variable back as the `NAME=value` token it came from.
pub open spec fn join_variable(v: (Seq<char>, Seq<char>)) -> Seq<char> {
    v.0 + seq!['='] + v.1
}

/// The characters that open and close a quoted span.
pub open spec fn is_quote(c: char) -> bool {
    c == '"' || c == '\''
}

/// State of the scanner between two characters.
pub struct LexState {
    /// The tokens completed so far.
    pub tokens: Seq<Seq<char>>,
    /// The token being built.
    pub token: Seq<char>,
    /// Unquoted, unescaped whitespace was seen after the token being built.
    pub gap: bool,
    /// The quote character of the quoted span that is open, if any.
    pub delim: Option<char>,
    /// The previous character was an unescaped backslash.
    pub escape: bool,
}

/// Appends a token to the completed ones unless it is empty.
pub open spec fn emit(tokens: Seq<Seq<char>>, token: Seq<char>) -> Seq<Seq<char>> {
    if token.len() == 0 {
        tokens
    } else {
        tokens.push(token)
    }
}

/// The scanner state before the first character.
pub open spec fn lex_start() -> LexState {
    LexState {
        tokens: Seq::empty(),
        token: Seq::empty(),
        gap: false,
        delim: None,
        escape: false,
    }
}

/// Completes the pending token when a non-whitespace character follows a gap.
pub open spec fn close_gap(st: LexState, c: char) -> LexState {
    if st.gap && !is_white_space(c) {
        LexState { tokens: emit(st.tokens, st.token), token: Seq::empty(), gap: false, ..st }
    } else {
        st
    }
}

/// One character of the scan.
pub open spec fn lex_step(st0: LexState, c: char) -> LexState {
    let st = close_gap(st0, c);
    if c == '\\' && !st.escape {
        LexState { escape: true, ..st }
    } else if is_quote(c) && !st.escape {
        match st.delim {
            None => LexState { delim: Some(c), escape: false, ..st },
            Some(d) => if d == c {
                LexState { delim: None, escape: false, ..st }
            } else {
                LexState { token: st.token.push(c), escape: false, ..st }
            },
        }
    } else if is_white_space(c) && st.delim is None && !st.escape {
        LexState { gap: true, escape: false, ..st }
    } else {
        LexState { token: st.token.push(c), escape: false, ..st }
    }
}

/// The scanner state after reading `input` from state `st`.
pub open spec fn lex_run(st: LexState, input: Seq<char>) -> LexState
    decreases input.len(),
{
    if input.len() == 0 {
        st
    } else {
        lex_step(lex_run(st, input.drop_last()), input.last())
    }
}

/// The scanner state after reading all of `input`.
pub open spec fn lex_scan(input: Seq<char>) -> LexState {
    lex_run(lex_start(), input)
}

/// The tokens of a command line, in order.
pub open spec fn tokens_of(input: Seq<char>) -> Seq<Seq<char>> {
    let st = lex_scan(input);
    emit(st.tokens, st.token)
}

/// A command line's tokens sorted into variables, command and arguments.
pub struct Parts {
    pub command: Option<Seq<char>>,
    pub args: Seq<Seq<char>>,
    pub variables: Seq<(Seq<char>, Seq<char>)>,
}

/// Sorts one more token: before the command an assignment is a variable and
/// anything else the command; after it every token is an argument.
pub open spec fn classify_step(p: Parts, token: Seq<char>) -> Parts {
    if p.command is Some {
        Parts { args: p.args.push(token), ..p }
    } else {
        match split_variable(token) {
            Some(v) => Parts { variables: p.variables.push(v), ..p },
            None => Parts { command: Some(token), ..p },
        }
    }
}

/// The tokens sorted one after the other, from the first.
pub open spec fn classify(tokens: Seq<Seq<char>>) -> Parts
    decreases tokens.len(),
{
    if tokens.len() == 0 {
        Parts { command: None, args: Seq::empty(), variables: Seq::empty() }
    } else {
        classify_step(classify(tokens.drop_last()), tokens.last())
    }
}

/// What parsing a command line yields: nothing when it names no command.
pub open spec fn parsed(input: Seq<char>) -> Option<CommandView> {
    let p = classify(tokens_of(input));
    match p.command {
        Some(c) => Some(CommandView { command: c, args: p.args, variables: p.variables }),
        None => None,
    }
}

/// An argument of `env` that names the program to run: it is no option
/// (no leading `-`) and no assignment (no `=`).
pub open spec fn is_binary_arg(arg: Seq<char>) -> bool {
    !(arg.len() > 0 && arg[0] == '-') && first_index_of(arg, '=') is None
}

/// Index of the first argument that names the program to run, if any.
pub open spec fn first_binary(args: Seq<Seq<char>>) -> Option<int> {
    if exists|i: int| 0 <= i < args.len() && is_binary_arg(args[i]) {
        Some(choose|i: int|
            0 <= i < args.len() && is_binary_arg(args[i]) && forall|j: int|
                0 <= j < i ==> !is_binary_arg(args[j]))
    } else {
        None
    }
}

/// The variables that the assignments among `tokens` define, in order;
/// tokens with no `=` define none.
pub open spec fn assignments(tokens: Seq<Seq<char>>) -> Seq<(Seq<char>, Seq<char>)>
    decreases tokens.len(),
{
    if tokens.len() == 0 {
        Seq::empty()
    } else {
        let rest = assignments(tokens.drop_last());
        match split_variable(tokens.last()) {
            Some(v) => rest.push(v),
            None => rest,
        }
    }
}

/// An `env A=1 ... program args...` command rewritten to run `program` with
/// the variables `A=1 ...` added; any other command is left as it is.
pub open spec fn flattened(c: CommandView) -> CommandView {
    if c.command != "env"@ {
        c
    } else {
        match first_binary(c.args) {
            None => c,
            Some(i) => CommandView {
                command: c.args[i],
                args: c.args.skip(i + 1),
                variables: c.variables + assignments(c.args.take(i)),
            },
        }
    }
}

/// The variables as `NAME=value` tokens, then the command, then the arguments.
pub open spec fn command_tokens(c: CommandView) -> Seq<Seq<char>> {
    c.variables.map_values(|v: (Seq<char>, Seq<char>)| join_variable(v)) + seq![c.command]
        + c.args
}

/// `words` joined with one space between each two.
pub open spec fn join_spaces(words: Seq<Seq<char>>) -> Seq<char>
    decreases words.len(),
{
    if words.len() == 0 {
        Seq::empty()
    } else if words.len() == 1 {
        words[0]
    } else {
        join_spaces(words.drop_last()) + seq![' '] + words.last()
    }
}

/// Each variable as `NAME=value` followed by a space.
pub open spec fn variables_text(vars: Seq<(Seq<char>, Seq<char>)>) -> Seq<char>
    decreases vars.len(),
{
    if vars.len() == 0 {
        Seq::empty()
    } else {
        variables_text(vars.drop_last()) + join_variable(vars.last()) + seq![' ']
    }
}

/// The one-line text of a command: variables, the command and a space, then
/// the arguments separated by spaces.
pub open spec fn display_text(c: CommandView) -> Seq<char> {
    variables_text(c.variables) + c.command + seq![' '] + join_spaces(c.args)
}

// ---------------------------------------------------------------------------
// Command
// ---------------------------------------------------------------------------

/// A command line split into the program to run, its arguments and the
/// environment assignments written before it.
#[derive(Debug, PartialEq, Clone)]
pub struct Command {
    pub command: String,
    pub args: Vec<String>,
    pub variables: Vec<(String, String)>,
}

impl View for Command {
    type V = CommandView;

    open spec fn view(&self) -> CommandView {
        CommandView {
            command: self.command@,
            args: self.args.deep_view(),
            variables: self.variables.deep_view(),
        }
    }
}

/// The parts that the parser has sorted so far, as sequences.
pub open spec fn parts_view(
    command: Option<String>,
    args: Vec<String>,
    variables: Vec<(String, String)>,
) -> Parts {
    Parts { command: command.deep_view(), args: args.deep_view(), variables: variables.deep_view() }
}

proof fn lemma_push_strings(v: Vec<String>, s: String, w: Vec<String>)
    requires
        w@ == v@.push(s),
    ensures
        w.deep_view() == v.deep_view().push(s@),
{
    assert(w.deep_view() =~= v.deep_view().push(s@));
}

proof fn lemma_push_pairs(v: Vec<(String, String)>, s: (String, String), w: Vec<(String, String)>)
    requires
        w@ == v@.push(s),
    ensures
        w.deep_view() == v.deep_view().push((s.0@, s.1@)),
{
    assert(w.deep_view() =~= v.deep_view().push((s.0@, s.1@)));
}

/// Splits `token` on its first `=` into a variable name and its value.
fn parse_variable(token: &str) -> (r: Option<(&str, &str)>)
    ensures
        match r {
            Some((name, value)) => split_variable(token@) == Some((name@, value@)),
            None => split_variable(token@) is None,
        },
{
    match find_char(token, '=') {
        Some(i) => {
            let n = token.unicode_len();
            let name = token.substring_char(0, i);
            let value = token.substring_char(i + 1, n);
            assert(name@ =~= token@.take(i as int));
            assert(value@ =~= token@.skip(i + 1));
            Some((name, value))
        },
        None => None,
    }
}

/// Sorts the finished `token` (if it is not empty) into the command, its
/// arguments or its variables, and empties it.
fn token_finished(
    command: &mut Option<String>,
    args: &mut Vec<String>,
    variables: &mut Vec<(String, String)>,
    token: &mut String,
)
    ensures
        final(token)@ == Seq::<char>::empty(),
        parts_view(*final(command), *final(args), *final(variables)) == if old(token)@.len() == 0 {
            parts_view(*old(command), *old(args), *old(variables))
        } else {
            classify_step(parts_view(*old(command), *old(args), *old(variables)), old(token)@)
        },
{
    if token.as_str().is_empty() {
        return;
    }
    if command.is_none() {
        match parse_variable(token.as_str()) {
            Some((name, value)) => {
                let pair = (String::from_str(name), String::from_str(value));
                let ghost before = *variables;
                variables.push(pair);
                proof { lemma_push_pairs(before, pair, *variables); }
            },
            None => {
                *command = Some(token.clone());
            },
        }
    } else {
        let t = token.clone();
        let ghost before = *args;
        args.push(t);
        proof { lemma_push_strings(before, t, *args); }
    }
    *token = String::new();
}

proof fn lemma_classify_emit(tokens: Seq<Seq<char>>, t: Seq<char>)
    ensures
        classify(emit(tokens, t)) == if t.len() == 0 {
            classify(tokens)
        } else {
            classify_step(classify(tokens), t)
        },
{
    if t.len() != 0 {
        assert(tokens.push(t).drop_last() =~= tokens);
    }
}

/// Parses a command line into the command it runs, or `None` when it names
/// no command (it is empty, blank, or holds only assignments).
pub fn parse(input: &str) -> (r: Option<Command>)
    ensures
        match r {
            Some(c) => parsed(input@) == Some(c@),
            None => parsed(input@) is None,
        },
        r matches Some(c) ==> c.command@.len() > 0,
{
    proof { crate::laws::lemma_command_nonempty(input@); }
    let mut token = String::new();
    let mut command: Option<String> = None;
    let mut args: Vec<String> = Vec::new();
    let mut whitespace = false;
    let mut string_delim: Option<char> = None;
    let mut escape = false;
    let mut variables: Vec<(String, String)> = Vec::new();
    let ghost mut tokens: Seq<Seq<char>> = Seq::empty();

    proof {
        assert(args.deep_view() =~= Seq::<Seq<char>>::empty());
        assert(variables.deep_view() =~= Seq::<(Seq<char>, Seq<char>)>::empty());
    }

    for c in it: input.chars()
        invariant
            it.seq() == input@,
            lex_scan(input@.take(it.index() as int)) == (LexState {
                tokens,
                token: token@,
                gap: whitespace,
                delim: string_delim,
                escape,
            }),
            parts_view(command, args, variables) == classify(tokens),
    {
        let ghost before = LexState { tokens, token: token@, gap: whitespace, delim: string_delim, escape };
        let mut escape_set_this_iter = false;

        if whitespace && !c.is_whitespace() {
            proof {
                lemma_classify_emit(tokens, token@);
                tokens = emit(tokens, token@);
            }
            token_finished(&mut command, &mut args, &mut variables, &mut token);
            whitespace = false;
        }
        assert(close_gap(before, c) == (LexState { tokens, token: token@, gap: whitespace, delim: string_delim, escape }));

        if c == '\\' && !escape {
            escape = true;
            escape_set_this_iter = true;
        } else if (c == '"' || c == '\'') && !escape {
            match string_delim {
                Some(delim) => {
                    if c == delim {
                        string_delim = None;
                    } else {
                        token.push(c);
                    }
                },
                None => {
                    string_delim = Some(c);
                },
            }
        } else if c.is_whitespace() && string_delim.is_none() && !escape {
            whitespace = true;
        } else {
            token.push(c);
        }

        if escape && !escape_set_this_iter {
            escape = false;
        }

        proof {
            let i = it.index() as int;
            assert(input@.take(i + 1).drop_last() =~= input@.take(i));
            assert(input@.take(i + 1).last() == c);
        }
    }

    proof {
        assert(input@.take(input@.len() as int) =~= input@);
        lemma_classify_emit(tokens, token@);
        tokens = emit(tokens, token@);
    }
    token_finished(&mut command, &mut args, &mut variables, &mut token);

    match command {
        Some(command) => Some(Command { command, args, variables }),
        None => None,
    }
}

proof fn lemma_first_binary(args: Seq<Seq<char>>, i: int)
    requires
        0 <= i < args.len(),
        is_binary_arg(args[i]),
        forall|j: int| 0 <= j < i ==> !is_binary_arg(args[j]),
    ensures
        first_binary(args) == Some(i),
{
    let w = choose|k: int|
        0 <= k < args.len() && is_binary_arg(args[k]) && forall|j: int|
            0 <= j < k ==> !is_binary_arg(args[j]);
    assert(0 <= w < args.len() && is_binary_arg(args[w]));
    if w < i {
        assert(!is_binary_arg(args[w]));
    } else if i < w {
        assert(!is_binary_arg(args[i]));
    }
}

fn is_binary(arg: &str) -> (r: bool)
    ensures
        r == is_binary_arg(arg@),
{
    let dash = !arg.is_empty() && arg.get_char(0) == '-';
    !dash && find_char(arg, '=').is_none()
}

/// Index of the first argument that names the program to run.
fn find_binary(args: &Vec<String>) -> (r: Option<usize>)
    ensures
        r matches Some(i) ==> i < args.len() && first_binary(args.deep_view()) == Some(i as int),
        r is None ==> first_binary(args.deep_view()) is None,
{
    let mut i: usize = 0;
    while i < args.len()
        invariant
            i <= args.len(),
            forall|j: int| 0 <= j < i ==> !is_binary_arg(args.deep_view()[j]),
        decreases args.len() - i,
    {
        if is_binary(args[i].as_str()) {
            proof { lemma_first_binary(args.deep_view(), i as int); }
            return Some(i);
        }
        i = i + 1;
    }
    None
}

/// Appends `s` to `out`.
fn push_text(out: &mut String, s: &str)
    ensures
        final(out)@ == old(out)@ + s@,
{
    out.append(s);
}

impl Command {
    /// Whether the command is the `env` program.
    pub fn is_env(&self) -> (r: bool)
        ensures
            r == (self.command@ == "env"@),
    {
        self.command.as_str().eq("env")
    }

    /// Rewrites `env A=1 ... program args...` to run `program` directly, with
    /// the assignments added to the variables. Options of `env` before the
    /// program, and arguments before it with no `=`, are dropped. Commands that
    /// are not `env`, or name no program, are left unchanged.
    pub fn flatten_env(&mut self)
        ensures
            final(self)@ == flattened(old(self)@),
            old(self)@.command != "env"@ ==> final(self)@ == old(self)@,
    {
        if !self.is_env() {
            return;
        }
        let binary_index = match find_binary(&self.args) {
            Some(i) => i,
            None => return,
        };
        let ghost orig = self@;
        let mut rest = self.args.split_off(binary_index);
        proof {
            assert(self.args.deep_view() =~= orig.args.take(binary_index as int));
            assert(rest.deep_view() =~= orig.args.skip(binary_index as int));
        }
        let mut j: usize = 0;
        while j < self.args.len()
            invariant
                j <= self.args.len(),
                self.args.deep_view() == orig.args.take(binary_index as int),
                self.variables.deep_view() == orig.variables + assignments(
                    self.args.deep_view().take(j as int),
                ),
            decreases self.args.len() - j,
        {
            let ghost before = self.variables;
            proof {
                let t = self.args.deep_view();
                assert(t.take(j + 1).drop_last() =~= t.take(j as int));
            }
            match parse_variable(self.args[j].as_str()) {
                Some((name, value)) => {
                    let pair = (String::from_str(name), String::from_str(value));
                    self.variables.push(pair);
                    proof {
                        lemma_push_pairs(before, pair, self.variables);
                        assert(orig.variables + assignments(self.args.deep_view().take(j + 1))
                            =~= (orig.variables + assignments(self.args.deep_view().take(j as int))).push((pair.0@, pair.1@)));
                    }
                },
                None => {},
            }
            j = j + 1;
        }
        proof {
            assert(self.args.deep_view().take(j as int) =~= self.args.deep_view());
        }
        let binary = rest.remove(0);
        self.command = binary;
        self.args = rest;
        proof {
            assert(self.args.deep_view() =~= orig.args.skip(binary_index + 1));
        }
    }

    /// The command as one line: each variable as `NAME=value` and a space, the
    /// command and a space, then the arguments separated by single spaces.
    /// Nothing is quoted.
    pub fn to_string(&self) -> (r: String)
        ensures
            r@ == display_text(self@),
    {
        let mut out = String::new();
        let mut i: usize = 0;
        while i < self.variables.len()
            invariant
                i <= self.variables.len(),
                out@ == variables_text(self.variables.deep_view().take(i as int)),
            decreases self.variables.len() - i,
        {
            proof {
                let v = self.variables.deep_view();
                assert(v.take(i + 1).drop_last() =~= v.take(i as int));
            }
            push_text(&mut out, self.variables[i].0.as_str());
            out.push('=');
            push_text(&mut out, self.variables[i].1.as_str());
            out.push(' ');
            proof {
                let v = self.variables.deep_view();
                assert(out@ =~= variables_text(v.take(i as int)) + join_variable(v[i as int]) + seq![' ']);
            }
            i = i + 1;
        }
        proof {
            assert(self.variables.deep_view().take(i as int) =~= self.variables.deep_view());
        }
        push_text(&mut out, self.command.as_str());
        out.push(' ');
        let ghost head = out@;
        let mut k: usize = 0;
        while k < self.args.len()
            invariant
                k <= self.args.len(),
                out@ == head + join_spaces(self.args.deep_view().take(k as int)),
            decreases self.args.len() - k,
        {
            proof {
                let a = self.args.deep_view();
                assert(a.take(k + 1).drop_last() =~= a.take(k as int));
            }
            if k > 0 {
                out.push(' ');
            }
            push_text(&mut out, self.args[k].as_str());
            proof {
                let a = self.args.deep_view();
                if k == 0 {
                    assert(out@ =~= head + join_spaces(a.take(1)));
                } else {
                    assert(out@ =~= head + join_spaces(a.take(k + 1)));
                }
            }
            k = k + 1;
        }
        proof {
            assert(self.args.deep_view().take(k as int) =~= self.args.deep_view());
            assert(out@ =~= display_text(self@));
        }
        out
    }

    /// The variables as `NAME=value` tokens, then the command, then the
    /// arguments: an argument vector ready for spawning without a shell.
    pub fn into_tokens(self) -> (r: Vec<String>)
        ensures
            r.deep_view() == command_tokens(self@),
    {
        let mut out: Vec<String> = Vec::new();
        let mut i: usize = 0;
        while i < self.variables.len()
            invariant
                i <= self.variables.len(),
                out.deep_view() == self.variables.deep_view().take(i as int).map_values(
                    |v: (Seq<char>, Seq<char>)| join_variable(v),
                ),
            decreases self.variables.len() - i,
        {
            let mut t = String::new();
            push_text(&mut t, self.variables[i].0.as_str());
            t.push('=');
            push_text(&mut t, self.variables[i].1.as_str());
            let ghost before = out;
            out.push(t);
            proof {
                lemma_push_strings(before, t, out);
                let v = self.variables.deep_view();
                assert(t@ =~= join_variable(v[i as int]));
                assert(out.deep_view() =~= v.take(i + 1).map_values(|v: (Seq<char>, Seq<char>)| join_variable(v)));
            }
            i = i + 1;
        }
        let ghost before = out;
        out.push(self.command);
        proof {
            lemma_push_strings(before, self.command, out);
            assert(self.variables.deep_view().take(i as int) =~= self.variables.deep_view());
        }
        let ghost mid = out.deep_view();
        let mut rest = self.args;
        out.append(&mut rest);
        proof {
            assert(out.deep_view() =~= mid + self.args.deep_view());
            assert(out.deep_view() =~= command_tokens(self@));
        }
        out
    }
}

} // verus!
