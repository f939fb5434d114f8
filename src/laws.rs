//! Laws of the tokenizer, proved over its model.

use vstd::prelude::*;

use crate::shellparse::{
    classify, command_tokens, emit, flattened, is_quote, join_spaces, join_variable, lex_run, lex_step,
    lex_scan, lex_start, parsed, split_variable, tokens_of, CommandView, LexState,
};
use crate::text::{first_index_of, is_white_space, lemma_first_index_of_some};

verus! {

/// The text is empty or made of whitespace only.
pub open spec fn is_blank(s: Seq<char>) -> bool {
    forall|i: int| 0 <= i < s.len() ==> is_white_space(s[i])
}

/// A character that stands for itself anywhere in a command line.
pub open spec fn is_plain(c: char) -> bool {
    !is_white_space(c) && !is_quote(c) && c != '\\'
}

pub open spec fn is_plain_word(w: Seq<char>) -> bool {
    forall|i: int| 0 <= i < w.len() ==> is_plain(w[i])
}

/// The text holds no quote and no backslash.
pub open spec fn is_unquoted(s: Seq<char>) -> bool {
    forall|i: int| 0 <= i < s.len() ==> !is_quote(s[i]) && s[i] != '\\'
}

pub open spec fn all_nonempty(ts: Seq<Seq<char>>) -> bool {
    forall|i: int| 0 <= i < ts.len() ==> ts[i].len() > 0
}

/// Reading `a` then `b` is reading `a + b`.
pub proof fn lemma_lex_run_concat(st: LexState, a: Seq<char>, b: Seq<char>)
    ensures
        lex_run(st, a + b) == lex_run(lex_run(st, a), b),
    decreases b.len(),
{
    if b.len() == 0 {
        assert(a + b =~= a);
    } else {
        assert((a + b).drop_last() =~= a + b.drop_last());
        assert((a + b).last() == b.last());
        lemma_lex_run_concat(st, a, b.drop_last());
    }
}

/// Only non-empty tokens are ever completed.
pub proof fn lemma_tokens_nonempty(input: Seq<char>)
    ensures
        all_nonempty(lex_scan(input).tokens),
        all_nonempty(tokens_of(input)),
    decreases input.len(),
{
    if input.len() > 0 {
        lemma_tokens_nonempty(input.drop_last());
    }
}

/// A blank text completes no token and leaves none pending.
proof fn lemma_blank_scan(input: Seq<char>)
    requires
        is_blank(input),
    ensures
        lex_scan(input).tokens.len() == 0,
        lex_scan(input).token.len() == 0,
        lex_scan(input).delim is None,
        !lex_scan(input).escape,
    decreases input.len(),
{
    if input.len() > 0 {
        let c = input.last();
        assert(is_white_space(c));
        assert(c != '\\' && c != '"' && c != '\'');
        lemma_blank_scan(input.drop_last());
    }
}

/// Sorting tokens keeps them all: the variables are the leading assignments,
/// the command is the first token that is no assignment, and the arguments
/// are the tokens after it.
pub proof fn lemma_classify(ts: Seq<Seq<char>>)
    ensures
        ({
            let p = classify(ts);
            &&& p.variables.len() <= ts.len()
            &&& forall|i: int|
                0 <= i < p.variables.len() ==> split_variable(ts[i]) == Some(p.variables[i])
            &&& match p.command {
                None => p.variables.len() == ts.len() && p.args.len() == 0,
                Some(c) => ts == command_tokens(
                    CommandView { command: c, args: p.args, variables: p.variables },
                ) && split_variable(c) is None,
            }
        }),
    decreases ts.len(),
{
    if ts.len() > 0 {
        let init = ts.drop_last();
        let t = ts.last();
        lemma_classify(init);
        let q = classify(init);
        let p = classify(ts);
        assert forall|i: int| 0 <= i < init.len() implies ts[i] == init[i] by {}
        match q.command {
            Some(c) => {
                let cv = CommandView { command: c, args: q.args, variables: q.variables };
                let cv2 = CommandView { command: c, args: p.args, variables: p.variables };
                assert(command_tokens(cv2) =~= command_tokens(cv).push(t));
                assert(ts =~= init.push(t));
            },
            None => {
                match split_variable(t) {
                    Some(v) => {},
                    None => {
                        let cv = CommandView { command: t, args: p.args, variables: p.variables };
                        assert forall|i: int| 0 <= i < init.len() implies #[trigger] init[i]
                            == join_variable(q.variables[i]) by {
                            lemma_join_split(init[i]);
                        }
                        assert(command_tokens(cv) =~= ts);
                    },
                }
            },
        }
    }
}

/// Writing a split variable back gives the token it was split from.
pub proof fn lemma_join_split(t: Seq<char>)
    ensures
        split_variable(t) matches Some(v) ==> join_variable(v) == t,
{
    lemma_first_index_of_some(t, '=');
    if let Some(i) = first_index_of(t, '=') {
        assert(t.take(i) + seq!['='] + t.skip(i + 1) =~= t);
    }
}

/// A blank command line, the empty one included, parses to nothing.
pub proof fn lemma_blank_parses_to_none(input: Seq<char>)
    requires
        is_blank(input),
    ensures
        parsed(input) is None,
{
    lemma_blank_scan(input);
    assert(tokens_of(input) =~= Seq::<Seq<char>>::empty());
}

/// Whenever parsing succeeds, the command it finds is not empty.
pub proof fn lemma_command_nonempty(input: Seq<char>)
    ensures
        parsed(input) matches Some(c) ==> c.command.len() > 0,
{
    lemma_tokens_nonempty(input);
    lemma_classify(tokens_of(input));
    let ts = tokens_of(input);
    let p = classify(ts);
    if let Some(c) = p.command {
        let k = p.variables.len() as int;
        assert(ts[k] == command_tokens(
            CommandView { command: c, args: p.args, variables: p.variables },
        )[k]);
    }
}

/// A token is taken as a variable only before the command: the parsed
/// variables are the leading `NAME=value` tokens of the line, the command is
/// the first token that is no assignment, and every later token is an
/// argument, assignment or not.
pub proof fn lemma_variables_precede_command(input: Seq<char>)
    requires
        parsed(input) is Some,
    ensures
        ({
            let c = parsed(input)->0;
            let ts = tokens_of(input);
            &&& ts == command_tokens(c)
            &&& forall|i: int|
                0 <= i < c.variables.len() ==> split_variable(ts[i]) == Some(c.variables[i])
            &&& split_variable(ts[c.variables.len() as int]) is None
            &&& forall|i: int|
                c.variables.len() < i < ts.len() ==> ts[i] == c.args[i - c.variables.len() - 1]
        }),
{
    let ts = tokens_of(input);
    lemma_classify(ts);
    let c = parsed(input)->0;
    assert(ts[c.variables.len() as int] == c.command);
}

/// `flatten_env` leaves any command other than `env` as it is, so applying it
/// once or twice gives that same command.
pub proof fn lemma_flatten_other_is_identity(c: CommandView)
    requires
        c.command != "env"@,
    ensures
        flattened(c) == c,
        flattened(flattened(c)) == flattened(c),
{
}

/// In a text with no quote and no backslash, the scanner stays outside quotes
/// and escapes, and every token is made of plain characters.
proof fn lemma_unquoted_scan(input: Seq<char>)
    requires
        is_unquoted(input),
    ensures
        lex_scan(input).delim is None,
        !lex_scan(input).escape,
        is_plain_word(lex_scan(input).token),
        forall|i: int|
            0 <= i < lex_scan(input).tokens.len() ==> is_plain_word(
                #[trigger] lex_scan(input).tokens[i],
            ),
    decreases input.len(),
{
    if input.len() > 0 {
        lemma_unquoted_scan(input.drop_last());
        assert(!is_quote(input.last()) && input.last() != '\\');
    }
}

/// Reading a plain word outside quotes and escapes appends it to the token
/// being built, after completing the pending one if a gap came before.
proof fn lemma_read_word(st: LexState, w: Seq<char>)
    requires
        st.delim is None,
        !st.escape,
        w.len() > 0,
        is_plain_word(w),
    ensures
        lex_run(st, w) == (LexState {
            tokens: if st.gap { emit(st.tokens, st.token) } else { st.tokens },
            token: (if st.gap { Seq::empty() } else { st.token }) + w,
            gap: false,
            delim: None,
            escape: false,
        }),
    decreases w.len(),
{
    let c = w.last();
    assert(is_plain(c));
    if w.len() == 1 {
        assert(w.drop_last() =~= Seq::<char>::empty());
        let base: Seq<char> = if st.gap { Seq::empty() } else { st.token };
        assert(base.push(c) =~= base + w);
    } else {
        lemma_read_word(st, w.drop_last());
        let base: Seq<char> = if st.gap { Seq::empty() } else { st.token };
        assert((base + w.drop_last()).push(c) =~= base + w);
    }
}

/// Joining plain, non-empty words with spaces and scanning the result leaves
/// the last word pending and all the others completed.
proof fn lemma_scan_joined(ws: Seq<Seq<char>>)
    requires
        ws.len() > 0,
        all_nonempty(ws),
        forall|i: int| 0 <= i < ws.len() ==> is_plain_word(#[trigger] ws[i]),
    ensures
        lex_scan(join_spaces(ws)) == (LexState {
            tokens: ws.drop_last(),
            token: ws.last(),
            gap: false,
            delim: None,
            escape: false,
        }),
    decreases ws.len(),
{
    if ws.len() == 1 {
        lemma_read_word(lex_start(), ws[0]);
        assert(ws.drop_last() =~= Seq::<Seq<char>>::empty());
        assert(Seq::<char>::empty() + ws[0] =~= ws[0]);
    } else {
        let init = ws.drop_last();
        assert forall|i: int| 0 <= i < init.len() implies init[i] == ws[i] by {}
        lemma_scan_joined(init);
        let a = join_spaces(init);
        let st1 = lex_scan(a);
        let sp: Seq<char> = seq![' '];
        let st2 = lex_run(st1, sp);
        assert(sp.drop_last() =~= Seq::<char>::empty());
        assert(sp.last() == ' ');
        assert(lex_run(st1, sp.drop_last()) == st1);
        assert(is_white_space(' '));
        assert(st2 == lex_step(st1, ' '));
        assert(st2.delim is None && !st2.escape && st2.gap);
        lemma_lex_run_concat(lex_start(), a, seq![' ']);
        lemma_read_word(st2, ws.last());
        lemma_lex_run_concat(lex_start(), a + seq![' '], ws.last());
        assert(init.drop_last().push(init.last()) =~= init);
        assert(Seq::<char>::empty() + ws.last() =~= ws.last());
    }
}

/// Parsing a command line with no quote and no backslash, writing the result
/// back as its token vector joined by single spaces, and scanning that text
/// again gives the tokens of the first line, and so the same command.
pub proof fn lemma_unquoted_round_trip(input: Seq<char>)
    requires
        is_unquoted(input),
        parsed(input) is Some,
    ensures
        tokens_of(join_spaces(command_tokens(parsed(input)->0))) == tokens_of(input),
        parsed(join_spaces(command_tokens(parsed(input)->0))) == parsed(input),
{
    let ts = tokens_of(input);
    lemma_classify(ts);
    lemma_tokens_nonempty(input);
    lemma_unquoted_scan(input);
    let st = lex_scan(input);
    assert forall|i: int| 0 <= i < ts.len() implies is_plain_word(#[trigger] ts[i]) by {
        if i < st.tokens.len() {
            assert(is_plain_word(st.tokens[i]));
        }
    }
    let c = parsed(input)->0;
    assert(ts == command_tokens(c));
    assert(ts.len() > 0);
    lemma_scan_joined(ts);
    assert(ts.drop_last().push(ts.last()) =~= ts);
}

} // verus!
