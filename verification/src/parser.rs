//! The wire-format decoder. A frame is whitespace-separated tokens; a
//! quoted span (single or double quote) may contain whitespace and ends at
//! the next occurrence of the same quote character, with no escapes. The
//! first token must carry a leading `@` to name a command; the remaining
//! tokens are consumed in `#key value` pairs. Decoding never fails: a
//! frame without a command degrades to the empty-name sentinel.

use vstd::prelude::*;

use crate::chars::{
    chars_string, is_quote, is_space, spec_is_quote, spec_is_space, spec_trim, str_chars,
    trim_chars,
};
use crate::params::{spec_update, Params};

verus! {

/// Tokenizer mode: scanning plain text, or inside a span opened by the
/// held quote character.
#[derive(Clone, Copy, PartialEq, Eq, Structural)]
pub enum TokMode {
    Normal,
    Quoted(char),
}

/// Tokenizer state: the mode, the token being built, and the tokens
/// already finished.
#[verifier::ext_equal]
pub struct TokState {
    pub mode: TokMode,
    pub cur: Seq<char>,
    pub acc: Seq<Seq<char>>,
}

/// The state before any character is read.
pub open spec fn tok_init() -> TokState {
    TokState { mode: TokMode::Normal, cur: Seq::empty(), acc: Seq::empty() }
}

/// One character of tokenization. Outside quotes, whitespace finishes a
/// non-empty token and a quote character opens a span; inside a span, the
/// matching quote finishes the token (possibly empty) and anything else,
/// whitespace included, joins it.
pub open spec fn tok_step(st: TokState, c: char) -> TokState {
    match st.mode {
        TokMode::Normal => if spec_is_space(c) {
            if st.cur.len() > 0 {
                TokState { mode: TokMode::Normal, cur: Seq::empty(), acc: st.acc.push(st.cur) }
            } else {
                st
            }
        } else if spec_is_quote(c) {
            TokState { mode: TokMode::Quoted(c), cur: st.cur, acc: st.acc }
        } else {
            TokState { mode: TokMode::Normal, cur: st.cur.push(c), acc: st.acc }
        },
        TokMode::Quoted(q) => if c == q {
            TokState { mode: TokMode::Normal, cur: Seq::empty(), acc: st.acc.push(st.cur) }
        } else {
            TokState { mode: TokMode::Quoted(q), cur: st.cur.push(c), acc: st.acc }
        },
    }
}

/// `tok_step` folded over `s`, left to right.
pub open spec fn tok_run(st: TokState, s: Seq<char>) -> TokState
    decreases s.len(),
{
    if s.len() == 0 {
        st
    } else {
        tok_run(tok_step(st, s[0]), s.drop_first())
    }
}

/// At the end of input, a pending token is finished: a non-empty plain
/// token, or the contents of an unterminated quoted span.
pub open spec fn tok_finish(st: TokState) -> Seq<Seq<char>> {
    match st.mode {
        TokMode::Normal => if st.cur.len() > 0 {
            st.acc.push(st.cur)
        } else {
            st.acc
        },
        TokMode::Quoted(_) => st.acc.push(st.cur),
    }
}

/// The tokens of `s`.
pub open spec fn spec_tokens(s: Seq<char>) -> Seq<Seq<char>> {
    tok_finish(tok_run(tok_init(), s))
}

/// Running over a sequence extended by one character takes one more step.
pub proof fn lemma_tok_run_snoc(st: TokState, s: Seq<char>, c: char)
    ensures
        tok_run(st, s.push(c)) == tok_step(tok_run(st, s), c),
    decreases s.len(),
{
    if s.len() == 0 {
        assert(s.push(c)[0] == c);
        assert(s.push(c).drop_first() =~= Seq::<char>::empty());
        assert(tok_run(st, s.push(c)) == tok_run(tok_step(st, c), Seq::<char>::empty()));
        assert(tok_run(tok_step(st, c), Seq::<char>::empty()) == tok_step(st, c));
        assert(tok_run(st, s) == st);
    } else {
        assert(s.push(c)[0] == s[0]);
        assert(s.push(c).drop_first() =~= s.drop_first().push(c));
        assert(tok_run(st, s.push(c)) == tok_run(tok_step(st, s[0]), s.drop_first().push(c)));
        lemma_tok_run_snoc(tok_step(st, s[0]), s.drop_first(), c);
        assert(tok_run(st, s) == tok_run(tok_step(st, s[0]), s.drop_first()));
    }
}

/// Running over a concatenation runs over each part in turn.
pub proof fn lemma_tok_run_concat(st: TokState, a: Seq<char>, b: Seq<char>)
    ensures
        tok_run(st, a + b) == tok_run(tok_run(st, a), b),
    decreases a.len(),
{
    if a.len() == 0 {
        assert(a + b =~= b);
    } else {
        assert((a + b).drop_first() =~= a.drop_first() + b);
        lemma_tok_run_concat(tok_step(st, a[0]), a.drop_first(), b);
    }
}

/// The tokens of `s`, computed.
pub(crate) fn tokenize(cs: &Vec<char>) -> (r: Vec<Vec<char>>)
    ensures
        Seq::new(r@.len(), |i: int| r@[i]@) == spec_tokens(cs@),
{
    let mut in_quote: bool = false;
    let mut quote: char = ' ';
    let mut cur: Vec<char> = Vec::new();
    let mut acc: Vec<Vec<char>> = Vec::new();
    let mut i: usize = 0;
    proof {
        assert(cs@.subrange(0, 0) =~= Seq::<char>::empty());
        assert(Seq::new(acc@.len(), |j: int| acc@[j]@) =~= Seq::<Seq<char>>::empty());
    }
    while i < cs.len()
        invariant
            i <= cs@.len(),
            tok_run(tok_init(), cs@.subrange(0, i as int)) == (TokState {
                mode: if in_quote {
                    TokMode::Quoted(quote)
                } else {
                    TokMode::Normal
                },
                cur: cur@,
                acc: Seq::new(acc@.len(), |j: int| acc@[j]@),
            }),
        decreases cs@.len() - i,
    {
        let ghost pre = tok_run(tok_init(), cs@.subrange(0, i as int));
        let c = cs[i];
        proof {
            assert(cs@.subrange(0, i as int).push(c) =~= cs@.subrange(0, i + 1));
            lemma_tok_run_snoc(tok_init(), cs@.subrange(0, i as int), c);
        }
        if in_quote {
            if c == quote {
                in_quote = false;
                let done = cur;
                cur = Vec::new();
                acc.push(done);
                proof {
                    assert(Seq::new(acc@.len(), |j: int| acc@[j]@) =~= pre.acc.push(pre.cur));
                }
            } else {
                cur.push(c);
            }
        } else {
            if is_space(c) {
                if cur.len() > 0 {
                    let done = cur;
                    cur = Vec::new();
                    acc.push(done);
                    proof {
                        assert(Seq::new(acc@.len(), |j: int| acc@[j]@) =~= pre.acc.push(pre.cur));
                    }
                }
            } else if is_quote(c) {
                in_quote = true;
                quote = c;
            } else {
                cur.push(c);
            }
        }
        i += 1;
    }
    proof {
        assert(cs@.subrange(0, cs@.len() as int) =~= cs@);
    }
    if in_quote || cur.len() > 0 {
        let ghost st = tok_run(tok_init(), cs@);
        acc.push(cur);
        proof {
            assert(Seq::new(acc@.len(), |j: int| acc@[j]@) =~= st.acc.push(st.cur));
        }
    }
    acc
}

/// The key/value pairs among the tokens from position `i` on, in wire
/// order: tokens are taken two at a time; a pair counts only when its key
/// token starts with `#` (which is stripped); the value is trimmed; a
/// trailing unpaired token is dropped.
pub open spec fn spec_pairs(toks: Seq<Seq<char>>, i: int) -> Seq<(Seq<char>, Seq<char>)>
    decreases toks.len() - i,
    when i >= 0
{
    if i < 0 || i + 1 >= toks.len() {
        Seq::empty()
    } else {
        let rest = spec_pairs(toks, i + 2);
        if toks[i].len() > 0 && toks[i][0] == '#' {
            seq![(toks[i].drop_first(), spec_trim(toks[i + 1]))] + rest
        } else {
            rest
        }
    }
}

/// Each pair bound in turn, starting from `ps`; a later pair with the same
/// key overwrites the earlier value in place.
pub open spec fn insert_all(
    ps: Seq<(Seq<char>, Seq<char>)>,
    pairs: Seq<(Seq<char>, Seq<char>)>,
) -> Seq<(Seq<char>, Seq<char>)>
    decreases pairs.len(),
{
    if pairs.len() == 0 {
        ps
    } else {
        insert_all(spec_update(ps, pairs[0].0, pairs[0].1), pairs.drop_first())
    }
}

/// Whether the tokens of `s` name a command: there is a first token and it
/// carries the leading `@`.
pub open spec fn spec_has_command(s: Seq<char>) -> bool {
    let toks = spec_tokens(s);
    toks.len() > 0 && toks[0].len() > 0 && toks[0][0] == '@'
}

/// The command name of `s`: the first token with its `@` stripped, or the
/// empty-name sentinel.
pub open spec fn spec_command_name(s: Seq<char>) -> Seq<char> {
    if spec_has_command(s) {
        spec_tokens(s)[0].drop_first()
    } else {
        Seq::empty()
    }
}

/// The parameters of `s`: the key/value pairs after the command token,
/// the last occurrence of a repeated key winning; empty when `s` names no
/// command.
pub open spec fn spec_command_params(s: Seq<char>) -> Seq<(Seq<char>, Seq<char>)> {
    if spec_has_command(s) {
        insert_all(Seq::empty(), spec_pairs(spec_tokens(s), 1))
    } else {
        Seq::empty()
    }
}

/// A decoded frame: the command name and its parameters.
pub struct Parsed {
    pub params: Params,
    pub command: String,
}

impl Parsed {
    /// Decodes one frame. Never fails: text that names no command yields
    /// the empty name and no parameters.
    pub fn parse(msg: String) -> (r: Parsed)
        ensures
            r.command@ == spec_command_name(msg@),
            r.params@ == spec_command_params(msg@),
            r.params.wf(),
    {
        let cs = str_chars(msg.as_str());
        let toks = tokenize(&cs);
        let ghost tv = spec_tokens(msg@);
        if toks.len() == 0 || toks[0].len() == 0 {
            return Parsed { params: Params::new(), command: String::new() };
        }
        let first = &toks[0];
        if first[0] != '@' {
            return Parsed { params: Params::new(), command: String::new() };
        }
        let mut name: Vec<char> = Vec::new();
        let mut j: usize = 1;
        while j < first.len()
            invariant
                1 <= j <= first@.len(),
                first@ == tv[0],
                tv.len() > 0,
                name@ == first@.subrange(1, j as int),
            decreases first@.len() - j,
        {
            name.push(first[j]);
            proof {
                assert(first@.subrange(1, j as int).push(first@[j as int]) =~= first@.subrange(
                    1,
                    j + 1,
                ));
            }
            j += 1;
        }
        proof {
            assert(first@.subrange(1, first@.len() as int) =~= tv[0].drop_first());
        }
        let mut params = Params::new();
        let mut i: usize = 1;
        while i < toks.len() && i + 1 < toks.len()
            invariant
                1 <= i,
                params.wf(),
                tv == Seq::new(toks@.len(), |k: int| toks@[k]@),
                insert_all(params@, spec_pairs(tv, i as int)) == insert_all(
                    Seq::empty(),
                    spec_pairs(tv, 1),
                ),
            decreases toks@.len() - i,
        {
            let key = &toks[i];
            let ghost rest = spec_pairs(tv, i + 2);
            if key.len() > 0 {
                let kc = key[0];
                if kc == '#' {
                    let mut kchars: Vec<char> = Vec::new();
                    let mut j2: usize = 1;
                    while j2 < key.len()
                        invariant
                            1 <= j2 <= key@.len(),
                            kchars@ == key@.subrange(1, j2 as int),
                        decreases key@.len() - j2,
                    {
                        kchars.push(key[j2]);
                        proof {
                            assert(key@.subrange(1, j2 as int).push(key@[j2 as int])
                                =~= key@.subrange(1, j2 + 1));
                        }
                        j2 += 1;
                    }
                    proof {
                        assert(key@.subrange(1, key@.len() as int) =~= key@.drop_first());
                    }
                    let kstr = chars_string(kchars.as_slice());
                    let vchars = trim_chars(&toks[i + 1]);
                    let vstr = chars_string(vchars.as_slice());
                    proof {
                        let p = spec_pairs(tv, i as int);
                        assert(p[0] == (tv[i as int].drop_first(), spec_trim(tv[i + 1])));
                        assert(p.drop_first() =~= rest);
                    }
                    params.insert(kstr, vstr);
                } else {
                    proof {
                        assert(spec_pairs(tv, i as int) == rest);
                    }
                }
            } else {
                proof {
                    assert(spec_pairs(tv, i as int) == rest);
                }
            }
            i += 2;
        }
        proof {
            assert(spec_pairs(tv, i as int) =~= Seq::<(Seq<char>, Seq<char>)>::empty());
        }
        Parsed { params, command: chars_string(name.as_slice()) }
    }
}

} // verus!
