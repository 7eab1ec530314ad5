//! The codec round-trip law: decoding an encoded command yields the same
//! name and the same parameters, provided the name and keys hold no
//! whitespace or quote characters and each value neither contains the
//! opening quote nor begins or ends with a character that trimming
//! removes.

use vstd::prelude::*;

use crate::chars::{lemma_trim_clean, spec_is_quote, spec_is_space, spec_is_trimmed_char};
use crate::command::{spec_encode, spec_encode_pair, spec_encode_pairs};
use crate::params::{spec_update, unique_keys};
use crate::parser::{
    insert_all, lemma_tok_run_concat, spec_command_name, spec_command_params, spec_has_command,
    spec_pairs, spec_tokens, tok_finish, tok_init, tok_run, tok_step, TokMode, TokState,
};

verus! {

/// A character that neither ends a plain token nor opens a quoted span.
pub open spec fn plain_char(c: char) -> bool {
    !spec_is_space(c) && !spec_is_quote(c)
}

/// Text the tokenizer carries through unchanged inside one plain token:
/// fit for a command name or a parameter key.
pub open spec fn plain_text(s: Seq<char>) -> bool {
    forall|i: int| 0 <= i < s.len() ==> plain_char(s[i])
}

/// A value the single-quoted form carries exactly: it never holds the
/// opening quote, and its ends survive trimming.
pub open spec fn quotable_value(v: Seq<char>) -> bool {
    &&& forall|i: int| 0 <= i < v.len() ==> v[i] != '\''
    &&& (v.len() > 0 ==> !spec_is_trimmed_char(v[0]) && !spec_is_trimmed_char(v[v.len() - 1]))
}

/// The token pair a `(key, value)` parameter becomes on the wire.
pub open spec fn pair_tokens(p: (Seq<char>, Seq<char>)) -> Seq<Seq<char>> {
    seq![seq!['#'] + p.0, p.1]
}

/// The tokens all the pairs of `ps` become, in order.
pub open spec fn flat_tokens(ps: Seq<(Seq<char>, Seq<char>)>) -> Seq<Seq<char>>
    decreases ps.len(),
{
    if ps.len() == 0 {
        Seq::empty()
    } else {
        pair_tokens(ps[0]) + flat_tokens(ps.drop_first())
    }
}

/// Running the tokenizer over one character takes one step.
proof fn lemma_run_one(st: TokState, c: char)
    ensures
        tok_run(st, seq![c]) == tok_step(st, c),
{
    assert(seq![c].drop_first() =~= Seq::<char>::empty());
    assert(tok_run(st, seq![c]) == tok_run(tok_step(st, c), seq![c].drop_first()));
}

/// Plain text joins the token being built, outside quotes.
proof fn lemma_run_plain(cur: Seq<char>, acc: Seq<Seq<char>>, w: Seq<char>)
    requires
        plain_text(w),
    ensures
        tok_run(TokState { mode: TokMode::Normal, cur: cur, acc: acc }, w) == (TokState {
            mode: TokMode::Normal,
            cur: cur + w,
            acc: acc,
        }),
    decreases w.len(),
{
    if w.len() == 0 {
        assert(cur + w =~= cur);
        assert(TokState { mode: TokMode::Normal, cur: cur + w, acc: acc } =~= TokState {
            mode: TokMode::Normal,
            cur: cur,
            acc: acc,
        });
    } else {
        assert(plain_char(w[0]));
        assert(tok_step(TokState { mode: TokMode::Normal, cur: cur, acc: acc }, w[0])
            == TokState { mode: TokMode::Normal, cur: cur.push(w[0]), acc: acc });
        lemma_run_plain(cur.push(w[0]), acc, w.drop_first());
        assert(cur.push(w[0]) + w.drop_first() =~= cur + w);
    }
}

/// Inside a quoted span, anything but the closing quote joins the token.
proof fn lemma_run_quoted(q: char, cur: Seq<char>, acc: Seq<Seq<char>>, w: Seq<char>)
    requires
        forall|i: int| 0 <= i < w.len() ==> w[i] != q,
    ensures
        tok_run(TokState { mode: TokMode::Quoted(q), cur: cur, acc: acc }, w) == (TokState {
            mode: TokMode::Quoted(q),
            cur: cur + w,
            acc: acc,
        }),
    decreases w.len(),
{
    if w.len() == 0 {
        assert(cur + w =~= cur);
        assert(TokState { mode: TokMode::Quoted(q), cur: cur + w, acc: acc } =~= TokState {
            mode: TokMode::Quoted(q),
            cur: cur,
            acc: acc,
        });
    } else {
        lemma_run_quoted(q, cur.push(w[0]), acc, w.drop_first());
        assert(cur.push(w[0]) + w.drop_first() =~= cur + w);
    }
}

/// The tokens finished before a pair's wire text, after it: the pending
/// token if there was one, then the `#key` token, then the value token.
spec fn acc_after_pair(
    acc: Seq<Seq<char>>,
    cur: Seq<char>,
    p: (Seq<char>, Seq<char>),
) -> Seq<Seq<char>> {
    (if cur.len() > 0 {
        acc.push(cur)
    } else {
        acc
    }) + pair_tokens(p)
}

/// Running the tokenizer over one encoded pair finishes any pending token
/// and adds the pair's two tokens, leaving the state clean.
proof fn lemma_run_pair(cur: Seq<char>, acc: Seq<Seq<char>>, k: Seq<char>, v: Seq<char>)
    requires
        plain_text(k),
        forall|i: int| 0 <= i < v.len() ==> v[i] != '\'',
    ensures
        tok_run(TokState { mode: TokMode::Normal, cur: cur, acc: acc }, spec_encode_pair(k, v))
            == (TokState {
            mode: TokMode::Normal,
            cur: Seq::empty(),
            acc: acc_after_pair(acc, cur, (k, v)),
        }),
{
    let st0 = TokState { mode: TokMode::Normal, cur: cur, acc: acc };
    let acc1: Seq<Seq<char>> = if cur.len() > 0 {
        acc.push(cur)
    } else {
        acc
    };
    // One separator and the `#` sigil.
    let st1 = TokState { mode: TokMode::Normal, cur: seq!['#'], acc: acc1 };
    assert(seq![' ', '#'] =~= seq![' '] + seq!['#']);
    lemma_tok_run_concat(st0, seq![' '], seq!['#']);
    lemma_run_one(st0, ' ');
    lemma_run_one(tok_step(st0, ' '), '#');
    assert(tok_run(st0, seq![' ', '#']) =~= st1);
    // The key characters.
    lemma_tok_run_concat(st0, seq![' ', '#'], k);
    lemma_run_plain(seq!['#'], acc1, k);
    let st2 = TokState { mode: TokMode::Normal, cur: seq!['#'] + k, acc: acc1 };
    assert(tok_run(st0, seq![' ', '#'] + k) =~= st2);
    // The separator before the value, which finishes the key token, and
    // the opening quote.
    lemma_tok_run_concat(st0, seq![' ', '#'] + k, seq![' ', '\'']);
    assert(seq![' ', '\''] =~= seq![' '] + seq!['\'']);
    lemma_tok_run_concat(st2, seq![' '], seq!['\'']);
    lemma_run_one(st2, ' ');
    assert((seq!['#'] + k).len() > 0);
    let st3 = TokState { mode: TokMode::Normal, cur: Seq::empty(), acc: acc1.push(seq!['#'] + k) };
    assert(tok_step(st2, ' ') =~= st3);
    lemma_run_one(st3, '\'');
    let st4 = TokState {
        mode: TokMode::Quoted('\''),
        cur: Seq::empty(),
        acc: acc1.push(seq!['#'] + k),
    };
    assert(tok_run(st0, (seq![' ', '#'] + k) + seq![' ', '\'']) =~= st4);
    // The value characters, inside the span.
    lemma_tok_run_concat(st0, (seq![' ', '#'] + k) + seq![' ', '\''], v);
    lemma_run_quoted('\'', Seq::empty(), acc1.push(seq!['#'] + k), v);
    let st5 = TokState { mode: TokMode::Quoted('\''), cur: v, acc: acc1.push(seq!['#'] + k) };
    assert(Seq::empty() + v =~= v);
    assert(tok_run(st0, ((seq![' ', '#'] + k) + seq![' ', '\'']) + v) =~= st5);
    // The closing quote finishes the value token.
    lemma_tok_run_concat(st0, ((seq![' ', '#'] + k) + seq![' ', '\'']) + v, seq!['\'']);
    lemma_run_one(st5, '\'');
    let st6 = TokState {
        mode: TokMode::Normal,
        cur: Seq::empty(),
        acc: acc1.push(seq!['#'] + k).push(v),
    };
    assert(tok_run(st0, (((seq![' ', '#'] + k) + seq![' ', '\'']) + v) + seq!['\'']) =~= st6);
    assert(spec_encode_pair(k, v) =~= (((seq![' ', '#'] + k) + seq![' ', '\'']) + v)
        + seq!['\'']);
    assert(acc1.push(seq!['#'] + k).push(v) =~= acc_after_pair(acc, cur, (k, v)));
}

/// Running the tokenizer over all encoded pairs finishes any pending token
/// and adds two tokens per pair.
proof fn lemma_run_pairs(cur: Seq<char>, acc: Seq<Seq<char>>, ps: Seq<(Seq<char>, Seq<char>)>)
    requires
        ps.len() > 0,
        forall|j: int|
            0 <= j < ps.len() ==> plain_text(#[trigger] ps[j].0) && (forall|i: int|
                0 <= i < ps[j].1.len() ==> ps[j].1[i] != '\''),
    ensures
        tok_run(TokState { mode: TokMode::Normal, cur: cur, acc: acc }, spec_encode_pairs(ps))
            == (TokState {
            mode: TokMode::Normal,
            cur: Seq::empty(),
            acc: (if cur.len() > 0 {
                acc.push(cur)
            } else {
                acc
            }) + flat_tokens(ps),
        }),
    decreases ps.len(),
{
    let st0 = TokState { mode: TokMode::Normal, cur: cur, acc: acc };
    let acc1: Seq<Seq<char>> = if cur.len() > 0 {
        acc.push(cur)
    } else {
        acc
    };
    lemma_tok_run_concat(st0, spec_encode_pair(ps[0].0, ps[0].1), spec_encode_pairs(
        ps.drop_first(),
    ));
    lemma_run_pair(cur, acc, ps[0].0, ps[0].1);
    let st1 = TokState {
        mode: TokMode::Normal,
        cur: Seq::empty(),
        acc: acc_after_pair(acc, cur, (ps[0].0, ps[0].1)),
    };
    if ps.len() == 1 {
        assert(ps.drop_first().len() == 0);
        assert(tok_run(st1, spec_encode_pairs(ps.drop_first())) == st1);
        assert(flat_tokens(ps.drop_first()) =~= Seq::<Seq<char>>::empty());
        assert(acc_after_pair(acc, cur, (ps[0].0, ps[0].1)) =~= acc1 + flat_tokens(ps));
    } else {
        lemma_run_pairs(Seq::empty(), st1.acc, ps.drop_first());
        assert((acc1 + pair_tokens(ps[0])) + flat_tokens(ps.drop_first()) =~= acc1 + flat_tokens(
            ps,
        ));
        assert(acc_after_pair(acc, cur, (ps[0].0, ps[0].1)) =~= acc1 + pair_tokens(ps[0]));
    }
}

/// The tokens of an encoded command: the `@name` token, then two tokens
/// per parameter.
proof fn lemma_tokens_of_encode(name: Seq<char>, ps: Seq<(Seq<char>, Seq<char>)>)
    requires
        plain_text(name),
        forall|j: int|
            0 <= j < ps.len() ==> plain_text(#[trigger] ps[j].0) && (forall|i: int|
                0 <= i < ps[j].1.len() ==> ps[j].1[i] != '\''),
    ensures
        spec_tokens(spec_encode(name, ps)) == seq![seq!['@'] + name] + flat_tokens(ps),
{
    let head: Seq<char> = seq!['@'] + name;
    lemma_tok_run_concat(tok_init(), head, spec_encode_pairs(ps));
    lemma_run_plain(Seq::empty(), Seq::empty(), head);
    assert(plain_text(head)) by {
        assert(plain_char('@'));
        assert(forall|i: int| 0 <= i < head.len() ==> plain_char(#[trigger] head[i]));
    }
    let st1 = TokState { mode: TokMode::Normal, cur: head, acc: Seq::empty() };
    assert(Seq::empty() + head =~= head);
    assert(tok_run(tok_init(), head) =~= st1);
    assert(spec_encode(name, ps) =~= head + spec_encode_pairs(ps));
    if ps.len() == 0 {
        assert(tok_run(st1, spec_encode_pairs(ps)) == st1);
        assert(head.len() > 0);
        assert(tok_finish(st1) =~= seq![head]);
        assert(seq![head] =~= seq![head] + flat_tokens(ps));
    } else {
        lemma_run_pairs(head, Seq::empty(), ps);
        let st2 = TokState {
            mode: TokMode::Normal,
            cur: Seq::empty(),
            acc: Seq::<Seq<char>>::empty().push(head) + flat_tokens(ps),
        };
        assert(tok_run(st1, spec_encode_pairs(ps)) =~= st2);
        assert(tok_finish(st2) =~= seq![head] + flat_tokens(ps));
    }
}

/// `flat_tokens` has two tokens per pair: the stripped key at the even
/// offset and the value after it.
proof fn lemma_flat_index(ps: Seq<(Seq<char>, Seq<char>)>, j: int)
    requires
        0 <= j < ps.len(),
    ensures
        flat_tokens(ps).len() == 2 * ps.len(),
        flat_tokens(ps)[2 * j] == seq!['#'] + ps[j].0,
        flat_tokens(ps)[2 * j + 1] == ps[j].1,
    decreases j,
{
    lemma_flat_len(ps);
    if j == 0 {
    } else {
        lemma_flat_index(ps.drop_first(), j - 1);
    }
}

/// Two wire tokens per pair.
proof fn lemma_flat_len(ps: Seq<(Seq<char>, Seq<char>)>)
    ensures
        flat_tokens(ps).len() == 2 * ps.len(),
    decreases ps.len(),
{
    if ps.len() > 0 {
        lemma_flat_len(ps.drop_first());
    }
}

/// Reading pairs off tokens that hold `#key`/`value` pairs from position
/// `i` on yields exactly those pairs.
proof fn lemma_pairs_of_tokens(toks: Seq<Seq<char>>, ps: Seq<(Seq<char>, Seq<char>)>, i: int)
    requires
        0 <= i,
        toks.len() == i + 2 * ps.len(),
        forall|j: int|
            0 <= j < ps.len() ==> toks[i + 2 * j] == seq!['#'] + #[trigger] ps[j].0 && toks[i + 2
                * j + 1] == ps[j].1,
        forall|j: int| 0 <= j < ps.len() ==> quotable_value(#[trigger] ps[j].1),
    ensures
        spec_pairs(toks, i) == ps,
    decreases ps.len(),
{
    if ps.len() == 0 {
        assert(spec_pairs(toks, i) =~= Seq::<(Seq<char>, Seq<char>)>::empty());
    } else {
        assert(toks[i] == seq!['#'] + ps[0].0);
        assert(toks[i].len() > 0 && toks[i][0] == '#');
        assert(toks[i].drop_first() =~= ps[0].0);
        assert(toks[i + 1] == ps[0].1);
        lemma_trim_clean(ps[0].1);
        lemma_pairs_of_tokens(toks, ps.drop_first(), i + 2);
        assert(spec_pairs(toks, i) =~= seq![(ps[0].0, ps[0].1)] + spec_pairs(toks, i + 2));
        assert(seq![(ps[0].0, ps[0].1)] + ps.drop_first() =~= ps);
    }
}

/// Inserting pairs whose keys are fresh and distinct appends them in
/// order.
proof fn lemma_insert_all_fresh(
    ps0: Seq<(Seq<char>, Seq<char>)>,
    pairs: Seq<(Seq<char>, Seq<char>)>,
)
    requires
        unique_keys(ps0 + pairs),
    ensures
        insert_all(ps0, pairs) == ps0 + pairs,
    decreases pairs.len(),
{
    if pairs.len() == 0 {
        assert(ps0 + pairs =~= ps0);
    } else {
        let k = pairs[0].0;
        let v = pairs[0].1;
        assert(forall|j: int| 0 <= j < ps0.len() ==> (ps0 + pairs)[j] == ps0[j]);
        assert((ps0 + pairs)[ps0.len() as int] == pairs[0]);
        assert(forall|j: int| 0 <= j < ps0.len() ==> ps0[j].0 != k);
        assert(unique_keys(ps0)) by {
            assert(forall|a: int, b: int|
                0 <= a < b < ps0.len() ==> (ps0 + pairs)[a] == ps0[a] && (ps0 + pairs)[b]
                    == ps0[b]);
        }
        crate::params::lemma_update_absent(ps0, k, v);
        assert(spec_update(ps0, k, v) == ps0.push((k, v)));
        assert(ps0.push((k, v)) + pairs.drop_first() =~= ps0 + pairs);
        lemma_insert_all_fresh(ps0.push((k, v)), pairs.drop_first());
    }
}

/// Decode inverts encode: for a name of plain text and parameters whose
/// keys are plain text, distinct, and whose values are quotable, decoding
/// the encoded frame yields the same name and the same parameters.
pub proof fn lemma_round_trip(name: Seq<char>, ps: Seq<(Seq<char>, Seq<char>)>)
    requires
        plain_text(name),
        unique_keys(ps),
        forall|j: int|
            0 <= j < ps.len() ==> plain_text(#[trigger] ps[j].0) && quotable_value(ps[j].1),
    ensures
        spec_command_name(spec_encode(name, ps)) == name,
        spec_command_params(spec_encode(name, ps)) == ps,
{
    let wire = spec_encode(name, ps);
    assert(forall|j: int|
        0 <= j < ps.len() ==> plain_text(#[trigger] ps[j].0) && (forall|i: int|
            0 <= i < ps[j].1.len() ==> ps[j].1[i] != '\''));
    lemma_tokens_of_encode(name, ps);
    let toks = spec_tokens(wire);
    let head: Seq<char> = seq!['@'] + name;
    assert(toks[0] == head);
    assert(head[0] == '@');
    assert(spec_has_command(wire));
    assert(head.drop_first() =~= name);
    lemma_flat_len(ps);
    assert(toks.len() == 1 + 2 * ps.len());
    assert(forall|j: int|
        0 <= j < ps.len() ==> toks[1 + 2 * j] == seq!['#'] + #[trigger] ps[j].0 && toks[1 + 2 * j
            + 1] == ps[j].1) by {
        assert forall|j: int| 0 <= j < ps.len() implies toks[1 + 2 * j] == seq!['#']
            + #[trigger] ps[j].0 && toks[1 + 2 * j + 1] == ps[j].1 by {
            lemma_flat_index(ps, j);
            assert(toks[1 + 2 * j] == flat_tokens(ps)[2 * j]);
            assert(toks[1 + 2 * j + 1] == flat_tokens(ps)[2 * j + 1]);
        }
    }
    lemma_pairs_of_tokens(toks, ps, 1);
    assert(Seq::<(Seq<char>, Seq<char>)>::empty() + ps =~= ps);
    lemma_insert_all_fresh(Seq::empty(), ps);
}

} // verus!
