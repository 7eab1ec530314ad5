//! The wire-format encoder and the `Command` pairing of a name with its
//! parameters. `Encode` writes `@<name> #<key> '<value>' ...` with single
//! spaces and no trailing space; values are single-quoted so they may
//! contain whitespace.

use vstd::prelude::*;
use vstd::string::StringExecFns;

use crate::params::Params;
use crate::parser::{spec_command_name, spec_command_params, Parsed};

verus! {

/// The wire text of one `#key 'value'` pair, with its leading separator.
pub open spec fn spec_encode_pair(k: Seq<char>, v: Seq<char>) -> Seq<char> {
    seq![' ', '#'] + k + seq![' ', '\''] + v + seq!['\'']
}

/// The wire text of the pairs of `ps`, in order.
pub open spec fn spec_encode_pairs(ps: Seq<(Seq<char>, Seq<char>)>) -> Seq<char>
    decreases ps.len(),
{
    if ps.len() == 0 {
        Seq::empty()
    } else {
        spec_encode_pair(ps[0].0, ps[0].1) + spec_encode_pairs(ps.drop_first())
    }
}

/// The wire text of a command named `name` with parameters `ps`.
pub open spec fn spec_encode(name: Seq<char>, ps: Seq<(Seq<char>, Seq<char>)>) -> Seq<char> {
    seq!['@'] + name + spec_encode_pairs(ps)
}

/// Encoding one more pair appends its wire text.
pub proof fn lemma_encode_pairs_snoc(ps: Seq<(Seq<char>, Seq<char>)>, p: (Seq<char>, Seq<char>))
    ensures
        spec_encode_pairs(ps.push(p)) == spec_encode_pairs(ps) + spec_encode_pair(p.0, p.1),
    decreases ps.len(),
{
    if ps.len() == 0 {
        assert(ps.push(p)[0] == p);
        assert(ps.push(p).drop_first() =~= Seq::<(Seq<char>, Seq<char>)>::empty());
        assert(spec_encode_pairs(Seq::<(Seq<char>, Seq<char>)>::empty())
            == Seq::<char>::empty());
        assert(spec_encode_pairs(ps.push(p)) == spec_encode_pair(p.0, p.1) + Seq::<char>::empty());
        assert(spec_encode_pairs(ps.push(p)) =~= spec_encode_pairs(ps) + spec_encode_pair(
            p.0,
            p.1,
        ));
    } else {
        assert(ps.push(p)[0] == ps[0]);
        assert(ps.push(p).drop_first() =~= ps.drop_first().push(p));
        lemma_encode_pairs_snoc(ps.drop_first(), p);
        assert(spec_encode_pairs(ps.push(p)) =~= spec_encode_pairs(ps) + spec_encode_pair(
            p.0,
            p.1,
        ));
    }
}

/// A decoded command: a name and its parameter map.
pub struct Command {
    parsed: Parsed,
}

impl Command {
    /// The command's name.
    pub closed spec fn spec_name(&self) -> Seq<char> {
        self.parsed.command@
    }

    /// The command's parameters.
    pub closed spec fn spec_params(&self) -> Seq<(Seq<char>, Seq<char>)> {
        self.parsed.params@
    }

    /// Encodes a command name and parameters as one wire frame.
    pub fn from(command: &str, params: &Params) -> (r: String)
        ensures
            r@ == spec_encode(command@, params@),
    {
        let mut msg = String::new();
        msg.push('@');
        msg.append(command);
        proof {
            assert(params@.subrange(0, 0) =~= Seq::<(Seq<char>, Seq<char>)>::empty());
            assert(msg@ =~= spec_encode(command@, params@.subrange(0, 0)));
        }
        let n = params.len();
        let mut i: usize = 0;
        while i < n
            invariant
                n == params@.len(),
                i <= n,
                msg@ == spec_encode(command@, params@.subrange(0, i as int)),
            decreases n - i,
        {
            msg.push(' ');
            msg.push('#');
            msg.append(params.key_at(i).as_str());
            msg.push(' ');
            msg.push('\'');
            msg.append(params.value_at(i).as_str());
            msg.push('\'');
            proof {
                let pre = params@.subrange(0, i as int);
                assert(pre.push(params@[i as int]) =~= params@.subrange(0, i + 1));
                lemma_encode_pairs_snoc(pre, params@[i as int]);
                assert(msg@ =~= spec_encode(command@, params@.subrange(0, i + 1)));
            }
            i += 1;
        }
        proof {
            assert(params@.subrange(0, params@.len() as int) =~= params@);
        }
        msg
    }

    /// Decodes one frame into a command.
    pub fn parse(raw: String) -> (r: Command)
        ensures
            r.spec_name() == spec_command_name(raw@),
            r.spec_params() == spec_command_params(raw@),
    {
        let parsed = Parsed::parse(raw);
        Command { parsed }
    }

    /// The name and parameters, cloned out of the command.
    pub fn extract(&self) -> (r: (String, Params))
        ensures
            r.0@ == self.spec_name(),
            r.1@ == self.spec_params(),
    {
        (self.parsed.command.clone(), self.parsed.params.clone())
    }
}

} // verus!
