//! The decisions behind a record type's per-field directives: which
//! argument names a field recognizes, and what the directive words mean.

use vstd::prelude::*;
use vstd::string::StringExecFns;

use crate::dedup::{self, Strategy};
use crate::err::{dup_attr_arg_text, Error};
use crate::kind;
use crate::schema::ArgKind;
use crate::tokens::{Delim, Name, TokenTree};

verus! {

/// What the set of recognized argument names of a field is, as views: the
/// `arg`/`args` overrides when any were given, the field's own name (raw
/// form stripped) otherwise — followed by the `alias`/`aliases` additions.
pub open spec fn recognized_base(field_name: Name, args: Seq<Name>) -> Seq<Name> {
    if args.len() == 0 {
        seq![Name { text: field_name.text, raw: false, span: field_name.span }]
    } else {
        args
    }
}

/// Computes the exact set of argument names a field answers to: the
/// overrides (or the field's unrawed name), with each alias deposited
/// under the unique strategy — so an alias that repeats an already
/// recognized name is refused as a duplicate.
pub fn recognized_names(field_name: Name, args: Vec<Name>, aliases: Vec<Name>) -> (r: Result<
    Vec<Name>,
    Error,
>)
    ensures
        r matches Ok(names) ==> crate::apply::seq_apply_all(
            recognized_base(field_name, args@),
            aliases@,
            Strategy::Unique,
        ) == Ok::<_, crate::spanned::Span>(names@),
        r matches Err(e) ==> (crate::apply::seq_apply_all(
            recognized_base(field_name, args@),
            aliases@,
            Strategy::Unique,
        ) matches Err(sp) && e@.span == sp && e@.message == dup_attr_arg_text()),
{
    let mut base: Vec<Name> = if args.len() == 0 {
        let mut v: Vec<Name> = Vec::new();
        v.push(field_name.unraw());
        proof {
            assert(v@ =~= recognized_base(field_name, args@));
        }
        v
    } else {
        args
    };
    match <Vec<Name> as crate::apply::TryApplySelf<
        Name,
        kind::Value,
        dedup::Unique,
    >>::try_apply_self(&mut base, aliases) {
        Ok(()) => Ok(base),
        Err(e) => Err(e),
    }
}

/// What a directive's kind word names: `ident`, `nested`, `map`, or
/// `value` (the spaced sub-mode is chosen separately).
pub open spec fn kind_of_word(w: Seq<char>) -> Option<ArgKind> {
    if w == "ident"@ {
        Some(ArgKind::Ident)
    } else if w == "nested"@ {
        Some(ArgKind::Nested)
    } else if w == "value"@ {
        Some(ArgKind::Value { spaced: false })
    } else if w == "map"@ {
        Some(ArgKind::Pairs)
    } else {
        None
    }
}

/// Maps a directive's kind word to the parse kind it names.
pub fn parse_kind_word(w: &str) -> (r: Option<ArgKind>)
    ensures
        r == kind_of_word(w@),
{
    let owned = String::from_str(w);
    if owned.eq(&String::from_str("ident")) {
        Some(ArgKind::Ident)
    } else if owned.eq(&String::from_str("nested")) {
        Some(ArgKind::Nested)
    } else if owned.eq(&String::from_str("value")) {
        Some(ArgKind::Value { spaced: false })
    } else if owned.eq(&String::from_str("map")) {
        Some(ArgKind::Pairs)
    } else {
        None
    }
}

/// What a directive's dedup word names.
pub open spec fn dedup_of_word(w: Seq<char>) -> Option<Strategy> {
    if w == "unique"@ {
        Some(Strategy::Unique)
    } else if w == "first"@ {
        Some(Strategy::First)
    } else if w == "last"@ {
        Some(Strategy::Last)
    } else {
        None
    }
}

/// Maps a directive's dedup word to the strategy it names.
pub fn parse_dedup_word(w: &str) -> (r: Option<Strategy>)
    ensures
        r == dedup_of_word(w@),
{
    let owned = String::from_str(w);
    if owned.eq(&String::from_str("unique")) {
        Some(Strategy::Unique)
    } else if owned.eq(&String::from_str("first")) {
        Some(Strategy::First)
    } else if owned.eq(&String::from_str("last")) {
        Some(Strategy::Last)
    } else {
        None
    }
}

/// Whether position `i` starts a `value(spaced)` kind argument: the plain
/// word `value` followed by a parenthesized group holding exactly the
/// plain word `spaced`.
pub open spec fn spaced_marker_at(toks: Seq<TokenTree>, i: int) -> bool {
    &&& 0 <= i
    &&& i + 1 < toks.len()
    &&& (toks[i] matches TokenTree::Ident(n) && n.text@ == "value"@ && !n.raw)
    &&& (toks[i + 1] matches TokenTree::Group { delim, tokens, .. } && delim == Delim::Paren
        && tokens@.len() == 1 && (tokens@[0] matches TokenTree::Ident(w) && w.text@ == "spaced"@
        && !w.raw))
}

/// What flattening the spaced kind argument leaves, from position `i` on:
/// each `value(spaced)` collapses to the bare word `value`, and whether any
/// such argument was found.
pub open spec fn flatten_spaced_spec(toks: Seq<TokenTree>, i: int) -> (Seq<TokenTree>, bool)
    decreases toks.len() - i,
{
    if i < 0 || i >= toks.len() {
        (Seq::empty(), false)
    } else if spaced_marker_at(toks, i) {
        let (rest, _) = flatten_spaced_spec(toks, i + 2);
        (seq![toks[i]] + rest, true)
    } else {
        let (rest, sp) = flatten_spaced_spec(toks, i + 1);
        (seq![toks[i]] + rest, sp)
    }
}

/// Collapses every `value(spaced)` kind argument of a directive body to the
/// bare word `value`, reporting whether the spaced sub-mode was chosen.
#[verifier::loop_isolation(false)]
pub fn flatten_spaced(tokens: Vec<TokenTree>) -> (r: (Vec<TokenTree>, bool))
    ensures
        r.0@ == flatten_spaced_spec(tokens@, 0).0,
        r.1 == flatten_spaced_spec(tokens@, 0).1,
{
    let ghost toks = tokens@;
    let total = tokens.len();
    let mut rest = tokens;
    let mut out: Vec<TokenTree> = Vec::new();
    let mut spaced = false;
    let mut i: usize = 0;
    let ghost n = toks.len();
    proof {
        assert(rest@ =~= toks.subrange(0, n as int));
    }
    while rest.len() > 0
        invariant
            i <= n,
            n == total,
            rest@ == toks.subrange(i as int, n as int),
            flatten_spaced_spec(toks, 0) == ((out@ + flatten_spaced_spec(toks, i as int).0), (
            spaced || flatten_spaced_spec(toks, i as int).1)),
        decreases rest@.len(),
    {
        proof {
            assert(rest@[0] == toks[i as int]);
            if rest@.len() > 1 {
                assert(rest@[1] == toks[i as int + 1]);
            }
        }
        let ghost rpre = rest@;
        let t = rest.remove(0);
        proof {
            assert(rest@ =~= rpre.drop_first());
            assert(rest@ =~= toks.subrange(i as int + 1, n as int));
        }
        let marker = is_spaced_group(&t, &rest);
        if marker {
            let ghost rpre2 = rest@;
            let _group = rest.remove(0);
            proof {
                assert(rest@ =~= rpre2.drop_first());
                assert(rest@ =~= toks.subrange(i as int + 2, n as int));
                assert(spaced_marker_at(toks, i as int));
            }
            out.push(t);
            spaced = true;
            proof {
                assert(out@ + flatten_spaced_spec(toks, i as int + 2).0 =~= out@.drop_last() + (
                seq![toks[i as int]] + flatten_spaced_spec(toks, i as int + 2).0));
            }
            i = i + 2;
        } else {
            proof {
                assert(!spaced_marker_at(toks, i as int));
            }
            out.push(t);
            proof {
                assert(out@ + flatten_spaced_spec(toks, i as int + 1).0 =~= out@.drop_last() + (
                seq![toks[i as int]] + flatten_spaced_spec(toks, i as int + 1).0));
            }
            i = i + 1;
        }
    }
    proof {
        assert(i == n);
        assert(out@ + flatten_spaced_spec(toks, n as int).0 =~= out@);
    }
    (out, spaced)
}

/// Returns whether `t` is the plain word `value` and the next pending token
/// is the parenthesized plain word `spaced`.
fn is_spaced_group(t: &TokenTree, rest: &Vec<TokenTree>) -> (r: bool)
    ensures
        r == ({
            &&& (*t matches TokenTree::Ident(n) && n.text@ == "value"@ && !n.raw)
            &&& rest@.len() > 0
            &&& (rest@[0] matches TokenTree::Group { delim, tokens, .. } && delim == Delim::Paren
                && tokens@.len() == 1 && (tokens@[0] matches TokenTree::Ident(w) && w.text@
                == "spaced"@ && !w.raw))
        }),
{
    match t {
        TokenTree::Ident(n) => {
            if n.raw || !n.text.eq(&String::from_str("value")) {
                return false;
            }
            if rest.len() == 0 {
                return false;
            }
            match &rest[0] {
                TokenTree::Group { delim: Delim::Paren, tokens, .. } => {
                    if tokens.len() != 1 {
                        return false;
                    }
                    match &tokens[0] {
                        TokenTree::Ident(w) => !w.raw && w.text.eq(&String::from_str("spaced")),
                        _ => false,
                    }
                },
                _ => false,
            }
        },
        _ => false,
    }
}
} // verus!
