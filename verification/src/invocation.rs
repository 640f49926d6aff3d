//! The invocation splitter: raw trailing command-line tokens are separated
//! into a space-joined script name and the `--key=value` variable arguments.
//!
//! The rule is a single pass: tokens are appended to the script name until
//! the first token that starts with `--`; from that token on, every token,
//! whatever its shape, belongs to the variable arguments.

use vstd::prelude::*;

verus! {

use crate::strutil::join_with;
use crate::strutil::str_has_prefix;
use crate::strutil::has_prefix;

/// The token opens with two dashes.
pub open spec fn is_flag_token(t: Seq<char>) -> bool {
    t.len() >= 2 && t[0] == '-' && t[1] == '-'
}

/// The index of the first flag token at or after `i`, or `tokens.len()` if
/// there is none.
pub open spec fn first_flag_from(tokens: Seq<Seq<char>>, i: int) -> int
    decreases tokens.len() - i,
{
    if i < 0 || i >= tokens.len() {
        tokens.len() as int
    } else if is_flag_token(tokens[i]) {
        i
    } else {
        first_flag_from(tokens, i + 1)
    }
}

pub open spec fn first_flag(tokens: Seq<Seq<char>>) -> int {
    first_flag_from(tokens, 0)
}

/// The script name: the tokens before the first flag, joined with spaces.
pub open spec fn spec_script_name(tokens: Seq<Seq<char>>) -> Seq<char> {
    join_with(tokens.take(first_flag(tokens)), seq![' '])
}

/// The variable arguments: the untouched suffix from the first flag on.
pub open spec fn spec_var_args(tokens: Seq<Seq<char>>) -> Seq<Seq<char>> {
    tokens.skip(first_flag(tokens))
}

/// `first_flag` marks exactly the boundary of the name section: everything
/// before it is a plain token, and the token there (if any) is a flag.
pub proof fn lemma_first_flag_bound(tokens: Seq<Seq<char>>, i: int)
    requires
        0 <= i <= tokens.len(),
    ensures
        i <= first_flag_from(tokens, i) <= tokens.len(),
        forall|k: int| i <= k < first_flag_from(tokens, i) ==> !is_flag_token(tokens[k]),
        first_flag_from(tokens, i) < tokens.len() ==> is_flag_token(
            tokens[first_flag_from(tokens, i)],
        ),
    decreases tokens.len() - i,
{
    if i < tokens.len() && !is_flag_token(tokens[i]) {
        lemma_first_flag_bound(tokens, i + 1);
    }
}

/// Splitting never fails and loses nothing: the name is the space-joined
/// prefix of non-flag tokens, the variable arguments are the untouched
/// suffix, and putting prefix and suffix back together yields the original
/// token list. Once a flag token appears, no later token reaches the name.
pub proof fn lemma_split_reconstructs(tokens: Seq<Seq<char>>)
    ensures
        tokens.take(first_flag(tokens)) + spec_var_args(tokens) == tokens,
        spec_script_name(tokens) == join_with(tokens.take(first_flag(tokens)), seq![' ']),
        forall|k: int| 0 <= k < first_flag(tokens) ==> !is_flag_token(tokens[k]),
        first_flag(tokens) < tokens.len() ==> is_flag_token(tokens[first_flag(tokens)]),
        forall|k: int|
            first_flag(tokens) <= k < tokens.len() ==> spec_var_args(tokens)[k - first_flag(
                tokens,
            )] == tokens[k],
{
    lemma_first_flag_bound(tokens, 0);
    assert(tokens.take(first_flag(tokens)) + tokens.skip(first_flag(tokens)) =~= tokens);
}

/// Split raw tokens into the script name and the variable arguments.
///
/// Tokens before the first `--`-prefixed token form the name; that token and
/// every later one, flag-shaped or not, are returned as variable arguments.
pub fn split_command_and_args(args: &[String]) -> (r: (String, Vec<String>))
    ensures
        r.0@ == spec_script_name(args.deep_view()),
        r.1.deep_view() == spec_var_args(args.deep_view()),
{
    let ghost toks = args.deep_view();
    proof {
        assert(toks.len() == args@.len());
        lemma_first_flag_bound(toks, 0);
    }
    let n = args.len();
    let mut k: usize = 0;
    while k < n && !str_has_prefix(args[k].as_str(), "--")
        invariant
            0 <= k <= n,
            n == args@.len(),
            toks == args.deep_view(),
            toks.len() == n,
            forall|j: int| 0 <= j < toks.len() ==> toks[j] == args@[j]@,
            forall|j: int| 0 <= j < k ==> !is_flag_token(toks[j]),
            first_flag_from(toks, k as int) == first_flag(toks),
        decreases n - k,
    {
        proof {
            reveal_strlit("--");
            assert(has_prefix(toks[k as int], "--"@) == is_flag_token(toks[k as int])) by {
                if is_flag_token(toks[k as int]) {
                    assert(toks[k as int].subrange(0, 2) =~= "--"@);
                }
                if has_prefix(toks[k as int], "--"@) {
                    assert(toks[k as int].subrange(0, 2)[0] == '-');
                    assert(toks[k as int].subrange(0, 2)[1] == '-');
                }
            }
        }
        k = k + 1;
    }
    proof {
        reveal_strlit("--");
        if k < n {
            assert(has_prefix(toks[k as int], "--"@));
            assert(toks[k as int].subrange(0, 2)[0] == '-');
            assert(toks[k as int].subrange(0, 2)[1] == '-');
            assert(is_flag_token(toks[k as int]));
        }
        assert(first_flag(toks) == k as int);
    }
    let mut name_parts: Vec<String> = Vec::new();
    let mut i: usize = 0;
    while i < k
        invariant
            0 <= i <= k <= n,
            n == args@.len(),
            toks == args.deep_view(),
            toks.len() == n,
            name_parts.deep_view() =~= toks.take(k as int).take(i as int),
        decreases k - i,
    {
        proof {
            assert(toks.take(k as int).take(i as int).len() == i);
            assert(name_parts@.len() == i);
        }
        name_parts.push(args[i].clone());
        proof {
            let dv = name_parts.deep_view();
            assert(dv.len() == i + 1);
            assert forall|m: int| 0 <= m < i + 1 implies dv[m] == toks.take(k as int).take(i + 1)[m] by {
                assert(dv[m] == name_parts@[m]@);
                assert(toks[m] == args@[m]@);
            }
            assert(dv =~= toks.take(k as int).take(i + 1));
        }
        i = i + 1;
    }
    proof {
        assert(name_parts.deep_view() =~= toks.take(k as int));
    }
    let name = crate::strutil::join_strings(&name_parts, " ");
    proof {
        reveal_strlit(" ");
        assert(" "@ =~= seq![' ']);
    }
    let mut var_args: Vec<String> = Vec::new();
    let mut j: usize = k;
    while j < n
        invariant
            k <= j <= n,
            n == args@.len(),
            toks == args.deep_view(),
            toks.len() == n,
            var_args.deep_view() =~= toks.subrange(k as int, j as int),
        decreases n - j,
    {
        proof {
            assert(toks.subrange(k as int, j as int).len() == j - k);
            assert(var_args@.len() == j - k);
        }
        var_args.push(args[j].clone());
        proof {
            let dv = var_args.deep_view();
            assert(dv.len() == j + 1 - k);
            assert forall|m: int| 0 <= m < dv.len() implies dv[m] == toks.subrange(
                k as int,
                j + 1,
            )[m] by {
                assert(dv[m] == var_args@[m]@);
                assert(toks[k + m] == args@[k + m]@);
            }
            assert(dv =~= toks.subrange(k as int, j + 1));
        }
        j = j + 1;
    }
    proof {
        assert(var_args.deep_view() =~= toks.skip(k as int));
    }
    (name, var_args)
}

} // verus!
