//! Rendering the command listing: one aligned line per single-command
//! script, and a bracketed block for each command sequence. Printing the
//! lines (and colouring them) is the surrounding binary's work.

use vstd::prelude::*;

verus! {

use vstd::string::StrSliceExecFns;
use vstd::string::StringExecFns;
use crate::manifest::RobinConfig;
use crate::manifest::EntryV;
use crate::manifest::BodyV;
use crate::manifest::ScriptBody;

/// `n` spaces.
pub open spec fn spaces(n: int) -> Seq<char>
    decreases n,
{
    if n <= 0 {
        Seq::empty()
    } else {
        spaces(n - 1).push(' ')
    }
}

/// `name` padded with spaces on the right to width `w`.
pub open spec fn pad_to(name: Seq<char>, w: int) -> Seq<char> {
    name + spaces(w - name.len())
}

/// The longest script name of `entries[i..]`, in characters.
pub open spec fn max_name_len_from(entries: Seq<EntryV>, i: int) -> int
    decreases entries.len() - i,
{
    if i < 0 || i >= entries.len() {
        0
    } else {
        let rest = max_name_len_from(entries, i + 1);
        if entries[i].name.len() >= rest {
            entries[i].name.len() as int
        } else {
            rest
        }
    }
}

/// The listing lines of one entry, its name padded to width `w`.
pub open spec fn render_entry(e: EntryV, w: int) -> Seq<Seq<char>> {
    match e.body {
        BodyV::Single(cmd) => seq!["==> "@ + pad_to(e.name, w) + " # "@ + cmd],
        BodyV::Sequence(cmds) => (seq!["==> "@ + pad_to(e.name, w) + " # ["@] + Seq::new(
            cmds.len(),
            |k: int| "       "@ + cmds[k],
        )).push("     ]"@),
    }
}

/// The listing lines of `entries[i..]`, in manifest order.
pub open spec fn render_from(entries: Seq<EntryV>, i: int, w: int) -> Seq<Seq<char>>
    decreases entries.len() - i,
{
    if i < 0 || i >= entries.len() {
        Seq::empty()
    } else {
        render_entry(entries[i], w) + render_from(entries, i + 1, w)
    }
}

/// `name` padded with spaces on the right to width `w`.
fn pad_name(name: &str, w: usize) -> (r: String)
    requires
        name@.len() <= w,
    ensures
        r@ == pad_to(name@, w as int),
{
    let mut out = name.to_owned();
    let n = name.unicode_len();
    let mut j: usize = 0;
    while j < w - n
        invariant
            n == name@.len(),
            n <= w,
            0 <= j <= w - n,
            out@ == name@ + spaces(j as int),
        decreases w - n - j,
    {
        out.append(" ");
        proof {
            reveal_strlit(" ");
            assert(name@ + spaces(j as int) + " "@ =~= name@ + spaces(j + 1));
        }
        j = j + 1;
    }
    out
}

/// The width the listing aligns names to: the longest script name.
fn max_name_len(config: &RobinConfig) -> (r: usize)
    ensures
        r == max_name_len_from(config.entries(), 0),
{
    let n = config.scripts.len();
    let mut m: usize = 0;
    let mut i: usize = n;
    while i > 0
        invariant
            0 <= i <= n,
            n == config.scripts@.len(),
            config.entries().len() == n,
            forall|k: int| 0 <= k < n ==> config.entries()[k] == config.scripts@[k]@,
            m == max_name_len_from(config.entries(), i as int),
        decreases i,
    {
        i = i - 1;
        let cur = name_len_at(config, i);
        if cur >= m {
            m = cur;
        }
    }
    m
}

/// The character length of the `i`th script name.
fn name_len_at(config: &RobinConfig, i: usize) -> (r: usize)
    requires
        i < config.scripts@.len(),
    ensures
        r == config.entries()[i as int].name.len(),
{
    config.scripts[i].name.as_str().unicode_len()
}

/// The listing of the whole manifest: each script name aligned to the
/// longest one, single commands on one line, sequences as a bracketed
/// block of their commands in order.
pub fn render_command_list(config: &RobinConfig) -> (r: Vec<String>)
    ensures
        r.deep_view() == render_from(
            config.entries(),
            0,
            max_name_len_from(config.entries(), 0),
        ),
{
    let w = max_name_len(config);
    let ghost entries = config.entries();
    let ghost wi = w as int;
    let mut out: Vec<String> = Vec::new();
    let n = config.scripts.len();
    proof {
        assert forall|k: int| 0 <= k < entries.len() implies (#[trigger] entries[k]).name.len()
            <= wi by {
            lemma_max_name_bound(entries, 0, k);
        }
    }
    let mut i: usize = 0;
    while i < n
        invariant
            0 <= i <= n,
            n == config.scripts@.len(),
            entries == config.entries(),
            entries.len() == n,
            wi == w as int,
            forall|k: int| 0 <= k < n ==> entries[k] == config.scripts@[k]@,
            forall|k: int| 0 <= k < n ==> entries[k].name.len() <= wi,
            render_from(entries, 0, wi) == out.deep_view() + render_from(entries, i as int, wi),
        decreases n - i,
    {
        let ghost pre = out.deep_view();
        let name = config.scripts[i].name.as_str();
        let padded = pad_name(name, w);
        match &config.scripts[i].body {
            ScriptBody::Single(cmd) => {
                let line = String::from_str("==> ").concat(padded.as_str()).concat(
                    " # ",
                ).concat(cmd.as_str());
                out.push(line);
                proof {
                    assert(out.deep_view() =~= pre + render_entry(entries[i as int], wi));
                    assert(pre + render_entry(entries[i as int], wi) + render_from(
                        entries,
                        i + 1,
                        wi,
                    ) =~= pre + (render_entry(entries[i as int], wi) + render_from(
                        entries,
                        i + 1,
                        wi,
                    )));
                }
            },
            ScriptBody::Sequence(cmds) => {
                let ghost cmdsv = cmds.deep_view();
                let ghost mid = Seq::new(cmdsv.len(), |k: int| "       "@ + cmdsv[k]);
                let header = String::from_str("==> ").concat(padded.as_str()).concat(" # [");
                out.push(header);
                let cn = cmds.len();
                let mut k: usize = 0;
                while k < cn
                    invariant
                        0 <= k <= cn,
                        cn == cmds@.len(),
                        cmdsv == cmds.deep_view(),
                        cmdsv.len() == cn,
                        forall|m: int| 0 <= m < cn ==> cmdsv[m] == cmds@[m]@,
                        mid == Seq::new(cmdsv.len(), |m: int| "       "@ + cmdsv[m]),
                        out.deep_view() =~= pre + seq!["==> "@ + pad_to(
                            entries[i as int].name,
                            wi,
                        ) + " # ["@] + mid.take(k as int),
                        entries == config.entries(),
                        entries.len() == n,
                        i < n,
                        entries[i as int].name == config.scripts@[i as int].name@,
                        wi == w as int,
                        padded@ == pad_to(entries[i as int].name, wi),
                    decreases cn - k,
                {
                    let ghost pre2 = out.deep_view();
                    let line = String::from_str("       ").concat(cmds[k].as_str());
                    out.push(line);
                    proof {
                        assert(out.deep_view() =~= pre2.push("       "@ + cmdsv[k as int]));
                        assert(mid.take(k + 1) =~= mid.take(k as int).push(
                            "       "@ + cmdsv[k as int],
                        ));
                        assert(pre2.push("       "@ + cmdsv[k as int]) =~= pre + seq!["==> "@
                            + pad_to(entries[i as int].name, wi) + " # ["@] + mid.take(k + 1));
                    }
                    k = k + 1;
                }
                let footer = String::from_str("     ]");
                let ghost pre3 = out.deep_view();
                out.push(footer);
                proof {
                    assert(out.deep_view() =~= pre3.push("     ]"@));
                    assert(mid.take(cn as int) =~= mid);
                    assert(pre3 =~= pre + seq!["==> "@ + pad_to(entries[i as int].name, wi)
                        + " # ["@] + mid);
                    assert(entries[i as int].body == BodyV::Sequence(cmdsv));
                    assert(render_entry(entries[i as int], wi) == (seq!["==> "@ + pad_to(
                        entries[i as int].name,
                        wi,
                    ) + " # ["@] + mid).push("     ]"@));
                    assert(out.deep_view() =~= pre + render_entry(entries[i as int], wi));
                    assert(pre + render_entry(entries[i as int], wi) + render_from(
                        entries,
                        i + 1,
                        wi,
                    ) =~= pre + (render_entry(entries[i as int], wi) + render_from(
                        entries,
                        i + 1,
                        wi,
                    )));
                }
            },
        }
        i = i + 1;
    }
    proof {
        assert(render_from(entries, n as int, wi) =~= Seq::<Seq<char>>::empty());
        assert(out.deep_view() + Seq::<Seq<char>>::empty() =~= out.deep_view());
    }
    out
}

/// The names never outgrow the computed width.
proof fn lemma_max_name_bound(entries: Seq<EntryV>, i: int, j: int)
    requires
        0 <= i <= j < entries.len(),
    ensures
        entries[j].name.len() <= max_name_len_from(entries, i),
    decreases j - i,
{
    if i < j {
        lemma_max_name_bound(entries, i + 1, j);
    }
}

} // verus!
