//! The placeholder substitution engine.
//!
//! A command string may contain `{{name}}`, `{{name=default}}` and
//! `{{name=[v1,v2,...]}}` placeholders, where `name` is one or more ASCII
//! letters, digits or underscores. Scanning left to right, each textual
//! occurrence is resolved independently against the `--name=value` variable
//! arguments: the first matching argument wins; a default fills in for a
//! missing argument; an enumerated placeholder demands an argument and
//! rejects values outside its list. Text that does not form a placeholder
//! is kept verbatim.

use vstd::prelude::*;

verus! {

use vstd::string::StrSliceExecFns;
use vstd::string::StringExecFns;
use crate::errors::RobinError;
use crate::errors::RobinErrorV;
use crate::strutil::has_prefix;
use crate::strutil::spec_trim;
use crate::strutil::trim_bounds;
use crate::strutil::range_to_string;
use crate::strutil::str_eq;

/// An ASCII letter, digit or underscore: the characters a placeholder name
/// is made of.
pub open spec fn is_ident_char(c: char) -> bool {
    let u = c as u32;
    (0x30 <= u && u <= 0x39) || (0x41 <= u && u <= 0x5A) || (0x61 <= u && u <= 0x7A) || u == 0x5F
}

pub fn is_ident(c: char) -> (r: bool)
    ensures
        r == is_ident_char(c),
{
    let u = c as u32;
    (0x30 <= u && u <= 0x39) || (0x41 <= u && u <= 0x5A) || (0x61 <= u && u <= 0x7A) || u == 0x5F
}

/// The first index at or after `i` that does not hold an identifier
/// character, or `s.len()` if they run to the end.
pub open spec fn ident_end(s: Seq<char>, i: int) -> int
    decreases s.len() - i,
{
    if i < 0 || i >= s.len() {
        s.len() as int
    } else if is_ident_char(s[i]) {
        ident_end(s, i + 1)
    } else {
        i
    }
}

pub proof fn lemma_ident_end_bounds(s: Seq<char>, i: int)
    requires
        0 <= i <= s.len(),
    ensures
        i <= ident_end(s, i) <= s.len(),
        forall|k: int| i <= k < ident_end(s, i) ==> is_ident_char(#[trigger] s[k]),
        ident_end(s, i) < s.len() ==> !is_ident_char(s[ident_end(s, i)]),
    decreases s.len() - i,
{
    if i < s.len() && is_ident_char(s[i]) {
        lemma_ident_end_bounds(s, i + 1);
    }
}

/// The first index at or after `i` holding `c`, or `s.len()` if none does.
pub open spec fn scan_to(s: Seq<char>, i: int, c: char) -> int
    decreases s.len() - i,
{
    if i < 0 || i >= s.len() {
        s.len() as int
    } else if s[i] == c {
        i
    } else {
        scan_to(s, i + 1, c)
    }
}

pub proof fn lemma_scan_to_bounds(s: Seq<char>, i: int, c: char)
    requires
        0 <= i <= s.len(),
    ensures
        i <= scan_to(s, i, c) <= s.len(),
        forall|k: int| i <= k < scan_to(s, i, c) ==> #[trigger] s[k] != c,
        scan_to(s, i, c) < s.len() ==> s[scan_to(s, i, c)] == c,
    decreases s.len() - i,
{
    if i < s.len() && s[i] != c {
        lemma_scan_to_bounds(s, i + 1, c);
    }
}

/// The allowed values of an enumerated placeholder: the text of `s[i..end)`
/// split on commas, each piece trimmed of surrounding whitespace.
pub open spec fn split_trim_in(s: Seq<char>, i: int, end: int) -> Seq<Seq<char>>
    decreases end - i,
    when 0 <= i <= end <= s.len()
    via split_trim_in_decreases
{
    let k = scan_to(s, i, ',');
    if k >= end {
        seq![spec_trim(s.subrange(i, end))]
    } else {
        seq![spec_trim(s.subrange(i, k))] + split_trim_in(s, k + 1, end)
    }
}

#[via_fn]
proof fn split_trim_in_decreases(s: Seq<char>, i: int, end: int) {
    if 0 <= i <= end <= s.len() {
        lemma_scan_to_bounds(s, i, ',');
    }
}

/// A parsed placeholder: its name, its kind, and the index just past its
/// closing braces.
pub ghost struct PhSpec {
    pub name: Seq<char>,
    pub kind: PhKindSpec,
    pub end: int,
}

/// The three placeholder forms.
pub ghost enum PhKindSpec {
    /// `{{name}}`: an argument is required.
    Plain,
    /// `{{name=default}}`: the default fills in for a missing argument.
    Defaulted(Seq<char>),
    /// `{{name=[a,b,...]}}`: an argument is required and must be listed.
    Choice(Seq<Seq<char>>),
}

/// The enumerated form matches at `j` (the `=` position): an opening
/// bracket, a closing bracket with at least one character between them,
/// and the two closing braces right after.
pub open spec fn enum_form_at(s: Seq<char>, j: int) -> bool {
    let k = scan_to(s, j + 2, ']');
    j + 1 < s.len() && s[j + 1] == '[' && k < s.len() && k > j + 2 && k + 3 <= s.len() && s[k + 1]
        == '}' && s[k + 2] == '}'
}

/// The default form matches at `j` (the `=` position): at least one
/// character up to the first `}`, which starts the two closing braces.
pub open spec fn default_form_at(s: Seq<char>, j: int) -> bool {
    let k = scan_to(s, j + 1, '}');
    k < s.len() && k > j + 1 && k + 2 <= s.len() && s[k + 1] == '}'
}

/// The placeholder starting at `i`, if the text there forms one.
pub open spec fn ph_at(s: Seq<char>, i: int) -> Option<PhSpec> {
    if !(0 <= i && i + 2 <= s.len() && s[i] == '{' && s[i + 1] == '{') {
        None
    } else {
        let j = ident_end(s, i + 2);
        let name = s.subrange(i + 2, j);
        if j == i + 2 {
            None
        } else if j + 2 <= s.len() && s[j] == '}' && s[j + 1] == '}' {
            Some(PhSpec { name, kind: PhKindSpec::Plain, end: j + 2 })
        } else if j < s.len() && s[j] == '=' {
            if enum_form_at(s, j) {
                let k = scan_to(s, j + 2, ']');
                Some(
                    PhSpec {
                        name,
                        kind: PhKindSpec::Choice(split_trim_in(s, j + 2, k)),
                        end: k + 3,
                    },
                )
            } else if default_form_at(s, j) {
                let k = scan_to(s, j + 1, '}');
                Some(
                    PhSpec {
                        name,
                        kind: PhKindSpec::Defaulted(s.subrange(j + 1, k)),
                        end: k + 2,
                    },
                )
            } else {
                None
            }
        } else {
            None
        }
    }
}

/// A placeholder spans at least `{{x}}` and never runs past the end.
pub proof fn lemma_ph_at_bounds(s: Seq<char>, i: int)
    requires
        ph_at(s, i) is Some,
    ensures
        i + 5 <= ph_at(s, i)->Some_0.end <= s.len(),
{
    let j = ident_end(s, i + 2);
    lemma_ident_end_bounds(s, i + 2);
    if j + 2 <= s.len() && s[j] == '}' && s[j + 1] == '}' {
    } else if j < s.len() && s[j] == '=' {
        if enum_form_at(s, j) {
            lemma_scan_to_bounds(s, j + 2, ']');
        } else {
            lemma_scan_to_bounds(s, j + 1, '}');
        }
    }
}

/// The `--name=` pattern a placeholder looks for among the arguments.
pub open spec fn arg_pattern(name: Seq<char>) -> Seq<char> {
    seq!['-', '-'] + name + seq!['=']
}

/// The value of the first argument of the form `--name=value`, if any,
/// scanning from index `i`.
pub open spec fn lookup_arg_from(args: Seq<Seq<char>>, i: int, name: Seq<char>) -> Option<
    Seq<char>,
>
    decreases args.len() - i,
{
    if i < 0 || i >= args.len() {
        None
    } else if has_prefix(args[i], arg_pattern(name)) {
        Some(args[i].subrange(arg_pattern(name).len() as int, args[i].len() as int))
    } else {
        lookup_arg_from(args, i + 1, name)
    }
}

pub open spec fn lookup_arg(args: Seq<Seq<char>>, name: Seq<char>) -> Option<Seq<char>> {
    lookup_arg_from(args, 0, name)
}

/// The text a placeholder resolves to, or the error it raises.
pub open spec fn resolve_ph(ph: PhSpec, args: Seq<Seq<char>>) -> Result<Seq<char>, RobinErrorV> {
    match ph.kind {
        PhKindSpec::Plain => match lookup_arg(args, ph.name) {
            Some(v) => Ok(v),
            None => Err(RobinErrorV::MissingVariable { name: ph.name }),
        },
        PhKindSpec::Defaulted(d) => match lookup_arg(args, ph.name) {
            Some(v) => Ok(v),
            None => Ok(d),
        },
        PhKindSpec::Choice(allowed) => match lookup_arg(args, ph.name) {
            Some(v) => if allowed.contains(v) {
                Ok(v)
            } else {
                Err(RobinErrorV::InvalidEnumValue { name: ph.name, value: v, allowed })
            },
            None => Err(RobinErrorV::MissingVariable { name: ph.name }),
        },
    }
}

/// Substitution of `s[i..]`: placeholders resolve in textual order and
/// everything else is copied; the first failing placeholder aborts.
pub open spec fn spec_subst_from(s: Seq<char>, i: int, args: Seq<Seq<char>>) -> Result<
    Seq<char>,
    RobinErrorV,
>
    decreases s.len() - i,
    when 0 <= i
    via spec_subst_from_decreases
{
    if i >= s.len() {
        Ok(Seq::empty())
    } else {
        match ph_at(s, i) {
            Some(ph) => match resolve_ph(ph, args) {
                Ok(v) => match spec_subst_from(s, ph.end, args) {
                    Ok(rest) => Ok(v + rest),
                    Err(e) => Err(e),
                },
                Err(e) => Err(e),
            },
            None => match spec_subst_from(s, i + 1, args) {
                Ok(rest) => Ok(seq![s[i]] + rest),
                Err(e) => Err(e),
            },
        }
    }
}

#[via_fn]
proof fn spec_subst_from_decreases(s: Seq<char>, i: int, args: Seq<Seq<char>>) {
    if 0 <= i < s.len() {
        if ph_at(s, i) is Some {
            lemma_ph_at_bounds(s, i);
        }
    }
}

/// Full substitution of a command string against the variable arguments.
pub open spec fn spec_substitute(s: Seq<char>, args: Seq<Seq<char>>) -> Result<
    Seq<char>,
    RobinErrorV,
> {
    spec_subst_from(s, 0, args)
}

fn ident_end_exec(s: &str, from: usize) -> (r: usize)
    requires
        from <= s@.len(),
    ensures
        r == ident_end(s@, from as int),
        from <= r <= s@.len(),
{
    let n = s.unicode_len();
    let mut j = from;
    while j < n && is_ident(s.get_char(j))
        invariant
            from <= j <= n,
            n == s@.len(),
            ident_end(s@, from as int) == ident_end(s@, j as int),
        decreases n - j,
    {
        j = j + 1;
    }
    j
}

fn scan_to_exec(s: &str, from: usize, c: char) -> (r: usize)
    requires
        from <= s@.len(),
    ensures
        r == scan_to(s@, from as int, c),
        from <= r <= s@.len(),
{
    let n = s.unicode_len();
    let mut j = from;
    while j < n && s.get_char(j) != c
        invariant
            from <= j <= n,
            n == s@.len(),
            scan_to(s@, from as int, c) == scan_to(s@, j as int, c),
        decreases n - j,
    {
        j = j + 1;
    }
    j
}

/// A parsed placeholder, by character positions into the command string.
struct Ph {
    name_start: usize,
    name_end: usize,
    kind: PhKind,
    end: usize,
}

/// The three placeholder forms, each carrying the character range of its
/// payload in the command string.
enum PhKind {
    Plain,
    Defaulted(usize, usize),
    Choice(usize, usize),
}

/// Whether the exec-side parse and the specification placeholder agree.
spec fn ph_matches(s: Seq<char>, p: Ph, phs: PhSpec) -> bool {
    &&& p.name_start <= p.name_end <= s.len()
    &&& phs.name == s.subrange(p.name_start as int, p.name_end as int)
    &&& phs.end == p.end
    &&& p.end <= s.len()
    &&& match p.kind {
        PhKind::Plain => phs.kind is Plain,
        PhKind::Defaulted(a, b) => a <= b <= s.len() && phs.kind == PhKindSpec::Defaulted(
            s.subrange(a as int, b as int),
        ),
        PhKind::Choice(a, b) => a <= b < s.len() && phs.kind == PhKindSpec::Choice(
            split_trim_in(s, a as int, b as int),
        ),
    }
}

/// Try to parse a placeholder starting at character `i`.
fn parse_ph(s: &str, i: usize) -> (r: Option<Ph>)
    requires
        i < s@.len(),
    ensures
        match r {
            Some(p) => ph_at(s@, i as int) is Some && ph_matches(
                s@,
                p,
                ph_at(s@, i as int)->Some_0,
            ),
            None => ph_at(s@, i as int) is None,
        },
{
    let n = s.unicode_len();
    if n - i < 2 || s.get_char(i) != '{' || s.get_char(i + 1) != '{' {
        return None;
    }
    let j = ident_end_exec(s, i + 2);
    if j == i + 2 {
        return None;
    }
    if n - j >= 2 && s.get_char(j) == '}' && s.get_char(j + 1) == '}' {
        return Some(Ph { name_start: i + 2, name_end: j, kind: PhKind::Plain, end: j + 2 });
    }
    if j < n && s.get_char(j) == '=' {
        if n - j > 1 && s.get_char(j + 1) == '[' {
            let k = scan_to_exec(s, j + 2, ']');
            if k < n && k - j > 2 && n - k >= 3 && s.get_char(k + 1) == '}' && s.get_char(k + 2)
                == '}' {
                return Some(
                    Ph {
                        name_start: i + 2,
                        name_end: j,
                        kind: PhKind::Choice(j + 2, k),
                        end: k + 3,
                    },
                );
            }
        }
        let k = scan_to_exec(s, j + 1, '}');
        if k < n && k - j > 1 && n - k >= 2 && s.get_char(k + 1) == '}' {
            return Some(
                Ph {
                    name_start: i + 2,
                    name_end: j,
                    kind: PhKind::Defaulted(j + 1, k),
                    end: k + 2,
                },
            );
        }
        return None;
    }
    None
}

/// Whether `arg` is of the form `--name=...`.
fn arg_matches(arg: &str, name: &str) -> (r: bool)
    ensures
        r == has_prefix(arg@, arg_pattern(name@)),
{
    let na = arg.unicode_len();
    let nn = name.unicode_len();
    proof {
        assert(arg_pattern(name@).len() == name@.len() + 3 as int);
        assert(arg_pattern(name@)[0] == '-');
        assert(arg_pattern(name@)[1] == '-');
        assert(arg_pattern(name@)[name@.len() + 2 as int] == '=');
        assert(forall|t: int| 0 <= t < name@.len() ==> arg_pattern(name@)[t + 2] == name@[t]);
    }
    if na < 3 || na - 3 < nn {
        return false;
    }
    if arg.get_char(0) != '-' || arg.get_char(1) != '-' {
        proof {
            if has_prefix(arg@, arg_pattern(name@)) {
                assert(arg@.subrange(0, name@.len() + 3 as int)[0] == '-');
                assert(arg@.subrange(0, name@.len() + 3 as int)[1] == '-');
            }
        }
        return false;
    }
    if arg.get_char(nn + 2) != '=' {
        proof {
            if has_prefix(arg@, arg_pattern(name@)) {
                assert(arg@.subrange(0, name@.len() + 3 as int)[name@.len() + 2 as int] == '=');
            }
        }
        return false;
    }
    let mut t: usize = 0;
    while t < nn
        invariant
            0 <= t <= nn,
            na == arg@.len(),
            nn == name@.len(),
            na >= nn + 3,
            forall|m: int| 0 <= m < t ==> arg@[m + 2] == name@[m],
        decreases nn - t,
    {
        if arg.get_char(t + 2) != name.get_char(t) {
            proof {
                if has_prefix(arg@, arg_pattern(name@)) {
                    assert(arg@.subrange(0, name@.len() + 3 as int)[t + 2] == arg_pattern(name@)[t + 2]);
                }
            }
            return false;
        }
        t = t + 1;
    }
    proof {
        assert(arg@.subrange(0, name@.len() + 3 as int) =~= arg_pattern(name@));
    }
    true
}

/// The value of the first `--name=value` argument, if any.
fn arg_value<'a>(args: &'a [String], name: &str) -> (r: Option<&'a str>)
    ensures
        match r {
            Some(v) => lookup_arg(args.deep_view(), name@) == Some(v@),
            None => lookup_arg(args.deep_view(), name@) is None,
        },
{
    let ghost argv = args.deep_view();
    let n = args.len();
    let mut t: usize = 0;
    while t < n
        invariant
            0 <= t <= n,
            n == args@.len(),
            argv == args.deep_view(),
            argv.len() == n,
            forall|k: int| 0 <= k < n ==> argv[k] == args@[k]@,
            lookup_arg(argv, name@) == lookup_arg_from(argv, t as int, name@),
        decreases n - t,
    {
        if arg_matches(args[t].as_str(), name) {
            let arg = args[t].as_str();
            let nn = name.unicode_len();
            let alen = arg.unicode_len();
            proof {
                assert(arg_pattern(name@).len() == name@.len() + 3 as int);
                assert(name@.len() + 3 <= arg@.len());
            }
            let v = arg.substring_char(nn + 3, alen);
            return Some(v);
        }
        t = t + 1;
    }
    None
}

/// Whether some string of `v` reads exactly `x`.
fn contains_string(v: &Vec<String>, x: &str) -> (r: bool)
    ensures
        r == v.deep_view().contains(x@),
{
    let n = v.len();
    let mut t: usize = 0;
    while t < n
        invariant
            0 <= t <= n,
            n == v@.len(),
            v.deep_view().len() == n,
            forall|k: int| 0 <= k < n ==> v.deep_view()[k] == v@[k]@,
            forall|k: int| 0 <= k < t ==> v.deep_view()[k] != x@,
        decreases n - t,
    {
        if str_eq(v[t].as_str(), x) {
            assert(v.deep_view()[t as int] == x@);
            return true;
        }
        t = t + 1;
    }
    false
}

/// The allowed values of an enumerated placeholder: `s[a..b)` split on
/// commas, each piece trimmed.
fn parse_allowed(s: &str, a: usize, b: usize) -> (r: Vec<String>)
    requires
        a <= b < s@.len(),
    ensures
        r.deep_view() == split_trim_in(s@, a as int, b as int),
{
    let slen = s.unicode_len();
    let mut parts: Vec<String> = Vec::new();
    let mut c = a;
    while c <= b
        invariant
            a <= c <= b + 1,
            slen == s@.len(),
            b < slen,
            c > b ==> parts.deep_view() == split_trim_in(s@, a as int, b as int),
            c <= b ==> split_trim_in(s@, a as int, b as int) == parts.deep_view() + split_trim_in(
                s@,
                c as int,
                b as int,
            ),
        decreases b + 1 - c,
    {
        let k = scan_to_exec(s, c, ',');
        let ghost pre = parts.deep_view();
        if k >= b {
            let (ta, tb) = trim_bounds(s, c, b);
            parts.push(range_to_string(s, ta, tb));
            proof {
                assert(split_trim_in(s@, c as int, b as int) =~= seq![
                    spec_trim(s@.subrange(c as int, b as int)),
                ]);
                assert(parts.deep_view() =~= pre + split_trim_in(s@, c as int, b as int));
            }
            c = b + 1;
        } else {
            let (ta, tb) = trim_bounds(s, c, k);
            parts.push(range_to_string(s, ta, tb));
            proof {
                assert(parts.deep_view() =~= pre.push(spec_trim(s@.subrange(c as int, k as int))));
                assert(split_trim_in(s@, c as int, b as int) == seq![
                    spec_trim(s@.subrange(c as int, k as int)),
                ] + split_trim_in(s@, k + 1, b as int));
                assert(pre.push(spec_trim(s@.subrange(c as int, k as int))) + split_trim_in(
                    s@,
                    k + 1,
                    b as int,
                ) =~= pre + (seq![spec_trim(s@.subrange(c as int, k as int))] + split_trim_in(
                    s@,
                    k + 1,
                    b as int,
                )));
            }
            c = k + 1;
        }
    }
    parts
}

/// Prefix text already produced, then the rest of a substitution.
pub open spec fn subst_combine(pre: Seq<char>, r: Result<Seq<char>, RobinErrorV>) -> Result<
    Seq<char>,
    RobinErrorV,
> {
    match r {
        Ok(t) => Ok(pre + t),
        Err(e) => Err(e),
    }
}

/// Substitute every placeholder of `script` against the variable
/// arguments, exactly as `spec_substitute` describes.
pub fn replace_variables_in_string(script: &str, args: &[String]) -> (r: Result<
    String,
    RobinError,
>)
    ensures
        match r {
            Ok(out) => spec_substitute(script@, args.deep_view()) == Ok::<Seq<char>, RobinErrorV>(
                out@,
            ),
            Err(e) => spec_substitute(script@, args.deep_view()) == Err::<Seq<char>, RobinErrorV>(
                e@,
            ),
        },
{
    let ghost argv = args.deep_view();
    let n = script.unicode_len();
    let mut out = String::new();
    let mut i: usize = 0;
    while i < n
        invariant
            0 <= i <= n,
            n == script@.len(),
            argv == args.deep_view(),
            spec_subst_from(script@, 0, argv) == subst_combine(
                out@,
                spec_subst_from(script@, i as int, argv),
            ),
        decreases n - i,
    {
        let ghost old_out = out@;
        match parse_ph(script, i) {
            Some(p) => {
                let ghost phs = ph_at(script@, i as int)->Some_0;
                proof {
                    lemma_ph_at_bounds(script@, i as int);
                }
                let name_str = script.substring_char(p.name_start, p.name_end);
                match p.kind {
                    PhKind::Plain => {
                        match arg_value(args, name_str) {
                            Some(v) => {
                                out.append(v);
                                proof {
                                    let rest = spec_subst_from(script@, phs.end, argv);
                                    lemma_combine_shift(old_out, v@, rest);
                                }
                                i = p.end;
                            },
                            None => {
                                let e = RobinError::MissingVariable { name: name_str.to_owned() };
                                return Err(e);
                            },
                        }
                    },
                    PhKind::Defaulted(a, b) => {
                        match arg_value(args, name_str) {
                            Some(v) => {
                                out.append(v);
                                proof {
                                    let rest = spec_subst_from(script@, phs.end, argv);
                                    lemma_combine_shift(old_out, v@, rest);
                                }
                            },
                            None => {
                                let d = script.substring_char(a, b);
                                out.append(d);
                                proof {
                                    let rest = spec_subst_from(script@, phs.end, argv);
                                    lemma_combine_shift(old_out, d@, rest);
                                }
                            },
                        }
                        i = p.end;
                    },
                    PhKind::Choice(a, b) => {
                        let allowed = parse_allowed(script, a, b);
                        match arg_value(args, name_str) {
                            None => {
                                let e = RobinError::MissingVariable { name: name_str.to_owned() };
                                return Err(e);
                            },
                            Some(v) => {
                                if contains_string(&allowed, v) {
                                    out.append(v);
                                    proof {
                                        let rest = spec_subst_from(script@, phs.end, argv);
                                        lemma_combine_shift(old_out, v@, rest);
                                    }
                                    i = p.end;
                                } else {
                                    let e = RobinError::InvalidEnumValue {
                                        name: name_str.to_owned(),
                                        value: v.to_owned(),
                                        allowed,
                                    };
                                    return Err(e);
                                }
                            },
                        }
                    },
                }
            },
            None => {
                let c = script.substring_char(i, i + 1);
                out.append(c);
                proof {
                    assert(c@ =~= seq![script@[i as int]]);
                    let rest = spec_subst_from(script@, i + 1, argv);
                    lemma_combine_shift(old_out, c@, rest);
                }
                i = i + 1;
            },
        }
    }
    proof {
        assert(spec_subst_from(script@, n as int, argv) == Ok::<Seq<char>, RobinErrorV>(
            Seq::empty(),
        ));
        assert(out@ + Seq::<char>::empty() =~= out@);
    }
    Ok(out)
}

/// Substitution over a command list, front to back: the first failure
/// aborts the whole resolution.
pub open spec fn subst_all_from(cmds: Seq<Seq<char>>, i: int, args: Seq<Seq<char>>) -> Result<
    Seq<Seq<char>>,
    RobinErrorV,
>
    decreases cmds.len() - i,
{
    if i < 0 || i >= cmds.len() {
        Ok(Seq::empty())
    } else {
        match spec_substitute(cmds[i], args) {
            Ok(c) => match subst_all_from(cmds, i + 1, args) {
                Ok(rest) => Ok(seq![c] + rest),
                Err(e) => Err(e),
            },
            Err(e) => Err(e),
        }
    }
}

/// Substitution over a whole script body: a single command is substituted
/// once; a sequence is substituted command by command with the same
/// arguments, and any failure aborts the whole resolution.
pub open spec fn spec_replace_body(b: crate::manifest::BodyV, args: Seq<Seq<char>>) -> Result<
    crate::manifest::BodyV,
    RobinErrorV,
> {
    match b {
        crate::manifest::BodyV::Single(s) => match spec_substitute(s, args) {
            Ok(t) => Ok(crate::manifest::BodyV::Single(t)),
            Err(e) => Err(e),
        },
        crate::manifest::BodyV::Sequence(cmds) => match subst_all_from(cmds, 0, args) {
            Ok(ts) => Ok(crate::manifest::BodyV::Sequence(ts)),
            Err(e) => Err(e),
        },
    }
}

/// Commands already resolved, then the rest of a sequence substitution.
pub open spec fn subst_cmds_combine(pre: Seq<Seq<char>>, r: Result<
    Seq<Seq<char>>,
    RobinErrorV,
>) -> Result<Seq<Seq<char>>, RobinErrorV> {
    match r {
        Ok(t) => Ok(pre + t),
        Err(e) => Err(e),
    }
}

/// Substitute the placeholders of a whole script body against the variable
/// arguments, exactly as `spec_replace_body` describes.
pub fn replace_variables(script: &crate::manifest::ScriptBody, args: &[String]) -> (r: Result<
    crate::manifest::ScriptBody,
    RobinError,
>)
    ensures
        match r {
            Ok(out) => spec_replace_body(script@, args.deep_view()) == Ok::<
                crate::manifest::BodyV,
                RobinErrorV,
            >(out@),
            Err(e) => spec_replace_body(script@, args.deep_view()) == Err::<
                crate::manifest::BodyV,
                RobinErrorV,
            >(e@),
        },
{
    let ghost argv = args.deep_view();
    match script {
        crate::manifest::ScriptBody::Single(cmd) => {
            match replace_variables_in_string(cmd.as_str(), args) {
                Ok(out) => Ok(crate::manifest::ScriptBody::Single(out)),
                Err(e) => Err(e),
            }
        },
        crate::manifest::ScriptBody::Sequence(cmds) => {
            let ghost cmdsv = cmds.deep_view();
            let mut out: Vec<String> = Vec::new();
            let n = cmds.len();
            let mut i: usize = 0;
            while i < n
                invariant
                    0 <= i <= n,
                    n == cmds@.len(),
                    argv == args.deep_view(),
                    cmdsv == cmds.deep_view(),
                    script@ == crate::manifest::BodyV::Sequence(cmdsv),
                    cmdsv.len() == n,
                    forall|k: int| 0 <= k < n ==> cmdsv[k] == cmds@[k]@,
                    subst_all_from(cmdsv, 0, argv) == subst_cmds_combine(
                        out.deep_view(),
                        subst_all_from(cmdsv, i as int, argv),
                    ),
                decreases n - i,
            {
                let ghost pre = out.deep_view();
                match replace_variables_in_string(cmds[i].as_str(), args) {
                    Ok(one) => {
                        let ghost onev = one@;
                        out.push(one);
                        proof {
                            assert(out.deep_view() =~= pre.push(onev));
                            let rest = subst_all_from(cmdsv, i + 1, argv);
                            match rest {
                                Ok(t) => {
                                    assert(pre + (seq![onev] + t) =~= pre.push(onev) + t);
                                },
                                Err(_) => {},
                            }
                        }
                    },
                    Err(e) => {
                        return Err(e);
                    },
                }
                i = i + 1;
            }
            proof {
                assert(subst_all_from(cmdsv, n as int, argv) == Ok::<Seq<Seq<char>>, RobinErrorV>(
                    Seq::empty(),
                ));
                assert(out.deep_view() + Seq::<Seq<char>>::empty() =~= out.deep_view());
            }
            Ok(crate::manifest::ScriptBody::Sequence(out))
        },
    }
}

/// Whether any position of `s` starts a placeholder.
pub open spec fn has_placeholder(s: Seq<char>) -> bool {
    exists|i: int| 0 <= i < s.len() && #[trigger] ph_at(s, i) is Some
}

/// Substituting a command with no remaining placeholder returns it
/// unchanged, whatever the arguments: substitution is idempotent on fully
/// resolved text.
pub proof fn lemma_substitute_resolved_identity(s: Seq<char>, args: Seq<Seq<char>>)
    requires
        !has_placeholder(s),
    ensures
        spec_substitute(s, args) == Ok::<Seq<char>, RobinErrorV>(s),
{
    lemma_subst_from_identity(s, 0, args);
    assert(s.subrange(0, s.len() as int) =~= s);
}

proof fn lemma_subst_from_identity(s: Seq<char>, i: int, args: Seq<Seq<char>>)
    requires
        0 <= i <= s.len(),
        !has_placeholder(s),
    ensures
        spec_subst_from(s, i, args) == Ok::<Seq<char>, RobinErrorV>(
            s.subrange(i, s.len() as int),
        ),
    decreases s.len() - i,
{
    if i >= s.len() {
        assert(s.subrange(i, s.len() as int) =~= Seq::<char>::empty());
    } else {
        assert(ph_at(s, i) is None);
        lemma_subst_from_identity(s, i + 1, args);
        assert(seq![s[i]] + s.subrange(i + 1, s.len() as int) =~= s.subrange(i, s.len() as int));
    }
}

/// Text produced in two steps combines the same way as in one.
proof fn lemma_combine_shift(pre: Seq<char>, mid: Seq<char>, r: Result<Seq<char>, RobinErrorV>)
    ensures
        subst_combine(pre, subst_combine(mid, r)) == subst_combine(pre + mid, r),
{
    match r {
        Ok(t) => {
            assert(pre + (mid + t) =~= (pre + mid) + t);
        },
        Err(_) => {},
    }
}

} // verus!

