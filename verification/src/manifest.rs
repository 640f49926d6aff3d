//! The manifest model: named scripts, each a single command or an ordered
//! command sequence, plus the include list, with deterministic
//! first-writer-wins merging and shape validation at the data boundary.

use vstd::prelude::*;

verus! {

use vstd::string::StringExecFns;
use crate::errors::RobinError;
use crate::errors::RobinErrorV;
use crate::strutil::str_eq;

/// A script body: one shell command, or an ordered sequence of them.
#[derive(Debug, PartialEq, Eq)]
pub enum ScriptBody {
    Single(String),
    Sequence(Vec<String>),
}

/// The mathematical shadow of `ScriptBody`.
pub ghost enum BodyV {
    Single(Seq<char>),
    Sequence(Seq<Seq<char>>),
}

impl View for ScriptBody {
    type V = BodyV;

    open spec fn view(&self) -> BodyV {
        match self {
            ScriptBody::Single(s) => BodyV::Single(s@),
            ScriptBody::Sequence(v) => BodyV::Sequence(v.deep_view()),
        }
    }
}

impl DeepView for ScriptBody {
    type V = BodyV;

    open spec fn deep_view(&self) -> BodyV {
        self.view()
    }
}

/// One named script of the manifest.
#[derive(Debug, PartialEq, Eq)]
pub struct ScriptEntry {
    pub name: String,
    pub body: ScriptBody,
}

/// The mathematical shadow of `ScriptEntry`.
pub ghost struct EntryV {
    pub name: Seq<char>,
    pub body: BodyV,
}

impl View for ScriptEntry {
    type V = EntryV;

    open spec fn view(&self) -> EntryV {
        EntryV { name: self.name@, body: self.body@ }
    }
}

impl DeepView for ScriptEntry {
    type V = EntryV;

    open spec fn deep_view(&self) -> EntryV {
        self.view()
    }
}

/// The in-memory manifest: include paths in declaration order, and the
/// scripts as an ordered list of uniquely named entries.
#[derive(Debug)]
pub struct RobinConfig {
    pub includes: Vec<String>,
    pub scripts: Vec<ScriptEntry>,
}

/// The body bound to `name` in `entries[i..]`, scanning front to back.
pub open spec fn lookup_from(entries: Seq<EntryV>, i: int, name: Seq<char>) -> Option<BodyV>
    decreases entries.len() - i,
{
    if i < 0 || i >= entries.len() {
        None
    } else if entries[i].name == name {
        Some(entries[i].body)
    } else {
        lookup_from(entries, i + 1, name)
    }
}

/// The body bound to `name`, if any: the first entry with that name wins.
pub open spec fn spec_lookup(entries: Seq<EntryV>, name: Seq<char>) -> Option<BodyV> {
    lookup_from(entries, 0, name)
}

/// `entries` merged with `inc[i..]`: entries of `inc` whose names are new
/// are appended in order; names already bound keep their earlier body.
pub open spec fn merge_from_idx(entries: Seq<EntryV>, inc: Seq<EntryV>, i: int) -> Seq<EntryV>
    decreases inc.len() - i,
{
    if i < 0 || i >= inc.len() {
        entries
    } else if spec_lookup(entries, inc[i].name) is Some {
        merge_from_idx(entries, inc, i + 1)
    } else {
        merge_from_idx(entries.push(inc[i]), inc, i + 1)
    }
}

/// First-writer-wins merge of a whole include into a base entry list.
pub open spec fn spec_merge(entries: Seq<EntryV>, inc: Seq<EntryV>) -> Seq<EntryV> {
    merge_from_idx(entries, inc, 0)
}

impl RobinConfig {
    /// The view of the script list.
    pub open spec fn entries(&self) -> Seq<EntryV> {
        self.scripts.deep_view()
    }

    /// Script names are unique within the manifest.
    pub open spec fn wf(&self) -> bool {
        forall|i: int, j: int|
            0 <= i < j < self.entries().len() ==> (#[trigger] self.entries()[i]).name != (
            #[trigger] self.entries()[j]).name
    }

    /// Look a script up by name; the first entry with that name wins.
    pub fn lookup(&self, name: &str) -> (r: Option<&ScriptBody>)
        ensures
            match r {
                Some(b) => spec_lookup(self.entries(), name@) == Some(b@),
                None => spec_lookup(self.entries(), name@) is None,
            },
    {
        let n = self.scripts.len();
        let mut i: usize = 0;
        while i < n
            invariant
                0 <= i <= n,
                n == self.scripts@.len(),
                self.entries().len() == n,
                forall|k: int| 0 <= k < n ==> self.entries()[k] == self.scripts@[k]@,
                lookup_from(self.entries(), 0, name@) == lookup_from(
                    self.entries(),
                    i as int,
                    name@,
                ),
            decreases n - i,
        {
            if str_eq(self.scripts[i].name.as_str(), name) {
                return Some(&self.scripts[i].body);
            }
            i = i + 1;
        }
        None
    }

    /// The script names, in manifest order.
    pub fn script_names(&self) -> (r: Vec<String>)
        ensures
            r@.len() == self.entries().len(),
            forall|k: int| 0 <= k < r@.len() ==> r@[k]@ == self.entries()[k].name,
    {
        let n = self.scripts.len();
        let mut out: Vec<String> = Vec::new();
        let mut i: usize = 0;
        while i < n
            invariant
                0 <= i <= n,
                n == self.scripts@.len(),
                self.entries().len() == n,
                forall|k: int| 0 <= k < n ==> self.entries()[k] == self.scripts@[k]@,
                out@.len() == i,
                forall|k: int| 0 <= k < i ==> out@[k]@ == self.entries()[k].name,
            decreases n - i,
        {
            out.push(self.scripts[i].name.clone());
            i = i + 1;
        }
        out
    }
}

/// An owned copy of a string list that keeps the view.
pub fn clone_strings(v: &Vec<String>) -> (r: Vec<String>)
    ensures
        r.deep_view() == v.deep_view(),
{
    let mut out: Vec<String> = Vec::new();
    let mut i: usize = 0;
    while i < v.len()
        invariant
            0 <= i <= v@.len(),
            out@.len() == i,
            forall|k: int| 0 <= k < i ==> out@[k]@ == v@[k]@,
        decreases v@.len() - i,
    {
        out.push(v[i].clone());
        i = i + 1;
    }
    proof {
        assert(out.deep_view() =~= v.deep_view());
    }
    out
}

impl ScriptBody {
    /// An owned copy with the same view.
    pub fn duplicate(&self) -> (r: ScriptBody)
        ensures
            r@ == self@,
    {
        match self {
            ScriptBody::Single(s) => ScriptBody::Single(s.clone()),
            ScriptBody::Sequence(v) => ScriptBody::Sequence(clone_strings(v)),
        }
    }
}

impl ScriptEntry {
    /// An owned copy with the same view.
    pub fn duplicate(&self) -> (r: ScriptEntry)
        ensures
            r@ == self@,
    {
        ScriptEntry { name: self.name.clone(), body: self.body.duplicate() }
    }
}

impl RobinConfig {
    /// Bind `name` to `body`, replacing an existing binding of that name or
    /// appending a new entry.
    pub fn add_script(&mut self, name: String, body: ScriptBody)
        requires
            old(self).wf(),
        ensures
            final(self).wf(),
            final(self).includes == old(self).includes,
            spec_lookup(final(self).entries(), name@) == Some(body@),
            forall|other: Seq<char>|
                other != name@ ==> #[trigger] spec_lookup(final(self).entries(), other)
                    == spec_lookup(old(self).entries(), other),
    {
        let ghost olde = self.entries();
        let n = self.scripts.len();
        let mut i: usize = 0;
        while i < n
            invariant
                0 <= i <= n,
                n == self.scripts@.len(),
                self.entries() == olde,
                olde.len() == n,
                olde == old(self).entries(),
                self.includes == old(self).includes,
                self.wf(),
                forall|k: int| 0 <= k < n ==> olde[k] == self.scripts@[k]@,
                forall|m: int| 0 <= m < i ==> (#[trigger] olde[m]).name != name@,
            decreases n - i,
        {
            if str_eq(self.scripts[i].name.as_str(), name.as_str()) {
                let ghost entv = EntryV { name: name@, body: body@ };
                self.scripts[i] = ScriptEntry { name, body };
                proof {
                    let newe = self.entries();
                    assert(newe.len() == olde.len());
                    assert(newe[i as int] == entv);
                    assert(forall|k: int|
                        0 <= k < newe.len() && k != i ==> #[trigger] newe[k] == olde[k]);
                    assert(olde[i as int].name == name@);
                    assert forall|a: int, b: int|
                        0 <= a < b < newe.len() implies (#[trigger] newe[a]).name != (
                    #[trigger] newe[b]).name by {
                        assert(newe[a].name == olde[a].name);
                        assert(newe[b].name == olde[b].name);
                    }
                    lemma_lookup_hit(newe, 0, i as int, name@);
                    assert forall|other: Seq<char>| other != name@ implies #[trigger] spec_lookup(
                        newe,
                        other,
                    ) == spec_lookup(olde, other) by {
                        lemma_lookup_replace(olde, newe, i as int, 0, other);
                    }
                }
                return ;
            }
            i = i + 1;
        }
        let ghost entv = EntryV { name: name@, body: body@ };
        self.scripts.push(ScriptEntry { name, body });
        proof {
            let newe = self.entries();
            assert(newe =~= olde.push(entv));
            lemma_lookup_push(olde, entv, 0, name@);
            lemma_lookup_none(olde, 0, name@);
            lemma_lookup_hit(newe, 0, olde.len() as int, name@);
            assert forall|a: int, b: int|
                0 <= a < b < newe.len() implies (#[trigger] newe[a]).name != (
            #[trigger] newe[b]).name by {
                if b < olde.len() {
                    assert(newe[a] == olde[a] && newe[b] == olde[b]);
                } else {
                    assert(newe[b] == entv);
                    assert(newe[a] == olde[a]);
                }
            }
            assert forall|other: Seq<char>| other != name@ implies #[trigger] spec_lookup(
                newe,
                other,
            ) == spec_lookup(olde, other) by {
                lemma_lookup_push(olde, entv, 0, other);
            }
        }
    }

    /// Merge the scripts of `other` into this manifest, first writer wins:
    /// a name already bound here is never overwritten.
    pub fn merge_from(&mut self, other: &RobinConfig)
        requires
            old(self).wf(),
        ensures
            final(self).wf(),
            final(self).includes == old(self).includes,
            final(self).entries() == spec_merge(old(self).entries(), other.entries()),
    {
        let ghost base = self.entries();
        let ghost inc = other.entries();
        let n = other.scripts.len();
        let mut i: usize = 0;
        while i < n
            invariant
                0 <= i <= n,
                n == other.scripts@.len(),
                inc == other.entries(),
                inc.len() == n,
                forall|k: int| 0 <= k < n ==> inc[k] == other.scripts@[k]@,
                self.includes == old(self).includes,
                self.wf(),
                spec_merge(base, inc) == merge_from_idx(self.entries(), inc, i as int),
            decreases n - i,
        {
            let ghost cur = self.entries();
            let present = match self.lookup(other.scripts[i].name.as_str()) {
                Some(_) => true,
                None => false,
            };
            if !present {
                self.scripts.push(other.scripts[i].duplicate());
                proof {
                    assert(self.entries() =~= cur.push(inc[i as int]));
                    lemma_lookup_none_means_absent(cur, 0, inc[i as int].name);
                    let newe = self.entries();
                    assert forall|a: int, b: int|
                        0 <= a < b < newe.len() implies (#[trigger] newe[a]).name != (
                    #[trigger] newe[b]).name by {
                        assert(forall|k: int| 0 <= k < cur.len() ==> newe[k] == cur[k]);
                        assert(newe[newe.len() - 1] == inc[i as int]);
                    }
                }
            }
            i = i + 1;
        }
    }
}

impl RobinConfig {
    /// The built-in starter manifest: a fixed set of placeholder scripts,
    /// used when no manifest exists and no remote template was requested.
    pub fn create_template() -> (r: RobinConfig)
        ensures
            r.wf(),
            r.includes@.len() == 0,
            r.entries().len() == 6,
            r.entries()[0] == (EntryV { name: "clean"@, body: BodyV::Single("..."@) }),
            r.entries()[1] == (EntryV {
                name: "deploy staging"@,
                body: BodyV::Single("echo 'ruby deploy tool --staging'"@),
            }),
            r.entries()[2] == (EntryV { name: "deploy production"@, body: BodyV::Single("..."@) }),
            r.entries()[3] == (EntryV { name: "release beta"@, body: BodyV::Single("..."@) }),
            r.entries()[4] == (EntryV { name: "release alpha"@, body: BodyV::Single("..."@) }),
            r.entries()[5] == (EntryV { name: "release dev"@, body: BodyV::Single("..."@) }),
    {
        let mut scripts: Vec<ScriptEntry> = Vec::new();
        scripts.push(ScriptEntry {
            name: String::from_str("clean"),
            body: ScriptBody::Single(String::from_str("...")),
        });
        scripts.push(ScriptEntry {
            name: String::from_str("deploy staging"),
            body: ScriptBody::Single(String::from_str("echo 'ruby deploy tool --staging'")),
        });
        scripts.push(ScriptEntry {
            name: String::from_str("deploy production"),
            body: ScriptBody::Single(String::from_str("...")),
        });
        scripts.push(ScriptEntry {
            name: String::from_str("release beta"),
            body: ScriptBody::Single(String::from_str("...")),
        });
        scripts.push(ScriptEntry {
            name: String::from_str("release alpha"),
            body: ScriptBody::Single(String::from_str("...")),
        });
        scripts.push(ScriptEntry {
            name: String::from_str("release dev"),
            body: ScriptBody::Single(String::from_str("...")),
        });
        let r = RobinConfig { includes: Vec::new(), scripts };
        proof {
            reveal_strlit("clean");
            reveal_strlit("deploy staging");
            reveal_strlit("deploy production");
            reveal_strlit("release beta");
            reveal_strlit("release alpha");
            reveal_strlit("release dev");
            assert(r.entries().len() == 6);
            assert("clean"@.len() == 5);
            assert("deploy staging"@.len() == 14);
            assert("deploy production"@.len() == 17);
            assert("release beta"@.len() == 12);
            assert("release alpha"@.len() == 13);
            assert("release dev"@.len() == 11);
            assert(r.entries()[0].name == "clean"@);
            assert(r.entries()[1].name == "deploy staging"@);
            assert(r.entries()[2].name == "deploy production"@);
            assert(r.entries()[3].name == "release beta"@);
            assert(r.entries()[4].name == "release alpha"@);
            assert(r.entries()[5].name == "release dev"@);
        }
        r
    }
}

/// The dynamic shape of a parsed script value, before validation: a string,
/// a list of items, or anything else.
#[derive(Debug)]
pub enum RawScript {
    Text(String),
    List(Vec<RawItem>),
    Other,
}

/// An element of a parsed script list: a string, or anything else.
#[derive(Debug)]
pub enum RawItem {
    Text(String),
    Other,
}

/// The mathematical shadow of `RawItem`.
pub ghost enum RawItemV {
    Text(Seq<char>),
    Other,
}

/// The mathematical shadow of `RawScript`.
pub ghost enum RawScriptV {
    Text(Seq<char>),
    List(Seq<RawItemV>),
    Other,
}

impl View for RawItem {
    type V = RawItemV;

    open spec fn view(&self) -> RawItemV {
        match self {
            RawItem::Text(s) => RawItemV::Text(s@),
            RawItem::Other => RawItemV::Other,
        }
    }
}

impl DeepView for RawItem {
    type V = RawItemV;

    open spec fn deep_view(&self) -> RawItemV {
        self.view()
    }
}

impl View for RawScript {
    type V = RawScriptV;

    open spec fn view(&self) -> RawScriptV {
        match self {
            RawScript::Text(s) => RawScriptV::Text(s@),
            RawScript::List(items) => RawScriptV::List(items.deep_view()),
            RawScript::Other => RawScriptV::Other,
        }
    }
}

/// The string carried by a list item, if it is one.
pub open spec fn raw_item_text(it: RawItemV) -> Seq<char> {
    match it {
        RawItemV::Text(s) => s,
        RawItemV::Other => Seq::empty(),
    }
}

/// Every item of the list is a string.
pub open spec fn all_items_text(items: Seq<RawItemV>) -> bool {
    forall|k: int| 0 <= k < items.len() ==> (#[trigger] items[k]) is Text
}

/// Validation of one raw script value named `name`: a string becomes a
/// single command, a list of strings becomes a sequence, and every other
/// shape is a data error.
pub open spec fn spec_body_from_raw(name: Seq<char>, raw: RawScriptV) -> Result<
    BodyV,
    RobinErrorV,
> {
    match raw {
        RawScriptV::Text(s) => Ok(BodyV::Single(s)),
        RawScriptV::List(items) => if all_items_text(items) {
            Ok(BodyV::Sequence(Seq::new(items.len(), |k: int| raw_item_text(items[k]))))
        } else {
            Err(RobinErrorV::InvalidScriptShape { name })
        },
        RawScriptV::Other => Err(RobinErrorV::InvalidScriptShape { name }),
    }
}

/// Validate one raw script value into a `ScriptBody`.
pub fn body_from_raw(name: &str, raw: &RawScript) -> (r: Result<ScriptBody, RobinError>)
    ensures
        match r {
            Ok(b) => spec_body_from_raw(name@, raw@) == Ok::<BodyV, RobinErrorV>(b@),
            Err(e) => spec_body_from_raw(name@, raw@) == Err::<BodyV, RobinErrorV>(e@),
        },
{
    match raw {
        RawScript::Text(s) => Ok(ScriptBody::Single(s.clone())),
        RawScript::List(items) => {
            let ghost itemsv = items.deep_view();
            let mut cmds: Vec<String> = Vec::new();
            let mut i: usize = 0;
            while i < items.len()
                invariant
                    0 <= i <= items@.len(),
                    itemsv == items.deep_view(),
                    raw@ == RawScriptV::List(itemsv),
                    itemsv.len() == items@.len(),
                    forall|k: int| 0 <= k < items@.len() ==> itemsv[k] == items@[k]@,
                    cmds@.len() == i,
                    forall|k: int| 0 <= k < i ==> (#[trigger] itemsv[k]) is Text,
                    forall|k: int| 0 <= k < i ==> cmds@[k]@ == raw_item_text(itemsv[k]),
                decreases items@.len() - i,
            {
                match &items[i] {
                    RawItem::Text(s) => {
                        cmds.push(s.clone());
                    },
                    RawItem::Other => {
                        proof {
                            assert(itemsv[i as int] is Other);
                            assert(!all_items_text(itemsv));
                        }
                        return Err(
                            RobinError::InvalidScriptShape { name: String::from_str(name) },
                        );
                    },
                }
                i = i + 1;
            }
            proof {
                assert(all_items_text(itemsv));
                assert(cmds.deep_view() =~= Seq::new(
                    itemsv.len(),
                    |k: int| raw_item_text(itemsv[k]),
                ));
            }
            Ok(ScriptBody::Sequence(cmds))
        },
        RawScript::Other => Err(RobinError::InvalidScriptShape { name: String::from_str(name) }),
    }
}

/// One named raw script, as handed over by the manifest parser.
#[derive(Debug)]
pub struct RawEntry {
    pub name: String,
    pub script: RawScript,
}

/// The mathematical shadow of `RawEntry`.
pub ghost struct RawEntryV {
    pub name: Seq<char>,
    pub script: RawScriptV,
}

impl View for RawEntry {
    type V = RawEntryV;

    open spec fn view(&self) -> RawEntryV {
        RawEntryV { name: self.name@, script: self.script@ }
    }
}

impl DeepView for RawEntry {
    type V = RawEntryV;

    open spec fn deep_view(&self) -> RawEntryV {
        self.view()
    }
}

/// Validation of a whole raw script listing, front to back: the first
/// invalid shape aborts with its error; a name seen twice keeps its first
/// body.
pub open spec fn build_entries(raw: Seq<RawEntryV>, i: int, acc: Seq<EntryV>) -> Result<
    Seq<EntryV>,
    RobinErrorV,
>
    decreases raw.len() - i,
{
    if i < 0 || i >= raw.len() {
        Ok(acc)
    } else if spec_lookup(acc, raw[i].name) is Some {
        build_entries(raw, i + 1, acc)
    } else {
        match spec_body_from_raw(raw[i].name, raw[i].script) {
            Ok(b) => build_entries(raw, i + 1, acc.push(EntryV { name: raw[i].name, body: b })),
            Err(e) => Err(e),
        }
    }
}

/// Turn parsed manifest parts into a validated manifest.
pub fn config_from_raw(includes: Vec<String>, scripts: Vec<RawEntry>) -> (r: Result<
    RobinConfig,
    RobinError,
>)
    ensures
        match r {
            Ok(c) => {
                &&& build_entries(scripts.deep_view(), 0, Seq::empty()) == Ok::<
                    Seq<EntryV>,
                    RobinErrorV,
                >(c.entries())
                &&& c.wf()
                &&& c.includes == includes
            },
            Err(e) => build_entries(scripts.deep_view(), 0, Seq::empty()) == Err::<
                Seq<EntryV>,
                RobinErrorV,
            >(e@),
        },
{
    let ghost rawv = scripts.deep_view();
    let mut cfg = RobinConfig { includes, scripts: Vec::new() };
    proof {
        assert(cfg.entries() =~= Seq::<EntryV>::empty());
    }
    let mut i: usize = 0;
    while i < scripts.len()
        invariant
            0 <= i <= scripts@.len(),
            rawv == scripts.deep_view(),
            rawv.len() == scripts@.len(),
            forall|k: int| 0 <= k < scripts@.len() ==> rawv[k] == scripts@[k]@,
            cfg.wf(),
            cfg.includes == includes,
            build_entries(rawv, 0, Seq::empty()) == build_entries(rawv, i as int, cfg.entries()),
        decreases scripts@.len() - i,
    {
        let ghost cur = cfg.entries();
        let present = match cfg.lookup(scripts[i].name.as_str()) {
            Some(_) => true,
            None => false,
        };
        if !present {
            match body_from_raw(scripts[i].name.as_str(), &scripts[i].script) {
                Ok(b) => {
                    let ghost bv = b@;
                    cfg.scripts.push(ScriptEntry { name: scripts[i].name.clone(), body: b });
                    proof {
                        let entv = EntryV { name: rawv[i as int].name, body: bv };
                        assert(cfg.entries() =~= cur.push(entv));
                        lemma_lookup_none_means_absent(cur, 0, rawv[i as int].name);
                        let newe = cfg.entries();
                        assert forall|a: int, b2: int|
                            0 <= a < b2 < newe.len() implies (#[trigger] newe[a]).name != (
                        #[trigger] newe[b2]).name by {
                            assert(forall|k: int| 0 <= k < cur.len() ==> newe[k] == cur[k]);
                            assert(newe[newe.len() - 1] == entv);
                        }
                    }
                },
                Err(e) => {
                    return Err(e);
                },
            }
        }
        i = i + 1;
    }
    Ok(cfg)
}

/// Replacing one entry by another of the same name leaves every lookup of
/// a different name unchanged.
pub proof fn lemma_lookup_replace(
    e1: Seq<EntryV>,
    e2: Seq<EntryV>,
    idx: int,
    from: int,
    name: Seq<char>,
)
    requires
        0 <= from,
        e1.len() == e2.len(),
        0 <= idx < e1.len(),
        forall|k: int| 0 <= k < e1.len() && k != idx ==> #[trigger] e1[k] == e2[k],
        e1[idx].name == e2[idx].name,
        name != e1[idx].name,
    ensures
        lookup_from(e1, from, name) == lookup_from(e2, from, name),
    decreases e1.len() - from,
{
    if from < e1.len() {
        lemma_lookup_replace(e1, e2, idx, from + 1, name);
    }
}

/// A lookup that found nothing means no entry bears the name.
pub proof fn lemma_lookup_none_means_absent(entries: Seq<EntryV>, from: int, name: Seq<char>)
    requires
        0 <= from,
        lookup_from(entries, from, name) is None,
    ensures
        forall|m: int| from <= m < entries.len() ==> (#[trigger] entries[m]).name != name,
    decreases entries.len() - from,
{
    if from < entries.len() {
        lemma_lookup_none_means_absent(entries, from + 1, name);
    }
}

/// A name bound at `idx`, with no earlier binding, is what lookup returns.
pub proof fn lemma_lookup_hit(entries: Seq<EntryV>, from: int, idx: int, name: Seq<char>)
    requires
        0 <= from <= idx < entries.len(),
        entries[idx].name == name,
        forall|m: int| from <= m < idx ==> (#[trigger] entries[m]).name != name,
    ensures
        lookup_from(entries, from, name) == Some(entries[idx].body),
    decreases idx - from,
{
    if from < idx {
        lemma_lookup_hit(entries, from + 1, idx, name);
    }
}

/// A name bound by no entry is not found.
pub proof fn lemma_lookup_none(entries: Seq<EntryV>, from: int, name: Seq<char>)
    requires
        0 <= from,
        forall|m: int| from <= m < entries.len() ==> (#[trigger] entries[m]).name != name,
    ensures
        lookup_from(entries, from, name) is None,
    decreases entries.len() - from,
{
    if from < entries.len() {
        lemma_lookup_none(entries, from + 1, name);
    }
}

/// First-writer-wins, stated over lookups: after a merge, a name keeps the
/// base's body wherever the base binds it, and otherwise takes the body the
/// include gives it, if any.
pub proof fn lemma_merge_first_writer_wins(base: Seq<EntryV>, inc: Seq<EntryV>, name: Seq<char>)
    ensures
        spec_lookup(spec_merge(base, inc), name) == if spec_lookup(base, name) is Some {
            spec_lookup(base, name)
        } else {
            spec_lookup(inc, name)
        },
{
    lemma_merge_lookup_from(base, inc, 0, name);
}

proof fn lemma_merge_lookup_from(base: Seq<EntryV>, inc: Seq<EntryV>, i: int, name: Seq<char>)
    requires
        0 <= i,
    ensures
        spec_lookup(merge_from_idx(base, inc, i), name) == if spec_lookup(base, name) is Some {
            spec_lookup(base, name)
        } else {
            lookup_from(inc, i, name)
        },
    decreases inc.len() - i,
{
    if i >= inc.len() {
    } else if spec_lookup(base, inc[i].name) is Some {
        lemma_merge_lookup_from(base, inc, i + 1, name);
        if spec_lookup(base, name) is None && inc[i].name == name {
            assert(false);
        }
    } else {
        let base2 = base.push(inc[i]);
        lemma_merge_lookup_from(base2, inc, i + 1, name);
        lemma_lookup_push(base, inc[i], 0, name);
    }
}

/// Appending one entry changes exactly the lookups its name answers anew.
pub proof fn lemma_lookup_push(entries: Seq<EntryV>, x: EntryV, from: int, name: Seq<char>)
    requires
        0 <= from <= entries.len(),
    ensures
        lookup_from(entries.push(x), from, name) == if lookup_from(entries, from, name) is Some {
            lookup_from(entries, from, name)
        } else {
            if x.name == name {
                Some(x.body)
            } else {
                None
            }
        },
    decreases entries.len() - from,
{
    assert(entries.push(x).len() == entries.len() + 1);
    if from < entries.len() {
        assert(entries.push(x)[from] == entries[from]);
        lemma_lookup_push(entries, x, from + 1, name);
    } else {
        assert(entries.push(x)[from] == x);
    }
}

} // verus!
