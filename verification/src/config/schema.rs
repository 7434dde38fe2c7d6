//! The typed configuration model and its validation, built from the TOML
//! document: the single source of truth for the desired state.
use vstd::prelude::*;
use crate::config::toml::{self, Document, Table, Value, ValueV, PairV, TableV, DocV, lookup, named,
    parse_doc, ParseErrorV};
use crate::text::{str_eq, chars_of, string_of};

verus! {

/// How the default entry is chosen when the timeout elapses.
#[derive(Clone, Copy, Debug, PartialEq, Eq, Structural)]
pub enum PolicyKind {
    /// Always boot the configured default.
    Default,
    /// Prefer the last confirmed-good entry, else the configured default.
    LastGoodThenDefault,
}

/// What to do when a staged boot fails to confirm.
#[derive(Clone, Copy, Debug, PartialEq, Eq, Structural)]
pub enum RollbackKind {
    LastGood,
    Fallback,
    Disabled,
}

/// One declared boot entry. `id` matches a Boot Graph id slug.
#[derive(Clone, Debug, PartialEq, Eq)]
pub struct EntrySpec {
    pub id: String,
    /// "efi-chainload" | "nixos-generation" | ...
    pub method: String,
    /// EFI path for chainload methods.
    pub loader: Option<String>,
    /// E.g. "bootspec" for generation discovery.
    pub source: Option<String>,
}

pub struct EntrySpecV {
    pub id: Seq<char>,
    pub method: Seq<char>,
    pub loader: Option<Seq<char>>,
    pub source: Option<Seq<char>>,
}

pub open spec fn opt_view(o: Option<String>) -> Option<Seq<char>> {
    match o {
        Some(s) => Some(s@),
        None => None,
    }
}

impl View for EntrySpec {
    type V = EntrySpecV;

    open spec fn view(&self) -> EntrySpecV {
        EntrySpecV {
            id: self.id@,
            method: self.method@,
            loader: opt_view(self.loader),
            source: opt_view(self.source),
        }
    }
}

/// The whole declarative configuration.
#[derive(Clone, Debug, PartialEq, Eq)]
pub struct Config {
    pub default: String,
    pub timeout_secs: u16,
    pub policy: PolicyKind,
    pub confirm: bool,
    pub max_tries: u8,
    pub rollback: RollbackKind,
    pub entries: Vec<EntrySpec>,
}

pub struct ConfigV {
    pub default: Seq<char>,
    pub timeout_secs: u16,
    pub policy: PolicyKind,
    pub confirm: bool,
    pub max_tries: u8,
    pub rollback: RollbackKind,
    pub entries: Seq<EntrySpecV>,
}

impl View for Config {
    type V = ConfigV;

    open spec fn view(&self) -> ConfigV {
        ConfigV {
            default: self.default@,
            timeout_secs: self.timeout_secs,
            policy: self.policy,
            confirm: self.confirm,
            max_tries: self.max_tries,
            rollback: self.rollback,
            entries: self.entries@.map_values(|e: EntrySpec| e@),
        }
    }
}

#[derive(Debug, PartialEq, Eq)]
pub enum ConfigError {
    Parse { line: usize, msg: &'static str },
    Missing(&'static str),
    Invalid(&'static str),
    /// Two entries share an id: the configuration would be ambiguous.
    DuplicateEntry(String),
    /// `default` names an entry id that is not declared.
    UnknownDefault(String),
}

pub enum ConfigErrorV {
    Parse { line: int, msg: Seq<char> },
    Missing(Seq<char>),
    Invalid(Seq<char>),
    DuplicateEntry(Seq<char>),
    UnknownDefault(Seq<char>),
}

impl View for ConfigError {
    type V = ConfigErrorV;

    open spec fn view(&self) -> ConfigErrorV {
        match self {
            ConfigError::Parse { line, msg } => ConfigErrorV::Parse { line: *line as int, msg: msg@ },
            ConfigError::Missing(m) => ConfigErrorV::Missing(m@),
            ConfigError::Invalid(m) => ConfigErrorV::Invalid(m@),
            ConfigError::DuplicateEntry(s) => ConfigErrorV::DuplicateEntry(s@),
            ConfigError::UnknownDefault(s) => ConfigErrorV::UnknownDefault(s@),
        }
    }
}

/// The text of a string value under `key`, if there is one.
pub open spec fn str_at(pairs: Seq<PairV>, key: Seq<char>) -> Option<Seq<char>> {
    match lookup(pairs, key) {
        Some(ValueV::Str(s)) => Some(s),
        _ => None,
    }
}

/// The pairs of the first table named `name` (none if there is none).
pub open spec fn first_table(doc: DocV, name: Seq<char>) -> Option<Seq<PairV>> {
    if named(doc.tables, name).len() > 0 {
        Some(named(doc.tables, name)[0].pairs)
    } else {
        None
    }
}

pub open spec fn in_table(t: Option<Seq<PairV>>, key: Seq<char>) -> Option<ValueV> {
    match t {
        Some(p) => lookup(p, key),
        None => None,
    }
}

pub open spec fn has_id(es: Seq<EntrySpecV>, id: Seq<char>) -> bool {
    exists|i: int| 0 <= i < es.len() && es[i].id == id
}

/// The entries declared by `[[entry]]` tables, in order; the first missing
/// id or repeated id is an error.
pub open spec fn entries_of(ts: Seq<TableV>) -> Result<Seq<EntrySpecV>, ConfigErrorV>
    decreases ts.len(),
{
    if ts.len() == 0 {
        Ok(seq![])
    } else {
        match entries_of(ts.drop_last()) {
            Err(e) => Err(e),
            Ok(es) => {
                let p = ts.last().pairs;
                match str_at(p, "id"@) {
                    None => Err(ConfigErrorV::Missing("entry.id"@)),
                    Some(id) => if has_id(es, id) {
                        Err(ConfigErrorV::DuplicateEntry(id))
                    } else {
                        Ok(
                            es.push(
                                EntrySpecV {
                                    id,
                                    method: match str_at(p, "method"@) {
                                        Some(m) => m,
                                        None => "efi-chainload"@,
                                    },
                                    loader: str_at(p, "loader"@),
                                    source: str_at(p, "source"@),
                                },
                            ),
                        )
                    },
                }
            },
        }
    }
}

/// The timeout: 5 seconds by default, else an integer that fits a u16.
pub open spec fn timeout_of(root: Seq<PairV>) -> Option<u16> {
    match lookup(root, "timeout"@) {
        None => Some(5u16),
        Some(ValueV::Int(i)) => if 0 <= i <= 0xFFFF {
            Some(i as u16)
        } else {
            None
        },
        Some(_) => None,
    }
}

/// The policy: last-good-then-default unless the text says `default`; any
/// other text is invalid (a non-text value counts as absent).
pub open spec fn policy_of(root: Seq<PairV>) -> Option<PolicyKind> {
    match str_at(root, "policy"@) {
        None => Some(PolicyKind::LastGoodThenDefault),
        Some(p) => if p == "last-good-then-default"@ {
            Some(PolicyKind::LastGoodThenDefault)
        } else if p == "default"@ {
            Some(PolicyKind::Default)
        } else {
            None
        },
    }
}

/// Whether boots must confirm: `[transaction] confirm`, true by default.
pub open spec fn confirm_of(doc: DocV) -> bool {
    match in_table(first_table(doc, "transaction"@), "confirm"@) {
        Some(ValueV::Bool(b)) => b,
        _ => true,
    }
}

/// `[transaction] max_tries`: 2 by default, else an integer in 1..=255.
pub open spec fn tries_of(doc: DocV) -> Option<u8> {
    match in_table(first_table(doc, "transaction"@), "max_tries"@) {
        None => Some(2u8),
        Some(ValueV::Int(i)) => if 1 <= i <= 0xFF {
            Some(i as u8)
        } else {
            None
        },
        Some(_) => None,
    }
}

/// `[recovery] rollback`: last-good by default, or `fallback` / `none`.
pub open spec fn rollback_of(doc: DocV) -> Option<RollbackKind> {
    match in_table(first_table(doc, "recovery"@), "rollback"@) {
        Some(ValueV::Str(s)) => if s == "last-good"@ {
            Some(RollbackKind::LastGood)
        } else if s == "fallback"@ {
            Some(RollbackKind::Fallback)
        } else if s == "none"@ {
            Some(RollbackKind::Disabled)
        } else {
            None
        },
        _ => Some(RollbackKind::LastGood),
    }
}

/// The configuration a parsed document declares, or the first problem.
pub open spec fn config_of(doc: DocV) -> Result<ConfigV, ConfigErrorV> {
    match str_at(doc.root, "default"@) {
        None => Err(ConfigErrorV::Missing("default"@)),
        Some(default) => match timeout_of(doc.root) {
            None => Err(ConfigErrorV::Invalid("timeout"@)),
            Some(timeout_secs) => match policy_of(doc.root) {
                None => Err(ConfigErrorV::Invalid("policy"@)),
                Some(policy) => match tries_of(doc) {
                    None => Err(ConfigErrorV::Invalid("max_tries"@)),
                    Some(max_tries) => match rollback_of(doc) {
                        None => Err(ConfigErrorV::Invalid("rollback"@)),
                        Some(rollback) => match entries_of(named(doc.tables, "entry"@)) {
                            Err(e) => Err(e),
                            Ok(entries) => if !default.contains('.') && !has_id(entries, default) {
                                Err(ConfigErrorV::UnknownDefault(default))
                            } else {
                                Ok(
                                    ConfigV {
                                        default,
                                        timeout_secs,
                                        policy,
                                        confirm: confirm_of(doc),
                                        max_tries,
                                        rollback,
                                        entries,
                                    },
                                )
                            },
                        },
                    },
                },
            },
        },
    }
}

/// The configuration a text declares: parse errors first, then validation.
pub open spec fn config_of_text(input: Seq<char>) -> Result<ConfigV, ConfigErrorV> {
    match parse_doc(input) {
        Err(e) => Err(ConfigErrorV::Parse { line: e.line, msg: e.msg }),
        Ok(d) => config_of(d),
    }
}

fn str_value<'a>(v: Option<&'a Value>) -> (r: Option<&'a str>)
    ensures
        match v {
            Some(x) => match x@ {
                ValueV::Str(s) => r matches Some(y) && y@ == s,
                _ => r is None,
            },
            None => r is None,
        },
{
    match v {
        Some(x) => x.as_str(),
        None => None,
    }
}

fn contains_dot(s: &str) -> (r: bool)
    ensures
        r == s@.contains('.'),
{
    let cs = chars_of(s);
    let mut i: usize = 0;
    while i < cs.len()
        invariant
            i <= cs@.len(),
            cs@ == s@,
            forall|k: int| 0 <= k < i ==> cs@[k] != '.',
        decreases cs@.len() - i,
    {
        if cs[i] == '.' {
            assert(cs@[i as int] == '.');
            return true;
        }
        i = i + 1;
    }
    false
}

fn find_entry(es: &Vec<EntrySpec>, id: &String) -> (r: bool)
    ensures
        r == has_id(es@.map_values(|e: EntrySpec| e@), id@),
{
    let ghost v = es@.map_values(|e: EntrySpec| e@);
    let mut i: usize = 0;
    while i < es.len()
        invariant
            i <= es@.len(),
            v == es@.map_values(|e: EntrySpec| e@),
            forall|k: int| 0 <= k < i ==> v[k].id != id@,
        decreases es@.len() - i,
    {
        if es[i].id == *id {
            assert(v[i as int].id == id@);
            return true;
        }
        i = i + 1;
    }
    false
}

fn opt_string(s: Option<&str>) -> (r: Option<String>)
    ensures
        opt_view(r) == match s {
            Some(x) => Some(x@),
            None => None::<Seq<char>>,
        },
{
    match s {
        Some(x) => Some(x.to_owned()),
        None => None,
    }
}

proof fn lemma_entries_err_extends(ts: Seq<TableV>, k: int)
    requires
        0 <= k <= ts.len(),
        entries_of(ts.take(k)) is Err,
    ensures
        entries_of(ts) == entries_of(ts.take(k)),
    decreases ts.len(),
{
    if k == ts.len() {
        assert(ts.take(k) == ts);
    } else {
        assert(ts.drop_last().take(k) == ts.take(k));
        lemma_entries_err_extends(ts.drop_last(), k);
    }
}

fn entries_exec(ts: &Vec<&Table>) -> (r: Result<Vec<EntrySpec>, ConfigError>)
    ensures
        match r {
            Ok(es) => entries_of(ts@.map_values(|t: &Table| t@)) == Ok::<Seq<EntrySpecV>, ConfigErrorV>(
                es@.map_values(|e: EntrySpec| e@),
            ),
            Err(e) => entries_of(ts@.map_values(|t: &Table| t@)) == Err::<Seq<EntrySpecV>, ConfigErrorV>(
                e@,
            ),
        },
{
    proof {
        reveal_strlit("id");
        reveal_strlit("method");
        reveal_strlit("loader");
        reveal_strlit("source");
        reveal_strlit("efi-chainload");
        reveal_strlit("entry.id");
    }
    let ghost tv = ts@.map_values(|t: &Table| t@);
    let mut out: Vec<EntrySpec> = Vec::new();
    let mut i: usize = 0;
    assert(tv.take(0) =~= Seq::<TableV>::empty());
    assert(out@.map_values(|e: EntrySpec| e@) =~= Seq::<EntrySpecV>::empty());
    while i < ts.len()
        invariant
            i <= ts@.len(),
            tv == ts@.map_values(|t: &Table| t@),
            entries_of(tv.take(i as int)) == Ok::<Seq<EntrySpecV>, ConfigErrorV>(
                out@.map_values(|e: EntrySpec| e@),
            ),
        decreases ts@.len() - i,
    {
        let t = ts[i];
        assert(tv.take(i + 1).drop_last() == tv.take(i as int));
        assert(tv.take(i + 1).last() == t@);
        let id = match str_value(t.get("id")) {
            Some(s) => s.to_owned(),
            None => {
                proof {
                    lemma_entries_err_extends(tv, i + 1);
                }
                return Err(ConfigError::Missing("entry.id"));
            },
        };
        if find_entry(&out, &id) {
            proof {
                lemma_entries_err_extends(tv, i + 1);
            }
            return Err(ConfigError::DuplicateEntry(id));
        }
        let method = match str_value(t.get("method")) {
            Some(m) => m.to_owned(),
            None => "efi-chainload".to_owned(),
        };
        let loader = opt_string(str_value(t.get("loader")));
        let source = opt_string(str_value(t.get("source")));
        let e = EntrySpec { id, method, loader, source };
        let ghost before = out@.map_values(|e: EntrySpec| e@);
        out.push(e);
        assert(out@.map_values(|e: EntrySpec| e@) =~= before.push(e@));
        i = i + 1;
    }
    assert(tv.take(i as int) == tv);
    Ok(out)
}

impl Config {
    /// Parse and validate the configuration text.
    pub fn parse(input: &str) -> (r: Result<Config, ConfigError>)
        ensures
            match r {
                Ok(c) => config_of_text(input@) == Ok::<ConfigV, ConfigErrorV>(c@),
                Err(e) => config_of_text(input@) == Err::<ConfigV, ConfigErrorV>(e@),
            },
    {
        match toml::parse(input) {
            Err(e) => Err(ConfigError::Parse { line: e.line, msg: e.msg }),
            Ok(doc) => Self::from_document(&doc),
        }
    }

    /// Validate a parsed document into a configuration.
    pub fn from_document(doc: &Document) -> (r: Result<Config, ConfigError>)
        ensures
            match r {
                Ok(c) => config_of(doc@) == Ok::<ConfigV, ConfigErrorV>(c@),
                Err(e) => config_of(doc@) == Err::<ConfigV, ConfigErrorV>(e@),
            },
    {
        proof {
            reveal_strlit("default");
            reveal_strlit("timeout");
            reveal_strlit("policy");
            reveal_strlit("max_tries");
            reveal_strlit("rollback");
            reveal_strlit("entry");
        }
        let default = match str_value(doc.root_get("default")) {
            Some(s) => s.to_owned(),
            None => {
                return Err(ConfigError::Missing("default"));
            },
        };
        let timeout_secs = match timeout_exec(doc) {
            Some(t) => t,
            None => {
                return Err(ConfigError::Invalid("timeout"));
            },
        };
        let policy = match policy_exec(doc) {
            Some(p) => p,
            None => {
                return Err(ConfigError::Invalid("policy"));
            },
        };
        let txs = doc.tables_named("transaction");
        let tx: Option<&Table> = if txs.len() > 0 {
            Some(txs[0])
        } else {
            None
        };
        let confirm = confirm_exec(doc, tx);
        let max_tries = match tries_exec(doc, tx) {
            Some(t) => t,
            None => {
                return Err(ConfigError::Invalid("max_tries"));
            },
        };
        let rollback = match rollback_exec(doc) {
            Some(r) => r,
            None => {
                return Err(ConfigError::Invalid("rollback"));
            },
        };
        let ets = doc.tables_named("entry");
        assert(ets@.map_values(|t: &Table| t@) =~= named(doc@.tables, "entry"@));
        let entries = match entries_exec(&ets) {
            Ok(es) => es,
            Err(e) => {
                return Err(e);
            },
        };
        if !contains_dot(default.as_str()) && !find_entry(&entries, &default) {
            return Err(ConfigError::UnknownDefault(default));
        }
        Ok(Config { default, timeout_secs, policy, confirm, max_tries, rollback, entries })
    }
}

fn timeout_exec(doc: &Document) -> (r: Option<u16>)
    ensures
        r == timeout_of(doc@.root),
{
    proof {
        reveal_strlit("timeout");
    }
    match doc.root_get("timeout") {
        Some(v) => match v.as_int() {
            Some(i) => {
                if 0 <= i && i <= 0xFFFF {
                    Some(i as u16)
                } else {
                    None
                }
            },
            None => None,
        },
        None => Some(5),
    }
}

fn policy_exec(doc: &Document) -> (r: Option<PolicyKind>)
    ensures
        r == policy_of(doc@.root),
{
    proof {
        reveal_strlit("policy");
    }
    match str_value(doc.root_get("policy")) {
        None => Some(PolicyKind::LastGoodThenDefault),
        Some(p) => {
            if str_eq(p, "last-good-then-default") {
                Some(PolicyKind::LastGoodThenDefault)
            } else if str_eq(p, "default") {
                Some(PolicyKind::Default)
            } else {
                None
            }
        },
    }
}

fn confirm_exec(doc: &Document, tx: Option<&Table>) -> (r: bool)
    requires
        match first_table(doc@, "transaction"@) {
            Some(p) => tx matches Some(t) && t@.pairs == p,
            None => tx is None,
        },
    ensures
        r == confirm_of(doc@),
{
    proof {
        reveal_strlit("confirm");
    }
    match tx {
        Some(t) => match t.get("confirm") {
            Some(v) => match v.as_bool() {
                Some(b) => b,
                None => true,
            },
            None => true,
        },
        None => true,
    }
}

fn tries_exec(doc: &Document, tx: Option<&Table>) -> (r: Option<u8>)
    requires
        match first_table(doc@, "transaction"@) {
            Some(p) => tx matches Some(t) && t@.pairs == p,
            None => tx is None,
        },
    ensures
        r == tries_of(doc@),
{
    proof {
        reveal_strlit("max_tries");
    }
    let v = match tx {
        Some(t) => t.get("max_tries"),
        None => None,
    };
    match v {
        Some(v) => match v.as_int() {
            Some(i) => {
                if 1 <= i && i <= 0xFF {
                    Some(i as u8)
                } else {
                    None
                }
            },
            None => None,
        },
        None => Some(2),
    }
}

fn rollback_exec(doc: &Document) -> (r: Option<RollbackKind>)
    ensures
        r == rollback_of(doc@),
{
    proof {
        reveal_strlit("recovery");
        reveal_strlit("rollback");
    }
    let recs = doc.tables_named("recovery");
    let rb = if recs.len() > 0 {
        str_value(recs[0].get("rollback"))
    } else {
        None
    };
    match rb {
        None => Some(RollbackKind::LastGood),
        Some(s) => {
            if str_eq(s, "last-good") {
                Some(RollbackKind::LastGood)
            } else if str_eq(s, "fallback") {
                Some(RollbackKind::Fallback)
            } else if str_eq(s, "none") {
                Some(RollbackKind::Disabled)
            } else {
                None
            }
        },
    }
}

/// The `[recovery] rollback` keyword decides the rollback of every valid
/// configuration on its own: "last-good" is LastGood, "fallback" is
/// Fallback, "none" is Disabled, and no setting is LastGood; any other
/// string makes the document invalid.
pub proof fn law_rollback_keywords(doc: DocV)
    ensures
        config_of(doc) matches Ok(c) ==> match in_table(first_table(doc, "recovery"@), "rollback"@) {
            Some(ValueV::Str(s)) => {
                &&& s == "last-good"@ ==> c.rollback == RollbackKind::LastGood
                &&& s == "fallback"@ ==> c.rollback == RollbackKind::Fallback
                &&& s == "none"@ ==> c.rollback == RollbackKind::Disabled
            },
            None => c.rollback == RollbackKind::LastGood,
            _ => true,
        },
        in_table(first_table(doc, "recovery"@), "rollback"@) matches Some(ValueV::Str(s)) && s
            != "last-good"@ && s != "fallback"@ && s != "none"@ ==> config_of(doc) is Err,
{
    reveal_strlit("last-good");
    reveal_strlit("fallback");
    reveal_strlit("none");
    assert("last-good"@.len() == 9 && "fallback"@.len() == 8 && "none"@.len() == 4);
}

/// The policy keyword decides the policy of every valid configuration:
/// "default" is Default, "last-good-then-default" or no setting is
/// LastGoodThenDefault; any other text makes the document invalid. Left
/// unset, the timeout is five seconds, the attempts two, and boots must
/// confirm.
pub proof fn law_policy_and_defaults(doc: DocV)
    ensures
        config_of(doc) matches Ok(c) ==> {
            &&& str_at(doc.root, "policy"@) == Some("default"@) ==> c.policy == PolicyKind::Default
            &&& str_at(doc.root, "policy"@) == Some("last-good-then-default"@) ==> c.policy
                == PolicyKind::LastGoodThenDefault
            &&& str_at(doc.root, "policy"@) is None ==> c.policy == PolicyKind::LastGoodThenDefault
            &&& lookup(doc.root, "timeout"@) is None ==> c.timeout_secs == 5
            &&& in_table(first_table(doc, "transaction"@), "max_tries"@) is None ==> c.max_tries == 2
            &&& in_table(first_table(doc, "transaction"@), "confirm"@) is None ==> c.confirm
        },
        str_at(doc.root, "policy"@) matches Some(p) && p != "default"@ && p != "last-good-then-default"@
            ==> config_of(doc) is Err,
{
    reveal_strlit("default");
    reveal_strlit("last-good-then-default");
    assert("default"@.len() == 7 && "last-good-then-default"@.len() == 22);
}

} // verus!
