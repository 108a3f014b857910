//! What a plugin is, what it can do, and what it needs.
//!
//! Plugins come in three kinds:
//!
//! - **config**: a file format (hosts, sshd_config, ...). Has a grammar.
//! - **provider**: talks to an outside service. Its `category` names the
//!   contract it implements (`provider.hosts`, `provider.dns`, ...), and its
//!   `capabilities` say which parts of that contract it supports.
//! - **module**: a bundle of functionality built on other plugins. It never
//!   names a specific provider; it declares requirements on categories and
//!   capabilities, and it is active only while [`satisfies`] says so.
use vstd::prelude::*;

use crate::schema::{has_capability_spec, PluginManifest};
use crate::text::{clone_strings, dec, lemma_string_views_push, push_dec, push_str, str_eq, str_views, string_views};

pub mod categories;

verus! {

/// The kind of a plugin. Manifests without one are `config` plugins.
#[derive(Debug, Clone, Copy, PartialEq, Eq, Hash, Structural)]
pub enum PluginKind {
    Config,
    Provider,
    Module,
}

impl Default for PluginKind {
    fn default() -> (r: Self)
        ensures
            r == PluginKind::Config,
    {
        PluginKind::Config
    }
}

impl PluginKind {
    /// The kind as manifests write it.
    pub fn as_str(&self) -> (r: &'static str)
        ensures
            r@ == plugin_kind_name(*self),
    {
        match self {
            PluginKind::Config => "config",
            PluginKind::Provider => "provider",
            PluginKind::Module => "module",
        }
    }
}

pub open spec fn plugin_kind_name(k: PluginKind) -> Seq<char> {
    match k {
        PluginKind::Config => "config"@,
        PluginKind::Provider => "provider"@,
        PluginKind::Module => "module"@,
    }
}

/// `s` is lowercase ASCII words (letters, digits, `_`) joined by single dots.
pub open spec fn valid_category(s: Seq<char>) -> bool {
    &&& s.len() > 0
    &&& forall|i: int| 0 <= i < s.len() ==> #[trigger] category_char(s[i])
    &&& s[0] != '.'
    &&& s[s.len() - 1] != '.'
    &&& forall|i: int| 0 <= i < s.len() - 1 ==> !(#[trigger] s[i] == '.' && s[i + 1] == '.')
}

pub open spec fn category_char(c: char) -> bool {
    ('a' <= c && c <= 'z') || ('0' <= c && c <= '9') || c == '_' || c == '.'
}

/// Lowercase ASCII words (letters, digits, `_`) joined by single dots.
pub fn is_valid_category(s: &str) -> (r: bool)
    ensures
        r == valid_category(s@),
{
    let v = crate::text::chars_of(s);
    let n = v.len();
    if n == 0 {
        return false;
    }
    if v[0] == '.' || v[n - 1] == '.' {
        return false;
    }
    let mut i: usize = 0;
    while i < n
        invariant
            v@ == s@,
            n == v@.len(),
            n > 0,
            i <= n,
            forall|j: int| 0 <= j < i ==> #[trigger] category_char(v@[j]),
            forall|j: int| 0 <= j < i && j < n - 1 ==> !(#[trigger] v@[j] == '.' && v@[j + 1] == '.'),
        decreases n - i,
    {
        let c = v[i];
        if !(('a' <= c && c <= 'z') || ('0' <= c && c <= '9') || c == '_' || c == '.') {
            assert(!category_char(v@[i as int]));
            return false;
        }
        if i + 1 < n && c == '.' && v[i + 1] == '.' {
            return false;
        }
        i = i + 1;
    }
    true
}

} // verus!

verus! {

/// A module's need for plugins of one category.
#[derive(Debug, Clone, PartialEq, Eq)]
pub struct Requirement {
    pub category: String,
    /// Capabilities a plugin must have all of to count.
    pub capabilities: Vec<String>,
    /// How many such plugins are needed.
    pub min: u32,
}

pub struct RequirementV {
    pub category: Seq<char>,
    pub capabilities: Seq<Seq<char>>,
    pub min: u32,
}

impl View for Requirement {
    type V = RequirementV;

    open spec fn view(&self) -> RequirementV {
        RequirementV { category: self.category@, capabilities: string_views(self.capabilities@), min: self.min }
    }
}

/// The plugin's category is `cat`.
pub open spec fn in_category(p: PluginManifest, cat: Seq<char>) -> bool {
    match p.plugin.category {
        Some(c) => c@ == cat,
        None => false,
    }
}

/// The capabilities of `caps` the plugin lacks, in order.
pub open spec fn lacking(caps: Seq<Seq<char>>, p: PluginManifest) -> Seq<Seq<char>>
    decreases caps.len(),
{
    if caps.len() == 0 {
        Seq::empty()
    } else {
        lacking(caps.drop_last(), p) + if has_capability_spec(p, caps.last()) {
            Seq::<Seq<char>>::empty()
        } else {
            seq![caps.last()]
        }
    }
}

/// The plugin counts towards the requirement.
pub open spec fn accepts_spec(r: RequirementV, p: PluginManifest) -> bool {
    &&& in_category(p, r.category)
    &&& forall|i: int| 0 <= i < r.capabilities.len() ==> has_capability_spec(p, #[trigger] r.capabilities[i])
}

/// A plugin in the right category that still doesn't count, and why.
#[derive(Debug, Clone, PartialEq, Eq)]
pub struct NearMiss {
    pub plugin: String,
    pub lacking: Vec<String>,
}

pub struct NearMissV {
    pub plugin: Seq<char>,
    pub lacking: Seq<Seq<char>>,
}

impl View for NearMiss {
    type V = NearMissV;

    open spec fn view(&self) -> NearMissV {
        NearMissV { plugin: self.plugin@, lacking: string_views(self.lacking@) }
    }
}

/// An unmet requirement: what was needed, how many were found, and which
/// plugins came close.
#[derive(Debug, Clone, PartialEq, Eq)]
pub struct Missing {
    pub requirement: Requirement,
    pub found: u32,
    pub near_misses: Vec<NearMiss>,
}

pub struct MissingV {
    pub requirement: RequirementV,
    pub found: nat,
    pub near_misses: Seq<NearMissV>,
}

impl View for Missing {
    type V = MissingV;

    open spec fn view(&self) -> MissingV {
        MissingV {
            requirement: self.requirement@,
            found: self.found as nat,
            near_misses: self.near_misses@.map_values(|n: NearMiss| n@),
        }
    }
}

/// How many of the plugins count towards `r`, and the near misses among the
/// rest of its category, in order.
pub open spec fn tally(r: RequirementV, avail: Seq<PluginManifest>) -> (nat, Seq<NearMissV>)
    decreases avail.len(),
{
    if avail.len() == 0 {
        (0, Seq::empty())
    } else {
        let (f, nm) = tally(r, avail.drop_last());
        let p = avail.last();
        if !in_category(p, r.category) {
            (f, nm)
        } else {
            let l = lacking(r.capabilities, p);
            if l.len() == 0 {
                (f + 1, nm)
            } else {
                (f, nm.push(NearMissV { plugin: p.plugin.name@, lacking: l }))
            }
        }
    }
}

/// The unmet requirements among `reqs`, in order.
pub open spec fn missing_spec(reqs: Seq<RequirementV>, avail: Seq<PluginManifest>) -> Seq<MissingV>
    decreases reqs.len(),
{
    if reqs.len() == 0 {
        Seq::empty()
    } else {
        let r = reqs.last();
        let (f, nm) = tally(r, avail);
        missing_spec(reqs.drop_last(), avail) + if f < r.min {
            seq![MissingV { requirement: r, found: f, near_misses: nm }]
        } else {
            Seq::<MissingV>::empty()
        }
    }
}

pub open spec fn derefs(v: Seq<&PluginManifest>) -> Seq<PluginManifest> {
    v.map_values(|p: &PluginManifest| *p)
}

pub open spec fn requirement_views(v: Seq<Requirement>) -> Seq<RequirementV> {
    v.map_values(|r: Requirement| r@)
}

pub open spec fn missing_views(v: Seq<Missing>) -> Seq<MissingV> {
    v.map_values(|m: Missing| m@)
}

/// `items` joined with `sep` between them.
pub open spec fn join(items: Seq<Seq<char>>, sep: Seq<char>) -> Seq<char>
    decreases items.len(),
{
    if items.len() == 0 {
        Seq::empty()
    } else if items.len() == 1 {
        items[0]
    } else {
        join(items.drop_last(), sep) + sep + items.last()
    }
}

pub open spec fn near_miss_text(nms: Seq<NearMissV>) -> Seq<char>
    decreases nms.len(),
{
    if nms.len() == 0 {
        Seq::empty()
    } else {
        near_miss_text(nms.drop_last()) + "; "@ + nms.last().plugin + " lacks "@ + join(nms.last().lacking, ", "@)
    }
}

/// e.g. "needs 1 provider.dns plugin with records.write (found 0; bunny lacks records.write)"
pub open spec fn missing_text(m: MissingV) -> Seq<char> {
    let r = m.requirement;
    "needs "@ + dec(r.min as nat) + " "@ + r.category + " plugin"@ + (if r.min == 1 {
        Seq::<char>::empty()
    } else {
        "s"@
    }) + (if r.capabilities.len() == 0 {
        Seq::<char>::empty()
    } else {
        " with "@ + join(r.capabilities, ", "@)
    }) + " (found "@ + dec(m.found) + near_miss_text(m.near_misses) + ")"@
}

/// Appends `items` joined with `sep`.
pub fn push_joined(out: &mut String, items: &Vec<String>, sep: &str)
    ensures
        final(out)@ == old(out)@ + join(string_views(items@), sep@),
{
    let ghost sv = string_views(items@);
    let mut i: usize = 0;
    while i < items.len()
        invariant
            i <= items@.len(),
            sv == string_views(items@),
            sv.len() == items@.len(),
            out@ == old(out)@ + join(sv.subrange(0, i as int), sep@),
        decreases items@.len() - i,
    {
        let ghost before = out@;
        if i > 0 {
            push_str(out, sep);
        }
        push_str(out, items[i].as_str());
        proof {
            let sub = sv.subrange(0, i + 1);
            assert(sub.drop_last() =~= sv.subrange(0, i as int));
            assert(sub.last() == items@[i as int]@);
            if i == 0 {
                assert(join(sub, sep@) == sub[0]);
                assert(join(sv.subrange(0, 0), sep@) == Seq::<char>::empty());
            }
            assert(out@ =~= old(out)@ + join(sub, sep@));
        }
        i = i + 1;
    }
    assert(sv.subrange(0, items@.len() as int) =~= sv);
}

impl Requirement {
    /// A copy of the requirement.
    pub fn duplicate(&self) -> (r: Self)
        ensures
            r@ == self@,
    {
        Requirement { category: self.category.clone(), capabilities: clone_strings(&self.capabilities), min: self.min }
    }

    /// Whether `plugin` counts towards this requirement.
    pub fn accepts(&self, plugin: &PluginManifest) -> (r: bool)
        ensures
            r == accepts_spec(self@, *plugin),
    {
        let in_cat = match &plugin.plugin.category {
            Some(c) => str_eq(c.as_str(), self.category.as_str()),
            None => false,
        };
        if !in_cat {
            return false;
        }
        let mut i: usize = 0;
        while i < self.capabilities.len()
            invariant
                i <= self.capabilities@.len(),
                forall|j: int| 0 <= j < i ==> has_capability_spec(*plugin, #[trigger] string_views(self.capabilities@)[j]),
            decreases self.capabilities@.len() - i,
        {
            if !plugin.has_capability(self.capabilities[i].as_str()) {
                assert(string_views(self.capabilities@)[i as int] == self.capabilities@[i as int]@);
                assert(!has_capability_spec(*plugin, self@.capabilities[i as int]));
                return false;
            }
            i = i + 1;
        }
        true
    }
}

impl Missing {
    /// e.g. "needs 1 provider.dns plugin with records.write (found 0; bunny lacks records.write)"
    pub fn to_text(&self) -> (r: String)
        ensures
            r@ == missing_text(self@),
    {
        let r = &self.requirement;
        let mut s = String::new();
        push_str(&mut s, "needs ");
        push_dec(&mut s, r.min as u64);
        push_str(&mut s, " ");
        push_str(&mut s, r.category.as_str());
        push_str(&mut s, " plugin");
        if r.min != 1 {
            push_str(&mut s, "s");
        }
        if r.capabilities.len() > 0 {
            push_str(&mut s, " with ");
            push_joined(&mut s, &r.capabilities, ", ");
        }
        push_str(&mut s, " (found ");
        push_dec(&mut s, self.found as u64);
        let ghost head = s@;
        let ghost nmv = self.near_misses@.map_values(|n: NearMiss| n@);
        let mut i: usize = 0;
        while i < self.near_misses.len()
            invariant
                i <= self.near_misses@.len(),
                nmv == self.near_misses@.map_values(|n: NearMiss| n@),
                s@ == head + near_miss_text(nmv.subrange(0, i as int)),
            decreases self.near_misses@.len() - i,
        {
            let m = &self.near_misses[i];
            push_str(&mut s, "; ");
            push_str(&mut s, m.plugin.as_str());
            push_str(&mut s, " lacks ");
            push_joined(&mut s, &m.lacking, ", ");
            proof {
                let sub = nmv.subrange(0, i + 1);
                assert(sub.drop_last() =~= nmv.subrange(0, i as int));
                assert(sub.last() == self.near_misses@[i as int]@);
                assert(s@ =~= head + near_miss_text(sub));
            }
            i = i + 1;
        }
        push_str(&mut s, ")");
        proof {
            assert(nmv.subrange(0, self.near_misses@.len() as int) =~= nmv);
            assert(s@ =~= missing_text(self@));
        }
        s
    }
}

/// The capabilities of `caps` that `p` lacks.
fn lacking_exec(caps: &Vec<String>, p: &PluginManifest) -> (r: Vec<String>)
    ensures
        string_views(r@) == lacking(string_views(caps@), *p),
{
    let ghost sv = string_views(caps@);
    let mut out: Vec<String> = Vec::new();
    let mut i: usize = 0;
    while i < caps.len()
        invariant
            i <= caps@.len(),
            sv == string_views(caps@),
            sv.len() == caps@.len(),
            string_views(out@) == lacking(sv.subrange(0, i as int), *p),
        decreases caps@.len() - i,
    {
        let ghost before = out@;
        let present = p.has_capability(caps[i].as_str());
        proof {
            let sub = sv.subrange(0, i + 1);
            assert(sub.drop_last() =~= sv.subrange(0, i as int));
            assert(sub.last() == caps@[i as int]@);
        }
        if !present {
            let c = caps[i].clone();
            out.push(c);
            proof {
                lemma_string_views_push(before, c);
            }
        }
        proof {
            let sub = sv.subrange(0, i + 1);
            assert(string_views(out@) =~= lacking(sub, *p));
        }
        i = i + 1;
    }
    assert(sv.subrange(0, caps@.len() as int) =~= sv);
    out
}

/// Counts the plugins that count towards `r` and collects the near misses.
fn tally_exec(r: &Requirement, available: &[&PluginManifest]) -> (res: (u32, Vec<NearMiss>))
    requires
        available@.len() <= u32::MAX,
    ensures
        res.0 as nat == tally(r@, derefs(available@)).0,
        res.1@.map_values(|n: NearMiss| n@) == tally(r@, derefs(available@)).1,
{
    let ghost av = derefs(available@);
    let mut found: u32 = 0;
    let mut near: Vec<NearMiss> = Vec::new();
    let mut i: usize = 0;
    while i < available.len()
        invariant
            i <= available@.len() <= u32::MAX,
            av == derefs(available@),
            av.len() == available@.len(),
            found as nat == tally(r@, av.subrange(0, i as int)).0,
            found <= i,
            near@.map_values(|n: NearMiss| n@) == tally(r@, av.subrange(0, i as int)).1,
        decreases available@.len() - i,
    {
        let p: &PluginManifest = available[i];
        let ghost before = near@;
        proof {
            let sub = av.subrange(0, i + 1);
            assert(sub.drop_last() =~= av.subrange(0, i as int));
            assert(sub.last() == *p);
        }
        let in_cat = match &p.plugin.category {
            Some(c) => str_eq(c.as_str(), r.category.as_str()),
            None => false,
        };
        if in_cat {
            let l = lacking_exec(&r.capabilities, p);
            if l.len() == 0 {
                found = found + 1;
            } else {
                let nm = NearMiss { plugin: p.plugin.name.clone(), lacking: l };
                near.push(nm);
                proof {
                    assert(near@.map_values(|n: NearMiss| n@) =~= before.map_values(|n: NearMiss| n@).push(nm@));
                }
            }
        }
        i = i + 1;
    }
    assert(av.subrange(0, available@.len() as int) =~= av);
    (found, near)
}

/// Checks `requirements` against the plugins that are available (installed
/// and, where that matters to the host, configured). `Ok` means a module
/// with these requirements can run.
pub fn satisfies(requirements: &[Requirement], available: &[&PluginManifest]) -> (r: Result<(), Vec<Missing>>)
    requires
        available@.len() <= u32::MAX,
    ensures
        match r {
            Ok(()) => missing_spec(requirement_views(requirements@), derefs(available@)).len() == 0,
            Err(v) => missing_views(v@) == missing_spec(requirement_views(requirements@), derefs(available@))
                && v@.len() > 0,
        },
{
    let ghost rv = requirement_views(requirements@);
    let mut missing: Vec<Missing> = Vec::new();
    let mut i: usize = 0;
    while i < requirements.len()
        invariant
            i <= requirements@.len(),
            available@.len() <= u32::MAX,
            rv == requirement_views(requirements@),
            rv.len() == requirements@.len(),
            missing_views(missing@) == missing_spec(rv.subrange(0, i as int), derefs(available@)),
        decreases requirements@.len() - i,
    {
        let req = &requirements[i];
        let ghost before = missing@;
        let (found, near) = tally_exec(req, available);
        proof {
            let sub = rv.subrange(0, i + 1);
            assert(sub.drop_last() =~= rv.subrange(0, i as int));
            assert(sub.last() == req@);
        }
        if found < req.min {
            let m = Missing { requirement: req.duplicate(), found, near_misses: near };
            missing.push(m);
            proof {
                assert(missing_views(missing@) =~= missing_views(before).push(m@));
            }
        }
        proof {
            assert(missing_views(missing@) =~= missing_spec(rv.subrange(0, i + 1), derefs(available@)));
        }
        i = i + 1;
    }
    assert(rv.subrange(0, requirements@.len() as int) =~= rv);
    if missing.len() == 0 {
        Ok(())
    } else {
        Err(missing)
    }
}

/// The names of the plugins of `known` that satisfy `r`, in order.
pub open spec fn candidates_spec(r: RequirementV, known: Seq<PluginManifest>) -> Seq<Seq<char>>
    decreases known.len(),
{
    if known.len() == 0 {
        Seq::empty()
    } else {
        candidates_spec(r, known.drop_last()) + if accepts_spec(r, known.last()) {
            seq![known.last().plugin.name@]
        } else {
            Seq::<Seq<char>>::empty()
        }
    }
}

/// Plugins from `known` (e.g. every plugin shipped) that would satisfy
/// `requirement`, for "install or configure one of these" hints.
pub fn candidates<'a>(requirement: &Requirement, known: &'a [PluginManifest]) -> (r: Vec<&'a str>)
    ensures
        str_views(r@) == candidates_spec(requirement@, known@),
{
    let mut out: Vec<&'a str> = Vec::new();
    let mut i: usize = 0;
    while i < known.len()
        invariant
            i <= known@.len(),
            str_views(out@) == candidates_spec(requirement@, known@.subrange(0, i as int)),
        decreases known@.len() - i,
    {
        let ghost before = out@;
        let p: &'a PluginManifest = &known[i];
        proof {
            let sub = known@.subrange(0, i + 1);
            assert(sub.drop_last() =~= known@.subrange(0, i as int));
            assert(sub.last() == *p);
        }
        if requirement.accepts(p) {
            let name: &'a str = p.plugin.name.as_str();
            out.push(name);
            proof {
                crate::text::lemma_str_views_push(before, name);
            }
        }
        proof {
            assert(str_views(out@) =~= candidates_spec(requirement@, known@.subrange(0, i + 1)));
        }
        i = i + 1;
    }
    assert(known@.subrange(0, known@.len() as int) =~= known@);
    out
}

} // verus!
