//! The configuration model: items, sections, grouping, and serialization.
//!
//! An item's key and optional section name are derived from a variable name
//! by stripping the prefix, lowercasing, splitting on `__`, taking the last
//! component as the key and joining the rest with `.`. Sections are kept in
//! the order of their first use, so the whole conversion is a deterministic
//! function of the snapshot.

use vstd::prelude::*;

use crate::text::has_prefix;
use crate::text::join_dot;
use crate::text::lower_of;
use crate::text::split_dd;
use crate::text::check_prefix;
use crate::text::join_all_but_last;
use crate::text::lemma_split_dd_len;
use crate::text::lowercase;
use crate::text::split_components;

verus! {

/// The mathematical value of one configuration entry.
#[verifier::ext_equal]
pub ghost struct ItemModel {
    pub section: Option<Seq<char>>,
    pub key: Seq<char>,
    pub value: Seq<char>,
}

/// The mathematical value of one named section.
#[verifier::ext_equal]
pub ghost struct SectionModel {
    pub name: Seq<char>,
    pub items: Seq<ItemModel>,
}

/// The mathematical value of a whole configuration.
#[verifier::ext_equal]
pub ghost struct ConfigModel {
    pub global: Seq<ItemModel>,
    pub sections: Seq<SectionModel>,
}

/// One configuration entry; `section` absent means the global scope.
pub struct ConfigItem {
    pub section: Option<String>,
    pub key: String,
    pub value: String,
}

impl View for ConfigItem {
    type V = ItemModel;

    open spec fn view(&self) -> ItemModel {
        ItemModel { section: self.section.deep_view(), key: self.key@, value: self.value@ }
    }
}

impl DeepView for ConfigItem {
    type V = ItemModel;

    open spec fn deep_view(&self) -> ItemModel {
        self.view()
    }
}

/// A named section and the items grouped under it, in insertion order.
pub struct Section {
    pub name: String,
    pub items: Vec<ConfigItem>,
}

impl View for Section {
    type V = SectionModel;

    open spec fn view(&self) -> SectionModel {
        SectionModel { name: self.name@, items: self.items.deep_view() }
    }
}

impl DeepView for Section {
    type V = SectionModel;

    open spec fn deep_view(&self) -> SectionModel {
        self.view()
    }
}

/// The full conversion result: global items, then sections in the order of
/// their first use.
pub struct Config {
    pub global: Vec<ConfigItem>,
    pub sections: Vec<Section>,
}

impl View for Config {
    type V = ConfigModel;

    open spec fn view(&self) -> ConfigModel {
        ConfigModel { global: self.global.deep_view(), sections: self.sections.deep_view() }
    }
}

impl ConfigModel {
    /// Every global item carries no section, every item of a section carries
    /// that section's name, and section names are unique.
    pub open spec fn wf(self) -> bool {
        &&& forall|k: int|
            0 <= k < self.global.len() ==> (#[trigger] self.global[k]).section is None
        &&& forall|j: int, k: int|
            0 <= j < self.sections.len() && 0 <= k < self.sections[j].items.len()
                ==> (#[trigger] self.sections[j].items[k]).section == Some(self.sections[j].name)
        &&& forall|j1: int, j2: int|
            0 <= j1 < j2 < self.sections.len()
                ==> (#[trigger] self.sections[j1].name) != (#[trigger] self.sections[j2].name)
    }
}

/// The item derived from a matching variable: strip the prefix, lowercase,
/// split on `__`; the last component is the key, the preceding components
/// joined with `.` are the section, and no preceding components means no
/// section.
pub open spec fn derive_item(prefix: Seq<char>, name: Seq<char>, value: Seq<char>) -> ItemModel {
    let parts = split_dd(lower_of(name.skip(prefix.len() as int)));
    ItemModel {
        section: if parts.len() == 1 {
            None
        } else {
            Some(join_dot(parts.drop_last()))
        },
        key: parts.last(),
        value: value,
    }
}

/// The index of the first section named `name`, or `-1` when there is none.
pub open spec fn sec_index(sections: Seq<SectionModel>, name: Seq<char>) -> int
    decreases sections.len(),
{
    if sections.len() == 0 {
        -1
    } else if sections[0].name == name {
        0
    } else {
        let r = sec_index(sections.skip(1), name);
        if r < 0 {
            -1
        } else {
            r + 1
        }
    }
}

pub proof fn lemma_sec_index(sections: Seq<SectionModel>, name: Seq<char>)
    ensures
        sec_index(sections, name) == -1 || sec_index(sections, name) >= 0,
        sec_index(sections, name) >= 0 ==> sec_index(sections, name) < sections.len()
            && sections[sec_index(sections, name)].name == name,
        forall|j: int|
            0 <= j < sections.len() && j < sec_index(sections, name)
                ==> (#[trigger] sections[j]).name != name,
        sec_index(sections, name) == -1 ==> forall|j: int|
            0 <= j < sections.len() ==> (#[trigger] sections[j]).name != name,
    decreases sections.len(),
{
    if sections.len() == 0 {
    } else if sections[0].name == name {
    } else {
        lemma_sec_index(sections.skip(1), name);
        assert(forall|j: int|
            1 <= j < sections.len() ==> (#[trigger] sections[j]) == sections.skip(1)[j - 1]);
    }
}

/// The configuration after placing one derived item: a global item is
/// appended to the global items; a sectioned item is appended to its
/// section's items, the section itself created on first use.
pub open spec fn insert_model(c: ConfigModel, item: ItemModel) -> ConfigModel {
    match item.section {
        None => ConfigModel { global: c.global.push(item), sections: c.sections },
        Some(name) => {
            let j = sec_index(c.sections, name);
            if j >= 0 {
                ConfigModel {
                    global: c.global,
                    sections: c.sections.update(
                        j,
                        SectionModel { name: c.sections[j].name, items: c.sections[j].items.push(item) },
                    ),
                }
            } else {
                ConfigModel {
                    global: c.global,
                    sections: c.sections.push(SectionModel { name: name, items: seq![item] }),
                }
            }
        },
    }
}

/// The configuration collected from an environment snapshot: the derived
/// items of the pairs whose names start with `prefix`, placed in snapshot
/// order.
pub open spec fn collect_spec(prefix: Seq<char>, env: Seq<(Seq<char>, Seq<char>)>) -> ConfigModel
    decreases env.len(),
{
    if env.len() == 0 {
        ConfigModel { global: Seq::empty(), sections: Seq::empty() }
    } else {
        let c = collect_spec(prefix, env.drop_last());
        if has_prefix(prefix, env.last().0) {
            insert_model(c, derive_item(prefix, env.last().0, env.last().1))
        } else {
            c
        }
    }
}

/// The view of an environment snapshot held as string pairs.
pub open spec fn pairs_view(env: Seq<(String, String)>) -> Seq<(Seq<char>, Seq<char>)> {
    Seq::new(env.len(), |i: int| (env[i].0@, env[i].1@))
}

/// One emitted line: `key = "value"` and a newline; the value is wrapped in
/// double quotes with no escaping.
pub open spec fn line_of(item: ItemModel) -> Seq<char> {
    item.key + seq![' ', '=', ' ', '"'] + item.value + seq!['"', '\n']
}

/// The lines of the given items, in order.
pub open spec fn lines_of(items: Seq<ItemModel>) -> Seq<char>
    decreases items.len(),
{
    if items.len() == 0 {
        Seq::<char>::empty()
    } else {
        lines_of(items.drop_last()) + line_of(items.last())
    }
}

/// One section's text: a blank line, the `[name]` header, then its lines.
pub open spec fn section_text(s: SectionModel) -> Seq<char> {
    seq!['\n', '['] + s.name + seq![']', '\n'] + lines_of(s.items)
}

/// The text of the given sections, in order.
pub open spec fn sections_text(ss: Seq<SectionModel>) -> Seq<char>
    decreases ss.len(),
{
    if ss.len() == 0 {
        Seq::<char>::empty()
    } else {
        sections_text(ss.drop_last()) + section_text(ss.last())
    }
}

/// The serialized form of a configuration: the global lines, then every
/// section's text.
pub open spec fn serialize_spec(c: ConfigModel) -> Seq<char> {
    lines_of(c.global) + sections_text(c.sections)
}

/// The full conversion: collect, then serialize.
pub open spec fn toml_of(prefix: Seq<char>, env: Seq<(Seq<char>, Seq<char>)>) -> Seq<char> {
    serialize_spec(collect_spec(prefix, env))
}

/// Derives the item for a variable whose name starts with the prefix.
pub(crate) fn derive_entry(prefix: &str, name: &str, value: &String) -> (item: ConfigItem)
    requires
        has_prefix(prefix@, name@),
    ensures
        item@ == derive_item(prefix@, name@, value@),
{
    let plen = prefix.unicode_len();
    let nlen = name.unicode_len();
    let stripped = name.substring_char(plen, nlen);
    proof {
        assert(stripped@ =~= name@.skip(plen as int));
    }
    let lower = lowercase(stripped);
    let parts = split_components(lower.as_str());
    proof {
        lemma_split_dd_len(lower@);
        assert(parts.deep_view().last() == parts.deep_view()[parts@.len() - 1]);
    }
    let key = parts[parts.len() - 1].clone();
    let section: Option<String> = if parts.len() == 1 {
        None
    } else {
        Some(join_all_but_last(&parts))
    };
    ConfigItem { section, key, value: value.clone() }
}

/// The index of the first section named `name`, if any.
fn find_section(sections: &Vec<Section>, name: &String) -> (r: Option<usize>)
    ensures
        r matches Some(j) ==> j < sections@.len() && sec_index(sections.deep_view(), name@) == j,
        r is None ==> sec_index(sections.deep_view(), name@) == -1,
{
    let ghost ss = sections.deep_view();
    let mut j: usize = 0;
    while j < sections.len()
        invariant
            j <= sections@.len(),
            ss == sections.deep_view(),
            forall|k: int| 0 <= k < j ==> (#[trigger] ss[k]).name != name@,
        decreases sections@.len() - j,
    {
        if sections[j].name == *name {
            proof {
                lemma_sec_index(ss, name@);
                assert(ss[j as int].name == name@);
                assert(sec_index(ss, name@) == j);
            }
            return Some(j);
        }
        j += 1;
    }
    proof {
        lemma_sec_index(ss, name@);
        if sec_index(ss, name@) >= 0 {
            assert(ss[sec_index(ss, name@)].name == name@);
        }
    }
    None
}

impl Config {
    /// Places one derived item: appends it to the global items or to its
    /// section, creating the section on first use.
    fn insert_entry(&mut self, item: ConfigItem)
        ensures
            final(self)@ == insert_model(old(self)@, item@),
    {
        let ghost itv = item@;
        if item.section.is_none() {
            self.global.push(item);
            proof {
                assert(self@.global =~= old(self)@.global.push(itv));
                assert(self@.sections =~= old(self)@.sections);
            }
        } else {
            let name_ref: &String = item.section.as_ref().unwrap();
            let ghost nm = name_ref@;
            let ghost ss = old(self)@.sections;
            let idx = find_section(&self.sections, name_ref);
            match idx {
                Some(j) => {
                    let ghost oldvec = self.sections@;
                    let mut sec = self.sections.remove(j);
                    let ghost before_items = sec.items.deep_view();
                    sec.items.push(item);
                    proof {
                        assert(sec.items.deep_view() =~= before_items.push(itv));
                    }
                    self.sections.insert(j, sec);
                    proof {
                        let upd = SectionModel {
                            name: ss[j as int].name,
                            items: ss[j as int].items.push(itv),
                        };
                        assert(before_items == ss[j as int].items);
                        assert(self.sections@ =~= oldvec.update(j as int, self.sections@[j as int]));
                        assert(self.sections@[j as int]@ =~~= upd);
                        assert(self@.sections =~~= ss.update(j as int, upd));
                        assert(self@.global =~= old(self)@.global);
                    }
                },
                None => {
                    let name = name_ref.clone();
                    let mut items: Vec<ConfigItem> = Vec::new();
                    items.push(item);
                    let ghost itemsv = items.deep_view();
                    self.sections.push(Section { name, items });
                    proof {
                        let added = SectionModel { name: nm, items: seq![itv] };
                        assert(itemsv =~= seq![itv]);
                        assert(self.sections@.last()@ =~~= added);
                        assert(self@.sections =~~= ss.push(added));
                        assert(self@.global =~= old(self)@.global);
                    }
                },
            }
        }
    }

    /// Collects the pairs of `env` whose names start with `prefix` into a
    /// configuration, in snapshot order.
    pub fn from_env(prefix: &str, env: &Vec<(String, String)>) -> (c: Config)
        ensures
            c@ == collect_spec(prefix@, pairs_view(env@)),
            c@.wf(),
    {
        let ghost ev = pairs_view(env@);
        let mut c = Config { global: Vec::new(), sections: Vec::new() };
        proof {
            assert(c@.global =~= Seq::<ItemModel>::empty());
            assert(c@.sections =~= Seq::<SectionModel>::empty());
            assert(ev.take(0) =~= Seq::<(Seq<char>, Seq<char>)>::empty());
        }
        let mut i: usize = 0;
        while i < env.len()
            invariant
                i <= env@.len(),
                ev == pairs_view(env@),
                c@ == collect_spec(prefix@, ev.take(i as int)),
            decreases env@.len() - i,
        {
            let pair = &env[i];
            proof {
                assert(ev.take(i as int + 1).drop_last() =~= ev.take(i as int));
                assert(ev.take(i as int + 1).last() == (pair.0@, pair.1@));
            }
            if check_prefix(prefix, pair.0.as_str()) {
                let item = derive_entry(prefix, pair.0.as_str(), &pair.1);
                c.insert_entry(item);
            }
            i += 1;
        }
        proof {
            assert(ev.take(env@.len() as int) =~= ev);
            crate::laws::lemma_collect_wf(prefix@, ev);
        }
        c
    }

    /// Renders the configuration: the global lines first, then each section
    /// in insertion order as a blank line, its header and its lines.
    pub fn to_toml(&self) -> (r: String)
        ensures
            r@ == serialize_spec(self@),
    {
        let mut out = String::new();
        proof {
            assert(self@.global.take(0) =~= Seq::<ItemModel>::empty());
        }
        let mut i: usize = 0;
        while i < self.global.len()
            invariant
                i <= self.global@.len(),
                out@ == lines_of(self@.global.take(i as int)),
            decreases self.global@.len() - i,
        {
            push_line(&mut out, &self.global[i]);
            proof {
                assert(self@.global.take(i as int + 1).drop_last() =~= self@.global.take(i as int));
                assert(self@.global.take(i as int + 1).last() == self@.global[i as int]);
            }
            i += 1;
        }
        proof {
            assert(self@.global.take(self.global@.len() as int) =~= self@.global);
            assert(self@.sections.take(0) =~= Seq::<SectionModel>::empty());
        }
        let mut j: usize = 0;
        while j < self.sections.len()
            invariant
                j <= self.sections@.len(),
                out@ == lines_of(self@.global) + sections_text(self@.sections.take(j as int)),
            decreases self.sections@.len() - j,
        {
            push_section(&mut out, &self.sections[j]);
            proof {
                assert(self@.sections.take(j as int + 1).drop_last() =~= self@.sections.take(
                    j as int,
                ));
                assert(self@.sections.take(j as int + 1).last() == self@.sections[j as int]);
            }
            j += 1;
        }
        proof {
            assert(self@.sections.take(self.sections@.len() as int) =~= self@.sections);
        }
        out
    }
}

/// Appends one `key = "value"` line.
fn push_line(out: &mut String, item: &ConfigItem)
    ensures
        final(out)@ == old(out)@ + line_of(item@),
{
    out.append(item.key.as_str());
    out.append(" = \"");
    out.append(item.value.as_str());
    out.append("\"\n");
    proof {
        reveal_strlit(" = \"");
        reveal_strlit("\"\n");
        assert(" = \""@ =~= seq![' ', '=', ' ', '"']);
        assert("\"\n"@ =~= seq!['"', '\n']);
        assert(out@ =~= old(out)@ + line_of(item@));
    }
}

/// Appends a blank line, the `[name]` header and the section's lines.
fn push_section(out: &mut String, sec: &Section)
    ensures
        final(out)@ == old(out)@ + section_text(sec@),
{
    out.append("\n[");
    out.append(sec.name.as_str());
    out.append("]\n");
    proof {
        reveal_strlit("\n[");
        reveal_strlit("]\n");
        assert("\n["@ =~= seq!['\n', '[']);
        assert("]\n"@ =~= seq![']', '\n']);
    }
    let ghost base = out@;
    proof {
        assert(sec@.items.take(0) =~= Seq::<ItemModel>::empty());
        assert(out@ =~= base + lines_of(sec@.items.take(0)));
    }
    let mut k: usize = 0;
    while k < sec.items.len()
        invariant
            k <= sec.items@.len(),
            out@ == base + lines_of(sec@.items.take(k as int)),
        decreases sec.items@.len() - k,
    {
        push_line(out, &sec.items[k]);
        proof {
            assert(sec@.items.take(k as int + 1).drop_last() =~= sec@.items.take(k as int));
            assert(sec@.items.take(k as int + 1).last() == sec@.items[k as int]);
        }
        k += 1;
    }
    proof {
        assert(sec@.items.take(sec.items@.len() as int) =~= sec@.items);
        assert(out@ =~= old(out)@ + section_text(sec@));
    }
}

} // verus!
