//! Properties of the conversion, stated and proved over the models.

use vstd::prelude::*;

use crate::config::collect_spec;
use crate::config::derive_item;
use crate::config::insert_model;
use crate::config::toml_of;
use crate::config::ItemModel;
use crate::config::lemma_sec_index;
use crate::config::sec_index;
use crate::config::ConfigModel;
use crate::text::has_prefix;

verus! {

/// Placing one item keeps a configuration well-formed: items stay in the
/// bucket their section field names, and section names stay unique.
pub proof fn lemma_insert_wf(c: ConfigModel, item: ItemModel)
    requires
        c.wf(),
    ensures
        insert_model(c, item).wf(),
{
    let d = insert_model(c, item);
    match item.section {
        None => {
            assert(d.global =~= c.global.push(item));
        },
        Some(nm) => {
            lemma_sec_index(c.sections, nm);
            let j = sec_index(c.sections, nm);
            if j >= 0 {
                assert forall|j2: int, k: int|
                    0 <= j2 < d.sections.len() && 0 <= k < d.sections[j2].items.len() implies (
                #[trigger] d.sections[j2].items[k]).section == Some(d.sections[j2].name) by {
                    if j2 == j {
                        assert(d.sections[j2].name == c.sections[j].name);
                        if k < c.sections[j].items.len() {
                            assert(c.sections[j].items[k].section == Some(c.sections[j].name));
                        } else {
                            assert(d.sections[j2].items[k] == item);
                        }
                    } else {
                        assert(d.sections[j2] == c.sections[j2]);
                    }
                }
                assert forall|j1: int, j2: int| 0 <= j1 < j2 < d.sections.len() implies (
                #[trigger] d.sections[j1].name) != (#[trigger] d.sections[j2].name) by {
                    assert(d.sections[j1].name == c.sections[j1].name);
                    assert(d.sections[j2].name == c.sections[j2].name);
                }
            } else {
                assert forall|j2: int, k: int|
                    0 <= j2 < d.sections.len() && 0 <= k < d.sections[j2].items.len() implies (
                #[trigger] d.sections[j2].items[k]).section == Some(d.sections[j2].name) by {
                    if j2 < c.sections.len() {
                        assert(d.sections[j2] == c.sections[j2]);
                    } else {
                        assert(d.sections[j2].items =~= seq![item]);
                    }
                }
                assert forall|j1: int, j2: int| 0 <= j1 < j2 < d.sections.len() implies (
                #[trigger] d.sections[j1].name) != (#[trigger] d.sections[j2].name) by {
                    if j2 == c.sections.len() as int {
                        assert(d.sections[j1].name == c.sections[j1].name);
                        assert(c.sections[j1].name != nm);
                    } else {
                        assert(d.sections[j1].name == c.sections[j1].name);
                        assert(d.sections[j2].name == c.sections[j2].name);
                    }
                }
            }
        },
    }
}

/// The collected configuration is well-formed: every global item carries no
/// section, every item of a section carries that section's name, and section
/// names are unique. So every item grouped under a section header carries
/// exactly that header's name, and every global item carries none.
pub proof fn lemma_collect_wf(prefix: Seq<char>, env: Seq<(Seq<char>, Seq<char>)>)
    ensures
        collect_spec(prefix, env).wf(),
    decreases env.len(),
{
    if env.len() == 0 {
    } else {
        lemma_collect_wf(prefix, env.drop_last());
        if has_prefix(prefix, env.last().0) {
            lemma_insert_wf(
                collect_spec(prefix, env.drop_last()),
                derive_item(prefix, env.last().0, env.last().1),
            );
        }
    }
}

/// The pairs of the snapshot whose names start with the prefix, in order.
pub open spec fn matching_only(prefix: Seq<char>, env: Seq<(Seq<char>, Seq<char>)>) -> Seq<
    (Seq<char>, Seq<char>),
> {
    env.filter(|p: (Seq<char>, Seq<char>)| has_prefix(prefix, p.0))
}

/// Variables whose names do not start with the prefix never reach the
/// result: the configuration is collected from the matching pairs alone.
pub proof fn lemma_non_matching_ignored(prefix: Seq<char>, env: Seq<(Seq<char>, Seq<char>)>)
    ensures
        collect_spec(prefix, env) == collect_spec(prefix, matching_only(prefix, env)),
    decreases env.len(),
{
    reveal(Seq::filter);
    let pred = |p: (Seq<char>, Seq<char>)| has_prefix(prefix, p.0);
    if env.len() == 0 {
    } else {
        lemma_non_matching_ignored(prefix, env.drop_last());
        let fdl = env.drop_last().filter(pred);
        if pred(env.last()) {
            assert(env.filter(pred) == fdl + seq![env.last()]);
            assert(env.filter(pred).drop_last() =~= fdl);
            assert(env.filter(pred).last() == env.last());
        } else {
            assert(env.filter(pred) == fdl);
        }
    }
}

/// True when the item stands in the bucket its section field names.
pub open spec fn model_holds_item(c: ConfigModel, item: ItemModel) -> bool {
    match item.section {
        None => c.global.contains(item),
        Some(nm) => exists|j: int|
            0 <= j < c.sections.len() && (#[trigger] c.sections[j]).name == nm
                && c.sections[j].items.contains(item),
    }
}

proof fn lemma_insert_holds(c: ConfigModel, item: ItemModel)
    ensures
        model_holds_item(insert_model(c, item), item),
{
    let d = insert_model(c, item);
    match item.section {
        None => {
            assert(d.global[c.global.len() as int] == item);
        },
        Some(nm) => {
            lemma_sec_index(c.sections, nm);
            let j = sec_index(c.sections, nm);
            if j >= 0 {
                assert(d.sections[j].name == nm);
                assert(d.sections[j].items[c.sections[j].items.len() as int] == item);
                assert(d.sections[j].items.contains(item));
            } else {
                let jn = c.sections.len() as int;
                assert(d.sections[jn].name == nm);
                assert(d.sections[jn].items[0] == item);
                assert(d.sections[jn].items.contains(item));
            }
        },
    }
}

proof fn lemma_insert_preserves(c: ConfigModel, x: ItemModel, item: ItemModel)
    requires
        model_holds_item(c, item),
    ensures
        model_holds_item(insert_model(c, x), item),
{
    let d = insert_model(c, x);
    match item.section {
        None => {
            let i = choose|i: int| 0 <= i < c.global.len() && c.global[i] == item;
            assert(d.global[i] == item);
        },
        Some(nm) => {
            let j = choose|j: int|
                0 <= j < c.sections.len() && (#[trigger] c.sections[j]).name == nm
                    && c.sections[j].items.contains(item);
            let i = choose|i: int|
                0 <= i < c.sections[j].items.len() && c.sections[j].items[i] == item;
            match x.section {
                None => {
                    assert(d.sections[j].items.contains(item));
                },
                Some(xm) => {
                    lemma_sec_index(c.sections, xm);
                    let jx = sec_index(c.sections, xm);
                    if jx >= 0 {
                        if jx == j {
                            assert(d.sections[j].name == nm);
                            assert(d.sections[j].items[i] == item);
                        } else {
                            assert(d.sections[j] == c.sections[j]);
                        }
                        assert(d.sections[j].items.contains(item));
                    } else {
                        assert(d.sections[j] == c.sections[j]);
                        assert(d.sections[j].items.contains(item));
                    }
                },
            }
        },
    }
}

/// Every variable whose name starts with the prefix is emitted: its derived
/// item carries the environment value verbatim, its key and section follow
/// the derivation rule, and it stands in the bucket its section names.
pub proof fn lemma_matching_var_emitted(prefix: Seq<char>, env: Seq<(Seq<char>, Seq<char>)>, i: int)
    requires
        0 <= i < env.len(),
        has_prefix(prefix, env[i].0),
    ensures
        derive_item(prefix, env[i].0, env[i].1).value == env[i].1,
        model_holds_item(collect_spec(prefix, env), derive_item(prefix, env[i].0, env[i].1)),
    decreases env.len(),
{
    let it = derive_item(prefix, env[i].0, env[i].1);
    if i == env.len() - 1 {
        lemma_insert_holds(collect_spec(prefix, env.drop_last()), it);
    } else {
        lemma_matching_var_emitted(prefix, env.drop_last(), i);
        let c = collect_spec(prefix, env.drop_last());
        if has_prefix(prefix, env.last().0) {
            lemma_insert_preserves(c, derive_item(prefix, env.last().0, env.last().1), it);
        }
    }
}

/// True when `item` is the derived item of some pair of `env` whose name
/// starts with `prefix`.
pub open spec fn item_derived_from(
    prefix: Seq<char>,
    env: Seq<(Seq<char>, Seq<char>)>,
    item: ItemModel,
) -> bool {
    exists|i: int|
        0 <= i < env.len() && has_prefix(prefix, (#[trigger] env[i]).0) && item == derive_item(
            prefix,
            env[i].0,
            env[i].1,
        )
}

/// Nothing is invented: every item of the collected configuration, global or
/// sectioned, is the derived item of some variable whose name starts with
/// the prefix.
pub proof fn lemma_only_derived_items(prefix: Seq<char>, env: Seq<(Seq<char>, Seq<char>)>)
    ensures
        forall|k: int|
            0 <= k < collect_spec(prefix, env).global.len() ==> item_derived_from(
                prefix,
                env,
                #[trigger] collect_spec(prefix, env).global[k],
            ),
        forall|j: int, k: int|
            0 <= j < collect_spec(prefix, env).sections.len() && 0 <= k < collect_spec(
                prefix,
                env,
            ).sections[j].items.len() ==> item_derived_from(
                prefix,
                env,
                #[trigger] collect_spec(prefix, env).sections[j].items[k],
            ),
    decreases env.len(),
{
    let c = collect_spec(prefix, env);
    if env.len() == 0 {
    } else {
        lemma_only_derived_items(prefix, env.drop_last());
        let prev = env.drop_last();
        let cp = collect_spec(prefix, prev);
        assert(forall|i: int| 0 <= i < prev.len() ==> (#[trigger] prev[i]) == env[i]);
        assert forall|it: ItemModel| item_derived_from(prefix, prev, it) implies item_derived_from(
            prefix,
            env,
            it,
        ) by {
            let i = choose|i: int|
                0 <= i < prev.len() && has_prefix(prefix, (#[trigger] prev[i]).0) && it
                    == derive_item(prefix, prev[i].0, prev[i].1);
            assert(env[i] == prev[i]);
            assert(has_prefix(prefix, env[i].0));
        }
        if has_prefix(prefix, env.last().0) {
            let x = derive_item(prefix, env.last().0, env.last().1);
            let last: int = env.len() - 1;
            assert(env[last] == env.last());
            assert(item_derived_from(prefix, env, x));
            match x.section {
                None => {
                    assert forall|k: int| 0 <= k < c.global.len() implies item_derived_from(
                        prefix,
                        env,
                        #[trigger] c.global[k],
                    ) by {
                        if k < cp.global.len() {
                            assert(c.global[k] == cp.global[k]);
                        } else {
                            assert(c.global[k] == x);
                        }
                    }
                },
                Some(nm) => {
                    lemma_sec_index(cp.sections, nm);
                    let jx = sec_index(cp.sections, nm);
                    assert forall|j: int, k: int|
                        0 <= j < c.sections.len() && 0 <= k
                            < c.sections[j].items.len() implies item_derived_from(
                        prefix,
                        env,
                        #[trigger] c.sections[j].items[k],
                    ) by {
                        if jx >= 0 {
                            if j == jx {
                                if k < cp.sections[j].items.len() {
                                    assert(c.sections[j].items[k] == cp.sections[j].items[k]);
                                } else {
                                    assert(c.sections[j].items[k] == x);
                                }
                            } else {
                                assert(c.sections[j] == cp.sections[j]);
                            }
                        } else {
                            if j < cp.sections.len() {
                                assert(c.sections[j] == cp.sections[j]);
                            } else {
                                assert(c.sections[j].items == seq![x]);
                                assert(c.sections[j].items[k] == x);
                            }
                        }
                    }
                },
            }
        } else {
            assert(c == cp);
        }
    }
}

/// A snapshot in which no variable name starts with the prefix converts to
/// the empty string.
pub proof fn lemma_no_match_empty_output(prefix: Seq<char>, env: Seq<(Seq<char>, Seq<char>)>)
    requires
        forall|i: int| 0 <= i < env.len() ==> !has_prefix(prefix, (#[trigger] env[i]).0),
    ensures
        toml_of(prefix, env) == Seq::<char>::empty(),
    decreases env.len(),
{
    if env.len() == 0 {
        assert(toml_of(prefix, env) =~= Seq::<char>::empty());
    } else {
        assert(forall|i: int|
            0 <= i < env.drop_last().len() ==> (#[trigger] env.drop_last()[i]) == env[i]);
        lemma_no_match_empty_output(prefix, env.drop_last());
        assert(env.last() == env[env.len() - 1]);
    }
}

/// Converting twice with an unchanged snapshot produces identical text: the
/// output is a function of the prefix and the snapshot alone.
pub proof fn lemma_convert_idempotent(
    prefix: Seq<char>,
    env: Seq<(Seq<char>, Seq<char>)>,
    r1: Seq<char>,
    r2: Seq<char>,
)
    requires
        r1 == toml_of(prefix, env),
        r2 == toml_of(prefix, env),
    ensures
        r1 == r2,
{
}

} // verus!
