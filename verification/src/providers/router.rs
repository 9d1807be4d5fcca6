//! Finding a provider by a name or an alias.
use vstd::prelude::*;
use crate::providers::openai_compat::str_views;
use crate::providers::registry::{
    build_registry, made_by, registry_table, spec_views, AnyProvider, SpecView,
};
use crate::text::{cat3, opt_str, same_str};

verus! {

/// Whether an entry is meant by a name or an alias.
pub open spec fn answers_to(e: SpecView, name: Seq<char>) -> bool {
    e.name == name || e.aliases.contains(name)
}

/// The first entry from position `i` on that is meant.
pub open spec fn resolved_from(table: Seq<SpecView>, name: Seq<char>, i: int) -> Option<int>
    decreases table.len() - i,
{
    if i < 0 || i >= table.len() {
        None
    } else if answers_to(table[i], name) {
        Some(i)
    } else {
        resolved_from(table, name, i + 1)
    }
}

/// The entry that is meant: the first wins.
pub open spec fn resolved(name: Seq<char>) -> Option<int> {
    resolved_from(registry_table(), name, 0)
}

fn lists(v: &Vec<&'static str>, name: &str) -> (r: bool)
    ensures
        r == str_views(v@).contains(name@),
{
    let mut i: usize = 0;
    while i < v.len()
        invariant
            i <= v@.len(),
            forall|j: int| 0 <= j < i ==> (#[trigger] v@[j])@ != name@,
        decreases v.len() - i,
    {
        if same_str(v[i], name) {
            proof {
                assert(str_views(v@)[i as int] == name@);
            }
            return true;
        }
        i = i + 1;
    }
    proof {
        assert forall|j: int| 0 <= j < str_views(v@).len() implies str_views(v@)[j] != name@ by {
            assert(v@[j]@ != name@);
        }
    }
    false
}

/// Makes the provider that a name or an alias stands for.
pub fn create_provider(
    name_or_alias: &str,
    key: Option<&str>,
    url: Option<&str>,
) -> (r: Result<AnyProvider, String>)
    ensures
        match resolved(name_or_alias@) {
            Some(i) => r matches Ok(p) && made_by(
                p,
                registry_table()[i].factory,
                opt_str(key),
                opt_str(url),
            ),
            None => r matches Err(e) && e@ == "Provider not found for: '"@ + name_or_alias@
                + "'.  Run `adaclaw providers` to list available providers."@,
        },
{
    let registry = build_registry();
    let ghost table = spec_views(registry@);
    for s in it: registry
        invariant
            spec_views(it.seq()) == table,
            table == registry_table(),
            resolved(name_or_alias@) == resolved_from(
                table,
                name_or_alias@,
                it.index() as int,
            ),
    {
        proof {
            assert(table[it.index() as int] == s@);
        }
        if same_str(s.name, name_or_alias) || lists(&s.aliases, name_or_alias) {
            return Ok(s.factory.make(key, url));
        }
    }
    Err(
        cat3(
            "Provider not found for: '",
            name_or_alias,
            "'.  Run `adaclaw providers` to list available providers.",
        ),
    )
}

/// The names of all providers.
pub open spec fn registry_names() -> Seq<Seq<char>> {
    Seq::new(registry_table().len(), |i: int| registry_table()[i].name)
}

/// The names of all providers.
pub fn list_providers() -> (r: Vec<&'static str>)
    ensures
        str_views(r@) == registry_names(),
{
    let registry = build_registry();
    let ghost table = spec_views(registry@);
    let mut out: Vec<&'static str> = Vec::new();
    for s in it: registry
        invariant
            spec_views(it.seq()) == table,
            table == registry_table(),
            out@.len() == it.index(),
            forall|j: int| 0 <= j < it.index() ==> (#[trigger] out@[j])@ == table[j].name,
    {
        proof {
            assert(table[it.index() as int] == s@);
        }
        out.push(s.name);
    }
    proof {
        assert(str_views(out@) =~= registry_names());
    }
    out
}

/// Only a registered name or alias finds a provider, and what it finds answers
/// to it.
pub proof fn law_resolved_answers(name: Seq<char>)
    ensures
        match resolved(name) {
            Some(i) => 0 <= i < registry_table().len() && answers_to(registry_table()[i], name)
                && forall|j: int|
                0 <= j < i ==> !answers_to(#[trigger] registry_table()[j], name),
            None => forall|j: int|
                0 <= j < registry_table().len() ==> !answers_to(
                    #[trigger] registry_table()[j],
                    name,
                ),
        },
{
    lemma_resolved_from(registry_table(), name, 0);
}

proof fn lemma_resolved_from(table: Seq<SpecView>, name: Seq<char>, i: int)
    requires
        0 <= i,
    ensures
        match resolved_from(table, name, i) {
            Some(k) => i <= k < table.len() && answers_to(table[k], name) && forall|j: int|
                i <= j < k ==> !answers_to(#[trigger] table[j], name),
            None => forall|j: int|
                i <= j < table.len() ==> !answers_to(#[trigger] table[j], name),
        },
    decreases table.len() - i,
{
    if i < table.len() && !answers_to(table[i], name) {
        lemma_resolved_from(table, name, i + 1);
    }
}

} // verus!
