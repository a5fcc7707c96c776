//! Which variables discovery finds, by the characters of their values and names.

use vstd::prelude::*;
use vstd::string::*;
use crate::discovery::{
    credential_named, credential_names, discover_from_profile, discover_with_spec,
    profile_names, referenced, spec_names, unknown_reference, usable_value, usable_vars,
    DiscoveredProvider, DiscoveryContext, EnvSnapshot, ProviderDiscoverySpec,
    ProviderError, ProviderTypeProfile,
};
use crate::string_map::StringMap;
use crate::text::{trimmed, white_space};
use crate::text_laws::{
    lemma_trimmed_bounds, lemma_trimmed_is_the_middle, lemma_trimmed_to_nothing,
};

verus! {

/// Whether a variable is set, and some character of its value is not white space.
pub open spec fn set_to_something(value: Option<Seq<char>>) -> bool {
    match value {
        Some(v) => exists|i: int| 0 <= i < v.len() && !white_space(#[trigger] v[i]),
        None => false,
    }
}

proof fn lemma_usable(value: Option<Seq<char>>)
    ensures
        usable_value(value) <==> set_to_something(value),
{
    if let Some(v) = value {
        lemma_trimmed_to_nothing(v);
    }
}

/// Whether a variable is among what was found.
pub open spec fn has_found(
    r: Result<Option<DiscoveredProvider>, ProviderError>,
    key: Seq<char>,
) -> bool {
    r matches Ok(Some(found)) && found.credentials@.contains_key(key)
}

/// A variable of the list is found exactly if it is set to a value in which some
/// character is not white space, however long the value; no other variable is found.
/// What is found is the value as it is, and nothing is found where no variable is.
pub proof fn lemma_listed_variables<C: DiscoveryContext + ?Sized>(
    spec: &ProviderDiscoverySpec,
    context: &C,
    r: Result<Option<DiscoveredProvider>, ProviderError>,
    key: Seq<char>,
)
    requires
        call_ensures(discover_with_spec::<C>, (spec, context), r),
    ensures
        r is Ok,
        has_found(r, key) <==> {
            &&& exists|i: int|
                0 <= i < spec.credential_env_vars@.len() && (
                #[trigger] spec.credential_env_vars@[i])@ == key
            &&& match context.env_value(key) {
                Some(v) => exists|i: int| 0 <= i < v.len() && !white_space(#[trigger] v[i]),
                None => false,
            }
        },
        r matches Ok(Some(found)) ==> {
            &&& found.credentials@.contains_key(key) ==> context.env_value(key) == Some(
                found.credentials@[key],
            )
            &&& exists|k: Seq<char>| found.credentials@.contains_key(k)
        },
{
    let names = |k: Seq<char>| spec_names(spec, spec.credential_env_vars@.len() as int, k);
    let env = |k: Seq<char>| context.env_value(k);
    let all = usable_vars(env, names);
    lemma_usable(context.env_value(key));
    assert(all.contains_key(key) == (names(key) && usable_value(env(key))));
    assert(!Map::<Seq<char>, Seq<char>>::empty().contains_key(key));
    if r matches Ok(Some(found)) {
        lemma_not_empty(all);
    }
}

proof fn lemma_not_empty(found: Map<Seq<char>, Seq<char>>)
    requires
        found != Map::<Seq<char>, Seq<char>>::empty(),
    ensures
        exists|k: Seq<char>| found.contains_key(k),
{
    if !exists|k: Seq<char>| found.contains_key(k) {
        assert(found =~= Map::<Seq<char>, Seq<char>>::empty());
    }
}

/// Whether a text without the white space around it is `core`: there is white space on
/// both sides, or none, and `core` neither starts nor ends with any.
pub open spec fn trims_to(text: Seq<char>, core: Seq<char>) -> bool {
    exists|i: int, j: int| #![trigger text.subrange(i, j)]
        {
            &&& 0 <= i <= j <= text.len()
            &&& text.subrange(i, j) == core
            &&& forall|k: int| 0 <= k < i || j <= k < text.len() ==> white_space(#[trigger] text[k])
            &&& core.len() > 0 ==> !white_space(core[0]) && !white_space(core.last())
        }
}

proof fn lemma_trims_to(text: Seq<char>, core: Seq<char>)
    ensures
        trims_to(text, core) <==> trimmed(text) == core,
{
    let (i, j) = lemma_trimmed_bounds(text);
    if trimmed(text) == core {
        assert(text.subrange(i, j) == core);
    }
    if trims_to(text, core) {
        let (a, b) = choose|i: int, j: int| #![trigger text.subrange(i, j)]
            {
                &&& 0 <= i <= j <= text.len()
                &&& text.subrange(i, j) == core
                &&& forall|k: int|
                    0 <= k < i || j <= k < text.len() ==> white_space(#[trigger] text[k])
                &&& core.len() > 0 ==> !white_space(core[0]) && !white_space(core.last())
            };
        if a < b {
            assert(core[0] == text[a] && core.last() == text[b - 1]);
        }
        lemma_trimmed_is_the_middle(text, a, b);
    }
}

/// Whether credential `c` is the first of a profile that goes by the name that discovery
/// reference `i` of it gives, both without the white space around them.
pub open spec fn first_meant(profile: &ProviderTypeProfile, i: int, c: int) -> bool {
    let name = trimmed(profile.discovery.credentials@[i]@);
    &&& 0 <= i < profile.discovery.credentials@.len()
    &&& 0 <= c < profile.credentials@.len()
    &&& trims_to(profile.credentials@[c].name@, name)
    &&& forall|d: int| 0 <= d < c ==> !trims_to((#[trigger] profile.credentials@[d]).name@, name)
}

/// Whether discovery reference `i` of a profile means none of its credentials.
pub open spec fn means_none(profile: &ProviderTypeProfile, i: int) -> bool {
    forall|d: int|
        0 <= d < profile.credentials@.len() ==> !trims_to(
            (#[trigger] profile.credentials@[d]).name@,
            trimmed(profile.discovery.credentials@[i]@),
        )
}

proof fn lemma_credential_named(profile: &ProviderTypeProfile, name: Seq<char>, from: int)
    requires
        0 <= from <= profile.credentials@.len(),
    ensures
        match credential_named(profile.credentials@, name, from) {
            Some(c) => {
                &&& from <= c < profile.credentials@.len()
                &&& trims_to(profile.credentials@[c].name@, name)
                &&& forall|d: int|
                    from <= d < c ==> !trims_to((#[trigger] profile.credentials@[d]).name@, name)
            },
            None => forall|d: int|
                from <= d < profile.credentials@.len() ==> !trims_to(
                    (#[trigger] profile.credentials@[d]).name@,
                    name,
                ),
        },
    decreases profile.credentials@.len() - from,
{
    if from < profile.credentials@.len() {
        lemma_trims_to(profile.credentials@[from].name@, name);
        if trimmed(profile.credentials@[from].name@) != name {
            lemma_credential_named(profile, name, from + 1);
        }
    }
}

proof fn lemma_meant(profile: &ProviderTypeProfile, i: int, c: int)
    requires
        0 <= i < profile.discovery.credentials@.len(),
    ensures
        referenced(profile, i) == Some(c) <==> first_meant(profile, i, c),
        referenced(profile, i) is None <==> means_none(profile, i),
{
    lemma_credential_named(profile, trimmed(profile.discovery.credentials@[i]@), 0);
    if first_meant(profile, i, c) {
        let d = referenced(profile, i)->0;
        if d < c {
            assert(!trims_to(
                profile.credentials@[d].name@,
                trimmed(profile.discovery.credentials@[i]@),
            ));
        }
    }
}

proof fn lemma_first_unknown(profile: &ProviderTypeProfile, from: int)
    requires
        0 <= from <= profile.discovery.credentials@.len(),
    ensures
        match unknown_reference(profile, from) {
            Some(i) => {
                &&& from <= i < profile.discovery.credentials@.len()
                &&& means_none(profile, i)
                &&& forall|k: int| from <= k < i ==> !#[trigger] means_none(profile, k)
            },
            None => forall|k: int|
                from <= k < profile.discovery.credentials@.len() ==> !#[trigger] means_none(
                    profile,
                    k,
                ),
        },
    decreases profile.discovery.credentials@.len() - from,
{
    if from < profile.discovery.credentials@.len() {
        lemma_meant(profile, from, 0);
        if referenced(profile, from) is Some {
            lemma_first_unknown(profile, from + 1);
        }
    }
}

/// A profile is refused exactly if one of its references means none of its credentials,
/// whatever the environment holds; the first such reference is named, without the white
/// space around it.
pub proof fn lemma_unknown_references<C: DiscoveryContext + ?Sized>(
    profile: &ProviderTypeProfile,
    context: &C,
    r: Result<Option<DiscoveredProvider>, ProviderError>,
)
    requires
        call_ensures(discover_from_profile::<C>, (profile, context), r),
    ensures
        r is Err <==> exists|i: int|
            0 <= i < profile.discovery.credentials@.len() && #[trigger] means_none(profile, i),
        r matches Err(ProviderError::UnknownDiscoveryCredential { profile_id, credential_name })
            ==> {
            &&& profile_id@ == profile.id@
            &&& exists|i: int| {
                &&& 0 <= i < profile.discovery.credentials@.len()
                &&& #[trigger] means_none(profile, i)
                &&& forall|k: int| 0 <= k < i ==> !#[trigger] means_none(profile, k)
                &&& trims_to(profile.discovery.credentials@[i]@, credential_name@)
            }
        },
{
    lemma_first_unknown(profile, 0);
    if let Some(i) = unknown_reference(profile, 0) {
        assert(means_none(profile, i));
        lemma_trims_to(
            profile.discovery.credentials@[i]@,
            trimmed(profile.discovery.credentials@[i]@),
        );
    }
}

/// Whether reference `i` of a profile leads to the variable `key`: some variable of the
/// credential that it means is `key`, without the white space around it, and `key` is
/// not empty.
pub open spec fn leads_to(
    profile: &ProviderTypeProfile,
    i: int,
    c: int,
    j: int,
    key: Seq<char>,
) -> bool {
    &&& first_meant(profile, i, c)
    &&& 0 <= j < profile.credentials@[c].env_vars@.len()
    &&& trims_to(profile.credentials@[c].env_vars@[j]@, key)
    &&& key.len() > 0
}

proof fn lemma_leads_to(profile: &ProviderTypeProfile, key: Seq<char>)
    ensures
        profile_names(profile, profile.discovery.credentials@.len() as int, key) <==> exists|
            i: int,
            c: int,
            j: int,
        | leads_to(profile, i, c, j, key),
{
    let n = profile.discovery.credentials@.len() as int;
    if profile_names(profile, n, key) {
        let i = choose|i: int|
            0 <= i < n && #[trigger] referenced(profile, i) is Some && credential_names(
                profile,
                referenced(profile, i)->0,
                profile.credentials@[referenced(profile, i)->0].env_vars@.len() as int,
                key,
            );
        let c = referenced(profile, i)->0;
        let j = choose|j: int|
            0 <= j < profile.credentials@[c].env_vars@.len() && trimmed(
                (#[trigger] profile.credentials@[c].env_vars@[j])@,
            ) == key;
        lemma_meant(profile, i, c);
        lemma_trims_to(profile.credentials@[c].env_vars@[j]@, key);
        assert(leads_to(profile, i, c, j, key));
    }
    if exists|i: int, c: int, j: int| leads_to(profile, i, c, j, key) {
        let (i, c, j) = choose|i: int, c: int, j: int| leads_to(profile, i, c, j, key);
        lemma_meant(profile, i, c);
        lemma_trims_to(profile.credentials@[c].env_vars@[j]@, key);
        assert(referenced(profile, i) == Some(c));
        assert(trimmed(profile.credentials@[c].env_vars@[j]@) == key);
    }
}

/// A variable is found exactly if some reference of the profile leads to it and it is set
/// to a value in which some character is not white space, however long the value. What is
/// found is the value as it is, and nothing is found where no variable is.
pub proof fn lemma_profile_variables<C: DiscoveryContext + ?Sized>(
    profile: &ProviderTypeProfile,
    context: &C,
    r: Result<Option<DiscoveredProvider>, ProviderError>,
    key: Seq<char>,
)
    requires
        call_ensures(discover_from_profile::<C>, (profile, context), r),
        r is Ok,
    ensures
        has_found(r, key) <==> {
            &&& exists|i: int, c: int, j: int| leads_to(profile, i, c, j, key)
            &&& match context.env_value(key) {
                Some(v) => exists|i: int| 0 <= i < v.len() && !white_space(#[trigger] v[i]),
                None => false,
            }
        },
        r matches Ok(Some(found)) ==> {
            &&& found.credentials@.contains_key(key) ==> context.env_value(key) == Some(
                found.credentials@[key],
            )
            &&& exists|k: Seq<char>| found.credentials@.contains_key(k)
        },
{
    let names = |k: Seq<char>|
        profile_names(profile, profile.discovery.credentials@.len() as int, k);
    let env = |k: Seq<char>| context.env_value(k);
    let all = usable_vars(env, names);
    lemma_leads_to(profile, key);
    lemma_usable(context.env_value(key));
    assert(all.contains_key(key) == (names(key) && usable_value(env(key))));
    assert(!Map::<Seq<char>, Seq<char>>::empty().contains_key(key));
    if r matches Ok(Some(found)) {
        lemma_not_empty(all);
    }
}

/// A snapshot gives every variable the value that it was made with, and no other
/// variable any.
pub proof fn lemma_snapshot(vars: StringMap, env: EnvSnapshot, key: Seq<char>)
    requires
        call_ensures(EnvSnapshot::new, (vars,), env),
    ensures
        vars@.contains_key(key) ==> env.env_value(key) == Some(vars@[key]),
        !vars@.contains_key(key) ==> env.env_value(key) is None,
{
}

} // verus!
