//! Discovering a provider's credentials in the environment.

use vstd::prelude::*;
use vstd::string::*;
use crate::string_map::StringMap;
use crate::text::{lemma_trimmed_twice, same_text, trim, trimmed};

verus! {

/// Where discovery looks up environment variables. A context answers for one
/// environment: as long as it is not changed, it gives a variable the same value
/// every time.
pub trait DiscoveryContext {
    /// The value of the variable `key`, where it is set.
    spec fn env_value(&self, key: Seq<char>) -> Option<Seq<char>>;

    /// Looks up the variable `key`.
    fn env_var(&self, key: &str) -> (r: Option<String>)
        ensures
            match r {
                Some(v) => self.env_value(key@) == Some(v@),
                None => self.env_value(key@) is None,
            },
    ;
}

/// An environment held as a map.
#[derive(Debug)]
pub struct EnvSnapshot {
    vars: StringMap,
}

impl EnvSnapshot {
    /// The variables and their values.
    pub closed spec fn vars(&self) -> Map<Seq<char>, Seq<char>> {
        self.vars@
    }

    /// The environment with the variables `vars`.
    pub fn new(vars: StringMap) -> (r: Self)
        ensures
            r.vars() == vars@,
    {
        EnvSnapshot { vars }
    }
}

impl DiscoveryContext for EnvSnapshot {
    open spec fn env_value(&self, key: Seq<char>) -> Option<Seq<char>> {
        if self.vars().contains_key(key) {
            Some(self.vars()[key])
        } else {
            None
        }
    }

    fn env_var(&self, key: &str) -> (r: Option<String>) {
        match self.vars.get(key) {
            Some(v) => Some(v.clone()),
            None => None,
        }
    }
}

/// Which environment variables hold the credentials of a provider.
#[derive(Debug, Clone, Copy)]
pub struct ProviderDiscoverySpec {
    pub id: &'static str,
    pub credential_env_vars: &'static [&'static str],
}

/// One credential of a provider profile.
#[derive(Debug)]
pub struct CredentialProfile {
    pub name: String,
    pub env_vars: Vec<String>,
}

/// The credentials that a profile lets discovery look for, by name.
#[derive(Debug)]
pub struct DiscoveryProfile {
    pub credentials: Vec<String>,
}

/// What a provider profile says about credentials.
#[derive(Debug)]
pub struct ProviderTypeProfile {
    pub id: String,
    pub credentials: Vec<CredentialProfile>,
    pub discovery: DiscoveryProfile,
}

/// What discovery found: environment variables and their values.
#[derive(Debug)]
pub struct DiscoveredProvider {
    pub credentials: StringMap,
}

impl DiscoveredProvider {
    /// Nothing found so far.
    pub fn new() -> (r: Self)
        ensures
            r.credentials@ == Map::<Seq<char>, Seq<char>>::empty(),
    {
        DiscoveredProvider { credentials: StringMap::new() }
    }

    /// Whether nothing was found.
    pub fn is_empty(&self) -> (r: bool)
        ensures
            r == (self.credentials@ == Map::<Seq<char>, Seq<char>>::empty()),
    {
        self.credentials.is_empty()
    }
}

impl Default for DiscoveredProvider {
    fn default() -> (r: Self)
        ensures
            r.credentials@ == Map::<Seq<char>, Seq<char>>::empty(),
    {
        DiscoveredProvider::new()
    }
}

/// Why discovery failed.
#[derive(Debug, PartialEq, Eq)]
pub enum ProviderError {
    /// A profile refers to a credential that it does not describe.
    UnknownDiscoveryCredential { profile_id: String, credential_name: String },
}

/// Whether a variable with this value counts as set: it holds more than white
/// space.
pub open spec fn usable_value(value: Option<Seq<char>>) -> bool {
    value matches Some(v) && trimmed(v).len() > 0
}

/// The usable variables among those that `wanted` picks, with their values.
pub open spec fn usable_vars(
    env: spec_fn(Seq<char>) -> Option<Seq<char>>,
    wanted: spec_fn(Seq<char>) -> bool,
) -> Map<Seq<char>, Seq<char>> {
    Map::new(|k: Seq<char>| wanted(k) && usable_value(env(k)), |k: Seq<char>| env(k)->0)
}

/// Whether discovery returned exactly `found`: nothing at all where it is empty.
pub open spec fn discovered(
    r: Result<Option<DiscoveredProvider>, ProviderError>,
    found: Map<Seq<char>, Seq<char>>,
) -> bool {
    match r {
        Ok(Some(d)) => d.credentials@ == found && found != Map::<Seq<char>, Seq<char>>::empty(),
        Ok(None) => found == Map::<Seq<char>, Seq<char>>::empty(),
        Err(_) => false,
    }
}

/// Whether `key` is one of the first `n` variables of `spec`.
pub open spec fn spec_names(spec: &ProviderDiscoverySpec, n: int, key: Seq<char>) -> bool {
    exists|i: int| 0 <= i < n && (#[trigger] spec.credential_env_vars@[i])@ == key
}

/// `found` with the value of `key` added, if it counts as set and none was there.
pub open spec fn taken(
    found: Map<Seq<char>, Seq<char>>,
    key: Seq<char>,
    value: Option<Seq<char>>,
) -> Map<Seq<char>, Seq<char>> {
    if usable_value(value) && !found.contains_key(key) {
        found.insert(key, value->0)
    } else {
        found
    }
}

/// Takes over the value of `key` from the context, if it counts as set.
fn take_var<C: DiscoveryContext + ?Sized>(
    found: &mut DiscoveredProvider,
    key: &str,
    context: &C,
)
    ensures
        final(found).credentials@ == taken(
            old(found).credentials@,
            key@,
            context.env_value(key@),
        ),
{
    if let Some(value) = context.env_var(key) {
        if !trim(value.as_str()).is_empty() {
            found.credentials.insert_if_absent(key.to_string(), value);
        }
    }
}

/// Looks up the variables that `spec` names. Those that are set to more than
/// white space make up the result.
pub fn discover_with_spec<C: DiscoveryContext + ?Sized>(
    spec: &ProviderDiscoverySpec,
    context: &C,
) -> (r:
    Result<Option<DiscoveredProvider>, ProviderError>)
    ensures
        discovered(
            r,
            usable_vars(
                |k: Seq<char>| context.env_value(k),
                |k: Seq<char>| spec_names(spec, spec.credential_env_vars@.len() as int, k),
            ),
        ),
{
    let mut found = DiscoveredProvider::new();
    let mut i: usize = 0;
    assert(found.credentials@ =~= usable_vars(
        |k: Seq<char>| context.env_value(k),
        |k: Seq<char>| spec_names(spec, 0, k),
    ));
    while i < spec.credential_env_vars.len()
        invariant
            i <= spec.credential_env_vars@.len(),
            found.credentials@ == usable_vars(
                |k: Seq<char>| context.env_value(k),
                |k: Seq<char>| spec_names(spec, i as int, k),
            ),
        decreases spec.credential_env_vars@.len() - i,
    {
        let key = spec.credential_env_vars[i];
        let ghost before = found.credentials@;
        take_var(&mut found, key, context);
        assert(found.credentials@ == taken(before, key@, context.env_value(key@)));
        proof {
            let after = usable_vars(
                |k: Seq<char>| context.env_value(k),
                |k: Seq<char>| spec_names(spec, i + 1, k),
            );
            assert forall|k: Seq<char>| #[trigger] spec_names(spec, i + 1, k) == (spec_names(
                spec,
                i as int,
                k,
            ) || k == key@) by {
                if k == key@ {
                    assert(spec.credential_env_vars@[i as int]@ == k);
                }
            }
            assert forall|k: Seq<char>| #[trigger] after.contains_key(k)
                == found.credentials@.contains_key(k) by {
                assert(spec_names(spec, i + 1, k) == (spec_names(spec, i as int, k) || k == key@));
            }
            assert(found.credentials@ =~= after);
        }
        i = i + 1;
    }
    if found.is_empty() {
        Ok(None)
    } else {
        Ok(Some(found))
    }
}

/// The first credential from position `from` on that goes by `name`.
pub open spec fn credential_named(
    credentials: Seq<CredentialProfile>,
    name: Seq<char>,
    from: int,
) -> Option<int>
    decreases credentials.len() - from,
{
    if from < 0 || from >= credentials.len() {
        None
    } else if trimmed(credentials[from].name@) == name {
        Some(from)
    } else {
        credential_named(credentials, name, from + 1)
    }
}

/// The credential that discovery reference `i` of a profile means.
pub open spec fn referenced(profile: &ProviderTypeProfile, i: int) -> Option<int> {
    credential_named(profile.credentials@, trimmed(profile.discovery.credentials@[i]@), 0)
}

/// The first discovery reference from `from` on that means no credential.
pub open spec fn unknown_reference(profile: &ProviderTypeProfile, from: int) -> Option<int>
    decreases profile.discovery.credentials@.len() - from,
{
    if from < 0 || from >= profile.discovery.credentials@.len() {
        None
    } else if referenced(profile, from) is None {
        Some(from)
    } else {
        unknown_reference(profile, from + 1)
    }
}

/// Whether `key` is among the first `n` variables of credential `c`, where a
/// name that is only white space counts for nothing.
pub open spec fn credential_names(
    profile: &ProviderTypeProfile,
    c: int,
    n: int,
    key: Seq<char>,
) -> bool {
    key.len() > 0 && exists|j: int|
        0 <= j < n && trimmed((#[trigger] profile.credentials@[c].env_vars@[j])@) == key
}

/// Whether one of the first `n` discovery references of the profile leads to the
/// variable `key`.
pub open spec fn profile_names(profile: &ProviderTypeProfile, n: int, key: Seq<char>) -> bool {
    exists|i: int|
        0 <= i < n && #[trigger] referenced(profile, i) is Some && credential_names(
            profile,
            referenced(profile, i)->0,
            profile.credentials@[referenced(profile, i)->0].env_vars@.len() as int,
            key,
        )
}

/// Whether `list` holds `key`.
spec fn listed(list: Seq<String>, key: Seq<char>) -> bool {
    exists|i: int| 0 <= i < list.len() && (#[trigger] list[i])@ == key
}

/// Whether `list` holds `key`.
fn holds(list: &Vec<String>, key: &str) -> (r: bool)
    ensures
        r == listed(list@, key@),
{
    let mut i: usize = 0;
    while i < list.len()
        invariant
            i <= list@.len(),
            forall|j: int| 0 <= j < i ==> (#[trigger] list@[j])@ != key@,
        decreases list@.len() - i,
    {
        if same_text(list[i].as_str(), key) {
            assert(list@[i as int]@ == key@);
            return true;
        }
        i = i + 1;
    }
    false
}

/// The position of the first credential that goes by `name`.
fn find_credential(profile: &ProviderTypeProfile, name: &str) -> (r: Option<usize>)
    ensures
        match r {
            Some(c) => credential_named(profile.credentials@, name@, 0) == Some(c as int) && c
                < profile.credentials@.len(),
            None => credential_named(profile.credentials@, name@, 0) is None,
        },
{
    let mut i: usize = 0;
    while i < profile.credentials.len()
        invariant
            i <= profile.credentials@.len(),
            credential_named(profile.credentials@, name@, 0) == credential_named(
                profile.credentials@,
                name@,
                i as int,
            ),
        decreases profile.credentials@.len() - i,
    {
        if same_text(trim(profile.credentials[i].name.as_str()), name) {
            return Some(i);
        }
        i = i + 1;
    }
    None
}

/// Scans the variables of credential `c`, other than those in `scanned`.
fn scan_credential<C: DiscoveryContext + ?Sized>(
    profile: &ProviderTypeProfile,
    c: usize,
    context: &C,
    found: &mut DiscoveredProvider,
    scanned: &mut Vec<String>,
    Ghost(names): Ghost<spec_fn(Seq<char>) -> bool>,
)
    requires
        c < profile.credentials@.len(),
        old(found).credentials@ == usable_vars(|k: Seq<char>| context.env_value(k), names),
        forall|k: Seq<char>| #[trigger] names(k) == listed(old(scanned)@, k),
    ensures
        ({
            let all = |k: Seq<char>|
                names(k) || credential_names(
                    profile,
                    c as int,
                    profile.credentials@[c as int].env_vars@.len() as int,
                    k,
                );
            &&& final(found).credentials@ == usable_vars(
                |k: Seq<char>| context.env_value(k),
                all,
            )
            &&& forall|k: Seq<char>| #[trigger] all(k) == listed(final(scanned)@, k)
        }),
{
    let credential = &profile.credentials[c];
    let mut j: usize = 0;
    let ghost all = |n: int|
        |k: Seq<char>| names(k) || credential_names(profile, c as int, n, k);
    let ghost env = |k: Seq<char>| context.env_value(k);
    proof {
        assert(found.credentials@ =~= usable_vars(env, all(0)));
        assert forall|k: Seq<char>| #[trigger] (all(0))(k) == listed(scanned@, k) by {
            assert(names(k) == listed(scanned@, k));
        }
    }
    while j < credential.env_vars.len()
        invariant
            c < profile.credentials@.len(),
            *credential == profile.credentials@[c as int],
            j <= credential.env_vars@.len(),
            all == (|n: int| |k: Seq<char>| names(k) || credential_names(profile, c as int, n, k)),
            env == (|k: Seq<char>| context.env_value(k)),
            found.credentials@ == usable_vars(env, all(j as int)),
            forall|k: Seq<char>| #[trigger] (all(j as int))(k) == listed(scanned@, k),
        decreases credential.env_vars@.len() - j,
    {
        let env_var = trim(credential.env_vars[j].as_str());
        let ghost key = env_var@;
        let ghost before = found.credentials@;
        let ghost listed_before = scanned@;
        proof {
            assert forall|k: Seq<char>|
                credential_names(profile, c as int, j + 1, k) == (credential_names(
                    profile,
                    c as int,
                    j as int,
                    k,
                ) || (k == key && k.len() > 0)) by {
                if k == key {
                    assert(trimmed(profile.credentials@[c as int].env_vars@[j as int]@) == k);
                }
            }
        }
        if !env_var.is_empty() && !holds(scanned, env_var) {
            scanned.push(env_var.to_string());
            take_var(found, env_var, context);
        }
        proof {
            assert forall|k: Seq<char>| #[trigger]
                listed(scanned@, k) == (listed(listed_before, k) || (k == key && k.len() > 0)) by {
                if listed(listed_before, k) {
                    let i = choose|i: int|
                        0 <= i < listed_before.len() && (#[trigger] listed_before[i])@ == k;
                    assert(scanned@[i]@ == k);
                }
                if k == key && k.len() > 0 && !listed(listed_before, k) {
                    assert(scanned@[listed_before.len() as int]@ == k);
                }
                if listed(scanned@, k) && !listed(listed_before, k) {
                    let i = choose|i: int|
                        0 <= i < scanned@.len() && (#[trigger] scanned@[i])@ == k;
                    if i < listed_before.len() {
                        assert(listed_before[i]@ == k);
                    }
                }
            }
            assert forall|k: Seq<char>| #[trigger] (all(j + 1))(k) == listed(scanned@, k) by {
                assert((all(j as int))(k) == listed(listed_before, k));
                assert(credential_names(profile, c as int, j + 1, k) == (credential_names(
                    profile,
                    c as int,
                    j as int,
                    k,
                ) || (k == key && k.len() > 0)));
            }
            assert forall|k: Seq<char>|
                found.credentials@.contains_key(k) == #[trigger] usable_vars(
                    env,
                    all(j + 1),
                ).contains_key(k) by {
                assert((all(j as int))(k) == listed(listed_before, k));
                assert((all(j + 1))(k) == listed(scanned@, k));
            }
            assert(found.credentials@ =~= usable_vars(env, all(j + 1)));
        }
        j = j + 1;
    }
}

/// Looks up the variables of the credentials that the profile lets discovery
/// look for. Those that are set to more than white space make up the result. A
/// reference to a credential that the profile does not describe is an error.
pub fn discover_from_profile<C: DiscoveryContext + ?Sized>(
    profile: &ProviderTypeProfile,
    context: &C,
) -> (r: Result<Option<DiscoveredProvider>, ProviderError>)
    ensures
        match unknown_reference(profile, 0) {
            Some(i) => r matches Err(
                ProviderError::UnknownDiscoveryCredential { profile_id, credential_name },
            ) && profile_id@ == profile.id@ && credential_name@ == trimmed(
                profile.discovery.credentials@[i]@,
            ),
            None => discovered(
                r,
                usable_vars(
                    |k: Seq<char>| context.env_value(k),
                    |k: Seq<char>|
                        profile_names(profile, profile.discovery.credentials@.len() as int, k),
                ),
            ),
        },
{
    let mut found = DiscoveredProvider::new();
    let mut scanned: Vec<String> = Vec::new();
    let mut i: usize = 0;
    let ghost env = |k: Seq<char>| context.env_value(k);
    let ghost names = |n: int| |k: Seq<char>| profile_names(profile, n, k);
    proof {
        assert(found.credentials@ =~= usable_vars(env, names(0)));
    }
    while i < profile.discovery.credentials.len()
        invariant
            i <= profile.discovery.credentials@.len(),
            env == (|k: Seq<char>| context.env_value(k)),
            names == (|n: int| |k: Seq<char>| profile_names(profile, n, k)),
            unknown_reference(profile, 0) == unknown_reference(profile, i as int),
            found.credentials@ == usable_vars(env, names(i as int)),
            forall|k: Seq<char>| #[trigger] (names(i as int))(k) == listed(scanned@, k),
        decreases profile.discovery.credentials@.len() - i,
    {
        let name = trim(profile.discovery.credentials[i].as_str());
        match find_credential(profile, name) {
            None => {
                return Err(
                    ProviderError::UnknownDiscoveryCredential {
                        profile_id: profile.id.clone(),
                        credential_name: name.to_string(),
                    },
                );
            },
            Some(c) => {
                scan_credential(
                    profile,
                    c,
                    context,
                    &mut found,
                    &mut scanned,
                    Ghost(names(i as int)),
                );
                proof {
                    let n = profile.credentials@[c as int].env_vars@.len() as int;
                    let all = |k: Seq<char>|
                        (names(i as int))(k) || credential_names(profile, c as int, n, k);
                    assert(found.credentials@ == usable_vars(env, all));
                    assert forall|k: Seq<char>| #[trigger] (names(i + 1))(k) == all(k) by {
                        assert(referenced(profile, i as int) == Some(c as int));
                        if profile_names(profile, i + 1, k) && !profile_names(
                            profile,
                            i as int,
                            k,
                        ) {
                            let r = choose|r: int|
                                0 <= r < i + 1 && #[trigger] referenced(profile, r) is Some
                                    && credential_names(
                                    profile,
                                    referenced(profile, r)->0,
                                    profile.credentials@[referenced(
                                        profile,
                                        r,
                                    )->0].env_vars@.len() as int,
                                    k,
                                );
                            assert(r == i);
                        }
                    }
                    assert forall|k: Seq<char>|
                        found.credentials@.contains_key(k) == #[trigger] usable_vars(
                            env,
                            names(i + 1),
                        ).contains_key(k) by {
                        assert((names(i + 1))(k) == all(k));
                    }
                    assert(found.credentials@ =~= usable_vars(env, names(i + 1)));
                    assert forall|k: Seq<char>| #[trigger] (names(i + 1))(k) == listed(
                        scanned@,
                        k,
                    ) by {
                        assert(all(k) == listed(scanned@, k));
                    }
                }
            },
        }
        i = i + 1;
    }
    if found.is_empty() {
        Ok(None)
    } else {
        Ok(Some(found))
    }
}

/// What is found is real: every variable was asked for, is set to the value that
/// was found, and holds more than white space. Nothing is found only where no
/// variable that was asked for is set like that.
pub proof fn lemma_found_variables(
    r: Result<Option<DiscoveredProvider>, ProviderError>,
    env: spec_fn(Seq<char>) -> Option<Seq<char>>,
    wanted: spec_fn(Seq<char>) -> bool,
)
    requires
        discovered(r, usable_vars(env, wanted)),
    ensures
        r matches Ok(Some(found)) ==> forall|k: Seq<char>| #[trigger]
            found.credentials@.contains_key(k) <==> wanted(k) && usable_value(env(k)),
        r matches Ok(Some(found)) ==> forall|k: Seq<char>| #[trigger]
            found.credentials@.contains_key(k) ==> env(k) == Some(found.credentials@[k]),
        r matches Ok(None) ==> forall|k: Seq<char>| #[trigger] wanted(k) ==> !usable_value(env(k)),
{
    let found = usable_vars(env, wanted);
    if r matches Ok(None) {
        assert forall|k: Seq<char>| #[trigger] wanted(k) implies !usable_value(env(k)) by {
            assert(found.contains_key(k) == (wanted(k) && usable_value(env(k))));
            assert(!Map::<Seq<char>, Seq<char>>::empty().contains_key(k));
        }
    }
}

/// Only which variables are named counts, not in which order or how often.
pub proof fn lemma_order_does_not_matter(
    a: &ProviderDiscoverySpec,
    b: &ProviderDiscoverySpec,
    env: spec_fn(Seq<char>) -> Option<Seq<char>>,
)
    requires
        forall|k: Seq<char>| #[trigger]
            spec_names(a, a.credential_env_vars@.len() as int, k) == spec_names(
                b,
                b.credential_env_vars@.len() as int,
                k,
            ),
    ensures
        usable_vars(
            env,
            |k: Seq<char>| spec_names(a, a.credential_env_vars@.len() as int, k),
        ) == usable_vars(env, |k: Seq<char>| spec_names(b, b.credential_env_vars@.len() as int, k)),
{
    let names_a = |k: Seq<char>| spec_names(a, a.credential_env_vars@.len() as int, k);
    let names_b = |k: Seq<char>| spec_names(b, b.credential_env_vars@.len() as int, k);
    let of_a = usable_vars(env, names_a);
    let of_b = usable_vars(env, names_b);
    assert forall|k: Seq<char>| #[trigger] of_a.contains_key(k) == of_b.contains_key(k) by {
        assert(spec_names(a, a.credential_env_vars@.len() as int, k) == spec_names(
            b,
            b.credential_env_vars@.len() as int,
            k,
        ));
    }
    assert(of_a =~= of_b);
}

/// A variable that a profile leads to has a name without white space around it,
/// and it has one.
pub proof fn lemma_profile_names_are_trimmed(profile: &ProviderTypeProfile, n: int, key: Seq<char>)
    requires
        profile_names(profile, n, key),
    ensures
        key.len() > 0,
        trimmed(key) == key,
{
    let i = choose|i: int|
        0 <= i < n && #[trigger] referenced(profile, i) is Some && credential_names(
            profile,
            referenced(profile, i)->0,
            profile.credentials@[referenced(profile, i)->0].env_vars@.len() as int,
            key,
        );
    let c = referenced(profile, i)->0;
    let j = choose|j: int|
        0 <= j < profile.credentials@[c].env_vars@.len() && trimmed(
            (#[trigger] profile.credentials@[c].env_vars@[j])@,
        ) == key;
    lemma_trimmed_twice(profile.credentials@[c].env_vars@[j]@);
}

/// A profile is refused exactly if one of its references means no credential of
/// it, whatever the environment holds.
pub proof fn lemma_unknown_reference(profile: &ProviderTypeProfile, from: int)
    requires
        0 <= from <= profile.discovery.credentials@.len(),
    ensures
        unknown_reference(profile, from) is Some <==> exists|i: int|
            from <= i < profile.discovery.credentials@.len() && #[trigger] referenced(profile, i)
                is None,
    decreases profile.discovery.credentials@.len() - from,
{
    if from < profile.discovery.credentials@.len() {
        lemma_unknown_reference(profile, from + 1);
        if referenced(profile, from) is None {
            assert(referenced(profile, from) is None);
        }
    }
}

} // verus!
