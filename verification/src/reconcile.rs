//! Comparing the variables of a template with those of the file in use.
//!
//! A variable is missing when the template names it and the file in use does not;
//! it is stale when the file in use names it and the template does not. Values play
//! no part in the comparison: a variable that both name is neither, whatever each
//! says of it.

use vstd::prelude::*;
use crate::env_map::EnvMap;

verus! {

/// The variables that the template holds and the actual file lacks, with the
/// template's values.
pub open spec fn missing_of(
    template: Map<Seq<char>, Seq<char>>,
    actual: Map<Seq<char>, Seq<char>>,
) -> Map<Seq<char>, Seq<char>> {
    template.remove_keys(actual.dom())
}

/// The variables that the actual file holds and the template lacks, with the
/// actual file's values.
pub open spec fn stale_of(
    template: Map<Seq<char>, Seq<char>>,
    actual: Map<Seq<char>, Seq<char>>,
) -> Map<Seq<char>, Seq<char>> {
    actual.remove_keys(template.dom())
}

/// What one comparison found.
#[derive(Debug)]
pub struct DiffResult {
    pub missing: EnvMap,
    pub stale: EnvMap,
}

impl DiffResult {
    /// Whether the comparison found nothing missing and nothing stale.
    pub fn is_empty(&self) -> (r: bool)
        ensures
            r == (self.missing@ == Map::<Seq<char>, Seq<char>>::empty() && self.stale@ == Map::<
                Seq<char>,
                Seq<char>,
            >::empty()),
    {
        self.missing.is_empty() && self.stale.is_empty()
    }
}

/// Compares the variables of a template with those of the actual file.
pub fn diff(template: &EnvMap, actual: &EnvMap) -> (r: DiffResult)
    ensures
        r.missing@ == missing_of(template@, actual@),
        r.stale@ == stale_of(template@, actual@),
{
    DiffResult { missing: template.without_keys_of(actual), stale: actual.without_keys_of(template) }
}

/// No variable is both missing and stale. What is missing is what the template names
/// and the actual file does not, with the template's value; what is stale is what the
/// actual file names and the template does not, with the actual file's value.
pub proof fn lemma_missing_and_stale_apart(
    template: Map<Seq<char>, Seq<char>>,
    actual: Map<Seq<char>, Seq<char>>,
)
    ensures
        missing_of(template, actual).dom().disjoint(stale_of(template, actual).dom()),
        forall|name: Seq<char>| #[trigger]
            missing_of(template, actual).contains_key(name) <==> template.contains_key(name)
                && !actual.contains_key(name),
        forall|name: Seq<char>| #[trigger]
            stale_of(template, actual).contains_key(name) <==> actual.contains_key(name)
                && !template.contains_key(name),
        forall|name: Seq<char>| #[trigger]
            missing_of(template, actual).contains_key(name) ==> missing_of(template, actual)[name]
                == template[name],
        forall|name: Seq<char>| #[trigger]
            stale_of(template, actual).contains_key(name) ==> stale_of(template, actual)[name]
                == actual[name],
{
}

/// Two files that name the same variables have nothing missing and nothing stale,
/// whatever values they give them.
pub proof fn lemma_same_names_leave_nothing(
    template: Map<Seq<char>, Seq<char>>,
    actual: Map<Seq<char>, Seq<char>>,
)
    requires
        template.dom() == actual.dom(),
    ensures
        missing_of(template, actual) == Map::<Seq<char>, Seq<char>>::empty(),
        stale_of(template, actual) == Map::<Seq<char>, Seq<char>>::empty(),
{
    assert(missing_of(template, actual) =~= Map::<Seq<char>, Seq<char>>::empty());
    assert(stale_of(template, actual) =~= Map::<Seq<char>, Seq<char>>::empty());
}

/// Nothing is missing and nothing is stale exactly when the two files name the same
/// variables.
pub proof fn lemma_nothing_found_means_same_names(
    template: Map<Seq<char>, Seq<char>>,
    actual: Map<Seq<char>, Seq<char>>,
)
    requires
        missing_of(template, actual) == Map::<Seq<char>, Seq<char>>::empty(),
        stale_of(template, actual) == Map::<Seq<char>, Seq<char>>::empty(),
    ensures
        template.dom() == actual.dom(),
{
    assert forall|name: Seq<char>| template.dom().contains(name) <==> actual.dom().contains(name) by {
        if template.dom().contains(name) && !actual.dom().contains(name) {
            assert(missing_of(template, actual).contains_key(name));
        }
        if actual.dom().contains(name) && !template.dom().contains(name) {
            assert(stale_of(template, actual).contains_key(name));
        }
    }
    assert(template.dom() =~= actual.dom());
}

} // verus!
