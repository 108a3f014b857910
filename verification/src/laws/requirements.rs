//! A module's requirements count exactly the plugins that would do.
use vstd::prelude::*;

use crate::plugin::{RequirementV, candidates_spec, lacking, missing_spec, tally};
use crate::schema::{PluginManifest, PluginMeta, has_capability_spec, manifest_errors};

verus! {

/// Whether a manifest's declaration is valid does not depend on the
/// capabilities it declares: unknown ones are allowed.
pub proof fn lemma_capabilities_do_not_affect_validation(m: PluginManifest, caps: Vec<String>)
    ensures
        manifest_errors(PluginManifest { plugin: PluginMeta { capabilities: caps, ..m.plugin }, ..m })
            == manifest_errors(m),
{
}

/// A plugin lacks none of a list of capabilities exactly when it has each
/// of them.
pub proof fn lemma_lacking_empty(caps: Seq<Seq<char>>, p: PluginManifest)
    ensures
        (lacking(caps, p).len() == 0) == (forall|i: int| 0 <= i < caps.len() ==> has_capability_spec(p, #[trigger] caps[i])),
    decreases caps.len(),
{
    if caps.len() > 0 {
        lemma_lacking_empty(caps.drop_last(), p);
        if forall|i: int| 0 <= i < caps.len() ==> has_capability_spec(p, #[trigger] caps[i]) {
            assert forall|i: int| 0 <= i < caps.drop_last().len() implies has_capability_spec(
                p,
                #[trigger] caps.drop_last()[i],
            ) by {
                assert(caps.drop_last()[i] == caps[i]);
            }
            assert(has_capability_spec(p, caps[caps.len() - 1]));
        } else {
            let w = choose|i: int| 0 <= i < caps.len() && !has_capability_spec(p, #[trigger] caps[i]);
            if w < caps.len() - 1 {
                assert(caps.drop_last()[w] == caps[w]);
            }
        }
    }
}

/// A requirement finds exactly the plugins it accepts: the count `satisfies`
/// reports is the number of `candidates`.
pub proof fn lemma_found_counts_candidates(r: RequirementV, avail: Seq<PluginManifest>)
    ensures
        tally(r, avail).0 == candidates_spec(r, avail).len(),
    decreases avail.len(),
{
    if avail.len() > 0 {
        lemma_found_counts_candidates(r, avail.drop_last());
        let p = avail.last();
        lemma_lacking_empty(r.capabilities, p);
    }
}

/// A module can run exactly when, for each of its requirements, at least
/// `min` of the available plugins are ones the requirement accepts.
pub proof fn lemma_satisfied_iff_enough_candidates(reqs: Seq<RequirementV>, avail: Seq<PluginManifest>)
    ensures
        (missing_spec(reqs, avail).len() == 0) == (forall|i: int|
            0 <= i < reqs.len() ==> candidates_spec(#[trigger] reqs[i], avail).len() >= reqs[i].min),
    decreases reqs.len(),
{
    if reqs.len() > 0 {
        lemma_satisfied_iff_enough_candidates(reqs.drop_last(), avail);
        let r = reqs.last();
        lemma_found_counts_candidates(r, avail);
        if forall|i: int| 0 <= i < reqs.len() ==> candidates_spec(#[trigger] reqs[i], avail).len() >= reqs[i].min {
            assert forall|i: int| 0 <= i < reqs.drop_last().len() implies candidates_spec(
                #[trigger] reqs.drop_last()[i],
                avail,
            ).len() >= reqs.drop_last()[i].min by {
                assert(reqs.drop_last()[i] == reqs[i]);
            }
            assert(candidates_spec(reqs[reqs.len() - 1], avail).len() >= reqs[reqs.len() - 1].min);
        } else {
            let w = choose|i: int| 0 <= i < reqs.len() && !(candidates_spec(#[trigger] reqs[i], avail).len() >= reqs[i].min);
            if w < reqs.len() - 1 {
                assert(reqs.drop_last()[w] == reqs[w]);
            }
        }
    }
}

} // verus!
