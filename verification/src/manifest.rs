//! The minimal view of a discovery manifest that gates lowering rules.

use vstd::prelude::*;

use crate::extract::runtime_version_of;
use crate::ordered::TextMap;
use crate::text::str_eq;

verus! {

/// Release identity tying lowering decisions to the probed Monty runtime.
#[derive(Debug)]
pub struct TargetFingerprint {
    pub tag: String,
    pub runtime_version: Option<String>,
}

/// Failure while loading or validating a capability manifest.
#[derive(Debug)]
pub enum ManifestError {
    Io(String),
    Json(String),
    VersionMismatch { tag: String, runtime_version: String },
}

/// Feature statuses after storing each `(feature, status)` pair in order, a
/// later pair replacing an earlier one for the same feature.
pub open spec fn statuses_of(pairs: Seq<(Seq<char>, Seq<char>)>) -> Map<Seq<char>, Seq<char>>
    decreases pairs.len(),
{
    if pairs.len() == 0 {
        Map::empty()
    } else {
        statuses_of(pairs.drop_last()).insert(pairs.last().0, pairs.last().1)
    }
}

/// Whether a target's tag and runtime version agree.
pub open spec fn target_consistent(tag: Seq<char>, runtime_version: Option<Seq<char>>) -> bool {
    match runtime_version {
        Some(version) => runtime_version_of(tag) == version,
        None => true,
    }
}

/// Minimal manifest view needed by the lowering engine.
pub struct CapabilityIndex {
    target: TargetFingerprint,
    feature_statuses: TextMap<String>,
}

impl CapabilityIndex {
    pub closed spec fn wf(&self) -> bool {
        self.feature_statuses.wf()
    }

    /// The tag of the manifest's target release.
    pub closed spec fn tag(&self) -> Seq<char> {
        self.target.tag@
    }

    /// The runtime version the manifest was probed against, if recorded.
    pub closed spec fn runtime_version(&self) -> Option<Seq<char>> {
        crate::text::text_option(self.target.runtime_version)
    }

    /// Every feature's discovered status.
    pub closed spec fn statuses(&self) -> Map<Seq<char>, Seq<char>> {
        self.feature_statuses.view_map().map_values(|status: String| status@)
    }

    /// The features in the order `feature_statuses` reports them.
    pub closed spec fn feature_order(&self) -> Seq<Seq<char>> {
        self.feature_statuses.key_seq()
    }

    /// Build an index from a manifest's target and feature evidence, rejecting a
    /// tag that disagrees with the recorded runtime version.
    pub fn from_parts(target: TargetFingerprint, features: Vec<(String, String)>) -> (result:
        Result<CapabilityIndex, ManifestError>)
        ensures
            result is Ok <==> target_consistent(
                target.tag@,
                crate::text::text_option(target.runtime_version),
            ),
            result matches Ok(index) ==> index.wf() && index.tag() == target.tag@
                && index.runtime_version() == crate::text::text_option(target.runtime_version)
                && index.statuses() == statuses_of(
                features@.map_values(|pair: (String, String)| (pair.0@, pair.1@)),
            ),
            result matches Err(error) ==> error matches ManifestError::VersionMismatch {
                tag,
                runtime_version,
            } && tag@ == target.tag@ && Some(runtime_version@) == crate::text::text_option(
                target.runtime_version,
            ),
    {
        if let Some(runtime_version) = &target.runtime_version {
            let tag_version = crate::extract::strip_v_prefix(target.tag.as_str());
            if !str_eq(tag_version.as_str(), runtime_version.as_str()) {
                return Err(
                    ManifestError::VersionMismatch {
                        tag: target.tag,
                        runtime_version: runtime_version.clone(),
                    },
                );
            }
        }
        let ghost pairs = features@.map_values(|pair: (String, String)| (pair.0@, pair.1@));
        let mut statuses: TextMap<String> = TextMap::new();
        assert(statuses.view_map().map_values(|status: String| status@) =~= statuses_of(
            pairs.take(0),
        ));
        let mut i: usize = 0;
        while i < features.len()
            invariant
                statuses.wf(),
                i <= features@.len(),
                pairs == features@.map_values(|pair: (String, String)| (pair.0@, pair.1@)),
                statuses.view_map().map_values(|status: String| status@) == statuses_of(
                    pairs.take(i as int),
                ),
            decreases features@.len() - i,
        {
            let feature = features[i].0.clone();
            let status = features[i].1.clone();
            let ghost before = statuses.view_map();
            statuses.insert(feature, status);
            proof {
                assert(pairs.take(i + 1).drop_last() =~= pairs.take(i as int));
                assert(pairs.take(i + 1).last() == pairs[i as int]);
                assert(statuses.view_map().map_values(|status: String| status@) =~= before.map_values(
                    |status: String| status@,
                ).insert(feature@, status@));
            }
            i = i + 1;
        }
        assert(pairs.take(features@.len() as int) =~= pairs);
        Ok(CapabilityIndex { target, feature_statuses: statuses })
    }

    /// Monty release and runtime identity for this evidence set.
    pub fn target(&self) -> (target: &TargetFingerprint)
        ensures
            target.tag@ == self.tag(),
            crate::text::text_option(target.runtime_version) == self.runtime_version(),
    {
        &self.target
    }

    /// The probe status of a stable feature identifier.
    pub fn feature_status(&self, feature: &str) -> (status: Option<&str>)
        requires
            self.wf(),
        ensures
            status is Some <==> self.statuses().contains_key(feature@),
            status matches Some(s) ==> s@ == self.statuses()[feature@],
    {
        match self.feature_statuses.get(feature) {
            Some(status) => Some(status.as_str()),
            None => None,
        }
    }

    /// Every feature identifier with its discovered status, in ascending
    /// feature order.
    pub fn feature_statuses(&self) -> (pairs: Vec<(&str, &str)>)
        requires
            self.wf(),
        ensures
            pairs@.len() == self.feature_order().len(),
            forall|i: int|
                0 <= i < pairs@.len() ==> (#[trigger] pairs@[i]).0@ == self.feature_order()[i]
                    && self.statuses().contains_key(pairs@[i].0@) && pairs@[i].1@
                    == self.statuses()[pairs@[i].0@],
            forall|feature: Seq<char>|
                self.statuses().contains_key(feature) ==> self.feature_order().contains(feature),
    {
        let mut pairs: Vec<(&str, &str)> = Vec::new();
        let mut i: usize = 0;
        while i < self.feature_statuses.len()
            invariant
                self.wf(),
                i <= self.feature_order().len(),
                pairs@.len() == i,
                forall|k: int|
                    0 <= k < i ==> (#[trigger] pairs@[k]).0@ == self.feature_order()[k]
                        && self.statuses().contains_key(pairs@[k].0@) && pairs@[k].1@
                        == self.statuses()[pairs@[k].0@],
            decreases self.feature_order().len() - i,
        {
            let key = self.feature_statuses.key_at(i);
            let value = self.feature_statuses.value_at(i);
            proof {
                self.lemma_entry(i as int);
            }
            pairs.push((key.as_str(), value.as_str()));
            i = i + 1;
        }
        pairs
    }

    proof fn lemma_entry(&self, i: int)
        requires
            self.wf(),
            0 <= i < self.feature_order().len(),
        ensures
            self.statuses().contains_key(self.feature_order()[i]),
            self.statuses()[self.feature_order()[i]] == self.feature_statuses.value_seq()[i]@,
    {
        self.feature_statuses.lemma_entry(i);
    }

    /// Whether discovery proved that Monty's parser rejects this feature.
    pub fn is_parse_unsupported(&self, feature: &str) -> (rejected: bool)
        requires
            self.wf(),
        ensures
            rejected == (self.statuses().contains_key(feature@) && self.statuses()[feature@]
                == "unsupported_parse"@),
    {
        match self.feature_status(feature) {
            Some(status) => str_eq(status, "unsupported_parse"),
            None => false,
        }
    }

    /// Whether discovery found any non-supported outcome for this feature.
    pub fn is_not_supported(&self, feature: &str) -> (unsupported: bool)
        requires
            self.wf(),
        ensures
            unsupported == (self.statuses().contains_key(feature@) && self.statuses()[feature@]
                != "supported"@),
    {
        match self.feature_status(feature) {
            Some(status) => !str_eq(status, "supported"),
            None => false,
        }
    }
}

} // verus!
