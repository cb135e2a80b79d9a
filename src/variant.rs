use vstd::prelude::*;

use crate::names::str_equals;

verus! {

/// The sizes in which an image is kept on disk, each under a root of its own.
#[derive(Clone, Copy, Debug, PartialEq, Eq, Structural)]
pub enum SizeVariant {
    Original,
    Large,
    Medium,
    Small,
}

/// What a size label outside the known set resolves to.
#[derive(Clone, Copy, Debug, PartialEq, Eq, Structural)]
pub enum FallbackPolicy {
    /// Unknown labels are served from the canonical (`original`) variant.
    Canonical,
    /// Unknown labels are refused.
    Reject,
}

/// The variant that a label names, if it names one.
pub open spec fn parse_label(label: Seq<char>) -> Option<SizeVariant> {
    if label == "original"@ {
        Some(SizeVariant::Original)
    } else if label == "large"@ {
        Some(SizeVariant::Large)
    } else if label == "medium"@ {
        Some(SizeVariant::Medium)
    } else if label == "small"@ {
        Some(SizeVariant::Small)
    } else {
        None
    }
}

impl SizeVariant {
    /// The label under which a variant is requested.
    pub open spec fn label_spec(self) -> Seq<char> {
        match self {
            SizeVariant::Original => "original"@,
            SizeVariant::Large => "large"@,
            SizeVariant::Medium => "medium"@,
            SizeVariant::Small => "small"@,
        }
    }

    /// The label under which this variant is requested.
    pub fn label(self) -> (r: &'static str)
        ensures
            r@ == self.label_spec(),
    {
        match self {
            SizeVariant::Original => "original",
            SizeVariant::Large => "large",
            SizeVariant::Medium => "medium",
            SizeVariant::Small => "small",
        }
    }

    /// The variant named by `label`, if any (exact, case-sensitive match).
    pub fn from_label(label: &str) -> (r: Option<SizeVariant>)
        ensures
            r == parse_label(label@),
    {
        if str_equals(label, "original") {
            Some(SizeVariant::Original)
        } else if str_equals(label, "large") {
            Some(SizeVariant::Large)
        } else if str_equals(label, "medium") {
            Some(SizeVariant::Medium)
        } else if str_equals(label, "small") {
            Some(SizeVariant::Small)
        } else {
            None
        }
    }
}

/// The immutable configuration of the service: one root directory per size
/// variant, and the policy for unknown size labels. Built once at start-up and
/// handed to the catalog and the resolver.
pub struct ImageDirs {
    pub original: String,
    pub large: String,
    pub medium: String,
    pub small: String,
    pub fallback: FallbackPolicy,
}

impl ImageDirs {
    /// The root directory of a variant.
    pub open spec fn dir_of(&self, v: SizeVariant) -> Seq<char> {
        match v {
            SizeVariant::Original => self.original@,
            SizeVariant::Large => self.large@,
            SizeVariant::Medium => self.medium@,
            SizeVariant::Small => self.small@,
        }
    }

    /// The variant that a request labelled `label` is served from, under the
    /// configured fallback policy.
    pub open spec fn resolved_variant(&self, label: Seq<char>) -> Option<SizeVariant> {
        match parse_label(label) {
            Some(v) => Some(v),
            None => match self.fallback {
                FallbackPolicy::Canonical => Some(SizeVariant::Original),
                FallbackPolicy::Reject => None,
            },
        }
    }

    /// The directory that a request labelled `label` is served from.
    pub open spec fn resolved_dir(&self, label: Seq<char>) -> Option<Seq<char>> {
        match self.resolved_variant(label) {
            Some(v) => Some(self.dir_of(v)),
            None => None,
        }
    }

    /// A configuration whose unknown labels fall back to the canonical variant.
    pub fn new(original: String, large: String, medium: String, small: String) -> (r: ImageDirs)
        ensures
            r.original@ == original@,
            r.large@ == large@,
            r.medium@ == medium@,
            r.small@ == small@,
            r.fallback == FallbackPolicy::Canonical,
    {
        ImageDirs { original, large, medium, small, fallback: FallbackPolicy::Canonical }
    }

    /// The same directories under another fallback policy.
    pub fn with_fallback(self, fallback: FallbackPolicy) -> (r: ImageDirs)
        ensures
            r.original@ == self.original@,
            r.large@ == self.large@,
            r.medium@ == self.medium@,
            r.small@ == self.small@,
            r.fallback == fallback,
    {
        ImageDirs { fallback, ..self }
    }

    /// The root directory of a variant.
    pub fn directory(&self, v: SizeVariant) -> (r: &String)
        ensures
            r@ == self.dir_of(v),
    {
        match v {
            SizeVariant::Original => &self.original,
            SizeVariant::Large => &self.large,
            SizeVariant::Medium => &self.medium,
            SizeVariant::Small => &self.small,
        }
    }

    /// The root of the canonical variant, which the catalog lists.
    pub fn canonical_root(&self) -> (r: &String)
        ensures
            r@ == self.original@,
    {
        &self.original
    }

    /// The variant a request labelled `label` is served from: the named one,
    /// or, for an unknown label, whatever the fallback policy says.
    pub fn resolve_variant(&self, label: &str) -> (r: Option<SizeVariant>)
        ensures
            r == self.resolved_variant(label@),
    {
        match SizeVariant::from_label(label) {
            Some(v) => Some(v),
            None => match self.fallback {
                FallbackPolicy::Canonical => Some(SizeVariant::Original),
                FallbackPolicy::Reject => None,
            },
        }
    }

    /// The directory a request labelled `label` is served from; `None` only
    /// where the policy refuses unknown labels and `label` is one.
    pub fn resolve_variant_directory(&self, label: &str) -> (r: Option<&String>)
        ensures
            match r {
                Some(d) => self.resolved_dir(label@) == Some(d@),
                None => self.resolved_dir(label@) is None,
            },
    {
        match self.resolve_variant(label) {
            Some(v) => Some(self.directory(v)),
            None => None,
        }
    }
}

/// Every known label resolves to the root configured for its own variant,
/// whatever the fallback policy.
pub proof fn lemma_known_label_resolves_to_own_root(dirs: &ImageDirs, v: SizeVariant)
    ensures
        dirs.resolved_dir(v.label_spec()) == Some(dirs.dir_of(v)),
{
    reveal_strlit("original");
    reveal_strlit("large");
    reveal_strlit("medium");
    reveal_strlit("small");
    assert("original"@.len() == 8);
    assert("large"@.len() == 5);
    assert("medium"@.len() == 6);
    assert("small"@.len() == 5);
    assert("large"@[0] != "small"@[0]);
}

/// Under the canonical fallback every unrecognised label resolves to the same
/// directory as `original`; so any two unrecognised labels resolve alike.
pub proof fn lemma_unknown_labels_fall_back_alike(dirs: &ImageDirs, a: Seq<char>, b: Seq<char>)
    requires
        parse_label(a) is None,
        parse_label(b) is None,
        dirs.fallback == FallbackPolicy::Canonical,
    ensures
        dirs.resolved_dir(a) == dirs.resolved_dir("original"@),
        dirs.resolved_dir(a) == dirs.resolved_dir(b),
        dirs.resolved_dir(a) == Some(dirs.original@),
{
}

/// Under the rejecting policy an unrecognised label resolves to no directory.
pub proof fn lemma_unknown_label_rejected(dirs: &ImageDirs, a: Seq<char>)
    requires
        parse_label(a) is None,
        dirs.fallback == FallbackPolicy::Reject,
    ensures
        dirs.resolved_dir(a) is None,
{
}

} // verus!
