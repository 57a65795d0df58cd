//! What is recorded of the filesystem or disk on a volume.
use crate::ids::Uuid;
use vstd::prelude::*;

verus! {

/// What is on a volume.
pub struct FsInfo {
    /// `ext4`, `xfs`, `gpt`, `mbr`, `iso9660` or `pallet`.
    pub kind: String,
    pub journal: bool,
    pub features: Option<String>,
    pub sixty_four_bit: bool,
    pub metadata_csum: bool,
    pub csum_seed: bool,
    pub label: String,
    pub uuid: Option<Uuid>,
}

/// What is on a volume, in terms of texts as sequences.
#[verifier::ext_equal]
pub struct FsInfoView {
    pub kind: Seq<char>,
    pub journal: bool,
    pub features: Option<Seq<char>>,
    pub sixty_four_bit: bool,
    pub metadata_csum: bool,
    pub csum_seed: bool,
    pub label: Seq<char>,
    pub uuid: Option<Uuid>,
}

/// A text that may be missing.
pub open spec fn opt_text(s: Option<String>) -> Option<Seq<char>> {
    match s {
        Some(s) => Some(s@),
        None => None,
    }
}

impl View for FsInfo {
    type V = FsInfoView;

    open spec fn view(&self) -> FsInfoView {
        FsInfoView {
            kind: self.kind@,
            journal: self.journal,
            features: opt_text(self.features),
            sixty_four_bit: self.sixty_four_bit,
            metadata_csum: self.metadata_csum,
            csum_seed: self.csum_seed,
            label: self.label@,
            uuid: self.uuid,
        }
    }
}

/// What is recorded of a thing that is no filesystem of the engine's own.
pub open spec fn bare(
    kind: Seq<char>,
    features: Option<Seq<char>>,
    label: Seq<char>,
    uuid: Option<Uuid>,
) -> FsInfoView {
    FsInfoView {
        kind,
        journal: false,
        features,
        sixty_four_bit: false,
        metadata_csum: false,
        csum_seed: false,
        label,
        uuid,
    }
}

impl FsInfo {
    /// What is recorded of a thing that is no filesystem of the engine's own.
    pub fn bare(kind: &str, features: Option<String>, label: String, uuid: Option<Uuid>) -> (r: Self)
        ensures
            r@ == bare(kind@, opt_text(features), label@, uuid),
    {
        FsInfo {
            kind: kind.to_owned(),
            journal: false,
            features,
            sixty_four_bit: false,
            metadata_csum: false,
            csum_seed: false,
            label,
            uuid,
        }
    }
}

} // verus!
