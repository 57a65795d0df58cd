//! Filesystems on volumes: what the storage layer has to know of them.
pub mod claiming;
pub mod cloning;
pub mod creating;
pub mod disk;
pub mod ext4;
pub mod ext4_free;
pub mod ext4_judgement;
pub mod files;
pub mod info;
pub mod lifecycle;
pub mod promises;
pub mod run_promises;
pub mod sealing;
pub mod survey;
pub mod surveying;
pub mod template;
pub mod volume_promises;
pub mod xfs;
