//! Entities: what they consist of.
use vstd::prelude::*;

use crate::clock::{Moment, Timestamp};
use crate::text::texts;

verus! {

/// One generated entity.
#[derive(Debug, PartialEq, Eq)]
pub struct Entity {
    pub id: u128,
    pub kind: &'static str,
    pub name: String,
    pub owner: Owner,
    pub created_at: Timestamp,
    pub updated_at: Timestamp,
    pub description: String,
    pub readme: String,
    pub tags: Vec<String>,
    pub topics: Vec<String>,
    pub license: License,
    pub files: Vec<FileMeta>,
    pub contributors: Vec<Contributor>,
    pub urls: Vec<String>,
    pub permissions: Permissions,
    pub metadata: Metadata,
    pub extra: Extra,
}

/// Who an entity belongs to.
#[derive(Debug, PartialEq, Eq)]
pub struct Owner {
    pub id: u128,
    pub login: String,
    pub name: String,
    pub followers: u32,
}

/// The license of an entity.
#[derive(Debug, PartialEq, Eq)]
pub struct License {
    pub key: &'static str,
    pub name: &'static str,
    pub spdx_id: &'static str,
}

/// A file of an entity.
#[derive(Debug, PartialEq, Eq)]
pub struct FileMeta {
    pub path: String,
    pub size: u64,
    pub checksum: String,
    pub preview: String,
}

/// A contributor to an entity.
#[derive(Debug, PartialEq, Eq)]
pub struct Contributor {
    pub id: u128,
    pub login: String,
    pub commits: u32,
}

/// What may be done with an entity.
#[derive(Debug, PartialEq, Eq)]
pub struct Permissions {
    pub admin: bool,
    pub maintain: bool,
    pub push: bool,
    pub triage: bool,
    pub pull: bool,
}

/// The counters of an entity.
#[derive(Debug, PartialEq, Eq)]
pub struct Metadata {
    pub stars: u32,
    pub forks: u32,
    pub watchers: u32,
    pub issues_open: u32,
    pub releases: u32,
    pub languages: Vec<String>,
}

/// Further data of an entity.
#[derive(Debug, PartialEq, Eq)]
pub struct Extra {
    pub attributes: Vec<Attribute>,
    pub notes: Vec<String>,
}

/// A key with its value.
#[derive(Debug, PartialEq, Eq)]
pub struct Attribute {
    pub key: String,
    pub value: String,
}

/// What an `Entity` holds.
pub struct EntityView {
    pub id: u128,
    pub kind: Seq<char>,
    pub name: Seq<char>,
    pub owner: OwnerView,
    pub created_at: Moment,
    pub updated_at: Moment,
    pub description: Seq<char>,
    pub readme: Seq<char>,
    pub tags: Seq<Seq<char>>,
    pub topics: Seq<Seq<char>>,
    pub license: LicenseView,
    pub files: Seq<FileMetaView>,
    pub contributors: Seq<ContributorView>,
    pub urls: Seq<Seq<char>>,
    pub permissions: Permissions,
    pub metadata: MetadataView,
    pub extra: ExtraView,
}

impl View for Entity {
    type V = EntityView;

    open spec fn view(&self) -> EntityView {
        EntityView {
            id: self.id,
            kind: self.kind@,
            name: self.name@,
            owner: self.owner@,
            created_at: self.created_at@,
            updated_at: self.updated_at@,
            description: self.description@,
            readme: self.readme@,
            tags: texts(self.tags@),
            topics: texts(self.topics@),
            license: self.license@,
            files: Seq::new(self.files@.len(), |i: int| self.files@[i]@),
            contributors: Seq::new(self.contributors@.len(), |i: int| self.contributors@[i]@),
            urls: texts(self.urls@),
            permissions: self.permissions,
            metadata: self.metadata@,
            extra: self.extra@,
        }
    }
}

/// What an `Owner` holds.
pub struct OwnerView {
    pub id: u128,
    pub login: Seq<char>,
    pub name: Seq<char>,
    pub followers: u32,
}

impl View for Owner {
    type V = OwnerView;

    open spec fn view(&self) -> OwnerView {
        OwnerView {
            id: self.id,
            login: self.login@,
            name: self.name@,
            followers: self.followers,
        }
    }
}

/// What a `License` holds.
pub struct LicenseView {
    pub key: Seq<char>,
    pub name: Seq<char>,
    pub spdx_id: Seq<char>,
}

impl View for License {
    type V = LicenseView;

    open spec fn view(&self) -> LicenseView {
        LicenseView {
            key: self.key@,
            name: self.name@,
            spdx_id: self.spdx_id@,
        }
    }
}

/// What a `FileMeta` holds.
pub struct FileMetaView {
    pub path: Seq<char>,
    pub size: u64,
    pub checksum: Seq<char>,
    pub preview: Seq<char>,
}

impl View for FileMeta {
    type V = FileMetaView;

    open spec fn view(&self) -> FileMetaView {
        FileMetaView {
            path: self.path@,
            size: self.size,
            checksum: self.checksum@,
            preview: self.preview@,
        }
    }
}

/// What a `Contributor` holds.
pub struct ContributorView {
    pub id: u128,
    pub login: Seq<char>,
    pub commits: u32,
}

impl View for Contributor {
    type V = ContributorView;

    open spec fn view(&self) -> ContributorView {
        ContributorView {
            id: self.id,
            login: self.login@,
            commits: self.commits,
        }
    }
}

/// What a `Metadata` holds.
pub struct MetadataView {
    pub stars: u32,
    pub forks: u32,
    pub watchers: u32,
    pub issues_open: u32,
    pub releases: u32,
    pub languages: Seq<Seq<char>>,
}

impl View for Metadata {
    type V = MetadataView;

    open spec fn view(&self) -> MetadataView {
        MetadataView {
            stars: self.stars,
            forks: self.forks,
            watchers: self.watchers,
            issues_open: self.issues_open,
            releases: self.releases,
            languages: texts(self.languages@),
        }
    }
}

/// What an `Extra` holds.
pub struct ExtraView {
    pub attributes: Seq<AttributeView>,
    pub notes: Seq<Seq<char>>,
}

impl View for Extra {
    type V = ExtraView;

    open spec fn view(&self) -> ExtraView {
        ExtraView {
            attributes: Seq::new(self.attributes@.len(), |i: int| self.attributes@[i]@),
            notes: texts(self.notes@),
        }
    }
}

/// What an `Attribute` holds.
pub struct AttributeView {
    pub key: Seq<char>,
    pub value: Seq<char>,
}

impl View for Attribute {
    type V = AttributeView;

    open spec fn view(&self) -> AttributeView {
        AttributeView {
            key: self.key@,
            value: self.value@,
        }
    }
}

} // verus!
