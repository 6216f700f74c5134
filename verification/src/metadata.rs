use vstd::prelude::*;

verus! {

/// The immutable part of a project: who owns it.
#[derive(Debug, PartialEq)]
pub struct Project {
    pub owner_id: String,
}

/// What a project says of itself, and how much it has raised.
#[derive(Debug, PartialEq)]
pub struct ProjectMetadata {
    pub title: String,
    pub description: String,
    /// The funding goal.
    pub target: u128,
    /// The smallest pledge that is accepted.
    pub minimum_pledge: u128,
    /// When the project was registered; set by the ledger.
    pub started_at: Option<u64>,
    /// The deadline, if any. It is informational only.
    pub ended_at: Option<u64>,
    /// The running total of accepted pledges; unset counts as zero.
    pub funded: Option<u128>,
    /// URL of associated media.
    pub media: Option<String>,
    /// Hash of the content that `media` refers to.
    pub media_hash: Option<Vec<u8>>,
    /// Anything extra the project wants to keep with it.
    pub extra: Option<String>,
    /// URL of a document with more information.
    pub reference: Option<String>,
    /// Hash of the document that `reference` refers to.
    pub reference_hash: Option<Vec<u8>>,
}

/// A project as queries return it: identity, owner and metadata.
#[derive(Debug, PartialEq)]
pub struct JsonProject {
    pub owner_id: String,
    pub project_id: String,
    pub metadata: ProjectMetadata,
}

/// The mathematical value of a [`ProjectMetadata`].
pub struct ProjectMetadataView {
    pub title: Seq<char>,
    pub description: Seq<char>,
    pub target: u128,
    pub minimum_pledge: u128,
    pub started_at: Option<u64>,
    pub ended_at: Option<u64>,
    pub funded: Option<u128>,
    pub media: Option<Seq<char>>,
    pub media_hash: Option<Seq<u8>>,
    pub extra: Option<Seq<char>>,
    pub reference: Option<Seq<char>>,
    pub reference_hash: Option<Seq<u8>>,
}

/// The mathematical value of a [`JsonProject`].
pub struct JsonProjectView {
    pub owner_id: Seq<char>,
    pub project_id: Seq<char>,
    pub metadata: ProjectMetadataView,
}

/// The characters of an optional string.
pub open spec fn opt_text(s: Option<String>) -> Option<Seq<char>> {
    match s {
        Some(t) => Some(t@),
        None => None,
    }
}

/// The bytes of an optional byte vector.
pub open spec fn opt_bytes(b: Option<Vec<u8>>) -> Option<Seq<u8>> {
    match b {
        Some(v) => Some(v@),
        None => None,
    }
}

impl ProjectMetadataView {
    /// The amount raised so far, an unset total counting as zero.
    pub open spec fn funded_amount(self) -> u128 {
        match self.funded {
            Some(f) => f,
            None => 0,
        }
    }

    /// The same metadata with another registration time.
    pub open spec fn with_started_at(self, started_at: Option<u64>) -> ProjectMetadataView {
        ProjectMetadataView { started_at, ..self }
    }

    /// The same metadata with another funded total.
    pub open spec fn with_funded(self, funded: Option<u128>) -> ProjectMetadataView {
        ProjectMetadataView { funded, ..self }
    }
}

impl View for ProjectMetadata {
    type V = ProjectMetadataView;

    open spec fn view(&self) -> ProjectMetadataView {
        ProjectMetadataView {
            title: self.title@,
            description: self.description@,
            target: self.target,
            minimum_pledge: self.minimum_pledge,
            started_at: self.started_at,
            ended_at: self.ended_at,
            funded: self.funded,
            media: opt_text(self.media),
            media_hash: opt_bytes(self.media_hash),
            extra: opt_text(self.extra),
            reference: opt_text(self.reference),
            reference_hash: opt_bytes(self.reference_hash),
        }
    }
}

impl View for JsonProject {
    type V = JsonProjectView;

    open spec fn view(&self) -> JsonProjectView {
        JsonProjectView {
            owner_id: self.owner_id@,
            project_id: self.project_id@,
            metadata: self.metadata@,
        }
    }
}

/// A copy of an optional string.
pub fn clone_opt_text(s: &Option<String>) -> (r: Option<String>)
    ensures
        opt_text(r) == opt_text(*s),
{
    match s {
        Some(t) => Some(t.clone()),
        None => None,
    }
}

/// A copy of a byte vector.
pub fn clone_bytes(b: &Vec<u8>) -> (r: Vec<u8>)
    ensures
        r@ == b@,
{
    let mut r: Vec<u8> = Vec::new();
    let mut i: usize = 0;
    while i < b.len()
        invariant
            i <= b.len(),
            r@ == b@.subrange(0, i as int),
        decreases b.len() - i,
    {
        r.push(b[i]);
        i += 1;
    }
    r
}

/// A copy of an optional byte vector.
pub fn clone_opt_bytes(b: &Option<Vec<u8>>) -> (r: Option<Vec<u8>>)
    ensures
        opt_bytes(r) == opt_bytes(*b),
{
    match b {
        Some(v) => Some(clone_bytes(v)),
        None => None,
    }
}

impl Clone for ProjectMetadata {
    fn clone(&self) -> (r: Self)
        ensures
            r@ == self@,
    {
        ProjectMetadata {
            title: self.title.clone(),
            description: self.description.clone(),
            target: self.target,
            minimum_pledge: self.minimum_pledge,
            started_at: self.started_at,
            ended_at: self.ended_at,
            funded: self.funded,
            media: clone_opt_text(&self.media),
            media_hash: clone_opt_bytes(&self.media_hash),
            extra: clone_opt_text(&self.extra),
            reference: clone_opt_text(&self.reference),
            reference_hash: clone_opt_bytes(&self.reference_hash),
        }
    }
}

impl Clone for JsonProject {
    fn clone(&self) -> (r: Self)
        ensures
            r@ == self@,
    {
        JsonProject {
            owner_id: self.owner_id.clone(),
            project_id: self.project_id.clone(),
            metadata: self.metadata.clone(),
        }
    }
}

} // verus!
