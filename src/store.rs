use vstd::prelude::*;
use crate::error::ErrorKind;

verus! {

/// What a document holds at one version.
#[derive(Debug)]
pub struct Content {
    pub category: String,
    pub subcategory: String,
    pub title: String,
    pub text: String,
}

impl Content {
    /// Every field is non-empty.
    pub open spec fn spec_is_complete(&self) -> bool {
        &&& self.category@.len() > 0
        &&& self.subcategory@.len() > 0
        &&& self.title@.len() > 0
        &&& self.text@.len() > 0
    }

    pub fn is_complete(&self) -> (r: bool)
        ensures
            r == self.spec_is_complete(),
    {
        !self.category.as_str().is_empty() && !self.subcategory.as_str().is_empty()
            && !self.title.as_str().is_empty() && !self.text.as_str().is_empty()
    }

    /// A field-by-field copy.
    pub fn duplicate(&self) -> (r: Content)
        ensures
            r == *self,
    {
        Content {
            category: self.category.clone(),
            subcategory: self.subcategory.clone(),
            title: self.title.clone(),
            text: self.text.clone(),
        }
    }
}

/// The link between a local surrogate id and the remote resource.
#[derive(Clone, Copy, Debug, PartialEq, Eq, Structural)]
pub struct Record {
    pub local_id: u64,
    pub remote_id: Option<u64>,
    pub is_active: bool,
}

/// One entry of a record's append-only history.
#[derive(Debug)]
pub struct ContentVersion {
    pub local_id: u64,
    pub content: Content,
    pub created_by: String,
    pub created_at: u64,
}

/// Record `id` exists in `recs` and is active. Local ids start at 1 and
/// record `id` stands at position `id - 1`.
pub open spec fn active_in(recs: Seq<Record>, id: u64) -> bool {
    1 <= id <= recs.len() && recs[id - 1].is_active
}

pub open spec fn exists_in(recs: Seq<Record>, id: u64) -> bool {
    1 <= id <= recs.len()
}

/// The error kind of a failed insert: a unique-constraint violation is
/// `AlreadyExists`, any other failure `StorageError`.
pub fn classify_insert_failure(unique_violation: bool) -> (r: ErrorKind)
    ensures
        unique_violation ==> r == ErrorKind::AlreadyExists,
        !unique_violation ==> r == ErrorKind::StorageError,
{
    if unique_violation {
        ErrorKind::AlreadyExists
    } else {
        ErrorKind::StorageError
    }
}

/// Records keyed by local id, with the history of their content.
pub struct RecordStore {
    records: Vec<Record>,
    versions: Vec<ContentVersion>,
}

impl RecordStore {
    pub closed spec fn records(&self) -> Seq<Record> {
        self.records@
    }

    pub closed spec fn versions(&self) -> Seq<ContentVersion> {
        self.versions@
    }

    pub open spec fn wf(&self) -> bool {
        &&& forall|i: int|
            0 <= i < self.records().len() ==> (#[trigger] self.records()[i]).local_id == i + 1
                && self.records()[i].remote_id is Some
        &&& forall|k: int|
            0 <= k < self.versions().len() ==> exists_in(
                self.records(),
                (#[trigger] self.versions()[k]).local_id,
            )
    }

    pub fn new() -> (s: Self)
        ensures
            s.wf(),
            s.records() == Seq::<Record>::empty(),
            s.versions() == Seq::<ContentVersion>::empty(),
    {
        RecordStore { records: Vec::new(), versions: Vec::new() }
    }

    pub fn record_count(&self) -> (r: usize)
        ensures
            r == self.records().len(),
    {
        self.records.len()
    }

    pub fn version_count(&self) -> (r: usize)
        ensures
            r == self.versions().len(),
    {
        self.versions.len()
    }

    /// The `i`-th version in order of insertion.
    pub fn version(&self, i: usize) -> (r: Option<&ContentVersion>)
        ensures
            i < self.versions().len() ==> r == Some(&self.versions()[i as int]),
            i >= self.versions().len() ==> r is None,
    {
        if i < self.versions.len() {
            Some(&self.versions[i])
        } else {
            None
        }
    }

    /// The record with local id `local_id`, active or not.
    pub fn record(&self, local_id: u64) -> (r: Option<Record>)
        requires
            self.wf(),
        ensures
            exists_in(self.records(), local_id) ==> r == Some(self.records()[local_id - 1]),
            !exists_in(self.records(), local_id) ==> r is None,
    {
        if local_id >= 1 && local_id - 1 < self.records.len() as u64 {
            Some(self.records[(local_id - 1) as usize])
        } else {
            None
        }
    }

    /// The record with local id `local_id` if it is active.
    pub fn find_active(&self, local_id: u64) -> (r: Option<Record>)
        requires
            self.wf(),
        ensures
            active_in(self.records(), local_id) ==> r == Some(self.records()[local_id - 1]),
            !active_in(self.records(), local_id) ==> r is None,
    {
        match self.record(local_id) {
            Some(rec) => if rec.is_active {
                Some(rec)
            } else {
                None
            },
            None => None,
        }
    }

    /// Adds an active record for `remote_id` under the next local id.
    pub fn create(&mut self, remote_id: u64) -> (r: Result<Record, ErrorKind>)
        requires
            old(self).wf(),
        ensures
            final(self).wf(),
            final(self).versions() == old(self).versions(),
            r is Err <==> old(self).records().len() >= u64::MAX,
            r is Err ==> r == Err::<Record, ErrorKind>(ErrorKind::StorageError) && final(self).records()
                == old(self).records(),
            r matches Ok(rec) ==> rec == (Record {
                local_id: (old(self).records().len() + 1) as u64,
                remote_id: Some(remote_id),
                is_active: true,
            }) && final(self).records() == old(self).records().push(rec),
    {
        let n = self.records.len();
        if n as u64 >= u64::MAX {
            return Err(ErrorKind::StorageError);
        }
        let rec = Record { local_id: n as u64 + 1, remote_id: Some(remote_id), is_active: true };
        self.records.push(rec);
        proof {
            assert forall|k: int| 0 <= k < self.versions().len() implies exists_in(
                self.records(),
                (#[trigger] self.versions()[k]).local_id,
            ) by {
                assert(exists_in(old(self).records(), old(self).versions()[k].local_id));
            }
        }
        Ok(rec)
    }

    /// Appends a version of record `local_id`; earlier versions stay as they are.
    pub fn append_content_version(
        &mut self,
        local_id: u64,
        content: Content,
        created_by: String,
        created_at: u64,
    ) -> (r: Result<(), ErrorKind>)
        requires
            old(self).wf(),
        ensures
            final(self).wf(),
            final(self).records() == old(self).records(),
            r is Err <==> !exists_in(old(self).records(), local_id),
            r is Err ==> r == Err::<(), ErrorKind>(ErrorKind::NotFound) && final(self).versions()
                == old(self).versions(),
            r is Ok ==> final(self).versions() == old(self).versions().push(
                ContentVersion { local_id, content, created_by, created_at },
            ),
    {
        if local_id == 0 || local_id - 1 >= self.records.len() as u64 {
            return Err(ErrorKind::NotFound);
        }
        self.versions.push(ContentVersion { local_id, content, created_by, created_at });
        proof {
            assert forall|k: int| 0 <= k < self.versions().len() implies exists_in(
                self.records(),
                (#[trigger] self.versions()[k]).local_id,
            ) by {
                if k < old(self).versions().len() {
                    assert(self.versions()[k] == old(self).versions()[k]);
                }
            }
        }
        Ok(())
    }

    /// Marks record `local_id` inactive; its remote id and history stay.
    pub fn deactivate(&mut self, local_id: u64) -> (r: Result<(), ErrorKind>)
        requires
            old(self).wf(),
        ensures
            final(self).wf(),
            final(self).versions() == old(self).versions(),
            r is Err <==> !exists_in(old(self).records(), local_id),
            r is Err ==> r == Err::<(), ErrorKind>(ErrorKind::NotFound) && final(self).records()
                == old(self).records(),
            r is Ok ==> final(self).records() == old(self).records().update(
                local_id - 1,
                Record { is_active: false, ..old(self).records()[local_id - 1] },
            ),
    {
        if local_id == 0 || local_id - 1 >= self.records.len() as u64 {
            return Err(ErrorKind::NotFound);
        }
        let i = (local_id - 1) as usize;
        let rec = self.records[i];
        self.records.set(i, Record { is_active: false, ..rec });
        proof {
            assert forall|k: int| 0 <= k < self.versions().len() implies exists_in(
                self.records(),
                (#[trigger] self.versions()[k]).local_id,
            ) by {
                assert(exists_in(old(self).records(), old(self).versions()[k].local_id));
            }
        }
        Ok(())
    }
}

} // verus!
