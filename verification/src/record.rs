//! Upload records and the in-memory registry.
//!
//! The registry is the ordered list of accepted uploads, insertion order
//! preserved, duplicates allowed. It only ever grows: one record per
//! successful upload.

use vstd::prelude::*;

verus! {

/// Mathematical model of one upload record.
pub ghost struct RecordModel {
    pub filename: Seq<char>,
    pub user: Seq<char>,
    pub timestamp: Seq<char>,
}

/// One accepted upload: the sanitized filename, the uploader identity (a
/// constant placeholder, there is no authentication), and the RFC 3339
/// timestamp taken when the upload completed.
pub struct UploadRecord {
    pub filename: String,
    pub user: String,
    pub timestamp: String,
}

impl View for UploadRecord {
    type V = RecordModel;

    open spec fn view(&self) -> RecordModel {
        RecordModel {
            filename: self.filename@,
            user: self.user@,
            timestamp: self.timestamp@,
        }
    }
}

impl UploadRecord {
    /// Builds the record for a finished upload. The uploader is always the
    /// placeholder identity.
    pub fn new(filename: String, timestamp: String) -> (r: UploadRecord)
        ensures
            r@.filename == filename@,
            r@.user == "anonymous"@,
            r@.timestamp == timestamp@,
    {
        UploadRecord { filename, user: "anonymous".to_owned(), timestamp }
    }
}

/// The ordered collection of upload records held by the running process.
pub struct Registry {
    records: Vec<UploadRecord>,
}

impl View for Registry {
    type V = Seq<RecordModel>;

    closed spec fn view(&self) -> Seq<RecordModel> {
        self.records@.map_values(|r: UploadRecord| r@)
    }
}

impl Registry {
    /// The empty registry, as at first process start.
    pub fn new() -> (r: Registry)
        ensures
            r@ == Seq::<RecordModel>::empty(),
    {
        let r = Registry { records: Vec::new() };
        proof {
            assert(r@ =~= Seq::<RecordModel>::empty());
        }
        r
    }

    /// Wraps an already-built list of records, preserving its order.
    pub fn from_records(records: Vec<UploadRecord>) -> (r: Registry)
        ensures
            r@ == records@.map_values(|x: UploadRecord| x@),
    {
        Registry { records }
    }

    pub fn len(&self) -> (n: usize)
        ensures
            n == self@.len(),
    {
        self.records.len()
    }

    /// Appends one record at the tail; the registry never shrinks.
    pub fn append(&mut self, record: UploadRecord)
        ensures
            final(self)@ == old(self)@.push(record@),
    {
        let ghost before = self.records@;
        self.records.push(record);
        proof {
            assert(self@ =~= before.map_values(|r: UploadRecord| r@).push(
                self.records@.last()@,
            ));
        }
    }

    pub fn record_at(&self, i: usize) -> (r: &UploadRecord)
        requires
            i < self@.len(),
        ensures
            r@ == self@[i as int],
    {
        &self.records[i]
    }
}

} // verus!
